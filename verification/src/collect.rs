//! The variable-set collector.
//!
//! A repetition iterates every captured variable its sub-template refers to
//! through the interpolation sigil.  The collector scans a sub-template,
//! descending into nested groups and nested repetitions but not into
//! computed blocks (a braced region after the sigil is opaque), and returns
//! the referenced names, duplicate-free, in first-occurrence order.

use vstd::prelude::*;

use crate::token::{
    Tok, Token, lemma_tok_size_pos, lemma_toks_of_index, lemma_toks_of_len, lemma_toks_size_elem,
    tok_size, toks_of, toks_size,
};

verus! {

/// Records a name unless it is already present: first occurrence wins.
pub open spec fn name_insert(acc: Seq<Seq<char>>, name: Seq<char>) -> Seq<Seq<char>> {
    if acc.contains(name) {
        acc
    } else {
        acc.push(name)
    }
}

/// Scans `toks`, accumulating captured names onto `acc`.
pub open spec fn collect_from(toks: Seq<Tok>, acc: Seq<Seq<char>>) -> Seq<Seq<char>>
    decreases toks_size(toks),
    via collect_from_dec
{
    if toks.len() == 0 {
        acc
    } else {
        let t0 = toks[0];
        if (t0 matches Tok::Punct { ch: '#', .. }) && toks.len() >= 2 {
            match toks[1] {
                Tok::Ident { text, .. } => collect_from(toks.skip(2), name_insert(acc, text)),
                Tok::Group { delim, inner, .. } => {
                    if delim is Brace {
                        collect_from(toks.skip(2), acc)
                    } else {
                        collect_from(toks.skip(2), collect_from(inner, acc))
                    }
                },
                _ => collect_from(toks.skip(1), acc),
            }
        } else if t0 matches Tok::Group { .. } {
            collect_from(toks.skip(1), collect_from(t0->Group_inner, acc))
        } else {
            collect_from(toks.skip(1), acc)
        }
    }
}

#[via_fn]
proof fn collect_from_dec(toks: Seq<Tok>, acc: Seq<Seq<char>>) {
    lemma_collect_sizes(toks);
}

/// The size facts every descent of the collector and walker relies on.
pub proof fn lemma_collect_sizes(toks: Seq<Tok>)
    ensures
        toks.len() >= 1 ==> toks_size(toks) == tok_size(toks[0]) + toks_size(toks.skip(1)),
        toks.len() >= 1 ==> tok_size(toks[0]) >= 1,
        toks.len() >= 2 ==> toks_size(toks.skip(1)) == tok_size(toks[1]) + toks_size(toks.skip(2)),
        toks.len() >= 2 ==> tok_size(toks[1]) >= 1,
        toks.len() >= 1 && toks[0] is Group ==> tok_size(toks[0]) == 1 + toks_size(
            toks[0]->Group_inner,
        ),
        toks.len() >= 2 && toks[1] is Group ==> tok_size(toks[1]) == 1 + toks_size(
            toks[1]->Group_inner,
        ),
{
    if toks.len() >= 1 {
        lemma_tok_size_pos(toks[0]);
        assert(toks.drop_first() =~= toks.skip(1));
        assert(toks_size(toks) == tok_size(toks[0]) + toks_size(toks.drop_first()));
    }
    if toks.len() >= 2 {
        lemma_tok_size_pos(toks[1]);
        assert(toks.skip(1).drop_first() =~= toks.skip(2));
        assert(toks.skip(1)[0] == toks[1]);
        assert(toks_size(toks.skip(1)) == tok_size(toks.skip(1)[0]) + toks_size(
            toks.skip(1).drop_first(),
        ));
    }
}

/// The captured names of a sub-template, in first-occurrence order.
pub open spec fn collected_names(toks: Seq<Tok>) -> Seq<Seq<char>> {
    collect_from(toks, Seq::empty())
}

/// Model of a name list.
pub open spec fn names_of(s: Seq<String>) -> Seq<Seq<char>> {
    Seq::new(s.len(), |i: int| s[i]@)
}

/// Whether a name is already among the collected ones.
fn names_contain(names: &Vec<String>, name: &String) -> (r: bool)
    ensures
        r == names_of(names@).contains(name@),
{
    let n: usize = names.len();
    let mut i: usize = 0;
    while i < n
        invariant
            0 <= i <= n,
            n == names@.len(),
            forall|j: int| 0 <= j < i ==> names@[j]@ != name@,
        decreases n - i,
    {
        if names[i].eq(name) {
            proof {
                assert(names_of(names@)[i as int] == name@);
            }
            return true;
        }
        i = i + 1;
    }
    proof {
        assert forall|j: int| 0 <= j < names_of(names@).len() implies names_of(names@)[j] != name@
            by {}
    }
    false
}

/// Appends the captured names of `toks` (scanned from index `start`) onto
/// `acc`, as the model `collect_from` describes.
pub fn collect_into(toks: &Vec<Token>, start: usize, acc: &mut Vec<String>)
    requires
        start <= toks@.len(),
    ensures
        names_of(final(acc)@) == collect_from(
            toks_of(toks@).skip(start as int),
            names_of(old(acc)@),
        ),
    decreases toks_size(toks_of(toks@).skip(start as int)),
{
    broadcast use lemma_toks_of_len, lemma_toks_of_index;

    let ghost full = toks_of(toks@).skip(start as int);
    let n: usize = toks.len();
    let mut i: usize = start;
    proof {
        assert(full.skip(0) =~= full);
    }
    while i < n
        invariant
            start <= i <= n,
            n == toks@.len(),
            full == toks_of(toks@).skip(start as int),
            collect_from(full, names_of(old(acc)@)) == collect_from(
                toks_of(toks@).skip(i as int),
                names_of(acc@),
            ),
        decreases n - i,
    {
        proof {
            broadcast use lemma_toks_of_len, lemma_toks_of_index;

            lemma_collect_sizes(toks_of(toks@).skip(i as int));
            assert(toks_of(toks@).skip(i as int)[0] == crate::token::tok_of(toks@[i as int]));
            assert(toks_of(toks@).skip(i as int).skip(1) =~= toks_of(toks@).skip(i as int + 1));
            if i + 1 < n {
                assert(toks_of(toks@).skip(i as int)[1] == crate::token::tok_of(
                    toks@[i as int + 1],
                ));
                assert(toks_of(toks@).skip(i as int).skip(2) =~= toks_of(toks@).skip(i as int + 2));
            }
        }
        let is_pound: bool = matches!(&toks[i], Token::Punct { ch: '#', .. });
        if is_pound && i + 1 < n {
            match &toks[i + 1] {
                Token::Ident { text, .. } => {
                    if !names_contain(acc, text) {
                        let name: String = text.clone();
                        let ghost pre = acc@;
                        acc.push(name);
                        proof {
                            assert(names_of(acc@) =~= names_of(pre).push(text@));
                        }
                    }
                    i = i + 2;
                },
                Token::Group { delim, inner, .. } => {
                    if matches!(delim, crate::token::Delim::Brace) {
                        i = i + 2;
                    } else {
                        proof {
                            lemma_toks_size_elem(
                                toks_of(toks@).skip(start as int),
                                i as int + 1 - start,
                            );
                            assert(toks_of(toks@).skip(start as int)[i as int + 1 - start]
                                == toks_of(toks@)[i as int + 1]);
                            assert(toks_of(inner@).skip(0) =~= toks_of(inner@));
                        }
                        collect_into(inner, 0, acc);
                        i = i + 2;
                    }
                },
                _ => {
                    i = i + 1;
                },
            }
        } else {
            match &toks[i] {
                Token::Group { inner, .. } => {
                    proof {
                        lemma_toks_size_elem(
                            toks_of(toks@).skip(start as int),
                            i as int - start,
                        );
                        assert(toks_of(toks@).skip(start as int)[i as int - start] == toks_of(
                            toks@,
                        )[i as int]);
                        assert(toks_of(inner@).skip(0) =~= toks_of(inner@));
                    }
                    collect_into(inner, 0, acc);
                    i = i + 1;
                },
                _ => {
                    i = i + 1;
                },
            }
        }
    }
    proof {
        assert(toks_of(toks@).skip(n as int) =~= Seq::<Tok>::empty());
    }
}


/// The captured names of a sub-template.
pub fn collect_vars(toks: &Vec<Token>) -> (r: Vec<String>)
    ensures
        names_of(r@) == collected_names(toks_of(toks@)),
{
    let mut acc: Vec<String> = Vec::new();
    proof {
        assert(names_of(acc@) =~= Seq::<Seq<char>>::empty());
        assert(toks_of(toks@).skip(0) =~= toks_of(toks@));
    }
    collect_into(toks, 0, &mut acc);
    acc
}

} // verus!
