//! The canonical text rendering of token sequences.
//!
//! Tokens are printed in order, joined by single spaces, except that no
//! space follows a jointly-spaced punctuation character, so multi-character
//! operators render as one word.  Groups print their delimiters with one
//! space inside each; a bare group prints only its contents.

use vstd::prelude::*;

use crate::token::{
    Delim, Spacing, Tok, Token, lemma_toks_of_index, lemma_toks_of_len, lemma_toks_size_elem,
    tok_size, toks_of, toks_size,
};

verus! {

/// Opening character of a bracketed delimiter.
pub open spec fn open_char(d: Delim) -> char {
    match d {
        Delim::Paren => '(',
        Delim::Bracket => '[',
        Delim::Brace => '{',
        Delim::Bare => ' ',
    }
}

/// Closing character of a bracketed delimiter.
pub open spec fn close_char(d: Delim) -> char {
    match d {
        Delim::Paren => ')',
        Delim::Bracket => ']',
        Delim::Brace => '}',
        Delim::Bare => ' ',
    }
}

/// Whether a space separates this token from the one after it.
pub open spec fn spaced_after(t: Tok) -> bool {
    !(t matches Tok::Punct { spacing: Spacing::Joint, .. })
}

/// The text of one token.
pub open spec fn tok_text(t: Tok) -> Seq<char>
    decreases t,
{
    match t {
        Tok::Ident { text, .. } => text,
        Tok::Punct { ch, .. } => seq![ch],
        Tok::Lit { text, .. } => text,
        Tok::Group { delim, inner, .. } => {
            if delim is Bare {
                display_of(inner)
            } else if inner.len() == 0 {
                seq![open_char(delim), ' ', close_char(delim)]
            } else {
                seq![open_char(delim), ' '] + display_of(inner) + seq![' ', close_char(delim)]
            }
        },
    }
}

/// The text of a token sequence.
pub open spec fn display_of(toks: Seq<Tok>) -> Seq<char>
    decreases toks,
{
    if toks.len() == 0 {
        Seq::empty()
    } else if toks.len() == 1 {
        tok_text(toks[0])
    } else if spaced_after(toks[0]) {
        tok_text(toks[0]) + seq![' '] + display_of(toks.drop_first())
    } else {
        tok_text(toks[0]) + display_of(toks.drop_first())
    }
}

/// Appends the text of `s@` to `out`.
pub fn push_str_chars(s: &String, out: &mut Vec<char>)
    ensures
        final(out)@ == old(out)@ + s@,
{
    let n: usize = s.as_str().unicode_len();
    let mut i: usize = 0;
    while i < n
        invariant
            0 <= i <= n,
            n == s@.len(),
            out@ == old(out)@ + s@.subrange(0, i as int),
        decreases n - i,
    {
        let c: char = s.as_str().get_char(i);
        out.push(c);
        proof {
            assert(old(out)@ + s@.subrange(0, i as int + 1) =~= (old(out)@ + s@.subrange(
                0,
                i as int,
            )).push(s@[i as int]));
        }
        i = i + 1;
    }
    proof {
        assert(s@.subrange(0, s@.len() as int) =~= s@);
    }
}

/// Appends the text of one token to `out`.
pub fn push_tok_text(t: &Token, out: &mut Vec<char>)
    ensures
        final(out)@ == old(out)@ + tok_text(t@),
    decreases tok_size(t@), 0nat,
{
    match t {
        Token::Ident { text, .. } => push_str_chars(text, out),
        Token::Punct { ch, .. } => out.push(*ch),
        Token::Lit { text, .. } => push_str_chars(text, out),
        Token::Group { delim, inner, .. } => {
            if matches!(delim, Delim::Bare) {
                push_display(inner, out);
            } else {
                let open: char = match delim {
                    Delim::Paren => '(',
                    Delim::Bracket => '[',
                    _ => '{',
                };
                let close: char = match delim {
                    Delim::Paren => ')',
                    Delim::Bracket => ']',
                    _ => '}',
                };
                out.push(open);
                out.push(' ');
                if inner.len() == 0 {
                    out.push(close);
                } else {
                    push_display(inner, out);
                    out.push(' ');
                    out.push(close);
                }
                proof {
                    if toks_of(inner@).len() == 0 {
                        assert(out@ =~= old(out)@ + tok_text(t@));
                    } else {
                        assert(out@ =~= old(out)@ + tok_text(t@));
                    }
                }
            }
        },
    }
}

/// Appends the text of a token sequence to `out`.
pub fn push_display(ts: &Vec<Token>, out: &mut Vec<char>)
    ensures
        final(out)@ == old(out)@ + display_of(toks_of(ts@)),
    decreases toks_size(toks_of(ts@)), 1nat,
{
    broadcast use lemma_toks_of_len, lemma_toks_of_index;

    let n: usize = ts.len();
    let mut i: usize = 0;
    proof {
        assert(toks_of(ts@).skip(0) =~= toks_of(ts@));
    }
    while i < n
        invariant
            0 <= i <= n,
            n == ts@.len(),
            old(out)@ + display_of(toks_of(ts@)) == out@ + display_of(toks_of(ts@).skip(i as int)),
        decreases n - i,
    {
        proof {
            broadcast use lemma_toks_of_len, lemma_toks_of_index;

            lemma_toks_size_elem(toks_of(ts@), i as int);
        }
        let ghost rem = toks_of(ts@).skip(i as int);
        push_tok_text(&ts[i], out);
        if i + 1 < n {
            proof {
                assert(rem.len() >= 2);
                assert(rem[0] == toks_of(ts@)[i as int]);
                assert(rem.drop_first() =~= toks_of(ts@).skip(i as int + 1));
            }
            if is_joint_punct(&ts[i]) {
            } else {
                out.push(' ');
            }
            proof {
                assert(old(out)@ + display_of(toks_of(ts@)) == out@ + display_of(
                    toks_of(ts@).skip(i as int + 1),
                ));
            }
        } else {
            proof {
                assert(rem.len() == 1);
                assert(display_of(rem) == tok_text(rem[0]));
                assert(toks_of(ts@).skip(i as int + 1) =~= Seq::<Tok>::empty());
                assert(old(out)@ + display_of(toks_of(ts@)) == out@ + display_of(
                    toks_of(ts@).skip(i as int + 1),
                ));
            }
        }
        i = i + 1;
    }
    proof {
        assert(toks_of(ts@).skip(n as int) =~= Seq::<Tok>::empty());
        assert(out@ =~= old(out)@ + display_of(toks_of(ts@)));
    }
}

/// Whether a token is a jointly-spaced punctuation character.
fn is_joint_punct(t: &Token) -> (r: bool)
    ensures
        r == !spaced_after(t@),
{
    match t {
        Token::Punct { spacing: Spacing::Joint, .. } => true,
        _ => false,
    }
}

} // verus!
