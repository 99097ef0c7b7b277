//! The token model: the lossless lexical representation that templates and
//! expansion results are made of.
//!
//! A token is an identifier, a punctuation character with spacing, a literal
//! carried as raw text, or a delimited group of nested tokens.  Every token
//! carries an opaque position tag used for provenance.

use vstd::prelude::*;

verus! {

/// Spacing of a punctuation token: `Joint` when it is glued to the next
/// punctuation character (as in the first colon of `::`), `Alone` otherwise.
#[derive(Clone, Copy, Debug, PartialEq, Eq, Structural)]
pub enum Spacing {
    Joint,
    Alone,
}

/// Delimiter kind of a group.  `Bare` is the invisible delimiter: a group
/// that carries no brackets of its own.
#[derive(Clone, Copy, Debug, PartialEq, Eq, Structural)]
pub enum Delim {
    Paren,
    Bracket,
    Brace,
    Bare,
}

/// The position tag given to tokens that are not stamped with an explicit
/// one: the fixed "here" tag.
pub const POS_HERE: u32 = 0;

/// Mathematical model of a token.
pub enum Tok {
    Ident { text: Seq<char>, pos: u32 },
    Punct { ch: char, spacing: Spacing, pos: u32 },
    Lit { text: Seq<char>, pos: u32 },
    Group { delim: Delim, inner: Seq<Tok>, pos: u32 },
}

/// A lexical token.  Groups own their nested tokens.
#[derive(Debug)]
pub enum Token {
    Ident { text: String, pos: u32 },
    Punct { ch: char, spacing: Spacing, pos: u32 },
    Lit { text: String, pos: u32 },
    Group { delim: Delim, inner: Vec<Token>, pos: u32 },
}

/// Model of a single token.
pub open spec fn tok_of(t: Token) -> Tok
    decreases t,
    via tok_of_dec
{
    match t {
        Token::Ident { text, pos } => Tok::Ident { text: text@, pos },
        Token::Punct { ch, spacing, pos } => Tok::Punct { ch, spacing, pos },
        Token::Lit { text, pos } => Tok::Lit { text: text@, pos },
        Token::Group { delim, inner, pos } => Tok::Group { delim, inner: toks_of(inner@), pos },
    }
}

/// Model of a token sequence.
pub open spec fn toks_of(s: Seq<Token>) -> Seq<Tok>
    decreases s,
    via toks_of_dec
{
    if s.len() == 0 {
        Seq::empty()
    } else {
        seq![tok_of(s[0])] + toks_of(s.drop_first())
    }
}

#[via_fn]
proof fn tok_of_dec(t: Token) {
    if t is Group {
        assert(decreases_to!(t => t->Group_inner));
        assert(decreases_to!(t->Group_inner => t->Group_inner@));
    }
}

#[via_fn]
proof fn toks_of_dec(s: Seq<Token>) {
    if s.len() > 0 {
        assert(decreases_to!(s => s[0]));
        assert(s.drop_first() == s.subrange(1, s.len() as int));
        assert(decreases_to!(s => s.subrange(1, s.len() as int)));
    }
}

impl View for Token {
    type V = Tok;

    open spec fn view(&self) -> Tok {
        tok_of(*self)
    }
}

pub broadcast proof fn lemma_toks_of_len(s: Seq<Token>)
    ensures
        (#[trigger] toks_of(s)).len() == s.len(),
    decreases s,
{
    if s.len() > 0 {
        lemma_toks_of_len(s.drop_first());
    }
}

pub broadcast proof fn lemma_toks_of_index(s: Seq<Token>, i: int)
    requires
        0 <= i < s.len(),
    ensures
        #[trigger] toks_of(s)[i] == tok_of(s[i]),
    decreases s,
{
    broadcast use lemma_toks_of_len;

    if i > 0 {
        lemma_toks_of_index(s.drop_first(), i - 1);
    }
}

/// Structural size of a token: one for the token itself plus the sizes of a
/// group's nested tokens.  Used as the termination measure of everything
/// that walks token sequences.
pub open spec fn tok_size(t: Tok) -> nat
    decreases t,
{
    match t {
        Tok::Group { inner, .. } => 1 + toks_size(inner),
        _ => 1,
    }
}

pub open spec fn toks_size(s: Seq<Tok>) -> nat
    decreases s,
{
    if s.len() == 0 {
        0
    } else {
        tok_size(s[0]) + toks_size(s.drop_first())
    }
}

pub proof fn lemma_tok_size_pos(t: Tok)
    ensures
        tok_size(t) >= 1,
{
}

pub proof fn lemma_toks_size_concat(a: Seq<Tok>, b: Seq<Tok>)
    ensures
        toks_size(a + b) == toks_size(a) + toks_size(b),
    decreases a.len(),
{
    if a.len() == 0 {
        assert(a + b =~= b);
    } else {
        assert((a + b).drop_first() =~= a.drop_first() + b);
        lemma_toks_size_concat(a.drop_first(), b);
    }
}

/// The size of a sequence splits at any index.
pub proof fn lemma_toks_size_split(s: Seq<Tok>, i: int)
    requires
        0 <= i <= s.len(),
    ensures
        toks_size(s) == toks_size(s.subrange(0, i)) + toks_size(s.skip(i)),
{
    assert(s =~= s.subrange(0, i) + s.skip(i));
    lemma_toks_size_concat(s.subrange(0, i), s.skip(i));
}

pub proof fn lemma_toks_size_skip(s: Seq<Tok>, i: int)
    requires
        0 <= i <= s.len(),
    ensures
        toks_size(s.skip(i)) <= toks_size(s),
        toks_size(s.skip(i)) >= s.len() - i,
    decreases s.len(),
{
    lemma_toks_size_len(s);
    if i > 0 && s.len() > 0 {
        assert(s.skip(i) =~= s.drop_first().skip(i - 1));
        lemma_toks_size_skip(s.drop_first(), i - 1);
    } else {
        assert(s.skip(0) =~= s);
    }
}

pub proof fn lemma_toks_size_len(s: Seq<Tok>)
    ensures
        toks_size(s) >= s.len(),
    decreases s.len(),
{
    if s.len() > 0 {
        lemma_tok_size_pos(s[0]);
        lemma_toks_size_len(s.drop_first());
    }
}

/// Each element contributes its size.
pub proof fn lemma_toks_size_elem(s: Seq<Tok>, i: int)
    requires
        0 <= i < s.len(),
    ensures
        tok_size(s[i]) <= toks_size(s),
    decreases s.len(),
{
    if i > 0 {
        lemma_toks_size_elem(s.drop_first(), i - 1);
    }
}

pub proof fn lemma_toks_of_push(s: Seq<Token>, t: Token)
    ensures
        toks_of(s.push(t)) == toks_of(s).push(tok_of(t)),
{
    broadcast use lemma_toks_of_len, lemma_toks_of_index;

    assert(toks_of(s.push(t)) =~= toks_of(s).push(tok_of(t)));
}

impl Clone for Token {
    fn clone(&self) -> (r: Token)
        ensures
            r@ == self@,
        decreases tok_size(self@), 0nat,
    {
        match self {
            Token::Ident { text, pos } => Token::Ident { text: text.clone(), pos: *pos },
            Token::Punct { ch, spacing, pos } => Token::Punct {
                ch: *ch,
                spacing: *spacing,
                pos: *pos,
            },
            Token::Lit { text, pos } => Token::Lit { text: text.clone(), pos: *pos },
            Token::Group { delim, inner, pos } => {
                let cloned: Vec<Token> = clone_tokens(inner);
                Token::Group { delim: *delim, inner: cloned, pos: *pos }
            },
        }
    }
}

/// Clones a token vector; the model of the result equals the model of the
/// argument.
pub fn clone_tokens(ts: &Vec<Token>) -> (r: Vec<Token>)
    ensures
        toks_of(r@) == toks_of(ts@),
    decreases toks_size(toks_of(ts@)), 1nat,
{
    broadcast use lemma_toks_of_len, lemma_toks_of_index;

    let mut r: Vec<Token> = Vec::new();
    let mut i: usize = 0;
    while i < ts.len()
        invariant
            0 <= i <= ts.len(),
            r@.len() == i,
            forall|j: int| 0 <= j < i ==> r@[j]@ == ts@[j]@,
        decreases ts.len() - i,
    {
        proof {
            broadcast use lemma_toks_of_len, lemma_toks_of_index;

            lemma_toks_size_elem(toks_of(ts@), i as int);
            assert(tok_size(ts@[i as int]@) <= toks_size(toks_of(ts@)));
        }
        let t: Token = ts[i].clone();
        r.push(t);
        i = i + 1;
    }
    proof {
        assert(toks_of(r@) =~= toks_of(ts@));
    }
    r
}

} // verus!
