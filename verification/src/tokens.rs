//! The accumulator: an ordered, append-only sequence of tokens owned by the
//! expansion that is writing to it.

use vstd::prelude::*;

use crate::display::{display_of, push_display};
use crate::text::chars_to_string;
use crate::token::{
    Tok, Token, clone_tokens, lemma_toks_of_index, lemma_toks_of_len, toks_of,
};

verus! {

/// Tokens produced by an expansion.
#[derive(Debug)]
pub struct Tokens {
    tts: Vec<Token>,
}

impl View for Tokens {
    type V = Seq<Tok>;

    closed spec fn view(&self) -> Seq<Tok> {
        toks_of(self.tts@)
    }
}

impl Tokens {
    /// Empty tokens.
    pub fn new() -> (r: Tokens)
        ensures
            r@ == Seq::<Tok>::empty(),
    {
        let r = Tokens { tts: Vec::new() };
        proof {
            assert(r@ =~= Seq::<Tok>::empty());
        }
        r
    }

    /// Wraps an existing token vector.
    pub fn from_vec(tts: Vec<Token>) -> (r: Tokens)
        ensures
            r@ == toks_of(tts@),
    {
        Tokens { tts }
    }

    /// Appends one token.
    pub fn append(&mut self, token: Token)
        ensures
            final(self)@ == old(self)@ + seq![token@],
    {
        proof {
            broadcast use lemma_toks_of_len, lemma_toks_of_index;

        }
        self.tts.push(token);
        proof {
            assert(self@ =~= old(self)@ + seq![self.tts@.last()@]);
        }
    }

    /// Appends every token of `other`, in order.
    pub fn append_tokens(&mut self, other: &Tokens)
        ensures
            final(self)@ == old(self)@ + other@,
    {
        proof {
            broadcast use lemma_toks_of_len, lemma_toks_of_index;

        }
        let mut extra: Vec<Token> = clone_tokens(&other.tts);
        self.tts.append(&mut extra);
        proof {
            assert(self@ =~= old(self)@ + other@);
        }
    }

    /// Number of top-level tokens.
    pub fn len(&self) -> (n: usize)
        ensures
            n == self@.len(),
    {
        proof {
            broadcast use lemma_toks_of_len;

        }
        self.tts.len()
    }

    /// Read access to the underlying token vector.
    pub fn tokens(&self) -> (r: &Vec<Token>)
        ensures
            toks_of(r@) == self@,
    {
        &self.tts
    }

    /// Gives up the underlying token vector.
    pub fn into_vec(self) -> (r: Vec<Token>)
        ensures
            toks_of(r@) == self@,
    {
        self.tts
    }

    /// The canonical text rendering of these tokens: token texts joined by
    /// single spaces, except that nothing follows a jointly-spaced
    /// punctuation character.
    pub fn to_string(&self) -> (r: String)
        ensures
            r@ == display_of(self@),
    {
        let mut out: Vec<char> = Vec::new();
        push_display(&self.tts, &mut out);
        chars_to_string(&out)
    }
}

impl Clone for Tokens {
    fn clone(&self) -> (r: Tokens)
        ensures
            r@ == self@,
    {
        Tokens { tts: clone_tokens(&self.tts) }
    }
}

} // verus!
