//! The separator classifier.
//!
//! After a repetition's parenthesised body, the token stream must encode
//! either a bare repetition marker (an alone-spaced `*`) or separator
//! tokens followed by that marker.  The classifier scans forward,
//! accumulating candidate separator tokens: an alone-spaced `*` ends the
//! scan successfully; a second alone-spaced punctuation character, any
//! non-punctuation token after an alone boundary, or running out of tokens
//! classifies the accumulated run as ordinary trailing content instead, to
//! be restored for re-scanning by the caller.

use vstd::prelude::*;

use crate::token::{
    Spacing, Tok, Token, lemma_toks_of_index, lemma_toks_of_len, lemma_toks_of_push, toks_of,
};

verus! {

/// Outcome of classification, as a model.  `used` counts the tokens the
/// scan consumed from its input.
pub enum SepScan {
    Valid { sep: Seq<Tok>, used: int },
    Invalid { undo: Seq<Tok>, used: int },
}

/// One scanning state: position `i`, tokens accumulated so far, and whether
/// an alone boundary has been seen.
pub open spec fn classify_from(toks: Seq<Tok>, i: int, sep: Seq<Tok>, seen_alone: bool) -> SepScan
    recommends
        0 <= i <= toks.len(),
    decreases toks.len() - i,
{
    if i < 0 || i >= toks.len() {
        SepScan::Invalid { undo: sep, used: i }
    } else {
        let t = toks[i];
        match t {
            Tok::Punct { ch, spacing, .. } => {
                let alone = spacing is Alone;
                if ch == '*' && alone {
                    SepScan::Valid { sep, used: i + 1 }
                } else if seen_alone && alone {
                    SepScan::Invalid { undo: sep.push(t), used: i + 1 }
                } else {
                    classify_from(toks, i + 1, sep.push(t), seen_alone || alone)
                }
            },
            _ => {
                if seen_alone {
                    SepScan::Invalid { undo: sep.push(t), used: i + 1 }
                } else {
                    classify_from(toks, i + 1, sep.push(t), true)
                }
            },
        }
    }
}

/// Classification of the tokens after a repetition body.
pub open spec fn classify(toks: Seq<Tok>) -> SepScan {
    classify_from(toks, 0, Seq::empty(), false)
}

/// Shape of a classification outcome: the scan consumes a prefix of its
/// input, returns exactly the consumed tokens on failure, and on success
/// returns the consumed tokens short of the terminating marker.
pub proof fn lemma_classify_from_shape(toks: Seq<Tok>, i: int, sep: Seq<Tok>, seen_alone: bool)
    requires
        0 <= i <= toks.len(),
    ensures
        match classify_from(toks, i, sep, seen_alone) {
            SepScan::Valid { sep: s, used } => i + 1 <= used <= toks.len() && s == sep
                + toks.subrange(i, used - 1),
            SepScan::Invalid { undo, used } => i <= used <= toks.len() && (used == toks.len() || i
                + 1 <= used) && undo == sep + toks.subrange(i, used),
        },
    decreases toks.len() - i,
{
    if i >= toks.len() {
        assert(toks.subrange(i, i) =~= Seq::<Tok>::empty());
        assert(sep + toks.subrange(i, i) =~= sep);
    } else {
        let t = toks[i];
        assert(toks.subrange(i, i + 1) =~= seq![t]);
        assert(sep + toks.subrange(i, i + 1) =~= sep.push(t));
        assert(toks.subrange(i, i) =~= Seq::<Tok>::empty());
        assert(sep + toks.subrange(i, i) =~= sep);
        match t {
            Tok::Punct { ch, spacing, .. } => {
                let alone = spacing is Alone;
                if ch == '*' && alone {
                } else if seen_alone && alone {
                } else {
                    lemma_classify_from_shape(toks, i + 1, sep.push(t), seen_alone || alone);
                    lemma_classify_prefix_extend(toks, i, sep, t);
                }
            },
            _ => {
                if seen_alone {
                } else {
                    lemma_classify_from_shape(toks, i + 1, sep.push(t), true);
                    lemma_classify_prefix_extend(toks, i, sep, t);
                }
            },
        }
    }
}

/// Splicing one more scanned token into the accumulated prefix.
proof fn lemma_classify_prefix_extend(toks: Seq<Tok>, i: int, sep: Seq<Tok>, t: Tok)
    requires
        0 <= i < toks.len(),
        t == toks[i],
    ensures
        forall|j: int|
            i + 1 <= j <= toks.len() ==> sep.push(t) + toks.subrange(i + 1, j) =~= sep
                + toks.subrange(i, j),
{
    assert forall|j: int| i + 1 <= j <= toks.len() implies sep.push(t) + toks.subrange(i + 1, j)
        =~= sep + toks.subrange(i, j) by {
        assert(toks.subrange(i, j) =~= seq![t] + toks.subrange(i + 1, j));
    }
}

/// The classifier is a pure function of the token run: re-running it on a
/// rejected run reproduces the same rejection, with the same tokens.
pub proof fn lemma_classify_rerun(toks: Seq<Tok>, i: int, sep: Seq<Tok>, seen_alone: bool, p: int)
    requires
        0 <= i <= p <= toks.len(),
        classify_from(toks, i, sep, seen_alone) matches SepScan::Invalid { used, .. } && used <= p,
    ensures
        classify_from(toks.subrange(0, p), i, sep, seen_alone) == classify_from(
            toks,
            i,
            sep,
            seen_alone,
        ),
    decreases toks.len() - i,
{
    let pre = toks.subrange(0, p);
    if i >= toks.len() {
        assert(i == toks.len() && p == toks.len());
        assert(pre =~= toks);
    } else if i >= p {
        // A scan still running at `i` has consumed at least `i + 1` tokens
        // or the whole input, yet the outcome used at most `p <= i`: this
        // state cannot be reached.
        lemma_classify_from_shape(toks, i, sep, seen_alone);
        assert(false);
    } else {
        assert(pre[i] == toks[i]);
        let t = toks[i];
        match t {
            Tok::Punct { ch, spacing, .. } => {
                let alone = spacing is Alone;
                if ch == '*' && alone {
                } else if seen_alone && alone {
                } else {
                    lemma_classify_rerun(toks, i + 1, sep.push(t), seen_alone || alone, p);
                }
            },
            _ => {
                if seen_alone {
                } else {
                    lemma_classify_rerun(toks, i + 1, sep.push(t), true, p);
                }
            },
        }
    }
}

/// Classification has no hidden state: re-running the classifier on the
/// very token run it rejected yields the same rejection, with the same
/// tokens returned as ordinary content.
pub proof fn lemma_classify_idempotent(toks: Seq<Tok>)
    requires
        classify(toks) is Invalid,
    ensures
        classify(classify(toks)->Invalid_undo) == classify(toks),
{
    let undo = classify(toks)->Invalid_undo;
    let used = classify(toks)->Invalid_used;
    lemma_classify_from_shape(toks, 0, Seq::empty(), false);
    assert(undo =~= toks.subrange(0, used));
    lemma_classify_rerun(toks, 0, Seq::empty(), false, used);
}

/// Outcome of the executable classifier.
#[derive(Debug)]
pub enum ScanOutcome {
    Valid { sep: Vec<Token>, used: usize },
    Invalid { undo: Vec<Token>, used: usize },
}

/// Scans the tokens of `toks` from `start` for a separator run and
/// repetition marker, as the model `classify` describes on the remaining
/// sequence.
pub fn classify_separator(toks: &Vec<Token>, start: usize) -> (r: ScanOutcome)
    requires
        start <= toks@.len(),
    ensures
        match r {
            ScanOutcome::Valid { sep, used } => classify(toks_of(toks@).skip(start as int))
                == (SepScan::Valid { sep: toks_of(sep@), used: used as int }),
            ScanOutcome::Invalid { undo, used } => classify(toks_of(toks@).skip(start as int))
                == (SepScan::Invalid { undo: toks_of(undo@), used: used as int }),
        },
{
    broadcast use lemma_toks_of_len, lemma_toks_of_index;

    let ghost target = toks_of(toks@).skip(start as int);
    let n: usize = toks.len();
    let mut sep: Vec<Token> = Vec::new();
    let mut seen_alone: bool = false;
    let mut i: usize = start;
    proof {
        assert(toks_of(sep@) =~= Seq::<Tok>::empty());
    }
    while i < n
        invariant
            start <= i <= n,
            n == toks@.len(),
            target == toks_of(toks@).skip(start as int),
            classify(target) == classify_from(
                target,
                i - start,
                toks_of(sep@),
                seen_alone,
            ),
        decreases n - i,
    {
        proof {
            broadcast use lemma_toks_of_len, lemma_toks_of_index;

            assert(target[i - start] == toks_of(toks@)[i as int]);
        }
        let joint: bool = match &toks[i] {
            Token::Punct { spacing: Spacing::Joint, .. } => true,
            _ => false,
        };
        let is_star: bool = match &toks[i] {
            Token::Punct { ch, .. } => *ch == '*',
            _ => false,
        };
        let is_punct: bool = match &toks[i] {
            Token::Punct { .. } => true,
            _ => false,
        };
        if is_punct {
            let alone: bool = !joint;
            if is_star && alone {
                return ScanOutcome::Valid { sep, used: i + 1 - start };
            }
            let ghost pre_sep = sep@;
            let t: Token = toks[i].clone();
            sep.push(t);
            proof {
                lemma_toks_of_push(pre_sep, t);
                assert(toks_of(sep@) == toks_of(pre_sep).push(target[i - start]));
            }
            if seen_alone && alone {
                return ScanOutcome::Invalid { undo: sep, used: i + 1 - start };
            }
            seen_alone = seen_alone || alone;
        } else {
            let ghost pre_sep = sep@;
            let t: Token = toks[i].clone();
            sep.push(t);
            proof {
                lemma_toks_of_push(pre_sep, t);
                assert(toks_of(sep@) == toks_of(pre_sep).push(target[i - start]));
            }
            if seen_alone {
                return ScanOutcome::Invalid { undo: sep, used: i + 1 - start };
            }
            seen_alone = true;
        }
        i = i + 1;
    }
    ScanOutcome::Invalid { undo: sep, used: n - start }
}

} // verus!
