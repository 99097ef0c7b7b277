//! The template walker.
//!
//! The walker consumes a flat token sequence and produces the operation
//! list that expansion executes.  Plain tokens become direct appends; a
//! sigil followed by a name becomes a single-value splice; a sigil
//! followed by a parenthesised group whose trailing tokens classify as a
//! separator and repetition marker becomes a repetition over the captured
//! names; a sigil followed by a braced group becomes a computed splice; a
//! failed separator classification falls back to a literal sigil with the
//! consumed tokens restored for re-scanning; delimited groups recurse; raw
//! identifiers take a specialised append operation.

use vstd::prelude::*;

use crate::classify::{
    ScanOutcome, SepScan, classify, classify_separator, lemma_classify_from_shape,
};
use crate::collect::{collect_vars, collected_names, lemma_collect_sizes, names_of};
use crate::token::{
    Delim, Tok, Token, clone_tokens, lemma_toks_of_index, lemma_toks_of_len, lemma_toks_size_concat,
    lemma_toks_size_skip, lemma_toks_size_split, tok_size, toks_of, toks_size,
};
use vstd::string::StrSliceExecFns;

verus! {

/// Model of one expansion operation.
pub enum OpM {
    /// Append this template token, re-tagged with the active position.
    Emit(Tok),
    /// Append a raw identifier (its text keeps the marker).
    RawIdent { text: Seq<char>, pos: u32 },
    /// Render the value bound to this name into the accumulator.
    Splice { name: Seq<char> },
    /// Render the next host-evaluated computed value; the expression
    /// tokens are carried for reference only.
    Computed { expr: Seq<Tok> },
    /// Build a group of this delimiter kind around a nested expansion.
    Grouped { delim: Delim, body: Seq<OpM> },
    /// Iterate the named captured sequences in lockstep, placing the
    /// separator's operations between iterations.
    Repeat { body: Seq<OpM>, names: Seq<Seq<char>>, sep: Seq<OpM> },
}

/// One expansion operation.
#[derive(Debug)]
pub enum Op {
    Emit(Token),
    RawIdent { text: String, pos: u32 },
    Splice { name: String },
    Computed { expr: Vec<Token> },
    Grouped { delim: Delim, body: Vec<Op> },
    Repeat { body: Vec<Op>, names: Vec<String>, sep: Vec<Op> },
}

pub open spec fn op_of(o: Op) -> OpM
    decreases o,
    via op_of_dec
{
    match o {
        Op::Emit(t) => OpM::Emit(t@),
        Op::RawIdent { text, pos } => OpM::RawIdent { text: text@, pos },
        Op::Splice { name } => OpM::Splice { name: name@ },
        Op::Computed { expr } => OpM::Computed { expr: toks_of(expr@) },
        Op::Grouped { delim, body } => OpM::Grouped { delim, body: ops_of(body@) },
        Op::Repeat { body, names, sep } => OpM::Repeat {
            body: ops_of(body@),
            names: names_of(names@),
            sep: ops_of(sep@),
        },
    }
}

pub open spec fn ops_of(s: Seq<Op>) -> Seq<OpM>
    decreases s,
    via ops_of_dec
{
    if s.len() == 0 {
        Seq::empty()
    } else {
        seq![op_of(s[0])] + ops_of(s.drop_first())
    }
}

#[via_fn]
proof fn op_of_dec(o: Op) {
    if o is Grouped {
        assert(decreases_to!(o => o->Grouped_body));
        assert(decreases_to!(o->Grouped_body => o->Grouped_body@));
    }
    if o is Repeat {
        assert(decreases_to!(o => o->Repeat_body));
        assert(decreases_to!(o->Repeat_body => o->Repeat_body@));
        assert(decreases_to!(o => o->Repeat_sep));
        assert(decreases_to!(o->Repeat_sep => o->Repeat_sep@));
    }
}

#[via_fn]
proof fn ops_of_dec(s: Seq<Op>) {
    if s.len() > 0 {
        assert(decreases_to!(s => s[0]));
        assert(s.drop_first() == s.subrange(1, s.len() as int));
        assert(decreases_to!(s => s.subrange(1, s.len() as int)));
    }
}

impl View for Op {
    type V = OpM;

    open spec fn view(&self) -> OpM {
        op_of(*self)
    }
}

pub broadcast proof fn lemma_ops_of_len(s: Seq<Op>)
    ensures
        (#[trigger] ops_of(s)).len() == s.len(),
    decreases s,
{
    if s.len() > 0 {
        lemma_ops_of_len(s.drop_first());
    }
}

pub broadcast proof fn lemma_ops_of_index(s: Seq<Op>, i: int)
    requires
        0 <= i < s.len(),
    ensures
        #[trigger] ops_of(s)[i] == op_of(s[i]),
    decreases s,
{
    broadcast use lemma_ops_of_len;

    if i > 0 {
        lemma_ops_of_index(s.drop_first(), i - 1);
    }
}

pub proof fn lemma_ops_of_push(s: Seq<Op>, o: Op)
    ensures
        ops_of(s.push(o)) == ops_of(s).push(op_of(o)),
{
    broadcast use lemma_ops_of_len, lemma_ops_of_index;

    assert(ops_of(s.push(o)) =~= ops_of(s).push(op_of(o)));
}

pub proof fn lemma_ops_of_concat(a: Seq<Op>, b: Seq<Op>)
    ensures
        ops_of(a + b) == ops_of(a) + ops_of(b),
{
    broadcast use lemma_ops_of_len, lemma_ops_of_index;

    assert(ops_of(a + b) =~= ops_of(a) + ops_of(b));
}

/// Structural size of an operation, the termination measure of expansion.
pub open spec fn opm_size(o: OpM) -> nat
    decreases o,
{
    match o {
        OpM::Grouped { body, .. } => 1 + opsm_size(body),
        OpM::Repeat { body, sep, .. } => 1 + opsm_size(body) + opsm_size(sep),
        _ => 1,
    }
}

pub open spec fn opsm_size(s: Seq<OpM>) -> nat
    decreases s,
{
    if s.len() == 0 {
        0
    } else {
        opm_size(s[0]) + opsm_size(s.drop_first())
    }
}

pub proof fn lemma_opsm_size_elem(s: Seq<OpM>, i: int)
    requires
        0 <= i < s.len(),
    ensures
        opm_size(s[i]) <= opsm_size(s),
    decreases s,
{
    if i > 0 {
        lemma_opsm_size_elem(s.drop_first(), i - 1);
    }
}

/// Errors of expansion, as a model.
pub enum ErrM {
    /// A repetition whose sub-template captures no variable, with the
    /// position tag of its parenthesised body.
    EmptyRepetition { pos: u32 },
    /// A spliced name with no binding.
    Unbound(Seq<char>),
    /// A repetition over a name whose binding is not a sequence.
    NotIterable(Seq<char>),
    /// A computed splice with no host-evaluated value left.
    MissingComputed,
}

/// Errors of expansion.
#[derive(Debug)]
pub enum ExpandError {
    /// A repetition whose sub-template captures no variable: there is
    /// nothing to iterate over, so the count would be unbounded.  Carries
    /// the position tag of the offending repetition's parenthesised body.
    EmptyRepetition { pos: u32 },
    /// A spliced name with no binding in the interpolation context.
    Unbound { name: String },
    /// A repetition captured a name whose binding is not a sequence.
    NotIterable { name: String },
    /// A computed splice had no host-evaluated value left to take.
    MissingComputed,
}

pub open spec fn err_of(e: ExpandError) -> ErrM {
    match e {
        ExpandError::EmptyRepetition { pos } => ErrM::EmptyRepetition { pos },
        ExpandError::Unbound { name } => ErrM::Unbound(name@),
        ExpandError::NotIterable { name } => ErrM::NotIterable(name@),
        ExpandError::MissingComputed => ErrM::MissingComputed,
    }
}

impl View for ExpandError {
    type V = ErrM;

    open spec fn view(&self) -> ErrM {
        err_of(*self)
    }
}

/// Whether identifier text begins with the raw-identifier marker.
pub open spec fn is_raw_text(s: Seq<char>) -> bool {
    s.len() >= 2 && s[0] == 'r' && s[1] == '#'
}

/// Prefixes one operation onto a walk outcome.
pub open spec fn prepend_op(o: OpM, r: Result<Seq<OpM>, ErrM>) -> Result<Seq<OpM>, ErrM> {
    match r {
        Result::Err(e) => Result::Err(e),
        Result::Ok(ops) => Result::Ok(seq![o] + ops),
    }
}

/// The walk of a template: the operation list its expansion executes, or
/// the construction error that aborts it.
pub open spec fn walk_from(toks: Seq<Tok>) -> Result<Seq<OpM>, ErrM>
    decreases toks_size(toks),
    via walk_from_dec
{
    if toks.len() == 0 {
        Result::Ok(Seq::empty())
    } else {
        let t0 = toks[0];
        if (t0 matches Tok::Punct { ch: '#', .. }) && toks.len() >= 2 {
            match toks[1] {
                Tok::Ident { text, .. } => prepend_op(
                    OpM::Splice { name: text },
                    walk_from(toks.skip(2)),
                ),
                Tok::Group { delim, inner, pos } => {
                    if delim is Paren {
                        match classify(toks.skip(2)) {
                            SepScan::Valid { sep, used } => {
                                if collected_names(inner).len() == 0 {
                                    Result::Err(ErrM::EmptyRepetition { pos })
                                } else {
                                    match walk_from(inner) {
                                        Result::Err(e) => Result::Err(e),
                                        Result::Ok(body) => match walk_from(sep) {
                                            Result::Err(e) => Result::Err(e),
                                            Result::Ok(sepops) => prepend_op(
                                                OpM::Repeat {
                                                    body,
                                                    names: collected_names(inner),
                                                    sep: sepops,
                                                },
                                                walk_from(toks.skip(2 + used)),
                                            ),
                                        },
                                    }
                                }
                            },
                            SepScan::Invalid { undo, used } => prepend_op(
                                OpM::Emit(t0),
                                walk_from(seq![toks[1]] + undo + toks.skip(2 + used)),
                            ),
                        }
                    } else if delim is Brace {
                        prepend_op(OpM::Computed { expr: inner }, walk_from(toks.skip(2)))
                    } else {
                        prepend_op(OpM::Emit(t0), walk_from(seq![toks[1]] + toks.skip(2)))
                    }
                },
                _ => prepend_op(OpM::Emit(t0), walk_from(toks.skip(1))),
            }
        } else if t0 matches Tok::Group { .. } {
            match walk_from(t0->Group_inner) {
                Result::Err(e) => Result::Err(e),
                Result::Ok(body) => prepend_op(
                    OpM::Grouped { delim: t0->Group_delim, body },
                    walk_from(toks.skip(1)),
                ),
            }
        } else if (t0 matches Tok::Ident { .. }) && is_raw_text(t0->Ident_text) {
            prepend_op(
                OpM::RawIdent { text: t0->Ident_text, pos: t0->Ident_pos },
                walk_from(toks.skip(1)),
            )
        } else {
            prepend_op(OpM::Emit(t0), walk_from(toks.skip(1)))
        }
    }
}

#[via_fn]
proof fn walk_from_dec(toks: Seq<Tok>) {
    lemma_walk_sizes(toks);
}

/// Size facts covering every descent of the walker, including the
/// fallback that restores rejected separator tokens.
pub proof fn lemma_walk_sizes(toks: Seq<Tok>)
    ensures
        toks.len() >= 1 ==> toks_size(toks.skip(1)) < toks_size(toks),
        toks.len() >= 2 ==> toks_size(toks.skip(2)) < toks_size(toks),
        toks.len() >= 1 && toks[0] is Group ==> toks_size(toks[0]->Group_inner) < toks_size(toks),
        toks.len() >= 2 && toks[1] is Group ==> toks_size(toks[1]->Group_inner) < toks_size(toks),
        toks.len() >= 2 ==> toks_size(seq![toks[1]] + toks.skip(2)) < toks_size(toks),
        toks.len() >= 2 ==> (match classify(toks.skip(2)) {
            SepScan::Valid { sep, used } => toks_size(sep) < toks_size(toks) && toks_size(
                toks.skip(2 + used),
            ) < toks_size(toks),
            SepScan::Invalid { undo, used } => toks_size(seq![toks[1]] + undo + toks.skip(2 + used))
                < toks_size(toks),
        }),
{
    lemma_collect_sizes(toks);
    if toks.len() >= 1 {
    }
    if toks.len() >= 2 {
        lemma_toks_size_single(toks[1]);
        lemma_toks_size_concat(seq![toks[1]], toks.skip(2));
        lemma_classify_from_shape(toks.skip(2), 0, Seq::empty(), false);
        match classify(toks.skip(2)) {
            SepScan::Valid { sep, used } => {
                assert(sep =~= toks.skip(2).subrange(0, used - 1));
                lemma_toks_size_split(toks.skip(2), used - 1);
                assert(toks.skip(2).skip(used) =~= toks.skip(2 + used));
                lemma_toks_size_skip(toks.skip(2), used);
            },
            SepScan::Invalid { undo, used } => {
                assert(undo =~= toks.skip(2).subrange(0, used));
                lemma_toks_size_split(toks.skip(2), used);
                assert(toks.skip(2).skip(used) =~= toks.skip(2 + used));
                lemma_toks_size_concat(seq![toks[1]] + undo, toks.skip(2 + used));
                lemma_toks_size_concat(seq![toks[1]], undo);
            },
        }
    }
}

/// The size of a one-token sequence.
pub proof fn lemma_toks_size_single(t: Tok)
    ensures
        toks_size(seq![t]) == tok_size(t),
{
    assert(seq![t].drop_first() =~= Seq::<Tok>::empty());
    assert(seq![t][0] == t);
    assert(toks_size(seq![t]) == tok_size(seq![t][0]) + toks_size(seq![t].drop_first()));
}

/// Prefixes already-produced operations onto the walk of the remaining
/// input.
pub open spec fn walk_tail(acc: Seq<OpM>, r: Result<Seq<OpM>, ErrM>) -> Result<Seq<OpM>, ErrM> {
    match r {
        Result::Err(e) => Result::Err(e),
        Result::Ok(ops) => Result::Ok(acc + ops),
    }
}

/// Whether identifier text begins with the raw-identifier marker.
fn is_raw_ident_text(text: &String) -> (r: bool)
    ensures
        r == is_raw_text(text@),
{
    let n: usize = text.as_str().unicode_len();
    if n < 2 {
        return false;
    }
    let c0: char = text.as_str().get_char(0);
    let c1: char = text.as_str().get_char(1);
    c0 == 'r' && c1 == '#'
}

/// Appends clones of `src[from..]` onto `dst`.
fn clone_range(src: &Vec<Token>, from: usize, dst: &mut Vec<Token>)
    requires
        from <= src@.len(),
    ensures
        toks_of(final(dst)@) == toks_of(old(dst)@) + toks_of(src@).skip(from as int),
{
    broadcast use lemma_toks_of_len, lemma_toks_of_index;

    let n: usize = src.len();
    let mut i: usize = from;
    while i < n
        invariant
            from <= i <= n,
            n == src@.len(),
            dst@.len() == old(dst)@.len() + (i - from),
            forall|j: int| 0 <= j < old(dst)@.len() ==> dst@[j]@ == old(dst)@[j]@,
            forall|j: int| old(dst)@.len() <= j < dst@.len() ==> dst@[j]@ == src@[j
                - old(dst)@.len() + from]@,
        decreases n - i,
    {
        let t: Token = src[i].clone();
        dst.push(t);
        i = i + 1;
    }
    proof {
        assert(toks_of(dst@) =~= toks_of(old(dst)@) + toks_of(src@).skip(from as int));
    }
}

/// Walks the tokens of `toks` from `start`: the executable form of
/// `walk_from` on the remaining sequence.
#[verifier::rlimit(60)]
pub fn walk_at(toks: &Vec<Token>, start: usize) -> (r: Result<Vec<Op>, ExpandError>)
    requires
        start <= toks@.len(),
    ensures
        match r {
            Result::Ok(ops) => walk_from(toks_of(toks@).skip(start as int)) == Result::<
                Seq<OpM>,
                ErrM,
            >::Ok(ops_of(ops@)),
            Result::Err(e) => walk_from(toks_of(toks@).skip(start as int)) == Result::<
                Seq<OpM>,
                ErrM,
            >::Err(e@),
        },
    decreases toks_size(toks_of(toks@).skip(start as int)),
{
    broadcast use lemma_toks_of_len, lemma_toks_of_index, lemma_ops_of_len, lemma_ops_of_index;

    let ghost full = toks_of(toks@).skip(start as int);
    let n: usize = toks.len();
    let mut ops: Vec<Op> = Vec::new();
    let mut i: usize = start;
    proof {
        assert(ops_of(ops@) =~= Seq::<OpM>::empty());
        let r0 = walk_from(full);
        if r0 is Ok {
            assert(Seq::<OpM>::empty() + r0->Ok_0 =~= r0->Ok_0);
        }
    }
    while i < n
        invariant
            start <= i <= n,
            n == toks@.len(),
            full == toks_of(toks@).skip(start as int),
            walk_tail(ops_of(ops@), walk_from(toks_of(toks@).skip(i as int))) == walk_from(full),
        decreases n - i,
    {
        let ghost rem = toks_of(toks@).skip(i as int);
        proof {
            broadcast use lemma_toks_of_len, lemma_toks_of_index, lemma_ops_of_len,
                lemma_ops_of_index;

            lemma_walk_sizes(rem);
            assert(rem[0] == toks_of(toks@)[i as int]);
            assert(rem.skip(1) =~= toks_of(toks@).skip(i as int + 1));
            if i + 1 < n {
                assert(rem[1] == toks_of(toks@)[i as int + 1]);
                assert(rem.skip(2) =~= toks_of(toks@).skip(i as int + 2));
            }
            assert(toks_of(toks@).skip(start as int).skip(i - start) =~= rem);
            lemma_toks_size_skip(toks_of(toks@).skip(start as int), i - start);
        }
        let is_pound: bool = matches!(&toks[i], Token::Punct { ch: '#', .. });
        if is_pound && i + 1 < n {
            match &toks[i + 1] {
                Token::Ident { text, .. } => {
                    let ghost pre = ops@;
                    ops.push(Op::Splice { name: text.clone() });
                    proof {
                        lemma_ops_of_push(pre, ops@.last());
                        assert(ops_of(pre).push(OpM::Splice { name: text@ }) =~= ops_of(pre)
                            + seq![OpM::Splice { name: text@ }]);
                        lemma_walk_tail_shift(
                            ops_of(pre),
                            OpM::Splice { name: text@ },
                            walk_from(toks_of(toks@).skip(i as int + 2)),
                        );
                    }
                    i = i + 2;
                },
                Token::Group { delim: Delim::Paren, inner, pos } => {
                    let sc: ScanOutcome = classify_separator(toks, i + 2);
                    proof {
                        assert(classify(toks_of(toks@).skip(i as int + 2)) == classify(
                            rem.skip(2),
                        ));
                    }
                    match sc {
                        ScanOutcome::Valid { sep, used } => {
                            proof {
                                lemma_classify_from_shape(rem.skip(2), 0, Seq::empty(), false);
                            }
                            let names: Vec<String> = collect_vars(inner);
                            if names.len() == 0 {
                                proof {
                                    assert(walk_from(rem) == Result::<Seq<OpM>, ErrM>::Err(
                                        ErrM::EmptyRepetition { pos: *pos },
                                    ));
                                }
                                return Result::Err(ExpandError::EmptyRepetition { pos: *pos });
                            }
                            proof {
                                assert(toks_of(inner@).skip(0) =~= toks_of(inner@));
                                assert(toks_of(inner@) == rem[1]->Group_inner);
                            }
                            let body: Vec<Op> = match walk_at(inner, 0) {
                                Result::Ok(b) => b,
                                Result::Err(e) => {
                                    return Result::Err(e);
                                },
                            };
                            proof {
                                assert(toks_of(sep@).skip(0) =~= toks_of(sep@));
                            }
                            let sepops: Vec<Op> = match walk_at(&sep, 0) {
                                Result::Ok(s) => s,
                                Result::Err(e) => {
                                    return Result::Err(e);
                                },
                            };
                            let ghost pre = ops@;
                            let op = Op::Repeat { body, names, sep: sepops };
                            let ghost opm = op_of(op);
                            ops.push(op);
                            proof {
                                lemma_ops_of_push(pre, ops@.last());
                                assert(ops_of(pre).push(opm) =~= ops_of(pre) + seq![opm]);
                                assert(rem.skip(2).skip(used as int) =~= toks_of(toks@).skip(
                                    i as int + 2 + used,
                                ));
                                assert(rem.skip(2 + used as int) =~= toks_of(toks@).skip(
                                    i as int + 2 + used,
                                ));
                                lemma_walk_tail_shift(
                                    ops_of(pre),
                                    opm,
                                    walk_from(toks_of(toks@).skip(i as int + 2 + used)),
                                );
                            }
                            i = i + 2 + used;
                        },
                        ScanOutcome::Invalid { undo, used } => {
                            proof {
                                lemma_classify_from_shape(rem.skip(2), 0, Seq::empty(), false);
                            }
                            let ghost pre = ops@;
                            ops.push(Op::Emit(toks[i].clone()));
                            proof {
                                lemma_ops_of_push(pre, ops@.last());
                                assert(ops_of(pre).push(OpM::Emit(rem[0])) =~= ops_of(pre)
                                    + seq![OpM::Emit(rem[0])]);
                            }
                            let mut nv: Vec<Token> = Vec::new();
                            nv.push(toks[i + 1].clone());
                            let mut undo_own: Vec<Token> = undo;
                            nv.append(&mut undo_own);
                            proof {
                                assert(rem.skip(2).skip(used as int) =~= toks_of(toks@).skip(
                                    i as int + 2 + used,
                                ));
                            }
                            clone_range(toks, i + 2 + used, &mut nv);
                            proof {
                                assert(toks_of(nv@) =~= seq![rem[1]] + classify(
                                    rem.skip(2),
                                )->Invalid_undo + rem.skip(2 + used as int));
                                assert(toks_of(nv@).skip(0) =~= toks_of(nv@));
                            }
                            let rest: Vec<Op> = match walk_at(&nv, 0) {
                                Result::Ok(r2) => r2,
                                Result::Err(e) => {
                                    return Result::Err(e);
                                },
                            };
                            let ghost pre2 = ops@;
                            let mut rest_own: Vec<Op> = rest;
                            let ghost rest_m = rest_own@;
                            ops.append(&mut rest_own);
                            proof {
                                assert(ops@ =~= pre2 + rest_m);
                                lemma_ops_of_concat(pre2, rest_m);
                                assert(ops_of(pre) + (seq![OpM::Emit(rem[0])] + ops_of(rest_m))
                                    =~= (ops_of(pre) + seq![OpM::Emit(rem[0])]) + ops_of(rest_m));
                                assert(walk_from(full) == Result::<Seq<OpM>, ErrM>::Ok(
                                    ops_of(ops@),
                                ));
                            }
                            return Result::Ok(ops);
                        },
                    }
                },
                Token::Group { delim: Delim::Brace, inner, .. } => {
                    let expr: Vec<Token> = clone_tokens(inner);
                    let ghost pre = ops@;
                    let op = Op::Computed { expr };
                    let ghost opm = op_of(op);
                    ops.push(op);
                    proof {
                        lemma_ops_of_push(pre, ops@.last());
                        assert(ops_of(pre).push(opm) =~= ops_of(pre) + seq![opm]);
                        assert(opm == (OpM::Computed { expr: rem[1]->Group_inner }));
                        lemma_walk_tail_shift(
                            ops_of(pre),
                            opm,
                            walk_from(toks_of(toks@).skip(i as int + 2)),
                        );
                    }
                    i = i + 2;
                },
                Token::Group { .. } => {
                    let ghost pre = ops@;
                    ops.push(Op::Emit(toks[i].clone()));
                    proof {
                        lemma_ops_of_push(pre, ops@.last());
                        assert(ops_of(pre).push(OpM::Emit(rem[0])) =~= ops_of(pre)
                            + seq![OpM::Emit(rem[0])]);
                    }
                    let mut nv: Vec<Token> = Vec::new();
                    nv.push(toks[i + 1].clone());
                    clone_range(toks, i + 2, &mut nv);
                    proof {
                        assert(toks_of(nv@) =~= seq![rem[1]] + rem.skip(2));
                        assert(toks_of(nv@).skip(0) =~= toks_of(nv@));
                    }
                    let rest: Vec<Op> = match walk_at(&nv, 0) {
                        Result::Ok(r2) => r2,
                        Result::Err(e) => {
                            return Result::Err(e);
                        },
                    };
                    let ghost pre2 = ops@;
                    let mut rest_own: Vec<Op> = rest;
                    let ghost rest_m = rest_own@;
                    ops.append(&mut rest_own);
                    proof {
                        assert(ops@ =~= pre2 + rest_m);
                        lemma_ops_of_concat(pre2, rest_m);
                        assert(ops_of(pre) + (seq![OpM::Emit(rem[0])] + ops_of(rest_m)) =~= (
                        ops_of(pre) + seq![OpM::Emit(rem[0])]) + ops_of(rest_m));
                        assert(walk_from(full) == Result::<Seq<OpM>, ErrM>::Ok(ops_of(ops@)));
                    }
                    return Result::Ok(ops);
                },
                _ => {
                    let ghost pre = ops@;
                    ops.push(Op::Emit(toks[i].clone()));
                    proof {
                        lemma_ops_of_push(pre, ops@.last());
                        assert(ops_of(pre).push(OpM::Emit(rem[0])) =~= ops_of(pre)
                            + seq![OpM::Emit(rem[0])]);
                        lemma_walk_tail_shift(
                            ops_of(pre),
                            OpM::Emit(rem[0]),
                            walk_from(toks_of(toks@).skip(i as int + 1)),
                        );
                    }
                    i = i + 1;
                },
            }
        } else {
            let step: Op = match &toks[i] {
                Token::Group { delim, inner, .. } => {
                    proof {
                        assert(toks_of(inner@).skip(0) =~= toks_of(inner@));
                        assert(toks_of(inner@) == rem[0]->Group_inner);
                    }
                    let body: Vec<Op> = match walk_at(inner, 0) {
                        Result::Ok(b) => b,
                        Result::Err(e) => {
                            return Result::Err(e);
                        },
                    };
                    Op::Grouped { delim: *delim, body }
                },
                Token::Ident { text, pos } => {
                    if is_raw_ident_text(text) {
                        Op::RawIdent { text: text.clone(), pos: *pos }
                    } else {
                        Op::Emit(toks[i].clone())
                    }
                },
                _ => Op::Emit(toks[i].clone()),
            };
            let ghost pre = ops@;
            let ghost opm = op_of(step);
            ops.push(step);
            proof {
                lemma_ops_of_push(pre, ops@.last());
                assert(ops_of(pre).push(opm) =~= ops_of(pre) + seq![opm]);
                lemma_walk_tail_shift(
                    ops_of(pre),
                    opm,
                    walk_from(toks_of(toks@).skip(i as int + 1)),
                );
            }
            i = i + 1;
        }
    }
    proof {
        assert(toks_of(toks@).skip(n as int) =~= Seq::<Tok>::empty());
        assert(ops_of(ops@) + Seq::<OpM>::empty() =~= ops_of(ops@));
    }
    Result::Ok(ops)
}

/// Folding one produced operation into the accumulated prefix.
proof fn lemma_walk_tail_shift(acc: Seq<OpM>, o: OpM, r: Result<Seq<OpM>, ErrM>)
    ensures
        walk_tail(acc + seq![o], r) == walk_tail(acc, prepend_op(o, r)),
{
    match r {
        Result::Err(e) => {},
        Result::Ok(ops) => {
            assert((acc + seq![o]) + ops =~= acc + (seq![o] + ops));
        },
    }
}

} // verus!
