//! The emission assembler.
//!
//! The assembler runs the walker's operation list against an accumulator:
//! direct appends re-tag their token with the active position; splices
//! render the bound value; computed splices take the next host-evaluated
//! value; groups build a fresh accumulator for their nested operations and
//! wrap it; repetitions iterate every captured sequence in lockstep,
//! truncating to the shortest, with the separator's operations emitted
//! between iterations only.

use vstd::prelude::*;

use crate::token::{Tok, Token};
use crate::value::{Val, Value, render_val, val_of, val_wf, vals_of, vals_wf};
use crate::tokens::Tokens;
use crate::walk::{ErrM, ExpandError, Op, OpM, lemma_opsm_size_elem, opm_size, opsm_size};

verus! {

/// An interpolation context entry, as a model: a name and its value.
pub type BindM = (Seq<char>, Val);

/// Looks a name up in the context; the innermost (latest) binding wins.
pub open spec fn lookup(env: Seq<BindM>, name: Seq<char>) -> Option<Val>
    decreases env.len(),
{
    if env.len() == 0 {
        Option::None
    } else if env.last().0 == name {
        Option::Some(env.last().1)
    } else {
        lookup(env.drop_last(), name)
    }
}

/// The captured sequences the named bindings hold, or the first failure.
pub open spec fn lookup_lists(env: Seq<BindM>, names: Seq<Seq<char>>) -> Result<
    Seq<Seq<Val>>,
    ErrM,
>
    decreases names.len(),
{
    if names.len() == 0 {
        Result::Ok(Seq::empty())
    } else {
        match lookup(env, names[0]) {
            Option::None => Result::Err(ErrM::Unbound(names[0])),
            Option::Some(v) => match v {
                Val::List(es) => match lookup_lists(env, names.drop_first()) {
                    Result::Err(e) => Result::Err(e),
                    Result::Ok(rest) => Result::Ok(seq![es] + rest),
                },
                _ => Result::Err(ErrM::NotIterable(names[0])),
            },
        }
    }
}

/// The shortest captured sequence bounds the iteration count.
pub open spec fn min_len(lists: Seq<Seq<Val>>) -> nat
    decreases lists.len(),
{
    if lists.len() == 0 {
        0
    } else if lists.len() == 1 {
        lists[0].len()
    } else {
        let m = min_len(lists.drop_first());
        if lists[0].len() <= m {
            lists[0].len()
        } else {
            m
        }
    }
}

/// The bindings one iteration adds: each name to its sequence's element
/// `i`, in declaration order.
pub open spec fn bind_names(names: Seq<Seq<char>>, lists: Seq<Seq<Val>>, i: int) -> Seq<BindM>
    decreases names.len(),
{
    if names.len() == 0 {
        Seq::empty()
    } else {
        seq![(names[0], lists[0][i])] + bind_names(names.drop_first(), lists.drop_first(), i)
    }
}

/// A token re-tagged with the active position.
pub open spec fn retag_tok(t: Tok, tag: u32) -> Tok {
    match t {
        Tok::Ident { text, .. } => Tok::Ident { text, pos: tag },
        Tok::Punct { ch, spacing, .. } => Tok::Punct { ch, spacing, pos: tag },
        Tok::Lit { text, .. } => Tok::Lit { text, pos: tag },
        Tok::Group { delim, inner, .. } => Tok::Group { delim, inner, pos: tag },
    }
}

/// Evaluation yields the emitted tokens and the position after the last
/// consumed computed value.
pub type EvalR = Result<(Seq<Tok>, int), ErrM>;

/// Runs an operation list: each operation's output in order, threading the
/// computed-value cursor.
pub open spec fn eval_ops(
    ops: Seq<OpM>,
    env: Seq<BindM>,
    vals: Seq<Val>,
    cur: int,
    tag: u32,
) -> EvalR
    decreases opsm_size(ops), 0nat, 1nat,
    via eval_ops_dec
{
    if ops.len() == 0 {
        Result::Ok((Seq::empty(), cur))
    } else {
        match eval_one(ops[0], env, vals, cur, tag) {
            Result::Err(e) => Result::Err(e),
            Result::Ok((o1, cur1)) => match eval_ops(ops.drop_first(), env, vals, cur1, tag) {
                Result::Err(e) => Result::Err(e),
                Result::Ok((o2, cur2)) => Result::Ok((o1 + o2, cur2)),
            },
        }
    }
}

/// Runs one operation.
pub open spec fn eval_one(op: OpM, env: Seq<BindM>, vals: Seq<Val>, cur: int, tag: u32) -> EvalR
    decreases opm_size(op), 0nat, 0nat,
    via eval_one_dec
{
    match op {
        OpM::Emit(t) => Result::Ok((seq![retag_tok(t, tag)], cur)),
        OpM::RawIdent { text, .. } => Result::Ok((seq![Tok::Ident { text, pos: tag }], cur)),
        OpM::Splice { name } => match lookup(env, name) {
            Option::None => Result::Err(ErrM::Unbound(name)),
            Option::Some(v) => Result::Ok((render_val(v), cur)),
        },
        OpM::Computed { .. } => {
            if 0 <= cur < vals.len() {
                Result::Ok((render_val(vals[cur]), cur + 1))
            } else {
                Result::Err(ErrM::MissingComputed)
            }
        },
        OpM::Grouped { delim, body } => match eval_ops(body, env, vals, cur, tag) {
            Result::Err(e) => Result::Err(e),
            Result::Ok((inner, cur1)) => Result::Ok(
                (seq![Tok::Group { delim, inner, pos: tag }], cur1),
            ),
        },
        OpM::Repeat { body, names, sep } => match lookup_lists(env, names) {
            Result::Err(e) => Result::Err(e),
            Result::Ok(lists) => eval_rep(body, sep, names, lists, env, vals, cur, tag, min_len(lists)),
        },
    }
}

/// Runs the first `k` iterations of a repetition: for each iteration, the
/// separator's operations (except before the first) and the body, under
/// the iteration's bindings.
pub open spec fn eval_rep(
    body: Seq<OpM>,
    sep: Seq<OpM>,
    names: Seq<Seq<char>>,
    lists: Seq<Seq<Val>>,
    env: Seq<BindM>,
    vals: Seq<Val>,
    cur: int,
    tag: u32,
    k: nat,
) -> EvalR
    decreases opsm_size(body) + opsm_size(sep), k, 0nat,
    via eval_rep_dec
{
    if k == 0 {
        Result::Ok((Seq::empty(), cur))
    } else {
        match eval_rep(body, sep, names, lists, env, vals, cur, tag, (k - 1) as nat) {
            Result::Err(e) => Result::Err(e),
            Result::Ok((acc, cur1)) => {
                let env_i = env + bind_names(names, lists, k - 1);
                match (if k == 1 {
                    Result::Ok((Seq::<Tok>::empty(), cur1))
                } else {
                    eval_ops(sep, env_i, vals, cur1, tag)
                }) {
                    Result::Err(e) => Result::Err(e),
                    Result::Ok((sout, cur2)) => match eval_ops(body, env_i, vals, cur2, tag) {
                        Result::Err(e) => Result::Err(e),
                        Result::Ok((bout, cur3)) => Result::Ok((acc + sout + bout, cur3)),
                    },
                }
            },
        }
    }
}

#[via_fn]
proof fn eval_ops_dec(ops: Seq<OpM>, env: Seq<BindM>, vals: Seq<Val>, cur: int, tag: u32) {
    if ops.len() > 0 {
        lemma_opm_size_pos(ops[0]);
        assert(opsm_size(ops) == opm_size(ops[0]) + opsm_size(ops.drop_first()));
    }
}

#[via_fn]
proof fn eval_one_dec(op: OpM, env: Seq<BindM>, vals: Seq<Val>, cur: int, tag: u32) {
}

#[via_fn]
proof fn eval_rep_dec(
    body: Seq<OpM>,
    sep: Seq<OpM>,
    names: Seq<Seq<char>>,
    lists: Seq<Seq<Val>>,
    env: Seq<BindM>,
    vals: Seq<Val>,
    cur: int,
    tag: u32,
    k: nat,
) {
}

/// Every operation has positive size.
pub proof fn lemma_opm_size_pos(o: OpM)
    ensures
        opm_size(o) >= 1,
{
}

/// An interpolation context entry: a name and the value bound to it.
pub type Binding = (String, Value);

/// Model of an interpolation context.
pub open spec fn env_of(s: Seq<Binding>) -> Seq<BindM> {
    Seq::new(s.len(), |i: int| (s[i].0@, val_of(s[i].1)))
}

/// Well-formedness of a context: every bound value is well-formed.
pub open spec fn env_wf(e: Seq<BindM>) -> bool {
    forall|i: int| 0 <= i < e.len() ==> val_wf(#[trigger] e[i].1)
}

/// A value found in a well-formed context is well-formed.
pub proof fn lemma_lookup_wf(env: Seq<BindM>, name: Seq<char>)
    requires
        env_wf(env),
        lookup(env, name) is Some,
    ensures
        val_wf(lookup(env, name)->Some_0),
    decreases env.len(),
{
    if env.len() > 0 {
        if env.last().0 == name {
            assert(env.last() == env[env.len() - 1]);
        } else {
            assert(forall|i: int|
                0 <= i < env.drop_last().len() ==> env.drop_last()[i] == env[i]);
            lemma_lookup_wf(env.drop_last(), name);
        }
    }
}

/// Model of a collection of captured sequences.
pub open spec fn lists_of(s: Seq<Vec<Value>>) -> Seq<Seq<Val>> {
    Seq::new(s.len(), |i: int| vals_of(s[i]@))
}

/// Well-formedness of captured sequences.
pub open spec fn lists_wf(ls: Seq<Seq<Val>>) -> bool {
    forall|i: int| 0 <= i < ls.len() ==> vals_wf(#[trigger] ls[i])
}

/// The shortest sequence is no longer than any of them.
pub proof fn lemma_min_len_le(lists: Seq<Seq<Val>>, j: int)
    requires
        0 <= j < lists.len(),
    ensures
        min_len(lists) <= lists[j].len(),
    decreases lists.len(),
{
    if lists.len() > 1 && j > 0 {
        lemma_min_len_le(lists.drop_first(), j - 1);
    }
}

/// An error at or before iteration `j` is the error of every longer run.
pub proof fn lemma_eval_rep_err(
    body: Seq<OpM>,
    sep: Seq<OpM>,
    names: Seq<Seq<char>>,
    lists: Seq<Seq<Val>>,
    env: Seq<BindM>,
    vals: Seq<Val>,
    cur: int,
    tag: u32,
    j: nat,
    k: nat,
)
    requires
        j <= k,
        eval_rep(body, sep, names, lists, env, vals, cur, tag, j) is Err,
    ensures
        eval_rep(body, sep, names, lists, env, vals, cur, tag, k) == eval_rep(
            body,
            sep,
            names,
            lists,
            env,
            vals,
            cur,
            tag,
            j,
        ),
    decreases k,
{
    if k > j {
        lemma_eval_rep_err(body, sep, names, lists, env, vals, cur, tag, j, (k - 1) as nat);
    }
}

/// A token re-tagged with the active position.
fn retag(t: Token, tag: u32) -> (r: Token)
    ensures
        r@ == retag_tok(t@, tag),
{
    match t {
        Token::Ident { text, .. } => Token::Ident { text, pos: tag },
        Token::Punct { ch, spacing, .. } => Token::Punct { ch, spacing, pos: tag },
        Token::Lit { text, .. } => Token::Lit { text, pos: tag },
        Token::Group { delim, inner, .. } => Token::Group { delim, inner, pos: tag },
    }
}

/// Finds the innermost binding of a name.
fn lookup_value<'a>(env: &'a Vec<Binding>, name: &String) -> (r: Option<&'a Value>)
    ensures
        match r {
            Option::None => lookup(env_of(env@), name@) is None,
            Option::Some(v) => lookup(env_of(env@), name@) == Option::Some(v@),
        },
{
    let mut i: usize = env.len();
    proof {
        assert(env_of(env@).subrange(0, env@.len() as int) =~= env_of(env@));
    }
    while i > 0
        invariant
            0 <= i <= env@.len(),
            lookup(env_of(env@), name@) == lookup(env_of(env@).subrange(0, i as int), name@),
        decreases i,
    {
        i = i - 1;
        if env[i].0.eq(name) {
            proof {
                let pre = env_of(env@).subrange(0, i as int + 1);
                assert(pre.last() == (env@[i as int].0@, val_of(env@[i as int].1)));
                assert(lookup(pre, name@) == Option::Some(val_of(env@[i as int].1)));
            }
            return Option::Some(&env[i].1);
        }
        proof {
            let pre = env_of(env@).subrange(0, i as int + 1);
            assert(pre.last() == (env@[i as int].0@, val_of(env@[i as int].1)));
            assert(pre.drop_last() =~= env_of(env@).subrange(0, i as int));
        }
    }
    proof {
        assert(env_of(env@).subrange(0, 0) =~= Seq::<BindM>::empty());
    }
    Option::None
}

/// Looks up every captured name and clones the sequences it holds.
fn lookup_lists_exec(env: &Vec<Binding>, names: &Vec<String>) -> (r: Result<
    Vec<Vec<Value>>,
    ExpandError,
>)
    requires
        env_wf(env_of(env@)),
    ensures
        match r {
            Result::Ok(ls) => lookup_lists(env_of(env@), crate::collect::names_of(names@))
                == Result::<Seq<Seq<Val>>, ErrM>::Ok(lists_of(ls@)) && lists_wf(lists_of(ls@)),
            Result::Err(e) => lookup_lists(env_of(env@), crate::collect::names_of(names@))
                == Result::<Seq<Seq<Val>>, ErrM>::Err(e@),
        },
{
    let ghost namesm = crate::collect::names_of(names@);
    let n: usize = names.len();
    let mut ls: Vec<Vec<Value>> = Vec::new();
    let mut j: usize = 0;
    proof {
        assert(namesm.skip(0) =~= namesm);
    }
    while j < n
        invariant
            0 <= j <= n,
            n == names@.len(),
            namesm == crate::collect::names_of(names@),
            env_wf(env_of(env@)),
            ls@.len() == j,
            lists_wf(lists_of(ls@)),
            lookup_lists(env_of(env@), namesm) == (match lookup_lists(
                env_of(env@),
                namesm.skip(j as int),
            ) {
                Result::Ok(rest) => Result::<Seq<Seq<Val>>, ErrM>::Ok(lists_of(ls@) + rest),
                Result::Err(e) => Result::<Seq<Seq<Val>>, ErrM>::Err(e),
            }),
        decreases n - j,
    {
        let ghost remn = namesm.skip(j as int);
        proof {
            assert(remn[0] == names@[j as int]@);
            assert(remn.drop_first() =~= namesm.skip(j as int + 1));
        }
        match lookup_value(env, &names[j]) {
            Option::None => {
                return Result::Err(ExpandError::Unbound { name: names[j].clone() });
            },
            Option::Some(v) => {
                proof {
                    lemma_lookup_wf(env_of(env@), names@[j as int]@);
                }
                match v {
                    Value::List(es) => {
                        let cloned: Vec<Value> = crate::value::clone_values(es);
                        let ghost pre = ls@;
                        ls.push(cloned);
                        proof {
                            assert(lists_of(ls@) =~= lists_of(pre).push(vals_of(es@)));
                            assert(lists_of(pre) + (seq![vals_of(es@)] + lookup_lists(
                                env_of(env@),
                                namesm.skip(j as int + 1),
                            )->Ok_0) =~= (lists_of(pre) + seq![vals_of(es@)]) + lookup_lists(
                                env_of(env@),
                                namesm.skip(j as int + 1),
                            )->Ok_0);
                            assert(lists_of(pre).push(vals_of(es@)) =~= lists_of(pre) + seq![
                                vals_of(es@),
                            ]);
                        }
                    },
                    _ => {
                        return Result::Err(
                            ExpandError::NotIterable { name: names[j].clone() },
                        );
                    },
                }
            },
        }
        j = j + 1;
    }
    proof {
        assert(namesm.skip(n as int) =~= Seq::<Seq<char>>::empty());
        assert(lists_of(ls@) + Seq::<Seq<Val>>::empty() =~= lists_of(ls@));
    }
    Result::Ok(ls)
}

/// The shortest captured sequence's length.
fn min_count(lists: &Vec<Vec<Value>>) -> (r: usize)
    requires
        lists@.len() > 0,
    ensures
        r as nat == min_len(lists_of(lists@)),
{
    let n: usize = lists.len();
    let mut i: usize = n - 1;
    let mut m: usize = lists[n - 1].len();
    proof {
        assert(lists_of(lists@).skip(n - 1)[0] == vals_of(lists@[n - 1]@));
        assert(lists_of(lists@).skip(n - 1).len() == 1);
        broadcast use crate::value::lemma_vals_of_len;

    }
    while i > 0
        invariant
            0 <= i <= n - 1,
            n == lists@.len(),
            m as nat == min_len(lists_of(lists@).skip(i as int)),
        decreases i,
    {
        i = i - 1;
        let li: usize = lists[i].len();
        proof {
            broadcast use crate::value::lemma_vals_of_len;

            assert(lists_of(lists@).skip(i as int)[0] == vals_of(lists@[i as int]@));
            assert(lists_of(lists@).skip(i as int).drop_first() =~= lists_of(lists@).skip(
                i as int + 1,
            ));
        }
        if li <= m {
            m = li;
        }
    }
    proof {
        assert(lists_of(lists@).skip(0) =~= lists_of(lists@));
    }
    m
}

/// Builds the context of one iteration: the caller's context plus each
/// name bound to its sequence's element `i`.
fn extend_env(env: &Vec<Binding>, names: &Vec<String>, lists: &Vec<Vec<Value>>, i: usize) -> (r:
    Vec<Binding>)
    requires
        names@.len() == lists@.len(),
        forall|j: int| 0 <= j < lists@.len() ==> i < (#[trigger] lists@[j])@.len(),
        env_wf(env_of(env@)),
        lists_wf(lists_of(lists@)),
    ensures
        env_of(r@) == env_of(env@) + bind_names(
            crate::collect::names_of(names@),
            lists_of(lists@),
            i as int,
        ),
        env_wf(env_of(r@)),
{
    broadcast use crate::value::lemma_vals_of_len, crate::value::lemma_vals_of_index;

    let ghost namesm = crate::collect::names_of(names@);
    let ghost listsm = lists_of(lists@);
    let mut r: Vec<Binding> = Vec::new();
    let mut j: usize = 0;
    let n: usize = env.len();
    while j < n
        invariant
            0 <= j <= n,
            n == env@.len(),
            r@.len() == j,
            forall|t: int| 0 <= t < j ==> r@[t].0@ == env@[t].0@ && r@[t].1@ == env@[t].1@,
        decreases n - j,
    {
        let name: String = env[j].0.clone();
        let v: Value = env[j].1.clone();
        r.push((name, v));
        j = j + 1;
    }
    proof {
        assert(env_of(r@) =~= env_of(env@));
    }
    let m: usize = names.len();
    let mut k: usize = 0;
    proof {
        assert(namesm.skip(0) =~= namesm);
        assert(listsm.skip(0) =~= listsm);
        assert(env_of(r@) + bind_names(namesm, listsm, i as int) =~= env_of(env@) + bind_names(
            namesm,
            listsm,
            i as int,
        ));
    }
    while k < m
        invariant
            0 <= k <= m,
            m == names@.len(),
            m == lists@.len(),
            namesm == crate::collect::names_of(names@),
            listsm == lists_of(lists@),
            forall|j2: int| 0 <= j2 < lists@.len() ==> i < (#[trigger] lists@[j2])@.len(),
            lists_wf(lists_of(lists@)),
            env_wf(env_of(env@)),
            env_of(r@) + bind_names(namesm.skip(k as int), listsm.skip(k as int), i as int)
                == env_of(env@) + bind_names(namesm, listsm, i as int),
            forall|t: int| 0 <= t < r@.len() ==> val_wf(#[trigger] env_of(r@)[t].1),
        decreases m - k,
    {
        let ghost pre = r@;
        proof {
            broadcast use crate::value::lemma_vals_of_len, crate::value::lemma_vals_of_index;

            assert(namesm.skip(k as int)[0] == names@[k as int]@);
            assert(listsm.skip(k as int)[0] == vals_of(lists@[k as int]@));
            assert(vals_of(lists@[k as int]@).len() == lists@[k as int]@.len());
            assert(i < lists@[k as int]@.len());
            assert(namesm.skip(k as int).drop_first() =~= namesm.skip(k as int + 1));
            assert(listsm.skip(k as int).drop_first() =~= listsm.skip(k as int + 1));
            crate::value::lemma_vals_wf_elem(vals_of(lists@[k as int]@), i as int);
        }
        let name: String = names[k].clone();
        let v: Value = lists[k][i].clone();
        r.push((name, v));
        proof {
            assert(env_of(r@) =~= env_of(pre).push((names@[k as int]@, vals_of(
                lists@[k as int]@,
            )[i as int])));
            assert(env_of(pre).push((namesm.skip(k as int)[0], listsm.skip(k as int)[0][i as int]))
                =~= env_of(pre) + seq![
                (namesm.skip(k as int)[0], listsm.skip(k as int)[0][i as int]),
            ]);
            assert((env_of(pre) + seq![
                (namesm.skip(k as int)[0], listsm.skip(k as int)[0][i as int]),
            ]) + bind_names(namesm.skip(k as int + 1), listsm.skip(k as int + 1), i as int)
                =~= env_of(pre) + (seq![
                (namesm.skip(k as int)[0], listsm.skip(k as int)[0][i as int]),
            ] + bind_names(namesm.skip(k as int + 1), listsm.skip(k as int + 1), i as int)));
        }
        k = k + 1;
    }
    proof {
        assert(namesm.skip(m as int) =~= Seq::<Seq<char>>::empty());
        assert(listsm.skip(m as int) =~= Seq::<Seq<Val>>::empty());
        assert(env_of(r@) + Seq::<BindM>::empty() =~= env_of(r@));
    }
    r
}

/// Prefixes already-emitted tokens onto the evaluation of what remains.
pub open spec fn eval_tail(done: Seq<Tok>, r: EvalR) -> EvalR {
    match r {
        Result::Err(e) => Result::Err(e),
        Result::Ok((o, c)) => Result::Ok((done + o, c)),
    }
}

/// Folding one operation's output into the emitted prefix.
proof fn lemma_eval_tail_shift(done: Seq<Tok>, o1: Seq<Tok>, c1: int, r: EvalR)
    ensures
        eval_tail(done, (match r {
            Result::Err(e) => Result::Err(e),
            Result::Ok((o2, c2)) => Result::Ok((o1 + o2, c2)),
        })) == eval_tail(done + o1, r),
{
    match r {
        Result::Err(e) => {},
        Result::Ok((o2, c2)) => {
            assert(done + (o1 + o2) =~= (done + o1) + o2);
        },
    }
}

/// A sequence was found for every captured name.
proof fn lemma_lookup_lists_len(env: Seq<BindM>, names: Seq<Seq<char>>)
    requires
        lookup_lists(env, names) is Ok,
    ensures
        lookup_lists(env, names)->Ok_0.len() == names.len(),
    decreases names.len(),
{
    if names.len() > 0 {
        lemma_lookup_lists_len(env, names.drop_first());
    }
}

/// Runs an operation list against the accumulator, as `eval_ops`
/// describes, returning the new computed-value cursor.
#[verifier::rlimit(60)]
pub fn eval_ops_exec(
    ops: &Vec<Op>,
    env: &Vec<Binding>,
    vals: &Vec<Value>,
    cur: usize,
    tag: u32,
    out: &mut Tokens,
) -> (r: Result<usize, ExpandError>)
    requires
        env_wf(env_of(env@)),
        vals_wf(vals_of(vals@)),
        cur <= vals@.len(),
    ensures
        match r {
            Result::Ok(c2) => ({
                let er = eval_ops(
                    crate::walk::ops_of(ops@),
                    env_of(env@),
                    vals_of(vals@),
                    cur as int,
                    tag,
                );
                er is Ok && final(out)@ == old(out)@ + er->Ok_0.0 && er->Ok_0.1 == c2 as int && c2
                    <= vals@.len()
            }),
            Result::Err(e) => eval_ops(
                crate::walk::ops_of(ops@),
                env_of(env@),
                vals_of(vals@),
                cur as int,
                tag,
            ) == Result::<(Seq<Tok>, int), ErrM>::Err(e@),
        },
    decreases opsm_size(crate::walk::ops_of(ops@)), 1nat,
{
    broadcast use crate::walk::lemma_ops_of_len, crate::walk::lemma_ops_of_index;

    let ghost opsm = crate::walk::ops_of(ops@);
    let ghost envm = env_of(env@);
    let ghost valsm = vals_of(vals@);
    let n: usize = ops.len();
    let mut curv: usize = cur;
    let mut j: usize = 0;
    let ghost mut added: Seq<Tok> = Seq::empty();
    proof {
        assert(opsm.skip(0) =~= opsm);
        let r0 = eval_ops(opsm, envm, valsm, cur as int, tag);
        if r0 is Ok {
            assert(Seq::<Tok>::empty() + r0->Ok_0.0 =~= r0->Ok_0.0);
        }
        assert(out@ =~= old(out)@ + added);
    }
    while j < n
        invariant
            0 <= j <= n,
            n == ops@.len(),
            curv <= vals@.len(),
            opsm == crate::walk::ops_of(ops@),
            envm == env_of(env@),
            valsm == vals_of(vals@),
            env_wf(envm),
            vals_wf(valsm),
            out@ == old(out)@ + added,
            eval_ops(opsm, envm, valsm, cur as int, tag) == eval_tail(
                added,
                eval_ops(opsm.skip(j as int), envm, valsm, curv as int, tag),
            ),
        decreases n - j,
    {
        let ghost rem = opsm.skip(j as int);
        proof {
            broadcast use crate::walk::lemma_ops_of_len, crate::walk::lemma_ops_of_index;

            lemma_opsm_size_elem(opsm, j as int);
            assert(rem[0] == opsm[j as int]);
            assert(rem.drop_first() =~= opsm.skip(j as int + 1));
        }
        let step: Result<usize, ExpandError> = eval_one_exec(&ops[j], env, vals, curv, tag, out);
        match step {
            Result::Err(e) => {
                return Result::Err(e);
            },
            Result::Ok(c2) => {
                proof {
                    let er1 = eval_one(rem[0], envm, valsm, curv as int, tag);
                    lemma_eval_tail_shift(
                        added,
                        er1->Ok_0.0,
                        er1->Ok_0.1,
                        eval_ops(opsm.skip(j as int + 1), envm, valsm, c2 as int, tag),
                    );
                    added = added + er1->Ok_0.0;
                }
                curv = c2;
            },
        }
        j = j + 1;
    }
    proof {
        assert(opsm.skip(n as int) =~= Seq::<OpM>::empty());
        assert(added + Seq::<Tok>::empty() =~= added);
    }
    Result::Ok(curv)
}

/// Runs one operation against the accumulator, as `eval_one` describes.
#[verifier::rlimit(60)]
pub fn eval_one_exec(
    op: &Op,
    env: &Vec<Binding>,
    vals: &Vec<Value>,
    cur: usize,
    tag: u32,
    out: &mut Tokens,
) -> (r: Result<usize, ExpandError>)
    requires
        env_wf(env_of(env@)),
        vals_wf(vals_of(vals@)),
        cur <= vals@.len(),
    ensures
        match r {
            Result::Ok(c2) => ({
                let er = eval_one(op@, env_of(env@), vals_of(vals@), cur as int, tag);
                er is Ok && final(out)@ == old(out)@ + er->Ok_0.0 && er->Ok_0.1 == c2 as int && c2
                    <= vals@.len()
            }),
            Result::Err(e) => eval_one(op@, env_of(env@), vals_of(vals@), cur as int, tag)
                == Result::<(Seq<Tok>, int), ErrM>::Err(e@),
        },
    decreases opm_size(op@), 0nat,
{
    let ghost envm = env_of(env@);
    let ghost valsm = vals_of(vals@);
    match op {
        Op::Emit(t) => {
            let t2: Token = t.clone();
            out.append(retag(t2, tag));
            Result::Ok(cur)
        },
        Op::RawIdent { text, .. } => {
            out.append(Token::Ident { text: text.clone(), pos: tag });
            Result::Ok(cur)
        },
        Op::Splice { name } => {
            match lookup_value(env, name) {
                Option::None => Result::Err(ExpandError::Unbound { name: name.clone() }),
                Option::Some(v) => {
                    proof {
                        lemma_lookup_wf(envm, name@);
                    }
                    crate::value::render_value(v, out);
                    Result::Ok(cur)
                },
            }
        },
        Op::Computed { .. } => {
            if cur < vals.len() {
                proof {
                    broadcast use crate::value::lemma_vals_of_len,
                        crate::value::lemma_vals_of_index;

                    crate::value::lemma_vals_wf_elem(valsm, cur as int);
                }
                crate::value::render_value(&vals[cur], out);
                Result::Ok(cur + 1)
            } else {
                proof {
                    broadcast use crate::value::lemma_vals_of_len;

                    assert(valsm.len() == vals@.len());
                }
                Result::Err(ExpandError::MissingComputed)
            }
        },
        Op::Grouped { delim, body } => {
            let mut inner: Tokens = crate::tokens::Tokens::new();
            match eval_ops_exec(body, env, vals, cur, tag, &mut inner) {
                Result::Err(e) => Result::Err(e),
                Result::Ok(c1) => {
                    proof {
                        let er = eval_ops(
                            crate::walk::ops_of(body@),
                            envm,
                            valsm,
                            cur as int,
                            tag,
                        );
                        assert(Seq::<Tok>::empty() + er->Ok_0.0 =~= er->Ok_0.0);
                    }
                    out.append(
                        Token::Group { delim: *delim, inner: inner.into_vec(), pos: tag },
                    );
                    Result::Ok(c1)
                },
            }
        },
        Op::Repeat { body, names, sep } => {
            let ghost bodym = crate::walk::ops_of(body@);
            let ghost sepm = crate::walk::ops_of(sep@);
            let ghost namesm = crate::collect::names_of(names@);
            let lists: Vec<Vec<Value>> = match lookup_lists_exec(env, names) {
                Result::Err(e) => {
                    return Result::Err(e);
                },
                Result::Ok(l) => l,
            };
            let ghost listsm = lists_of(lists@);
            proof {
                lemma_lookup_lists_len(envm, namesm);
            }
            let count: usize = if lists.len() == 0 {
                0
            } else {
                min_count(&lists)
            };
            let mut curv: usize = cur;
            let mut i: usize = 0;
            let ghost mut added: Seq<Tok> = Seq::empty();
            proof {
                assert(out@ =~= old(out)@ + added);
            }
            while i < count
                invariant
                    0 <= i <= count,
                    count as nat == min_len(listsm),
                    op@ == (OpM::Repeat { body: bodym, names: namesm, sep: sepm }),
                    lookup_lists(envm, namesm) == Result::<Seq<Seq<Val>>, ErrM>::Ok(listsm),
                    opm_size(op@) == 1 + opsm_size(bodym) + opsm_size(sepm),
                    curv <= vals@.len(),
                    envm == env_of(env@),
                    valsm == vals_of(vals@),
                    bodym == crate::walk::ops_of(body@),
                    sepm == crate::walk::ops_of(sep@),
                    namesm == crate::collect::names_of(names@),
                    listsm == lists_of(lists@),
                    names@.len() == lists@.len(),
                    env_wf(envm),
                    vals_wf(valsm),
                    lists_wf(listsm),
                    out@ == old(out)@ + added,
                    eval_rep(bodym, sepm, namesm, listsm, envm, valsm, cur as int, tag, i as nat)
                        == Result::<(Seq<Tok>, int), ErrM>::Ok((added, curv as int)),
                decreases count - i,
            {
                proof {
                    broadcast use crate::value::lemma_vals_of_len;

                    assert forall|j2: int|
                        0 <= j2 < lists@.len() implies i < (#[trigger] lists@[j2])@.len() by {
                        lemma_min_len_le(listsm, j2);
                        assert(listsm[j2] == vals_of(lists@[j2]@));
                    }
                }
                let env_i: Vec<Binding> = extend_env(env, names, &lists, i);
                let ghost env_im = env_of(env_i@);
                let ghost cur1 = curv as int;
                let ghost mut sout: Seq<Tok> = Seq::empty();
                if i > 0 {
                    match eval_ops_exec(sep, &env_i, vals, curv, tag, out) {
                        Result::Err(e) => {
                            proof {
                                assert(eval_rep(
                                    bodym,
                                    sepm,
                                    namesm,
                                    listsm,
                                    envm,
                                    valsm,
                                    cur as int,
                                    tag,
                                    (i + 1) as nat,
                                ) == Result::<(Seq<Tok>, int), ErrM>::Err(e@));
                                lemma_eval_rep_err(
                                    bodym,
                                    sepm,
                                    namesm,
                                    listsm,
                                    envm,
                                    valsm,
                                    cur as int,
                                    tag,
                                    (i + 1) as nat,
                                    count as nat,
                                );
                            }
                            return Result::Err(e);
                        },
                        Result::Ok(c2) => {
                            proof {
                                let ser = eval_ops(sepm, env_im, valsm, cur1, tag);
                                sout = ser->Ok_0.0;
                            }
                            curv = c2;
                        },
                    }
                }
                let ghost cur2 = curv as int;
                match eval_ops_exec(body, &env_i, vals, curv, tag, out) {
                    Result::Err(e) => {
                        proof {
                            assert(eval_rep(
                                bodym,
                                sepm,
                                namesm,
                                listsm,
                                envm,
                                valsm,
                                cur as int,
                                tag,
                                (i + 1) as nat,
                            ) == Result::<(Seq<Tok>, int), ErrM>::Err(e@));
                            lemma_eval_rep_err(
                                bodym,
                                sepm,
                                namesm,
                                listsm,
                                envm,
                                valsm,
                                cur as int,
                                tag,
                                (i + 1) as nat,
                                count as nat,
                            );
                        }
                        return Result::Err(e);
                    },
                    Result::Ok(c3) => {
                        proof {
                            let ber = eval_ops(bodym, env_im, valsm, cur2, tag);
                            let bout = ber->Ok_0.0;
                            assert(out@ =~= old(out)@ + (added + sout + bout));
                            added = added + sout + bout;
                        }
                        curv = c3;
                    },
                }
                i = i + 1;
            }
            Result::Ok(curv)
        },
    }
}

} // verus!
