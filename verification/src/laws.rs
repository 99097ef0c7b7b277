//! The general laws of expansion, stated and proved against the
//! specification functions that the public contracts use.

use vstd::prelude::*;

use crate::assemble::{
    BindM, bind_names, eval_one, eval_ops, eval_rep, lemma_opm_size_pos, lookup, lookup_lists,
    min_len, retag_tok,
};
use crate::collect::{collect_from, collected_names, name_insert};
use crate::expand::spec_expand;
use crate::token::{Delim, Spacing, Tok, tok_size, toks_size};
use crate::value::{Val, render_val};
use crate::walk::{ErrM, OpM, opm_size, opsm_size, prepend_op, walk_from};

verus! {

/// The interpolation sigil as a token.
pub open spec fn pound_tok(pos: u32) -> Tok {
    Tok::Punct { ch: '#', spacing: Spacing::Alone, pos }
}

/// An alone-spaced repetition marker.
pub open spec fn star_tok(pos: u32) -> Tok {
    Tok::Punct { ch: '*', spacing: Spacing::Alone, pos }
}

/// An alone-spaced comma.
pub open spec fn comma_sep_tok(pos: u32) -> Tok {
    Tok::Punct { ch: ',', spacing: Spacing::Alone, pos }
}

/// Unfolding evaluation over a one-operation prefix.
proof fn lemma_eval_cons(op: OpM, rest: Seq<OpM>, env: Seq<BindM>, vals: Seq<Val>, cur: int, tag: u32)
    ensures
        eval_ops(seq![op] + rest, env, vals, cur, tag) == (match eval_one(op, env, vals, cur, tag) {
            Result::Err(e) => Result::<(Seq<Tok>, int), ErrM>::Err(e),
            Result::Ok((o1, cur1)) => match eval_ops(rest, env, vals, cur1, tag) {
                Result::Err(e) => Result::<(Seq<Tok>, int), ErrM>::Err(e),
                Result::Ok((o2, cur2)) => Result::<(Seq<Tok>, int), ErrM>::Ok((o1 + o2, cur2)),
            },
        }),
{
    let ops = seq![op] + rest;
    assert(ops[0] == op);
    assert(ops.drop_first() =~= rest);
}

/// A single-value splice `#name` expands to exactly the rendering of
/// the bound value, with no extra tokens.
pub proof fn lemma_single_splice(
    name: Seq<char>,
    v: Val,
    env: Seq<BindM>,
    vals: Seq<Val>,
    tag: u32,
    p1: u32,
    p2: u32,
)
    requires
        lookup(env, name) == Option::Some(v),
    ensures
        spec_expand(seq![pound_tok(p1), Tok::Ident { text: name, pos: p2 }], env, vals, tag)
            == Result::<Seq<Tok>, ErrM>::Ok(render_val(v)),
{
    let toks = seq![pound_tok(p1), Tok::Ident { text: name, pos: p2 }];
    assert(toks.skip(2) =~= Seq::<Tok>::empty());
    assert(walk_from(toks.skip(2)) == Result::<Seq<OpM>, ErrM>::Ok(Seq::<OpM>::empty()));
    let op = OpM::Splice { name };
    assert(seq![op] + Seq::<OpM>::empty() =~= seq![op]);
    assert(walk_from(toks) == Result::<Seq<OpM>, ErrM>::Ok(seq![op]));
    lemma_eval_cons(op, Seq::empty(), env, vals, 0, tag);
    assert(seq![op] + Seq::<OpM>::empty() =~= seq![op]);
    assert(render_val(v) + Seq::<Tok>::empty() =~= render_val(v));
}

/// Whether a token sequence holds no interpolation sigil, at any depth.
pub open spec fn pound_free(toks: Seq<Tok>) -> bool
    decreases toks_size(toks), 1nat,
    via pound_free_dec
{
    if toks.len() == 0 {
        true
    } else {
        tok_pound_free(toks[0]) && pound_free(toks.skip(1))
    }
}

pub open spec fn tok_pound_free(t: Tok) -> bool
    decreases tok_size(t), 0nat,
    via tok_pound_free_dec
{
    match t {
        Tok::Punct { ch, .. } => ch != '#',
        Tok::Group { inner, .. } => pound_free(inner),
        _ => true,
    }
}

#[via_fn]
proof fn pound_free_dec(toks: Seq<Tok>) {
    if toks.len() > 0 {
        crate::collect::lemma_collect_sizes(toks);
        crate::walk::lemma_toks_size_single(toks[0]);
    }
}

#[via_fn]
proof fn tok_pound_free_dec(t: Tok) {
    crate::walk::lemma_toks_size_single(t);
}

/// A token re-tagged with the active position, at every depth.
pub open spec fn retag_deep(t: Tok, tag: u32) -> Tok
    decreases tok_size(t), 0nat,
    via retag_deep_dec
{
    match t {
        Tok::Group { delim, inner, .. } => Tok::Group { delim, inner: retag_all(inner, tag), pos: tag },
        _ => retag_tok(t, tag),
    }
}

pub open spec fn retag_all(toks: Seq<Tok>, tag: u32) -> Seq<Tok>
    decreases toks_size(toks), 1nat,
    via retag_all_dec
{
    if toks.len() == 0 {
        Seq::empty()
    } else {
        seq![retag_deep(toks[0], tag)] + retag_all(toks.skip(1), tag)
    }
}

#[via_fn]
proof fn retag_deep_dec(t: Tok, tag: u32) {
    crate::walk::lemma_toks_size_single(t);
}

#[via_fn]
proof fn retag_all_dec(toks: Seq<Tok>, tag: u32) {
    if toks.len() > 0 {
        crate::collect::lemma_collect_sizes(toks);
        crate::walk::lemma_toks_size_single(toks[0]);
    }
}

/// The walk and evaluation of a sigil-free template: every token is
/// appended as it stands, re-tagged, and the computed cursor is untouched.
proof fn lemma_pound_free_expand(
    toks: Seq<Tok>,
    env: Seq<BindM>,
    vals: Seq<Val>,
    cur: int,
    tag: u32,
)
    requires
        pound_free(toks),
    ensures
        walk_from(toks) is Ok,
        eval_ops(walk_from(toks)->Ok_0, env, vals, cur, tag) == Result::<
            (Seq<Tok>, int),
            ErrM,
        >::Ok((retag_all(toks, tag), cur)),
    decreases toks_size(toks),
{
    crate::collect::lemma_collect_sizes(toks);
    if toks.len() == 0 {
        assert(walk_from(toks) == Result::<Seq<OpM>, ErrM>::Ok(Seq::<OpM>::empty()));
    } else {
        let t0 = toks[0];
        let rest = toks.skip(1);
        assert(tok_pound_free(t0) && pound_free(rest)) by {
            assert(pound_free(toks) == (tok_pound_free(toks[0]) && pound_free(toks.skip(1))));
        }
        lemma_pound_free_expand(rest, env, vals, cur, tag);
        let rest_ops = walk_from(rest)->Ok_0;
        match t0 {
            Tok::Group { delim, inner, pos } => {
                assert(pound_free(inner)) by {
                    assert(tok_pound_free(t0) == pound_free(inner));
                }
                assert(tok_size(t0) == 1 + toks_size(inner));
                lemma_pound_free_expand(inner, env, vals, cur, tag);
                let body = walk_from(inner)->Ok_0;
                let op = OpM::Grouped { delim, body };
                assert(walk_from(toks) == prepend_op(op, walk_from(rest)));
                assert(walk_from(toks)->Ok_0 =~= seq![op] + rest_ops);
                lemma_eval_cons(op, rest_ops, env, vals, cur, tag);
                assert(eval_one(op, env, vals, cur, tag) == Result::<(Seq<Tok>, int), ErrM>::Ok(
                    (seq![Tok::Group { delim, inner: retag_all(inner, tag), pos: tag }], cur),
                ));
                assert(seq![retag_deep(t0, tag)] + retag_all(rest, tag) =~= retag_all(toks, tag));
            },
            Tok::Ident { text, pos } => {
                if crate::walk::is_raw_text(text) {
                    let op = OpM::RawIdent { text, pos };
                    assert(walk_from(toks) == prepend_op(op, walk_from(rest)));
                    assert(walk_from(toks)->Ok_0 =~= seq![op] + rest_ops);
                    lemma_eval_cons(op, rest_ops, env, vals, cur, tag);
                } else {
                    let op = OpM::Emit(t0);
                    assert(walk_from(toks) == prepend_op(op, walk_from(rest)));
                    assert(walk_from(toks)->Ok_0 =~= seq![op] + rest_ops);
                    lemma_eval_cons(op, rest_ops, env, vals, cur, tag);
                }
                assert(seq![retag_deep(t0, tag)] + retag_all(rest, tag) =~= retag_all(toks, tag));
            },
            _ => {
                let op = OpM::Emit(t0);
                assert(walk_from(toks) == prepend_op(op, walk_from(rest)));
                assert(walk_from(toks)->Ok_0 =~= seq![op] + rest_ops);
                lemma_eval_cons(op, rest_ops, env, vals, cur, tag);
                assert(seq![retag_deep(t0, tag)] + retag_all(rest, tag) =~= retag_all(toks, tag));
            },
        }
    }
}

/// Identity: a template holding no interpolation sigil expands to
/// exactly its own tokens, re-tagged with the active position, whatever
/// the context holds.
pub proof fn lemma_identity(toks: Seq<Tok>, env: Seq<BindM>, vals: Seq<Val>, tag: u32)
    requires
        pound_free(toks),
    ensures
        spec_expand(toks, env, vals, tag) == Result::<Seq<Tok>, ErrM>::Ok(retag_all(toks, tag)),
{
    lemma_pound_free_expand(toks, env, vals, 0, tag);
}

/// A template whose tokens already carry the active position is returned
/// exactly as given.
pub proof fn lemma_identity_exact(toks: Seq<Tok>, env: Seq<BindM>, vals: Seq<Val>, tag: u32)
    requires
        pound_free(toks),
        retag_all(toks, tag) == toks,
    ensures
        spec_expand(toks, env, vals, tag) == Result::<Seq<Tok>, ErrM>::Ok(toks),
{
    lemma_identity(toks, env, vals, tag);
}

/// The repetition template `#( #name ) *`, with no separator.
pub open spec fn rep_template(name: Seq<char>, p: u32) -> Seq<Tok> {
    seq![
        pound_tok(p),
        Tok::Group { delim: Delim::Paren, inner: seq![pound_tok(p), Tok::Ident { text: name, pos: p }], pos: p },
        star_tok(p),
    ]
}

/// The repetition template `#( #name ) , *`, with a comma separator.
pub open spec fn rep_template_sep(name: Seq<char>, p: u32) -> Seq<Tok> {
    seq![
        pound_tok(p),
        Tok::Group { delim: Delim::Paren, inner: seq![pound_tok(p), Tok::Ident { text: name, pos: p }], pos: p },
        comma_sep_tok(p),
        star_tok(p),
    ]
}

/// The renderings of a sequence's elements, concatenated in order.
pub open spec fn renders_cat(es: Seq<Val>) -> Seq<Tok>
    decreases es.len(),
{
    if es.len() == 0 {
        Seq::empty()
    } else {
        renders_cat(es.drop_last()) + render_val(es.last())
    }
}

/// The renderings of a sequence's elements, joined by a separator token
/// carrying the active position: one separator between neighbours, none
/// leading or trailing.
pub open spec fn renders_joined(es: Seq<Val>, tag: u32) -> Seq<Tok>
    decreases es.len(),
{
    if es.len() == 0 {
        Seq::empty()
    } else if es.len() == 1 {
        render_val(es[0])
    } else {
        renders_joined(es.drop_last(), tag) + seq![comma_sep_tok(tag)] + render_val(es.last())
    }
}

/// The walk of the repetition body `#name`: one splice operation.
proof fn lemma_walk_splice_body(name: Seq<char>, p: u32)
    ensures
        walk_from(seq![pound_tok(p), Tok::Ident { text: name, pos: p }]) == Result::<
            Seq<OpM>,
            ErrM,
        >::Ok(seq![OpM::Splice { name }]),
        collected_names(seq![pound_tok(p), Tok::Ident { text: name, pos: p }]) == seq![name],
{
    let toks = seq![pound_tok(p), Tok::Ident { text: name, pos: p }];
    assert(toks.skip(2) =~= Seq::<Tok>::empty());
    assert(walk_from(toks.skip(2)) == Result::<Seq<OpM>, ErrM>::Ok(Seq::<OpM>::empty()));
    assert(seq![OpM::Splice { name }] + Seq::<OpM>::empty() =~= seq![OpM::Splice { name }]);
    assert(!Seq::<Seq<char>>::empty().contains(name));
    assert(name_insert(Seq::empty(), name) =~= seq![name]);
    assert(collect_from(toks.skip(2), seq![name]) == seq![name]);
}

/// Evaluating `k` iterations of the splice-body repetition over one
/// captured sequence: the first `k` renderings, concatenated.
proof fn lemma_rep_plain(
    name: Seq<char>,
    elems: Seq<Val>,
    env: Seq<BindM>,
    vals: Seq<Val>,
    cur: int,
    tag: u32,
    k: nat,
)
    requires
        k <= elems.len(),
    ensures
        eval_rep(
            seq![OpM::Splice { name }],
            Seq::empty(),
            seq![name],
            seq![elems],
            env,
            vals,
            cur,
            tag,
            k,
        ) == Result::<(Seq<Tok>, int), ErrM>::Ok((renders_cat(elems.take(k as int)), cur)),
    decreases k,
{
    let body = seq![OpM::Splice { name }];
    let sep = Seq::<OpM>::empty();
    let names = seq![name];
    let lists = seq![elems];
    if k == 0 {
        assert(elems.take(0) =~= Seq::<Val>::empty());
    } else {
        lemma_rep_plain(name, elems, env, vals, cur, tag, (k - 1) as nat);
        let i = k - 1;
        let binds = bind_names(names, lists, i);
        assert(names.drop_first() =~= Seq::<Seq<char>>::empty());
        assert(bind_names(names.drop_first(), lists.drop_first(), i) == Seq::<BindM>::empty());
        assert(binds == seq![(name, elems[i])] + bind_names(
            names.drop_first(),
            lists.drop_first(),
            i,
        ));
        assert(seq![(name, elems[i])] + Seq::<BindM>::empty() =~= seq![(name, elems[i])]);
        assert(binds =~= seq![(name, elems[i])]);
        let env_i = env + binds;
        assert(env_i.last() == (name, elems[i]));
        assert(lookup(env_i, name) == Option::Some(elems[i]));
        lemma_eval_cons(OpM::Splice { name }, Seq::empty(), env_i, vals, cur, tag);
        assert(seq![OpM::Splice { name }] + Seq::<OpM>::empty() =~= body);
        assert(eval_ops(Seq::empty(), env_i, vals, cur, tag) == Result::<
            (Seq<Tok>, int),
            ErrM,
        >::Ok((Seq::<Tok>::empty(), cur)));
        assert(render_val(elems[i]) + Seq::<Tok>::empty() =~= render_val(elems[i]));
        assert(eval_ops(body, env_i, vals, cur, tag) == Result::<(Seq<Tok>, int), ErrM>::Ok(
            (render_val(elems[i]), cur),
        ));
        let prev = renders_cat(elems.take(i));
        assert(elems.take(k as int).drop_last() =~= elems.take(i));
        assert(elems.take(k as int).last() == elems[i]);
        assert(renders_cat(elems.take(k as int)) == prev + render_val(elems[i]));
        assert(prev + Seq::<Tok>::empty() + render_val(elems[i]) =~= prev + render_val(elems[i]));
    }
}

/// Round trip of a plain repetition: `#( #name ) *` over a captured
/// sequence of length N yields the N renderings of its elements in order,
/// and nothing else; N = 0 yields the empty sequence.
pub proof fn lemma_repetition_round_trip(
    name: Seq<char>,
    elems: Seq<Val>,
    env: Seq<BindM>,
    vals: Seq<Val>,
    tag: u32,
    p: u32,
)
    requires
        lookup(env, name) == Option::Some(Val::List(elems)),
    ensures
        spec_expand(rep_template(name, p), env, vals, tag) == Result::<Seq<Tok>, ErrM>::Ok(
            renders_cat(elems),
        ),
{
    let toks = rep_template(name, p);
    let inner = seq![pound_tok(p), Tok::Ident { text: name, pos: p }];
    assert(toks.skip(2) =~= seq![star_tok(p)]);
    assert(crate::classify::classify(seq![star_tok(p)]) == (crate::classify::SepScan::Valid {
        sep: Seq::<Tok>::empty(),
        used: 1,
    }));
    lemma_walk_splice_body(name, p);
    assert(toks.skip(3) =~= Seq::<Tok>::empty());
    assert(walk_from(Seq::<Tok>::empty()) == Result::<Seq<OpM>, ErrM>::Ok(Seq::<OpM>::empty()));
    let op = OpM::Repeat {
        body: seq![OpM::Splice { name }],
        names: seq![name],
        sep: Seq::<OpM>::empty(),
    };
    assert(seq![op] + Seq::<OpM>::empty() =~= seq![op]);
    assert(walk_from(toks) == Result::<Seq<OpM>, ErrM>::Ok(seq![op]));
    // Evaluation: one captured list, iterated to its length.
    assert(seq![name].drop_first() =~= Seq::<Seq<char>>::empty());
    assert(lookup_lists(env, Seq::<Seq<char>>::empty()) == Result::<Seq<Seq<Val>>, ErrM>::Ok(
        Seq::<Seq<Val>>::empty(),
    ));
    assert(seq![elems] + Seq::<Seq<Val>>::empty() =~= seq![elems]);
    assert(lookup_lists(env, seq![name]) == Result::<Seq<Seq<Val>>, ErrM>::Ok(seq![elems]));
    assert(min_len(seq![elems]) == elems.len());
    lemma_rep_plain(name, elems, env, vals, 0, tag, elems.len());
    assert(elems.take(elems.len() as int) =~= elems);
    lemma_eval_cons(op, Seq::empty(), env, vals, 0, tag);
    assert(seq![op] + Seq::<OpM>::empty() =~= seq![op]);
    assert(renders_cat(elems) + Seq::<Tok>::empty() =~= renders_cat(elems));
}

/// Evaluating `k` iterations of the splice-body repetition with a comma
/// separator: the first `k` renderings, comma-joined.
proof fn lemma_rep_sep(
    name: Seq<char>,
    elems: Seq<Val>,
    env: Seq<BindM>,
    vals: Seq<Val>,
    cur: int,
    tag: u32,
    p: u32,
    k: nat,
)
    requires
        k <= elems.len(),
    ensures
        eval_rep(
            seq![OpM::Splice { name }],
            seq![OpM::Emit(comma_sep_tok(p))],
            seq![name],
            seq![elems],
            env,
            vals,
            cur,
            tag,
            k,
        ) == Result::<(Seq<Tok>, int), ErrM>::Ok((renders_joined(elems.take(k as int), tag), cur)),
    decreases k,
{
    let body = seq![OpM::Splice { name }];
    let sep = seq![OpM::Emit(comma_sep_tok(p))];
    let names = seq![name];
    let lists = seq![elems];
    if k == 0 {
        assert(elems.take(0) =~= Seq::<Val>::empty());
    } else {
        lemma_rep_sep(name, elems, env, vals, cur, tag, p, (k - 1) as nat);
        let i = k - 1;
        let binds = bind_names(names, lists, i);
        assert(names.drop_first() =~= Seq::<Seq<char>>::empty());
        assert(bind_names(names.drop_first(), lists.drop_first(), i) == Seq::<BindM>::empty());
        assert(binds == seq![(name, elems[i])] + bind_names(
            names.drop_first(),
            lists.drop_first(),
            i,
        ));
        assert(seq![(name, elems[i])] + Seq::<BindM>::empty() =~= seq![(name, elems[i])]);
        assert(binds =~= seq![(name, elems[i])]);
        let env_i = env + binds;
        assert(env_i.last() == (name, elems[i]));
        assert(lookup(env_i, name) == Option::Some(elems[i]));
        lemma_eval_cons(OpM::Splice { name }, Seq::empty(), env_i, vals, cur, tag);
        assert(seq![OpM::Splice { name }] + Seq::<OpM>::empty() =~= body);
        assert(render_val(elems[i]) + Seq::<Tok>::empty() =~= render_val(elems[i]));
        assert(eval_ops(body, env_i, vals, cur, tag) == Result::<(Seq<Tok>, int), ErrM>::Ok(
            (render_val(elems[i]), cur),
        ));
        lemma_eval_cons(OpM::Emit(comma_sep_tok(p)), Seq::empty(), env_i, vals, cur, tag);
        assert(seq![OpM::Emit(comma_sep_tok(p))] + Seq::<OpM>::empty() =~= sep);
        assert(retag_tok(comma_sep_tok(p), tag) == comma_sep_tok(tag));
        assert(seq![comma_sep_tok(tag)] + Seq::<Tok>::empty() =~= seq![comma_sep_tok(tag)]);
        assert(eval_ops(sep, env_i, vals, cur, tag) == Result::<(Seq<Tok>, int), ErrM>::Ok(
            (seq![comma_sep_tok(tag)], cur),
        ));
        let prev = renders_joined(elems.take(i), tag);
        assert(elems.take(k as int).drop_last() =~= elems.take(i));
        assert(elems.take(k as int).last() == elems[i]);
        if k == 1 {
            assert(elems.take(1)[0] == elems[0]);
            assert(renders_joined(elems.take(1), tag) == render_val(elems[0]));
            assert(prev + Seq::<Tok>::empty() + render_val(elems[i]) =~= render_val(elems[i]));
        } else {
            assert(renders_joined(elems.take(k as int), tag) == prev + seq![comma_sep_tok(tag)]
                + render_val(elems[i]));
        }
    }
}

/// Round trip with a separator: `#( #name ) , *` over a captured
/// sequence of length N yields its N renderings joined by exactly N - 1
/// separator tokens, none leading or trailing.
pub proof fn lemma_repetition_round_trip_sep(
    name: Seq<char>,
    elems: Seq<Val>,
    env: Seq<BindM>,
    vals: Seq<Val>,
    tag: u32,
    p: u32,
)
    requires
        lookup(env, name) == Option::Some(Val::List(elems)),
    ensures
        spec_expand(rep_template_sep(name, p), env, vals, tag) == Result::<Seq<Tok>, ErrM>::Ok(
            renders_joined(elems, tag),
        ),
{
    let toks = rep_template_sep(name, p);
    let inner = seq![pound_tok(p), Tok::Ident { text: name, pos: p }];
    assert(toks.skip(2) =~= seq![comma_sep_tok(p), star_tok(p)]);
    let after = seq![comma_sep_tok(p), star_tok(p)];
    assert(crate::classify::classify_from(after, 1, seq![comma_sep_tok(p)], true)
        == (crate::classify::SepScan::Valid { sep: seq![comma_sep_tok(p)], used: 2 }));
    assert(Seq::<Tok>::empty().push(comma_sep_tok(p)) =~= seq![comma_sep_tok(p)]);
    assert(crate::classify::classify(after) == (crate::classify::SepScan::Valid {
        sep: seq![comma_sep_tok(p)],
        used: 2,
    }));
    lemma_walk_splice_body(name, p);
    assert(toks.skip(4) =~= Seq::<Tok>::empty());
    // The separator tokens walk to a single append operation.
    let sepw = seq![comma_sep_tok(p)];
    assert(sepw.skip(1) =~= Seq::<Tok>::empty());
    assert(walk_from(Seq::<Tok>::empty()) == Result::<Seq<OpM>, ErrM>::Ok(Seq::<OpM>::empty()));
    assert(seq![OpM::Emit(comma_sep_tok(p))] + Seq::<OpM>::empty() =~= seq![
        OpM::Emit(comma_sep_tok(p)),
    ]);
    assert(walk_from(sepw) == Result::<Seq<OpM>, ErrM>::Ok(seq![OpM::Emit(comma_sep_tok(p))]));
    let op = OpM::Repeat {
        body: seq![OpM::Splice { name }],
        names: seq![name],
        sep: seq![OpM::Emit(comma_sep_tok(p))],
    };
    assert(seq![op] + Seq::<OpM>::empty() =~= seq![op]);
    assert(walk_from(toks) == Result::<Seq<OpM>, ErrM>::Ok(seq![op]));
    assert(seq![name].drop_first() =~= Seq::<Seq<char>>::empty());
    assert(lookup_lists(env, Seq::<Seq<char>>::empty()) == Result::<Seq<Seq<Val>>, ErrM>::Ok(
        Seq::<Seq<Val>>::empty(),
    ));
    assert(seq![elems] + Seq::<Seq<Val>>::empty() =~= seq![elems]);
    assert(lookup_lists(env, seq![name]) == Result::<Seq<Seq<Val>>, ErrM>::Ok(seq![elems]));
    assert(min_len(seq![elems]) == elems.len());
    lemma_rep_sep(name, elems, env, vals, 0, tag, p, elems.len());
    assert(elems.take(elems.len() as int) =~= elems);
    lemma_eval_cons(op, Seq::empty(), env, vals, 0, tag);
    assert(seq![op] + Seq::<OpM>::empty() =~= seq![op]);
    assert(renders_joined(elems, tag) + Seq::<Tok>::empty() =~= renders_joined(elems, tag));
}

/// The zipped repetition template `#( #a #b ) , *`.
pub open spec fn zip_template(a: Seq<char>, b: Seq<char>, p: u32) -> Seq<Tok> {
    seq![
        pound_tok(p),
        Tok::Group {
            delim: Delim::Paren,
            inner: seq![
                pound_tok(p),
                Tok::Ident { text: a, pos: p },
                pound_tok(p),
                Tok::Ident { text: b, pos: p },
            ],
            pos: p,
        },
        comma_sep_tok(p),
        star_tok(p),
    ]
}

/// The first `k` zipped pairs, each pair the first sequence's rendering
/// immediately followed by the second's, comma-joined across pairs.
pub open spec fn zip_pairs_joined(av: Seq<Val>, bv: Seq<Val>, tag: u32, k: nat) -> Seq<Tok>
    decreases k,
{
    if k == 0 {
        Seq::empty()
    } else if k == 1 {
        render_val(av[0]) + render_val(bv[0])
    } else {
        zip_pairs_joined(av, bv, tag, (k - 1) as nat) + seq![comma_sep_tok(tag)] + render_val(
            av[k - 1],
        ) + render_val(bv[k - 1])
    }
}

/// Evaluating `k` iterations of the zipped repetition.
proof fn lemma_zip_rep(
    a: Seq<char>,
    b: Seq<char>,
    av: Seq<Val>,
    bv: Seq<Val>,
    env: Seq<BindM>,
    vals: Seq<Val>,
    cur: int,
    tag: u32,
    p: u32,
    k: nat,
)
    requires
        a != b,
        k <= av.len(),
        k <= bv.len(),
    ensures
        eval_rep(
            seq![OpM::Splice { name: a }, OpM::Splice { name: b }],
            seq![OpM::Emit(comma_sep_tok(p))],
            seq![a, b],
            seq![av, bv],
            env,
            vals,
            cur,
            tag,
            k,
        ) == Result::<(Seq<Tok>, int), ErrM>::Ok((zip_pairs_joined(av, bv, tag, k), cur)),
    decreases k,
{
    let body = seq![OpM::Splice { name: a }, OpM::Splice { name: b }];
    let sep = seq![OpM::Emit(comma_sep_tok(p))];
    let names = seq![a, b];
    let lists = seq![av, bv];
    if k == 0 {
    } else {
        lemma_zip_rep(a, b, av, bv, env, vals, cur, tag, p, (k - 1) as nat);
        let i = k - 1;
        // The iteration's bindings, in declaration order.
        let binds = bind_names(names, lists, i);
        assert(names.drop_first() =~= seq![b]);
        assert(lists.drop_first() =~= seq![bv]);
        assert(seq![b].drop_first() =~= Seq::<Seq<char>>::empty());
        assert(bind_names(Seq::<Seq<char>>::empty(), seq![bv].drop_first(), i) == Seq::<
            BindM,
        >::empty());
        assert(bind_names(seq![b], seq![bv], i) == seq![(b, bv[i])] + Seq::<BindM>::empty());
        assert(seq![(b, bv[i])] + Seq::<BindM>::empty() =~= seq![(b, bv[i])]);
        assert(binds == seq![(a, av[i])] + seq![(b, bv[i])]);
        assert(binds =~= seq![(a, av[i]), (b, bv[i])]);
        let env_i = env + binds;
        // Lookups: the second binding is innermost; the first sits under it.
        assert(env_i.last() == (b, bv[i]));
        assert(lookup(env_i, b) == Option::Some(bv[i]));
        assert(env_i.drop_last() =~= env + seq![(a, av[i])]);
        assert((env + seq![(a, av[i])]).last() == (a, av[i]));
        assert(lookup(env + seq![(a, av[i])], a) == Option::Some(av[i]));
        assert(lookup(env_i, a) == lookup(env_i.drop_last(), a));
        assert(lookup(env_i, a) == Option::Some(av[i]));
        // The body renders the pair.
        assert(body.drop_first() =~= seq![OpM::Splice { name: b }]);
        lemma_eval_cons(OpM::Splice { name: b }, Seq::empty(), env_i, vals, cur, tag);
        assert(seq![OpM::Splice { name: b }] + Seq::<OpM>::empty() =~= seq![
            OpM::Splice { name: b },
        ]);
        assert(render_val(bv[i]) + Seq::<Tok>::empty() =~= render_val(bv[i]));
        assert(eval_ops(seq![OpM::Splice { name: b }], env_i, vals, cur, tag) == Result::<
            (Seq<Tok>, int),
            ErrM,
        >::Ok((render_val(bv[i]), cur)));
        lemma_eval_cons(OpM::Splice { name: a }, seq![OpM::Splice { name: b }], env_i, vals, cur, tag);
        assert(seq![OpM::Splice { name: a }] + seq![OpM::Splice { name: b }] =~= body);
        assert(eval_ops(body, env_i, vals, cur, tag) == Result::<(Seq<Tok>, int), ErrM>::Ok(
            (render_val(av[i]) + render_val(bv[i]), cur),
        ));
        // The separator.
        lemma_eval_cons(OpM::Emit(comma_sep_tok(p)), Seq::empty(), env_i, vals, cur, tag);
        assert(seq![OpM::Emit(comma_sep_tok(p))] + Seq::<OpM>::empty() =~= sep);
        assert(retag_tok(comma_sep_tok(p), tag) == comma_sep_tok(tag));
        assert(seq![comma_sep_tok(tag)] + Seq::<Tok>::empty() =~= seq![comma_sep_tok(tag)]);
        assert(eval_ops(sep, env_i, vals, cur, tag) == Result::<(Seq<Tok>, int), ErrM>::Ok(
            (seq![comma_sep_tok(tag)], cur),
        ));
        let prev = zip_pairs_joined(av, bv, tag, (k - 1) as nat);
        if k == 1 {
            assert(prev + Seq::<Tok>::empty() + (render_val(av[0]) + render_val(bv[0])) =~=
                render_val(av[0]) + render_val(bv[0]));
        } else {
            assert(prev + seq![comma_sep_tok(tag)] + (render_val(av[i]) + render_val(bv[i])) =~=
                prev + seq![comma_sep_tok(tag)] + render_val(av[i]) + render_val(bv[i]));
        }
    }
}

/// Zipping: `#( #a #b ) , *` over two captured sequences yields
/// exactly as many joined pairs as the shorter sequence holds, each pair
/// being `a`'s element rendering immediately followed by `b`'s.
pub proof fn lemma_zip_law(
    a: Seq<char>,
    b: Seq<char>,
    av: Seq<Val>,
    bv: Seq<Val>,
    env: Seq<BindM>,
    vals: Seq<Val>,
    tag: u32,
    p: u32,
)
    requires
        a != b,
        lookup(env, a) == Option::Some(Val::List(av)),
        lookup(env, b) == Option::Some(Val::List(bv)),
    ensures
        spec_expand(zip_template(a, b, p), env, vals, tag) == Result::<Seq<Tok>, ErrM>::Ok(
            zip_pairs_joined(
                av,
                bv,
                tag,
                if av.len() <= bv.len() {
                    av.len()
                } else {
                    bv.len()
                },
            ),
        ),
{
    let toks = zip_template(a, b, p);
    let inner = seq![
        pound_tok(p),
        Tok::Ident { text: a, pos: p },
        pound_tok(p),
        Tok::Ident { text: b, pos: p },
    ];
    // Separator classification, as for the single-name case.
    assert(toks.skip(2) =~= seq![comma_sep_tok(p), star_tok(p)]);
    let after = seq![comma_sep_tok(p), star_tok(p)];
    assert(Seq::<Tok>::empty().push(comma_sep_tok(p)) =~= seq![comma_sep_tok(p)]);
    assert(crate::classify::classify_from(after, 1, seq![comma_sep_tok(p)], true)
        == (crate::classify::SepScan::Valid { sep: seq![comma_sep_tok(p)], used: 2 }));
    assert(crate::classify::classify(after) == (crate::classify::SepScan::Valid {
        sep: seq![comma_sep_tok(p)],
        used: 2,
    }));
    // Collected names: first-occurrence order, both names.
    assert(!Seq::<Seq<char>>::empty().contains(a));
    assert(name_insert(Seq::empty(), a) =~= seq![a]);
    assert(inner.skip(2) =~= seq![pound_tok(p), Tok::Ident { text: b, pos: p }]);
    assert(forall|j: int| 0 <= j < seq![a].len() ==> seq![a][j] == a);
    assert(!seq![a].contains(b));
    assert(name_insert(seq![a], b) =~= seq![a, b]);
    assert(inner.skip(2).skip(2) =~= Seq::<Tok>::empty());
    assert(collect_from(inner.skip(2).skip(2), seq![a, b]) == seq![a, b]);
    assert(collect_from(inner.skip(2), seq![a]) == seq![a, b]);
    assert(collected_names(inner) == seq![a, b]);
    // The body walks to two splices.
    assert(inner.skip(2).skip(2) =~= Seq::<Tok>::empty());
    assert(walk_from(Seq::<Tok>::empty()) == Result::<Seq<OpM>, ErrM>::Ok(Seq::<OpM>::empty()));
    assert(seq![OpM::Splice { name: b }] + Seq::<OpM>::empty() =~= seq![OpM::Splice { name: b }]);
    assert(walk_from(inner.skip(2)) == Result::<Seq<OpM>, ErrM>::Ok(seq![OpM::Splice { name: b }]));
    assert(seq![OpM::Splice { name: a }] + seq![OpM::Splice { name: b }] =~= seq![
        OpM::Splice { name: a },
        OpM::Splice { name: b },
    ]);
    assert(walk_from(inner) == Result::<Seq<OpM>, ErrM>::Ok(
        seq![OpM::Splice { name: a }, OpM::Splice { name: b }],
    ));
    // The separator walks to one append.
    let sepw = seq![comma_sep_tok(p)];
    assert(sepw.skip(1) =~= Seq::<Tok>::empty());
    assert(seq![OpM::Emit(comma_sep_tok(p))] + Seq::<OpM>::empty() =~= seq![
        OpM::Emit(comma_sep_tok(p)),
    ]);
    assert(walk_from(sepw) == Result::<Seq<OpM>, ErrM>::Ok(seq![OpM::Emit(comma_sep_tok(p))]));
    assert(toks.skip(4) =~= Seq::<Tok>::empty());
    let op = OpM::Repeat {
        body: seq![OpM::Splice { name: a }, OpM::Splice { name: b }],
        names: seq![a, b],
        sep: seq![OpM::Emit(comma_sep_tok(p))],
    };
    assert(seq![op] + Seq::<OpM>::empty() =~= seq![op]);
    assert(walk_from(toks) == Result::<Seq<OpM>, ErrM>::Ok(seq![op]));
    // Evaluation: both captured lists, zipped to the shorter length.
    assert(seq![a, b].drop_first() =~= seq![b]);
    assert(seq![b].drop_first() =~= Seq::<Seq<char>>::empty());
    assert(lookup_lists(env, Seq::<Seq<char>>::empty()) == Result::<Seq<Seq<Val>>, ErrM>::Ok(
        Seq::<Seq<Val>>::empty(),
    ));
    assert(seq![bv] + Seq::<Seq<Val>>::empty() =~= seq![bv]);
    assert(lookup_lists(env, seq![b]) == Result::<Seq<Seq<Val>>, ErrM>::Ok(seq![bv]));
    assert(seq![av] + seq![bv] =~= seq![av, bv]);
    assert(lookup_lists(env, seq![a, b]) == Result::<Seq<Seq<Val>>, ErrM>::Ok(seq![av, bv]));
    assert(seq![av, bv].drop_first() =~= seq![bv]);
    assert(min_len(seq![bv]) == bv.len());
    let count: nat = if av.len() <= bv.len() {
        av.len()
    } else {
        bv.len()
    };
    assert(min_len(seq![av, bv]) == count);
    lemma_zip_rep(a, b, av, bv, env, vals, 0, tag, p, count);
    lemma_eval_cons(op, Seq::empty(), env, vals, 0, tag);
    assert(seq![op] + Seq::<OpM>::empty() =~= seq![op]);
    assert(zip_pairs_joined(av, bv, tag, count) + Seq::<Tok>::empty() =~= zip_pairs_joined(
        av,
        bv,
        tag,
        count,
    ));
}

/// Whether an operation holds no computed splice, at any depth.  Such
/// operations never consume host-evaluated values, so evaluating them
/// leaves the computed-value cursor untouched.
pub open spec fn opm_computed_free(o: OpM) -> bool
    decreases o,
{
    match o {
        OpM::Computed { .. } => false,
        OpM::Grouped { body, .. } => opsm_computed_free(body),
        OpM::Repeat { body, sep, .. } => opsm_computed_free(body) && opsm_computed_free(sep),
        _ => true,
    }
}

pub open spec fn opsm_computed_free(s: Seq<OpM>) -> bool
    decreases s,
{
    if s.len() == 0 {
        true
    } else {
        opm_computed_free(s[0]) && opsm_computed_free(s.drop_first())
    }
}

/// Successfully evaluating computed-free operations leaves the cursor
/// where it was.
proof fn lemma_eval_ops_fixed_cursor(
    ops: Seq<OpM>,
    env: Seq<BindM>,
    vals: Seq<Val>,
    cur: int,
    tag: u32,
)
    requires
        opsm_computed_free(ops),
        eval_ops(ops, env, vals, cur, tag) is Ok,
    ensures
        eval_ops(ops, env, vals, cur, tag)->Ok_0.1 == cur,
    decreases opsm_size(ops), 0nat, 1nat,
{
    if ops.len() > 0 {
        lemma_opm_size_pos(ops[0]);
        assert(opsm_size(ops) == opm_size(ops[0]) + opsm_size(ops.drop_first()));
        lemma_eval_one_fixed_cursor(ops[0], env, vals, cur, tag);
        lemma_eval_ops_fixed_cursor(ops.drop_first(), env, vals, cur, tag);
    }
}

proof fn lemma_eval_one_fixed_cursor(op: OpM, env: Seq<BindM>, vals: Seq<Val>, cur: int, tag: u32)
    requires
        opm_computed_free(op),
        eval_one(op, env, vals, cur, tag) is Ok,
    ensures
        eval_one(op, env, vals, cur, tag)->Ok_0.1 == cur,
    decreases opm_size(op), 0nat, 0nat,
{
    match op {
        OpM::Grouped { body, .. } => {
            lemma_eval_ops_fixed_cursor(body, env, vals, cur, tag);
        },
        OpM::Repeat { body, names, sep } => {
            match lookup_lists(env, names) {
                Result::Err(_) => {},
                Result::Ok(lists) => {
                    lemma_eval_rep_fixed_cursor(
                        body,
                        sep,
                        names,
                        lists,
                        env,
                        vals,
                        cur,
                        tag,
                        min_len(lists),
                    );
                },
            }
        },
        _ => {},
    }
}

proof fn lemma_eval_rep_fixed_cursor(
    body: Seq<OpM>,
    sep: Seq<OpM>,
    names: Seq<Seq<char>>,
    lists: Seq<Seq<Val>>,
    env: Seq<BindM>,
    vals: Seq<Val>,
    cur: int,
    tag: u32,
    k: nat,
)
    requires
        opsm_computed_free(body),
        opsm_computed_free(sep),
        eval_rep(body, sep, names, lists, env, vals, cur, tag, k) is Ok,
    ensures
        eval_rep(body, sep, names, lists, env, vals, cur, tag, k)->Ok_0.1 == cur,
    decreases opsm_size(body) + opsm_size(sep), k, 1nat,
{
    if k > 0 {
        lemma_eval_rep_fixed_cursor(body, sep, names, lists, env, vals, cur, tag, (k - 1) as nat);
        let env_i = env + bind_names(names, lists, k - 1);
        if k > 1 {
            lemma_eval_ops_fixed_cursor(sep, env_i, vals, cur, tag);
        }
        lemma_eval_ops_fixed_cursor(body, env_i, vals, cur, tag);
    }
}

/// The output of the first `k` iterations of a computed-free repetition:
/// each iteration's body output under that iteration's bindings, with the
/// separator's output between consecutive iterations only — none leading,
/// none trailing.
pub open spec fn rep_joined_general(
    body: Seq<OpM>,
    sep: Seq<OpM>,
    names: Seq<Seq<char>>,
    lists: Seq<Seq<Val>>,
    env: Seq<BindM>,
    vals: Seq<Val>,
    cur: int,
    tag: u32,
    k: nat,
) -> Seq<Tok>
    decreases k,
{
    if k == 0 {
        Seq::empty()
    } else {
        let env_i = env + bind_names(names, lists, k - 1);
        rep_joined_general(body, sep, names, lists, env, vals, cur, tag, (k - 1) as nat) + (
        if k == 1 {
            Seq::<Tok>::empty()
        } else {
            eval_ops(sep, env_i, vals, cur, tag)->Ok_0.0
        }) + eval_ops(body, env_i, vals, cur, tag)->Ok_0.0
    }
}

/// Round trip of a repetition with an arbitrary computed-free body and
/// separator: a successful run of `k` iterations emits exactly the `k`
/// body outputs, each under its own iteration's bindings, joined by the
/// separator's output between consecutive iterations (so `k - 1` separator
/// renderings, none leading or trailing), every iteration's evaluation
/// succeeded on its own, and the computed-value cursor is untouched.
pub proof fn lemma_repetition_general(
    body: Seq<OpM>,
    sep: Seq<OpM>,
    names: Seq<Seq<char>>,
    lists: Seq<Seq<Val>>,
    env: Seq<BindM>,
    vals: Seq<Val>,
    cur: int,
    tag: u32,
    k: nat,
)
    requires
        opsm_computed_free(body),
        opsm_computed_free(sep),
        eval_rep(body, sep, names, lists, env, vals, cur, tag, k) is Ok,
    ensures
        eval_rep(body, sep, names, lists, env, vals, cur, tag, k) == Result::<
            (Seq<Tok>, int),
            ErrM,
        >::Ok((rep_joined_general(body, sep, names, lists, env, vals, cur, tag, k), cur)),
        forall|i: int|
            0 <= i < k ==> eval_ops(body, env + bind_names(names, lists, i), vals, cur, tag)
                is Ok,
        forall|i: int|
            1 <= i < k ==> eval_ops(sep, env + bind_names(names, lists, i), vals, cur, tag)
                is Ok,
    decreases k,
{
    if k > 0 {
        lemma_repetition_general(body, sep, names, lists, env, vals, cur, tag, (k - 1) as nat);
        let env_i = env + bind_names(names, lists, k - 1);
        if k > 1 {
            lemma_eval_ops_fixed_cursor(sep, env_i, vals, cur, tag);
        }
        lemma_eval_ops_fixed_cursor(body, env_i, vals, cur, tag);
        assert forall|i: int|
            0 <= i < k implies eval_ops(body, env + bind_names(names, lists, i), vals, cur, tag)
            is Ok by {
            if i == k - 1 {
                assert(eval_ops(body, env_i, vals, cur, tag) is Ok);
            }
        }
        assert forall|i: int|
            1 <= i < k implies eval_ops(sep, env + bind_names(names, lists, i), vals, cur, tag)
            is Ok by {
            if i == k - 1 {
                assert(eval_ops(sep, env_i, vals, cur, tag) is Ok);
            }
        }
    }
}

/// The operation-level form: a recognised repetition over captured
/// sequences iterates to the shortest sequence's length, and a successful
/// evaluation emits exactly those iterations' outputs, separator-joined.
pub proof fn lemma_repeat_op_round_trip(
    body: Seq<OpM>,
    sep: Seq<OpM>,
    names: Seq<Seq<char>>,
    lists: Seq<Seq<Val>>,
    env: Seq<BindM>,
    vals: Seq<Val>,
    cur: int,
    tag: u32,
)
    requires
        opsm_computed_free(body),
        opsm_computed_free(sep),
        lookup_lists(env, names) == Result::<Seq<Seq<Val>>, ErrM>::Ok(lists),
        eval_one(OpM::Repeat { body, names, sep }, env, vals, cur, tag) is Ok,
    ensures
        eval_one(OpM::Repeat { body, names, sep }, env, vals, cur, tag) == Result::<
            (Seq<Tok>, int),
            ErrM,
        >::Ok(
            (
                rep_joined_general(body, sep, names, lists, env, vals, cur, tag, min_len(lists)),
                cur,
            ),
        ),
{
    lemma_repetition_general(body, sep, names, lists, env, vals, cur, tag, min_len(lists));
}

} // verus!
