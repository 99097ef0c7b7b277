//! Whole-template expansion: walking the raw template and assembling its
//! operations against a fresh accumulator.

use vstd::prelude::*;
use vstd::string::StringExecFns;

use crate::assemble::{BindM, Binding, env_of, env_wf, eval_ops};
use crate::token::{POS_HERE, Tok};
use crate::tokens::Tokens;
use crate::value::{Val, Value, vals_of, vals_wf};
use crate::walk::{ErrM, ExpandError, Op, walk_at, walk_from};

verus! {

/// The expansion of a template under a context, host-evaluated computed
/// values, and an active position tag: the walk's operations run against
/// an empty accumulator.
pub open spec fn spec_expand(
    template: Seq<Tok>,
    env: Seq<BindM>,
    vals: Seq<Val>,
    tag: u32,
) -> Result<Seq<Tok>, ErrM> {
    match walk_from(template) {
        Result::Err(e) => Result::Err(e),
        Result::Ok(ops) => match eval_ops(ops, env, vals, 0, tag) {
            Result::Err(e) => Result::Err(e),
            Result::Ok((o, _)) => Result::Ok(o),
        },
    }
}

/// Expands a template, stamping every emitted token with the given
/// position tag.  `env` binds the names single splices and repetitions
/// refer to; `vals` holds the host-evaluated results of computed blocks,
/// consumed in evaluation order.  No partial output is handed back: on
/// any construction failure the whole expansion is the error.
pub fn expand_spanned(
    template: &Tokens,
    env: &Vec<Binding>,
    vals: &Vec<Value>,
    tag: u32,
) -> (r: Result<Tokens, ExpandError>)
    requires
        env_wf(env_of(env@)),
        vals_wf(vals_of(vals@)),
    ensures
        match r {
            Result::Ok(out) => spec_expand(template@, env_of(env@), vals_of(vals@), tag)
                == Result::<Seq<Tok>, ErrM>::Ok(out@),
            Result::Err(e) => spec_expand(template@, env_of(env@), vals_of(vals@), tag)
                == Result::<Seq<Tok>, ErrM>::Err(e@),
        },
{
    let tts = template.tokens();
    proof {
        assert(crate::token::toks_of(tts@).skip(0) =~= crate::token::toks_of(tts@));
    }
    let ops: Vec<Op> = match walk_at(tts, 0) {
        Result::Err(e) => {
            return Result::Err(e);
        },
        Result::Ok(ops) => ops,
    };
    let mut out: Tokens = Tokens::new();
    match crate::assemble::eval_ops_exec(&ops, env, vals, 0, tag, &mut out) {
        Result::Err(e) => Result::Err(e),
        Result::Ok(_) => {
            proof {
                let er = eval_ops(
                    crate::walk::ops_of(ops@),
                    env_of(env@),
                    vals_of(vals@),
                    0,
                    tag,
                );
                assert(Seq::<Tok>::empty() + er->Ok_0.0 =~= er->Ok_0.0);
            }
            Result::Ok(out)
        },
    }
}

/// Expands a template with the default "here" position tag.
pub fn expand(template: &Tokens, env: &Vec<Binding>, vals: &Vec<Value>) -> (r: Result<
    Tokens,
    ExpandError,
>)
    requires
        env_wf(env_of(env@)),
        vals_wf(vals_of(vals@)),
    ensures
        match r {
            Result::Ok(out) => spec_expand(template@, env_of(env@), vals_of(vals@), POS_HERE)
                == Result::<Seq<Tok>, ErrM>::Ok(out@),
            Result::Err(e) => spec_expand(template@, env_of(env@), vals_of(vals@), POS_HERE)
                == Result::<Seq<Tok>, ErrM>::Err(e@),
        },
{
    expand_spanned(template, env, vals, POS_HERE)
}

impl ExpandError {
    /// A description of the failure, identifying the offending template
    /// region: the repetition's position tag, or the variable's name.
    pub fn describe(&self) -> (r: String)
        ensures
            (match *self {
                ExpandError::EmptyRepetition { pos } => r@ == "repetition at position tag "@
                    + crate::text::dec_str(pos as nat)
                    + " captures no variable to iterate over"@,
                ExpandError::Unbound { name } => r@ == "no binding for spliced name: "@ + name@,
                ExpandError::NotIterable { name } => r@
                    == "binding is not a sequence for repeated name: "@ + name@,
                ExpandError::MissingComputed => r@
                    == "no host-evaluated value left for a computed splice"@,
            }),
    {
        match self {
            ExpandError::EmptyRepetition { pos } => {
                let mut digits: Vec<char> = Vec::new();
                crate::text::push_dec_u64(*pos as u64, &mut digits);
                let tag_text: String = crate::text::chars_to_string(&digits);
                String::from_str("repetition at position tag ").concat(tag_text.as_str()).concat(
                    " captures no variable to iterate over",
                )
            },
            ExpandError::Unbound { name } => String::from_str("no binding for spliced name: ")
                .concat(name.as_str()),
            ExpandError::NotIterable { name } => String::from_str(
                "binding is not a sequence for repeated name: ",
            ).concat(name.as_str()),
            ExpandError::MissingComputed => String::from_str(
                "no host-evaluated value left for a computed splice",
            ),
        }
    }
}

} // verus!
