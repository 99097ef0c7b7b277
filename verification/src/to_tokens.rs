//! The splice protocol: the contract every interpolatable value satisfies,
//! "render yourself as tokens, appended to an accumulator", with one
//! implementation per supported category.

use vstd::prelude::*;

use crate::token::{Tok, Token};
use crate::tokens::Tokens;
use crate::value::{IntKind, Val, Value, render_val, render_value, val_of, val_wf};

verus! {

/// Types that can be interpolated into a template expansion.
pub trait ToTokens {
    /// The token sequence this value renders as.
    spec fn to_toks(&self) -> Seq<Tok>;

    /// Validity this value's rendering relies on.
    spec fn tt_wf(&self) -> bool;

    /// Writes `self` to the given accumulator.
    fn to_tokens(&self, tokens: &mut Tokens)
        requires
            self.tt_wf(),
        ensures
            final(tokens)@ == old(tokens)@ + self.to_toks(),
    ;

    /// Renders `self` into a fresh accumulator.
    fn into_tokens(self) -> (r: Tokens) where Self: Sized
        requires
            self.tt_wf(),
        ensures
            r@ == self.to_toks(),
    {
        let mut t: Tokens = Tokens::new();
        self.to_tokens(&mut t);
        proof {
            assert(Seq::<Tok>::empty() + self.to_toks() =~= self.to_toks());
        }
        t
    }
}

impl ToTokens for Token {
    open spec fn to_toks(&self) -> Seq<Tok> {
        seq![self@]
    }

    open spec fn tt_wf(&self) -> bool {
        true
    }

    fn to_tokens(&self, tokens: &mut Tokens) {
        tokens.append(self.clone());
    }
}

impl ToTokens for Tokens {
    open spec fn to_toks(&self) -> Seq<Tok> {
        self@
    }

    open spec fn tt_wf(&self) -> bool {
        true
    }

    fn to_tokens(&self, tokens: &mut Tokens) {
        tokens.append_tokens(self);
    }
}

impl ToTokens for Value {
    open spec fn to_toks(&self) -> Seq<Tok> {
        render_val(self@)
    }

    open spec fn tt_wf(&self) -> bool {
        val_wf(self@)
    }

    fn to_tokens(&self, tokens: &mut Tokens) {
        render_value(self, tokens);
    }
}

impl ToTokens for bool {
    open spec fn to_toks(&self) -> Seq<Tok> {
        render_val(Val::Bool(*self))
    }

    open spec fn tt_wf(&self) -> bool {
        true
    }

    fn to_tokens(&self, tokens: &mut Tokens) {
        render_value(&Value::Bool(*self), tokens);
    }
}

impl ToTokens for char {
    open spec fn to_toks(&self) -> Seq<Tok> {
        render_val(Val::Chr(*self))
    }

    open spec fn tt_wf(&self) -> bool {
        true
    }

    fn to_tokens(&self, tokens: &mut Tokens) {
        let c: char = *self;
        proof {
            lemma_chr_value_model(c);
        }
        let v: Value = Value::Chr(c);
        render_value(&v, tokens);
    }
}

impl ToTokens for String {
    open spec fn to_toks(&self) -> Seq<Tok> {
        render_val(Val::Text(self@))
    }

    open spec fn tt_wf(&self) -> bool {
        true
    }

    fn to_tokens(&self, tokens: &mut Tokens) {
        render_value(&Value::Text(self.clone()), tokens);
    }
}

impl ToTokens for u8 {
    open spec fn to_toks(&self) -> Seq<Tok> {
        render_val(Val::Uint(*self as u64, IntKind::U8))
    }

    open spec fn tt_wf(&self) -> bool {
        true
    }

    fn to_tokens(&self, tokens: &mut Tokens) {
        render_value(&Value::Uint(*self as u64, IntKind::U8), tokens);
    }
}

impl ToTokens for u16 {
    open spec fn to_toks(&self) -> Seq<Tok> {
        render_val(Val::Uint(*self as u64, IntKind::U16))
    }

    open spec fn tt_wf(&self) -> bool {
        true
    }

    fn to_tokens(&self, tokens: &mut Tokens) {
        render_value(&Value::Uint(*self as u64, IntKind::U16), tokens);
    }
}

impl ToTokens for u32 {
    open spec fn to_toks(&self) -> Seq<Tok> {
        render_val(Val::Uint(*self as u64, IntKind::U32))
    }

    open spec fn tt_wf(&self) -> bool {
        true
    }

    fn to_tokens(&self, tokens: &mut Tokens) {
        render_value(&Value::Uint(*self as u64, IntKind::U32), tokens);
    }
}

impl ToTokens for u64 {
    open spec fn to_toks(&self) -> Seq<Tok> {
        render_val(Val::Uint(*self, IntKind::U64))
    }

    open spec fn tt_wf(&self) -> bool {
        true
    }

    fn to_tokens(&self, tokens: &mut Tokens) {
        render_value(&Value::Uint(*self, IntKind::U64), tokens);
    }
}

impl ToTokens for usize {
    open spec fn to_toks(&self) -> Seq<Tok> {
        render_val(Val::Uint(*self as u64, IntKind::Usize))
    }

    open spec fn tt_wf(&self) -> bool {
        true
    }

    fn to_tokens(&self, tokens: &mut Tokens) {
        render_value(&Value::Uint(*self as u64, IntKind::Usize), tokens);
    }
}

impl ToTokens for i8 {
    open spec fn to_toks(&self) -> Seq<Tok> {
        render_val(Val::Int(*self as i64, IntKind::I8))
    }

    open spec fn tt_wf(&self) -> bool {
        true
    }

    fn to_tokens(&self, tokens: &mut Tokens) {
        render_value(&Value::Int(*self as i64, IntKind::I8), tokens);
    }
}

impl ToTokens for i16 {
    open spec fn to_toks(&self) -> Seq<Tok> {
        render_val(Val::Int(*self as i64, IntKind::I16))
    }

    open spec fn tt_wf(&self) -> bool {
        true
    }

    fn to_tokens(&self, tokens: &mut Tokens) {
        render_value(&Value::Int(*self as i64, IntKind::I16), tokens);
    }
}

impl ToTokens for i32 {
    open spec fn to_toks(&self) -> Seq<Tok> {
        render_val(Val::Int(*self as i64, IntKind::I32))
    }

    open spec fn tt_wf(&self) -> bool {
        true
    }

    fn to_tokens(&self, tokens: &mut Tokens) {
        render_value(&Value::Int(*self as i64, IntKind::I32), tokens);
    }
}

impl ToTokens for i64 {
    open spec fn to_toks(&self) -> Seq<Tok> {
        render_val(Val::Int(*self, IntKind::I64))
    }

    open spec fn tt_wf(&self) -> bool {
        true
    }

    fn to_tokens(&self, tokens: &mut Tokens) {
        render_value(&Value::Int(*self, IntKind::I64), tokens);
    }
}

impl ToTokens for isize {
    open spec fn to_toks(&self) -> Seq<Tok> {
        render_val(Val::Int(*self as i64, IntKind::Isize))
    }

    open spec fn tt_wf(&self) -> bool {
        true
    }

    fn to_tokens(&self, tokens: &mut Tokens) {
        render_value(&Value::Int(*self as i64, IntKind::Isize), tokens);
    }
}

impl<T: ToTokens> ToTokens for Box<T> {
    open spec fn to_toks(&self) -> Seq<Tok> {
        (**self).to_toks()
    }

    open spec fn tt_wf(&self) -> bool {
        (**self).tt_wf()
    }

    fn to_tokens(&self, tokens: &mut Tokens) {
        (**self).to_tokens(tokens);
    }
}

impl<T: ToTokens> ToTokens for Option<T> {
    open spec fn to_toks(&self) -> Seq<Tok> {
        match self {
            Option::None => Seq::empty(),
            Option::Some(t) => t.to_toks(),
        }
    }

    open spec fn tt_wf(&self) -> bool {
        match self {
            Option::None => true,
            Option::Some(t) => t.tt_wf(),
        }
    }

    fn to_tokens(&self, tokens: &mut Tokens) {
        match self {
            Option::None => {
                proof {
                    assert(tokens@ =~= old(tokens)@ + self.to_toks());
                }
            },
            Option::Some(t) => {
                t.to_tokens(tokens);
            },
        }
    }
}

/// The renderings of a sequence of values, concatenated.
pub open spec fn models_cat<T: ToTokens>(s: Seq<T>) -> Seq<Tok>
    decreases s.len(),
{
    if s.len() == 0 {
        Seq::empty()
    } else {
        models_cat(s.drop_last()) + s.last().to_toks()
    }
}

/// The renderings of a sequence of values, joined by a separator's
/// rendering: between neighbours only.
pub open spec fn models_joined<T: ToTokens>(s: Seq<T>, sep: Seq<Tok>) -> Seq<Tok>
    decreases s.len(),
{
    if s.len() == 0 {
        Seq::empty()
    } else if s.len() == 1 {
        s[0].to_toks()
    } else {
        models_joined(s.drop_last(), sep) + sep + s.last().to_toks()
    }
}

/// The renderings of a sequence of values, each followed by a
/// terminator's rendering.
pub open spec fn models_terminated<T: ToTokens>(s: Seq<T>, term: Seq<Tok>) -> Seq<Tok>
    decreases s.len(),
{
    if s.len() == 0 {
        Seq::empty()
    } else {
        models_terminated(s.drop_last(), term) + s.last().to_toks() + term
    }
}

impl Tokens {
    /// Appends the rendering of every item, in order.
    pub fn append_all<T: ToTokens>(&mut self, items: &Vec<T>)
        requires
            forall|i: int| 0 <= i < items@.len() ==> (#[trigger] items@[i]).tt_wf(),
        ensures
            final(self)@ == old(self)@ + models_cat(items@),
    {
        let n: usize = items.len();
        let mut i: usize = 0;
        proof {
            assert(items@.take(0) =~= Seq::<T>::empty());
            assert(self@ =~= old(self)@ + models_cat(items@.take(0)));
        }
        while i < n
            invariant
                0 <= i <= n,
                n == items@.len(),
                forall|j: int| 0 <= j < items@.len() ==> (#[trigger] items@[j]).tt_wf(),
                self@ == old(self)@ + models_cat(items@.take(i as int)),
            decreases n - i,
        {
            items[i].to_tokens(self);
            proof {
                assert(items@.take(i as int + 1).drop_last() =~= items@.take(i as int));
                assert(items@.take(i as int + 1).last() == items@[i as int]);
            }
            i = i + 1;
        }
        proof {
            assert(items@.take(n as int) =~= items@);
        }
    }

    /// Appends the items' renderings with the separator's rendering
    /// between neighbours: none leading or trailing.
    pub fn append_separated<T: ToTokens, U: ToTokens>(&mut self, items: &Vec<T>, sep: &U)
        requires
            forall|i: int| 0 <= i < items@.len() ==> (#[trigger] items@[i]).tt_wf(),
            sep.tt_wf(),
        ensures
            final(self)@ == old(self)@ + models_joined(items@, sep.to_toks()),
    {
        let n: usize = items.len();
        let mut i: usize = 0;
        proof {
            assert(items@.take(0) =~= Seq::<T>::empty());
            assert(self@ =~= old(self)@ + models_joined(items@.take(0), sep.to_toks()));
        }
        while i < n
            invariant
                0 <= i <= n,
                n == items@.len(),
                forall|j: int| 0 <= j < items@.len() ==> (#[trigger] items@[j]).tt_wf(),
                sep.tt_wf(),
                self@ == old(self)@ + models_joined(items@.take(i as int), sep.to_toks()),
            decreases n - i,
        {
            if i > 0 {
                sep.to_tokens(self);
            }
            items[i].to_tokens(self);
            proof {
                assert(items@.take(i as int + 1).drop_last() =~= items@.take(i as int));
                assert(items@.take(i as int + 1).last() == items@[i as int]);
                if i == 0 {
                    assert(items@.take(1)[0] == items@[0]);
                    assert(models_joined(items@.take(1), sep.to_toks()) == items@[0].to_toks());
                    assert(old(self)@ + Seq::<Tok>::empty() + items@[0].to_toks() =~= old(self)@
                        + items@[0].to_toks());
                }
            }
            i = i + 1;
        }
        proof {
            assert(items@.take(n as int) =~= items@);
        }
    }

    /// Appends the items' renderings, each followed by the terminator's
    /// rendering, including after the last.
    pub fn append_terminated<T: ToTokens, U: ToTokens>(&mut self, items: &Vec<T>, term: &U)
        requires
            forall|i: int| 0 <= i < items@.len() ==> (#[trigger] items@[i]).tt_wf(),
            term.tt_wf(),
        ensures
            final(self)@ == old(self)@ + models_terminated(items@, term.to_toks()),
    {
        let n: usize = items.len();
        let mut i: usize = 0;
        proof {
            assert(items@.take(0) =~= Seq::<T>::empty());
            assert(self@ =~= old(self)@ + models_terminated(items@.take(0), term.to_toks()));
        }
        while i < n
            invariant
                0 <= i <= n,
                n == items@.len(),
                forall|j: int| 0 <= j < items@.len() ==> (#[trigger] items@[j]).tt_wf(),
                term.tt_wf(),
                self@ == old(self)@ + models_terminated(items@.take(i as int), term.to_toks()),
            decreases n - i,
        {
            items[i].to_tokens(self);
            term.to_tokens(self);
            proof {
                assert(items@.take(i as int + 1).drop_last() =~= items@.take(i as int));
                assert(items@.take(i as int + 1).last() == items@[i as int]);
            }
            i = i + 1;
        }
        proof {
            assert(items@.take(n as int) =~= items@);
        }
    }
}

/// The model of a character value, spelled out for the protocol
/// implementation on `char`.
proof fn lemma_chr_value_model(c: char)
    ensures
        val_of(Value::Chr(c)) == Val::Chr(c),
        val_wf(Val::Chr(c)),
{
}

} // verus!
