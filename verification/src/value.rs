//! Interpolatable values and their token renderings.
//!
//! A value is rendered into the accumulator when a splice refers to it:
//! integers become suffixed numeric literals (with a parenthesised cast for
//! a signed minimum, whose negation its own type cannot represent),
//! booleans become bare words, text and characters become escaped literals,
//! sequences and tuples become delimited groups with trailing separators,
//! optional values render nothing when absent, and raw token sequences are
//! appended verbatim.

use vstd::prelude::*;

use crate::text::{dec_str, escaped_char, escaped_str, chars_to_string, push_dec_u64,
    push_escaped_char, push_escaped_str};
use crate::token::{Delim, Spacing, Tok, Token, toks_of};
use crate::tokens::Tokens;

verus! {

/// The primitive integer type a numeric value renders as.
#[derive(Clone, Copy, Debug, PartialEq, Eq, Structural)]
pub enum IntKind {
    U8,
    U16,
    U32,
    U64,
    Usize,
    I8,
    I16,
    I32,
    I64,
    Isize,
}

pub open spec fn kind_signed(k: IntKind) -> bool {
    match k {
        IntKind::I8 | IntKind::I16 | IntKind::I32 | IntKind::I64 | IntKind::Isize => true,
        _ => false,
    }
}

/// The type suffix baked into a numeric literal's text.
pub open spec fn suffix_chars(k: IntKind) -> Seq<char> {
    match k {
        IntKind::U8 => seq!['u', '8'],
        IntKind::U16 => seq!['u', '1', '6'],
        IntKind::U32 => seq!['u', '3', '2'],
        IntKind::U64 => seq!['u', '6', '4'],
        IntKind::Usize => seq!['u', 's', 'i', 'z', 'e'],
        IntKind::I8 => seq!['i', '8'],
        IntKind::I16 => seq!['i', '1', '6'],
        IntKind::I32 => seq!['i', '3', '2'],
        IntKind::I64 => seq!['i', '6', '4'],
        IntKind::Isize => seq!['i', 's', 'i', 'z', 'e'],
    }
}

pub open spec fn uint_max(k: IntKind) -> nat {
    match k {
        IntKind::U8 => u8::MAX as nat,
        IntKind::U16 => u16::MAX as nat,
        IntKind::U32 => u32::MAX as nat,
        IntKind::U64 => u64::MAX as nat,
        IntKind::Usize => usize::MAX as nat,
        _ => 0,
    }
}

pub open spec fn int_min(k: IntKind) -> int {
    match k {
        IntKind::I8 => i8::MIN as int,
        IntKind::I16 => i16::MIN as int,
        IntKind::I32 => i32::MIN as int,
        IntKind::I64 => i64::MIN as int,
        IntKind::Isize => isize::MIN as int,
        _ => 0,
    }
}

pub open spec fn int_max(k: IntKind) -> int {
    match k {
        IntKind::I8 => i8::MAX as int,
        IntKind::I16 => i16::MAX as int,
        IntKind::I32 => i32::MAX as int,
        IntKind::I64 => i64::MAX as int,
        IntKind::Isize => isize::MAX as int,
        _ => 0,
    }
}

/// Mathematical model of a value.
pub enum Val {
    Toks(Seq<Tok>),
    Uint(u64, IntKind),
    Int(i64, IntKind),
    Bool(bool),
    Text(Seq<char>),
    Chr(char),
    List(Seq<Val>),
    Tup(Seq<Val>),
    Opt(Option<Box<Val>>),
}

/// A value that a splice can render.
#[derive(Debug)]
pub enum Value {
    /// A token sequence, appended verbatim.
    Toks(Tokens),
    /// An unsigned integer with the type it renders as.
    Uint(u64, IntKind),
    /// A signed integer with the type it renders as.
    Int(i64, IntKind),
    Bool(bool),
    /// Text, rendered as an escaped string literal.
    Text(String),
    /// A character, rendered as an escaped character literal.
    Chr(char),
    /// A sequence: renders as a bracketed group, and is what a repetition
    /// iterates over.
    List(Vec<Value>),
    /// A tuple: renders as a parenthesised group.
    Tup(Vec<Value>),
    /// An optional value: absent renders as nothing.
    Opt(Option<Box<Value>>),
}

pub open spec fn val_of(v: Value) -> Val
    decreases v,
    via val_of_dec
{
    match v {
        Value::Toks(ts) => Val::Toks(ts@),
        Value::Uint(n, k) => Val::Uint(n, k),
        Value::Int(x, k) => Val::Int(x, k),
        Value::Bool(b) => Val::Bool(b),
        Value::Text(s) => Val::Text(s@),
        Value::Chr(c) => Val::Chr(c),
        Value::List(es) => Val::List(vals_of(es@)),
        Value::Tup(es) => Val::Tup(vals_of(es@)),
        Value::Opt(o) => match o {
            Option::None => Val::Opt(Option::None),
            Option::Some(b) => Val::Opt(Option::Some(Box::new(val_of(*b)))),
        },
    }
}

pub open spec fn vals_of(s: Seq<Value>) -> Seq<Val>
    decreases s,
    via vals_of_dec
{
    if s.len() == 0 {
        Seq::empty()
    } else {
        seq![val_of(s[0])] + vals_of(s.drop_first())
    }
}

#[via_fn]
proof fn val_of_dec(v: Value) {
    if v is List {
        assert(decreases_to!(v => v->List_0));
        assert(decreases_to!(v->List_0 => v->List_0@));
    }
    if v is Tup {
        assert(decreases_to!(v => v->Tup_0));
        assert(decreases_to!(v->Tup_0 => v->Tup_0@));
    }
    if v matches Value::Opt(Option::Some(b)) {
        assert(decreases_to!(v => v->Opt_0));
    }
}

#[via_fn]
proof fn vals_of_dec(s: Seq<Value>) {
    if s.len() > 0 {
        assert(decreases_to!(s => s[0]));
        assert(s.drop_first() == s.subrange(1, s.len() as int));
        assert(decreases_to!(s => s.subrange(1, s.len() as int)));
    }
}

impl View for Value {
    type V = Val;

    open spec fn view(&self) -> Val {
        val_of(*self)
    }
}

pub broadcast proof fn lemma_vals_of_len(s: Seq<Value>)
    ensures
        (#[trigger] vals_of(s)).len() == s.len(),
    decreases s,
{
    if s.len() > 0 {
        lemma_vals_of_len(s.drop_first());
    }
}

pub broadcast proof fn lemma_vals_of_index(s: Seq<Value>, i: int)
    requires
        0 <= i < s.len(),
    ensures
        #[trigger] vals_of(s)[i] == val_of(s[i]),
    decreases s,
{
    broadcast use lemma_vals_of_len;

    if i > 0 {
        lemma_vals_of_index(s.drop_first(), i - 1);
    }
}

/// Well-formedness: numeric values fit the type they claim to render as,
/// recursively.
pub open spec fn val_wf(v: Val) -> bool
    decreases v,
{
    match v {
        Val::Uint(n, k) => !kind_signed(k) && n as nat <= uint_max(k),
        Val::Int(x, k) => kind_signed(k) && int_min(k) <= x as int <= int_max(k),
        Val::List(es) => vals_wf(es),
        Val::Tup(es) => vals_wf(es),
        Val::Opt(o) => match o {
            Option::None => true,
            Option::Some(b) => val_wf(*b),
        },
        _ => true,
    }
}

pub open spec fn vals_wf(s: Seq<Val>) -> bool
    decreases s,
{
    if s.len() == 0 {
        true
    } else {
        val_wf(s[0]) && vals_wf(s.drop_first())
    }
}

/// Structural size of a value, the termination measure of rendering.
pub open spec fn val_size(v: Val) -> nat
    decreases v,
{
    match v {
        Val::List(es) => 1 + vals_size(es),
        Val::Tup(es) => 1 + vals_size(es),
        Val::Opt(o) => match o {
            Option::None => 1,
            Option::Some(b) => 1 + val_size(*b),
        },
        _ => 1,
    }
}

pub open spec fn vals_size(s: Seq<Val>) -> nat
    decreases s,
{
    if s.len() == 0 {
        0
    } else {
        val_size(s[0]) + vals_size(s.drop_first())
    }
}

pub proof fn lemma_vals_size_elem(s: Seq<Val>, i: int)
    requires
        0 <= i < s.len(),
    ensures
        val_size(s[i]) <= vals_size(s),
    decreases s,
{
    if i > 0 {
        lemma_vals_size_elem(s.drop_first(), i - 1);
    }
}

pub proof fn lemma_vals_wf_elem(s: Seq<Val>, i: int)
    requires
        0 <= i < s.len(),
        vals_wf(s),
    ensures
        val_wf(s[i]),
    decreases s,
{
    if i > 0 {
        lemma_vals_wf_elem(s.drop_first(), i - 1);
    }
}

/// The separator token a sequence or tuple rendering places after each
/// element.
pub open spec fn comma_tok() -> Tok {
    Tok::Punct { ch: ',', spacing: Spacing::Alone, pos: crate::token::POS_HERE }
}

/// The unsigned 64-bit two's-complement image of a signed value.
pub open spec fn twos_u64(x: int) -> nat {
    if x >= 0 {
        x as nat
    } else {
        (x + 0x1_0000_0000_0000_0000) as nat
    }
}

/// Rendering of a signed integer: the minimum of its type becomes a
/// parenthesised cast of the two's-complement image, other negatives become
/// a single literal with a leading minus sign.
pub open spec fn render_int(x: i64, k: IntKind) -> Seq<Tok> {
    if x as int == int_min(k) && x < 0 {
        seq![
            Tok::Group {
                delim: Delim::Paren,
                inner: seq![
                    Tok::Lit {
                        text: dec_str(twos_u64(x as int)) + seq!['u', '6', '4'],
                        pos: crate::token::POS_HERE,
                    },
                    Tok::Ident { text: seq!['a', 's'], pos: crate::token::POS_HERE },
                    Tok::Ident { text: suffix_chars(k), pos: crate::token::POS_HERE },
                ],
                pos: crate::token::POS_HERE,
            },
        ]
    } else if x < 0 {
        seq![
            Tok::Lit {
                text: seq!['-'] + dec_str((-(x as int)) as nat) + suffix_chars(k),
                pos: crate::token::POS_HERE,
            },
        ]
    } else {
        seq![
            Tok::Lit {
                text: dec_str(x as nat) + suffix_chars(k),
                pos: crate::token::POS_HERE,
            },
        ]
    }
}

pub open spec fn bool_chars(b: bool) -> Seq<char> {
    if b {
        seq!['t', 'r', 'u', 'e']
    } else {
        seq!['f', 'a', 'l', 's', 'e']
    }
}

/// The token sequence a value renders as.
pub open spec fn render_val(v: Val) -> Seq<Tok>
    decreases v,
{
    match v {
        Val::Toks(ts) => ts,
        Val::Uint(n, k) => seq![
            Tok::Lit {
                text: dec_str(n as nat) + suffix_chars(k),
                pos: crate::token::POS_HERE,
            },
        ],
        Val::Int(x, k) => render_int(x, k),
        Val::Bool(b) => seq![
            Tok::Ident { text: bool_chars(b), pos: crate::token::POS_HERE },
        ],
        Val::Text(s) => seq![
            Tok::Lit {
                text: seq!['"'] + escaped_str(s) + seq!['"'],
                pos: crate::token::POS_HERE,
            },
        ],
        Val::Chr(c) => seq![
            Tok::Lit {
                text: seq!['\''] + escaped_char(c) + seq!['\''],
                pos: crate::token::POS_HERE,
            },
        ],
        Val::List(es) => seq![
            Tok::Group {
                delim: Delim::Bracket,
                inner: render_elems(es),
                pos: crate::token::POS_HERE,
            },
        ],
        Val::Tup(es) => seq![
            Tok::Group {
                delim: Delim::Paren,
                inner: render_elems(es),
                pos: crate::token::POS_HERE,
            },
        ],
        Val::Opt(o) => match o {
            Option::None => Seq::empty(),
            Option::Some(b) => render_val(*b),
        },
    }
}

/// Renderings of elements, each followed by a separator.
pub open spec fn render_elems(es: Seq<Val>) -> Seq<Tok>
    decreases es,
{
    if es.len() == 0 {
        Seq::empty()
    } else {
        render_val(es[0]) + seq![comma_tok()] + render_elems(es.drop_first())
    }
}

fn push_suffix(k: IntKind, cs: &mut Vec<char>)
    ensures
        final(cs)@ == old(cs)@ + suffix_chars(k),
{
    match k {
        IntKind::U8 => {
            cs.push('u');
            cs.push('8');
        },
        IntKind::U16 => {
            cs.push('u');
            cs.push('1');
            cs.push('6');
        },
        IntKind::U32 => {
            cs.push('u');
            cs.push('3');
            cs.push('2');
        },
        IntKind::U64 => {
            cs.push('u');
            cs.push('6');
            cs.push('4');
        },
        IntKind::Usize => {
            cs.push('u');
            cs.push('s');
            cs.push('i');
            cs.push('z');
            cs.push('e');
        },
        IntKind::I8 => {
            cs.push('i');
            cs.push('8');
        },
        IntKind::I16 => {
            cs.push('i');
            cs.push('1');
            cs.push('6');
        },
        IntKind::I32 => {
            cs.push('i');
            cs.push('3');
            cs.push('2');
        },
        IntKind::I64 => {
            cs.push('i');
            cs.push('6');
            cs.push('4');
        },
        IntKind::Isize => {
            cs.push('i');
            cs.push('s');
            cs.push('i');
            cs.push('z');
            cs.push('e');
        },
    }
    proof {
        assert(cs@ =~= old(cs)@ + suffix_chars(k));
    }
}

fn is_kind_min(x: i64, k: IntKind) -> (r: bool)
    requires
        kind_signed(k),
    ensures
        r == (x as int == int_min(k)),
{
    match k {
        IntKind::I8 => x == -128,
        IntKind::I16 => x == -32768,
        IntKind::I32 => x == -2147483648,
        IntKind::I64 => x == i64::MIN,
        _ => x == (isize::MIN as i64),
    }
}

/// Builds a literal token from accumulated characters.
fn lit_from_chars(cs: Vec<char>) -> (t: Token)
    ensures
        t@ == (Tok::Lit { text: cs@, pos: crate::token::POS_HERE }),
{
    let text: String = chars_to_string(&cs);
    Token::Lit { text, pos: POS_HERE_EXEC }
}

/// The fixed "here" position tag, as an executable constant.
pub const POS_HERE_EXEC: u32 = 0;

/// Renders one value into the accumulator.
pub fn render_value(v: &Value, out: &mut Tokens)
    requires
        val_wf(v@),
    ensures
        final(out)@ == old(out)@ + render_val(v@),
    decreases val_size(v@), 0nat,
{
    match v {
        Value::Toks(ts) => {
            out.append_tokens(ts);
        },
        Value::Uint(n, k) => {
            let mut cs: Vec<char> = Vec::new();
            push_dec_u64(*n, &mut cs);
            push_suffix(*k, &mut cs);
            out.append(lit_from_chars(cs));
            proof {
                assert(out@ =~= old(out)@ + render_val(v@));
            }
        },
        Value::Int(x, k) => {
            render_int_value(*x, *k, out);
        },
        Value::Bool(b) => {
            let mut cs: Vec<char> = Vec::new();
            if *b {
                cs.push('t');
                cs.push('r');
                cs.push('u');
                cs.push('e');
            } else {
                cs.push('f');
                cs.push('a');
                cs.push('l');
                cs.push('s');
                cs.push('e');
            }
            proof {
                assert(cs@ =~= bool_chars(v@->Bool_0));
            }
            let text: String = chars_to_string(&cs);
            out.append(Token::Ident { text, pos: POS_HERE_EXEC });
            proof {
                assert(out@ =~= old(out)@ + render_val(v@));
            }
        },
        Value::Text(s) => {
            let mut cs: Vec<char> = Vec::new();
            cs.push('"');
            push_escaped_str(s.as_str(), &mut cs);
            cs.push('"');
            proof {
                assert(cs@ =~= seq!['"'] + escaped_str(s@) + seq!['"']);
            }
            out.append(lit_from_chars(cs));
            proof {
                assert(out@ =~= old(out)@ + render_val(v@));
            }
        },
        Value::Chr(c) => {
            let mut cs: Vec<char> = Vec::new();
            cs.push('\'');
            push_escaped_char(*c, &mut cs);
            cs.push('\'');
            proof {
                assert(cs@ =~= seq!['\''] + escaped_char(v@->Chr_0) + seq!['\'']);
            }
            out.append(lit_from_chars(cs));
            proof {
                assert(out@ =~= old(out)@ + render_val(v@));
            }
        },
        Value::List(es) => {
            let inner: Tokens = render_elems_value(es);
            out.append(Token::Group {
                delim: Delim::Bracket,
                inner: inner.into_vec(),
                pos: POS_HERE_EXEC,
            });
            proof {
                assert(out@ =~= old(out)@ + render_val(v@));
            }
        },
        Value::Tup(es) => {
            let inner: Tokens = render_elems_value(es);
            out.append(Token::Group {
                delim: Delim::Paren,
                inner: inner.into_vec(),
                pos: POS_HERE_EXEC,
            });
            proof {
                assert(out@ =~= old(out)@ + render_val(v@));
            }
        },
        Value::Opt(o) => {
            match o {
                Option::None => {
                    proof {
                        assert(out@ =~= old(out)@ + render_val(v@));
                    }
                },
                Option::Some(b) => {
                    render_value(&**b, out);
                },
            }
        },
    }
}

/// Renders a signed integer value into the accumulator.
fn render_int_value(x: i64, k: IntKind, out: &mut Tokens)
    requires
        kind_signed(k),
        int_min(k) <= x as int <= int_max(k),
    ensures
        final(out)@ == old(out)@ + render_int(x, k),
{
    if is_kind_min(x, k) && x < 0 {
        let bits: u64 = u64::MAX - ((-(x + 1)) as u64);
        proof {
            assert(bits as nat == twos_u64(x as int));
        }
        let mut cs: Vec<char> = Vec::new();
        push_dec_u64(bits, &mut cs);
        cs.push('u');
        cs.push('6');
        cs.push('4');
        proof {
            assert(cs@ =~= dec_str(twos_u64(x as int)) + seq!['u', '6', '4']);
        }
        let lit: Token = lit_from_chars(cs);
        let mut az: Vec<char> = Vec::new();
        az.push('a');
        az.push('s');
        proof {
            assert(az@ =~= seq!['a', 's']);
        }
        let as_text: String = chars_to_string(&az);
        let mut sfx: Vec<char> = Vec::new();
        push_suffix(k, &mut sfx);
        proof {
            assert(sfx@ =~= suffix_chars(k));
        }
        let sfx_text: String = chars_to_string(&sfx);
        let mut inner: Vec<Token> = Vec::new();
        inner.push(lit);
        inner.push(Token::Ident { text: as_text, pos: POS_HERE_EXEC });
        inner.push(Token::Ident { text: sfx_text, pos: POS_HERE_EXEC });
        proof {
            broadcast use crate::token::lemma_toks_of_len, crate::token::lemma_toks_of_index;

            assert(toks_of(inner@) =~= (render_int(x, k))[0]->Group_inner);
        }
        out.append(Token::Group { delim: Delim::Paren, inner, pos: POS_HERE_EXEC });
        proof {
            assert(out@ =~= old(out)@ + render_int(x, k));
        }
    } else if x < 0 {
        let mut cs: Vec<char> = Vec::new();
        cs.push('-');
        let a: u64 = (-x) as u64;
        push_dec_u64(a, &mut cs);
        push_suffix(k, &mut cs);
        proof {
            assert(cs@ =~= seq!['-'] + dec_str((-(x as int)) as nat) + suffix_chars(k));
        }
        out.append(lit_from_chars(cs));
        proof {
            assert(out@ =~= old(out)@ + render_int(x, k));
        }
    } else {
        let mut cs: Vec<char> = Vec::new();
        push_dec_u64(x as u64, &mut cs);
        push_suffix(k, &mut cs);
        proof {
            assert(cs@ =~= dec_str(x as nat) + suffix_chars(k));
        }
        out.append(lit_from_chars(cs));
        proof {
            assert(out@ =~= old(out)@ + render_int(x, k));
        }
    }
}

/// Renders each element of a sequence followed by a separator, into a fresh
/// accumulator.
fn render_elems_value(es: &Vec<Value>) -> (out: Tokens)
    requires
        vals_wf(vals_of(es@)),
    ensures
        out@ == render_elems(vals_of(es@)),
    decreases vals_size(vals_of(es@)), 1nat,
{
    broadcast use lemma_vals_of_len, lemma_vals_of_index;

    let mut out: Tokens = Tokens::new();
    let n: usize = es.len();
    let mut i: usize = 0;
    proof {
        assert(vals_of(es@).skip(0) =~= vals_of(es@));
    }
    while i < n
        invariant
            0 <= i <= n,
            n == es@.len(),
            vals_wf(vals_of(es@)),
            render_elems(vals_of(es@)) == out@ + render_elems(vals_of(es@).skip(i as int)),
        decreases n - i,
    {
        proof {
            broadcast use lemma_vals_of_len, lemma_vals_of_index;

            lemma_vals_size_elem(vals_of(es@), i as int);
            lemma_vals_wf_elem(vals_of(es@), i as int);
        }
        let ghost rem = vals_of(es@).skip(i as int);
        render_value(&es[i], &mut out);
        out.append(Token::Punct { ch: ',', spacing: Spacing::Alone, pos: POS_HERE_EXEC });
        proof {
            assert(rem[0] == vals_of(es@)[i as int]);
            assert(rem.drop_first() =~= vals_of(es@).skip(i as int + 1));
            assert(render_elems(rem) == render_val(rem[0]) + seq![comma_tok()] + render_elems(
                rem.drop_first(),
            ));
            assert(render_elems(vals_of(es@)) == out@ + render_elems(
                vals_of(es@).skip(i as int + 1),
            ));
        }
        i = i + 1;
    }
    proof {
        assert(vals_of(es@).skip(n as int) =~= Seq::<Val>::empty());
        assert(out@ =~= render_elems(vals_of(es@)));
    }
    out
}


impl Clone for Value {
    fn clone(&self) -> (r: Value)
        ensures
            r@ == self@,
        decreases val_size(self@), 0nat,
    {
        match self {
            Value::Toks(ts) => Value::Toks(ts.clone()),
            Value::Uint(n, k) => Value::Uint(*n, *k),
            Value::Int(x, k) => Value::Int(*x, *k),
            Value::Bool(b) => Value::Bool(*b),
            Value::Text(s) => Value::Text(s.clone()),
            Value::Chr(c) => Value::Chr(*c),
            Value::List(es) => Value::List(clone_values(es)),
            Value::Tup(es) => Value::Tup(clone_values(es)),
            Value::Opt(o) => match o {
                Option::None => Value::Opt(Option::None),
                Option::Some(b) => Value::Opt(Option::Some(Box::new((**b).clone()))),
            },
        }
    }
}

/// Clones a value vector; the model of the result equals the model of the
/// argument.
pub fn clone_values(es: &Vec<Value>) -> (r: Vec<Value>)
    ensures
        vals_of(r@) == vals_of(es@),
    decreases vals_size(vals_of(es@)), 1nat,
{
    broadcast use lemma_vals_of_len, lemma_vals_of_index;

    let mut r: Vec<Value> = Vec::new();
    let mut i: usize = 0;
    while i < es.len()
        invariant
            0 <= i <= es.len(),
            r@.len() == i,
            forall|j: int| 0 <= j < i ==> r@[j]@ == es@[j]@,
        decreases es.len() - i,
    {
        proof {
            broadcast use lemma_vals_of_len, lemma_vals_of_index;

            lemma_vals_size_elem(vals_of(es@), i as int);
        }
        let v: Value = es[i].clone();
        r.push(v);
        i = i + 1;
    }
    proof {
        assert(vals_of(r@) =~= vals_of(es@));
    }
    r
}

} // verus!