//! The identifier-formatting interface.
//!
//! An identifier is built from formatted pieces: literal text interleaved
//! with arguments rendered under a restricted fragment contract.
//! Identifier arguments have their raw-identifier marker stripped;
//! unsigned integers support octal, hexadecimal and binary sub-formatting.
//! The built identifier's position tag is inherited from the first
//! argument that carries one, defaulting to the "here" tag, unless an
//! explicit tag overrides it.

use vstd::prelude::*;
use vstd::string::StrSliceExecFns;

use crate::display::push_str_chars;
use crate::text::{bin_chars, chars_to_string, dec_str, hex_lower, hex_upper, oct_chars,
    push_radix_u64};
use crate::token::{POS_HERE, Tok, Token};
use crate::value::bool_chars;
use crate::walk::is_raw_text;

verus! {

/// Whether a character may begin an identifier.
pub open spec fn ident_start(c: char) -> bool {
    (0x61 <= c as u32 && c as u32 <= 0x7a) || (0x41 <= c as u32 && c as u32 <= 0x5a) || c == '_'
}

/// Whether a character may continue an identifier.
pub open spec fn ident_continue(c: char) -> bool {
    ident_start(c) || (0x30 <= c as u32 && c as u32 <= 0x39)
}

/// Whether text is a plain identifier.
pub open spec fn is_ident_text(s: Seq<char>) -> bool {
    s.len() > 0 && ident_start(s[0]) && (forall|i: int|
        1 <= i < s.len() ==> ident_continue(#[trigger] s[i]))
}

/// Whether text is an identifier, plain or carrying the raw marker.
pub open spec fn valid_ident_text(s: Seq<char>) -> bool {
    is_ident_text(s) || (is_raw_text(s) && is_ident_text(s.skip(2)))
}

pub fn is_ident_start(c: char) -> (r: bool)
    ensures
        r == ident_start(c),
{
    let u: u32 = c as u32;
    (0x61 <= u && u <= 0x7a) || (0x41 <= u && u <= 0x5a) || c == '_'
}

pub fn is_ident_continue(c: char) -> (r: bool)
    ensures
        r == ident_continue(c),
{
    let u: u32 = c as u32;
    is_ident_start(c) || (0x30 <= u && u <= 0x39)
}

/// Whether the characters form a plain identifier.
pub fn is_ident(cs: &Vec<char>) -> (r: bool)
    ensures
        r == is_ident_text(cs@),
{
    let n: usize = cs.len();
    if n == 0 {
        return false;
    }
    if !is_ident_start(cs[0]) {
        return false;
    }
    let mut i: usize = 1;
    while i < n
        invariant
            1 <= i <= n,
            n == cs@.len(),
            ident_start(cs@[0]),
            forall|j: int| 1 <= j < i ==> ident_continue(#[trigger] cs@[j]),
        decreases n - i,
    {
        if !is_ident_continue(cs[i]) {
            return false;
        }
        i = i + 1;
    }
    true
}

/// Whether the characters form an identifier, plain or raw.
pub fn is_valid_ident(cs: &Vec<char>) -> (r: bool)
    ensures
        r == valid_ident_text(cs@),
{
    if is_ident(cs) {
        return true;
    }
    if cs.len() >= 2 && cs[0] == 'r' && cs[1] == '#' {
        let mut rest: Vec<char> = Vec::new();
        let mut i: usize = 2;
        while i < cs.len()
            invariant
                2 <= i <= cs@.len(),
                rest@ =~= cs@.subrange(2, i as int),
            decreases cs@.len() - i,
        {
            rest.push(cs[i]);
            proof {
                assert(rest@ =~= cs@.subrange(2, i as int + 1));
            }
            i = i + 1;
        }
        proof {
            assert(cs@.subrange(2, cs@.len() as int) =~= cs@.skip(2));
        }
        is_ident(&rest)
    } else {
        false
    }
}

/// How an unsigned fragment is sub-formatted.
#[derive(Clone, Copy, Debug, PartialEq, Eq, Structural)]
pub enum FragStyle {
    Plain,
    Octal,
    LowerHex,
    UpperHex,
    Binary,
}

/// An argument to identifier formatting.
#[derive(Debug, Clone)]
pub enum Fragment {
    /// An identifier, carrying its position; a raw marker is stripped
    /// when rendered.
    Named { text: String, pos: u32 },
    /// Plain text.
    Text(String),
    /// An unsigned integer, rendered in the piece's style.
    Unsigned(u64),
    /// A boolean, rendered as its bare word.
    Boolean(bool),
}

/// One piece of the formatted identifier: literal text or an argument.
#[derive(Debug, Clone)]
pub enum FmtPiece {
    Lit(String),
    Arg(Fragment, FragStyle),
}

/// The characters a fragment renders as under a style.
pub open spec fn frag_chars(f: Fragment, style: FragStyle) -> Seq<char> {
    match f {
        Fragment::Named { text, .. } => if is_raw_text(text@) {
            text@.skip(2)
        } else {
            text@
        },
        Fragment::Text(s) => s@,
        Fragment::Unsigned(n) => match style {
            FragStyle::Plain => dec_str(n as nat),
            FragStyle::Octal => oct_chars(n as nat),
            FragStyle::LowerHex => hex_lower(n as nat),
            FragStyle::UpperHex => hex_upper(n as nat),
            FragStyle::Binary => bin_chars(n as nat),
        },
        Fragment::Boolean(b) => bool_chars(b),
    }
}

/// The position a fragment carries, if any.
pub open spec fn frag_pos(f: Fragment) -> Option<u32> {
    match f {
        Fragment::Named { pos, .. } => Option::Some(pos),
        _ => Option::None,
    }
}

/// The characters of a piece.
pub open spec fn piece_chars(p: FmtPiece) -> Seq<char> {
    match p {
        FmtPiece::Lit(s) => s@,
        FmtPiece::Arg(f, style) => frag_chars(f, style),
    }
}

/// The characters of a piece list, concatenated.
pub open spec fn pieces_chars(ps: Seq<FmtPiece>) -> Seq<char>
    decreases ps.len(),
{
    if ps.len() == 0 {
        Seq::empty()
    } else {
        pieces_chars(ps.drop_last()) + piece_chars(ps.last())
    }
}

/// The position the piece list inherits: the first argument carrying one.
pub open spec fn pieces_pos(ps: Seq<FmtPiece>) -> Option<u32>
    decreases ps.len(),
{
    if ps.len() == 0 {
        Option::None
    } else {
        match (match ps[0] {
            FmtPiece::Lit(_) => Option::<u32>::None,
            FmtPiece::Arg(f, _) => frag_pos(f),
        }) {
            Option::Some(p) => Option::Some(p),
            Option::None => pieces_pos(ps.drop_first()),
        }
    }
}

/// The position tag the built identifier takes.
pub open spec fn chosen_pos(explicit: Option<u32>, ps: Seq<FmtPiece>) -> u32 {
    match explicit {
        Option::Some(p) => p,
        Option::None => match pieces_pos(ps) {
            Option::Some(p) => p,
            Option::None => POS_HERE,
        },
    }
}

/// Appends a fragment's characters under a style.
fn push_frag(f: &Fragment, style: FragStyle, out: &mut Vec<char>)
    ensures
        final(out)@ == old(out)@ + frag_chars(*f, style),
{
    match f {
        Fragment::Named { text, .. } => {
            let n: usize = text.as_str().unicode_len();
            let raw: bool = n >= 2 && text.as_str().get_char(0) == 'r' && text.as_str().get_char(
                1,
            ) == '#';
            if raw {
                let mut i: usize = 2;
                while i < n
                    invariant
                        2 <= i <= n,
                        n == text@.len(),
                        out@ =~= old(out)@ + text@.subrange(2, i as int),
                    decreases n - i,
                {
                    let c: char = text.as_str().get_char(i);
                    out.push(c);
                    proof {
                        assert(out@ =~= old(out)@ + text@.subrange(2, i as int + 1));
                    }
                    i = i + 1;
                }
                proof {
                    assert(text@.subrange(2, text@.len() as int) =~= text@.skip(2));
                }
            } else {
                push_str_chars(text, out);
            }
        },
        Fragment::Text(s) => {
            push_str_chars(s, out);
        },
        Fragment::Unsigned(v) => {
            match style {
                FragStyle::Plain => push_radix_u64(*v, 10, false, out),
                FragStyle::Octal => push_radix_u64(*v, 8, false, out),
                FragStyle::LowerHex => push_radix_u64(*v, 16, false, out),
                FragStyle::UpperHex => push_radix_u64(*v, 16, true, out),
                FragStyle::Binary => push_radix_u64(*v, 2, false, out),
            }
        },
        Fragment::Boolean(b) => {
            if *b {
                out.push('t');
                out.push('r');
                out.push('u');
                out.push('e');
            } else {
                out.push('f');
                out.push('a');
                out.push('l');
                out.push('s');
                out.push('e');
            }
            proof {
                assert(out@ =~= old(out)@ + bool_chars(f->Boolean_0));
            }
        },
    }
}

/// Builds an identifier token from formatted pieces.  The result is
/// `Some` exactly when the assembled text is a plain or raw identifier;
/// its position is the explicit tag if given, else the first argument's,
/// else the "here" tag.
pub fn format_ident(pieces: &Vec<FmtPiece>, explicit: Option<u32>) -> (r: Option<Token>)
    ensures
        r is Some <==> valid_ident_text(pieces_chars(pieces@)),
        r matches Option::Some(t) ==> t@ == (Tok::Ident {
            text: pieces_chars(pieces@),
            pos: chosen_pos(explicit, pieces@),
        }),
{
    let n: usize = pieces.len();
    let mut cs: Vec<char> = Vec::new();
    let mut i: usize = 0;
    proof {
        assert(pieces@.take(0) =~= Seq::<FmtPiece>::empty());
        assert(cs@ =~= pieces_chars(pieces@.take(0)));
    }
    while i < n
        invariant
            0 <= i <= n,
            n == pieces@.len(),
            cs@ == pieces_chars(pieces@.take(i as int)),
        decreases n - i,
    {
        match &pieces[i] {
            FmtPiece::Lit(s) => {
                push_str_chars(s, &mut cs);
            },
            FmtPiece::Arg(f, style) => {
                push_frag(f, *style, &mut cs);
            },
        }
        proof {
            assert(pieces@.take(i as int + 1).drop_last() =~= pieces@.take(i as int));
            assert(pieces@.take(i as int + 1).last() == pieces@[i as int]);
        }
        i = i + 1;
    }
    proof {
        assert(pieces@.take(n as int) =~= pieces@);
    }
    if !is_valid_ident(&cs) {
        return Option::None;
    }
    let pos: u32 = match explicit {
        Option::Some(p) => p,
        Option::None => first_frag_pos(pieces),
    };
    let text: String = chars_to_string(&cs);
    Option::Some(Token::Ident { text, pos })
}

/// The first argument position a piece list carries, or the "here" tag.
fn first_frag_pos(pieces: &Vec<FmtPiece>) -> (r: u32)
    ensures
        r == (match pieces_pos(pieces@) {
            Option::Some(p) => p,
            Option::None => POS_HERE,
        }),
{
    let n: usize = pieces.len();
    let mut i: usize = 0;
    proof {
        assert(pieces@.skip(0) =~= pieces@);
    }
    while i < n
        invariant
            0 <= i <= n,
            n == pieces@.len(),
            pieces_pos(pieces@) == pieces_pos(pieces@.skip(i as int)),
        decreases n - i,
    {
        proof {
            assert(pieces@.skip(i as int)[0] == pieces@[i as int]);
            assert(pieces@.skip(i as int).drop_first() =~= pieces@.skip(i as int + 1));
        }
        match &pieces[i] {
            FmtPiece::Arg(Fragment::Named { pos, .. }, _) => {
                return *pos;
            },
            _ => {},
        }
        i = i + 1;
    }
    proof {
        assert(pieces@.skip(n as int) =~= Seq::<FmtPiece>::empty());
    }
    POS_HERE
}

} // verus!
