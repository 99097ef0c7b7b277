//! Character-level text helpers: rendering integers in several radixes and
//! escaping characters the way literal tokens carry them.

use vstd::prelude::*;
use vstd::string::StrSliceExecFns;

verus! {

/// The digit character for a value below sixteen.
pub open spec fn digit_char(d: nat, upper: bool) -> char {
    if d == 0 {
        '0'
    } else if d == 1 {
        '1'
    } else if d == 2 {
        '2'
    } else if d == 3 {
        '3'
    } else if d == 4 {
        '4'
    } else if d == 5 {
        '5'
    } else if d == 6 {
        '6'
    } else if d == 7 {
        '7'
    } else if d == 8 {
        '8'
    } else if d == 9 {
        '9'
    } else if d == 10 {
        if upper {
            'A'
        } else {
            'a'
        }
    } else if d == 11 {
        if upper {
            'B'
        } else {
            'b'
        }
    } else if d == 12 {
        if upper {
            'C'
        } else {
            'c'
        }
    } else if d == 13 {
        if upper {
            'D'
        } else {
            'd'
        }
    } else if d == 14 {
        if upper {
            'E'
        } else {
            'e'
        }
    } else {
        if upper {
            'F'
        } else {
            'f'
        }
    }
}

/// The digits of `n` in the given base, most significant first, with no
/// leading zeroes (a single `0` for zero).
pub open spec fn radix_str(n: nat, base: nat, upper: bool) -> Seq<char>
    recommends
        2 <= base <= 16,
    decreases n,
    via radix_str_dec
{
    if base < 2 {
        Seq::empty()
    } else if n < base {
        seq![digit_char(n, upper)]
    } else {
        radix_str(n / base, base, upper) + seq![digit_char(n % base, upper)]
    }
}

#[via_fn]
proof fn radix_str_dec(n: nat, base: nat, upper: bool) {
    if base >= 2 && n >= base {
        assert(n / base < n) by (nonlinear_arith)
            requires
                base >= 2 && n >= base,
        ;
    }
}

/// Decimal digits of `n`.
pub open spec fn dec_str(n: nat) -> Seq<char> {
    radix_str(n, 10, false)
}

/// Octal digits of `n`.
pub open spec fn oct_chars(n: nat) -> Seq<char> {
    radix_str(n, 8, false)
}

/// Lowercase hexadecimal digits of `n`.
pub open spec fn hex_lower(n: nat) -> Seq<char> {
    radix_str(n, 16, false)
}

/// Uppercase hexadecimal digits of `n`.
pub open spec fn hex_upper(n: nat) -> Seq<char> {
    radix_str(n, 16, true)
}

/// Binary digits of `n`.
pub open spec fn bin_chars(n: nat) -> Seq<char> {
    radix_str(n, 2, false)
}

fn digit_char_exec(d: u64, upper: bool) -> (c: char)
    requires
        d < 16,
    ensures
        c == digit_char(d as nat, upper),
{
    if d == 0 {
        '0'
    } else if d == 1 {
        '1'
    } else if d == 2 {
        '2'
    } else if d == 3 {
        '3'
    } else if d == 4 {
        '4'
    } else if d == 5 {
        '5'
    } else if d == 6 {
        '6'
    } else if d == 7 {
        '7'
    } else if d == 8 {
        '8'
    } else if d == 9 {
        '9'
    } else if d == 10 {
        if upper {
            'A'
        } else {
            'a'
        }
    } else if d == 11 {
        if upper {
            'B'
        } else {
            'b'
        }
    } else if d == 12 {
        if upper {
            'C'
        } else {
            'c'
        }
    } else if d == 13 {
        if upper {
            'D'
        } else {
            'd'
        }
    } else if d == 14 {
        if upper {
            'E'
        } else {
            'e'
        }
    } else {
        if upper {
            'F'
        } else {
            'f'
        }
    }
}

/// Appends the base-`base` rendering of `n` to `out`.
pub fn push_radix_u64(n: u64, base: u64, upper: bool, out: &mut Vec<char>)
    requires
        2 <= base <= 16,
    ensures
        final(out)@ == old(out)@ + radix_str(n as nat, base as nat, upper),
    decreases n,
{
    if n < base {
        let d: char = digit_char_exec(n, upper);
        out.push(d);
    } else {
        proof {
            assert((n as nat) / (base as nat) < n as nat) by (nonlinear_arith)
                requires
                    base >= 2 && n >= base,
            ;
            assert((n as nat) % (base as nat) < base as nat) by (nonlinear_arith)
                requires
                    base >= 2,
            ;
        }
        push_radix_u64(n / base, base, upper, out);
        let d: char = digit_char_exec(n % base, upper);
        out.push(d);
        proof {
            assert((n as nat) / (base as nat) == (n / base) as nat);
            assert((n as nat) % (base as nat) == (n % base) as nat);
        }
    }
}

/// Appends the decimal rendering of `n` to `out`.
pub fn push_dec_u64(n: u64, out: &mut Vec<char>)
    ensures
        final(out)@ == old(out)@ + dec_str(n as nat),
{
    push_radix_u64(n, 10, false, out);
}

/// How one character appears inside a literal token: tab, carriage return,
/// newline, backslash and both quote kinds take a backslash escape,
/// printable seven-bit characters stand for themselves, and everything else
/// is a braced lowercase-hex escape.
pub open spec fn escaped_char(c: char) -> Seq<char> {
    if c == '\t' {
        seq!['\\', 't']
    } else if c == '\r' {
        seq!['\\', 'r']
    } else if c == '\n' {
        seq!['\\', 'n']
    } else if c == '\\' {
        seq!['\\', '\\']
    } else if c == '\'' {
        seq!['\\', '\'']
    } else if c == '"' {
        seq!['\\', '"']
    } else if 0x20 <= c as u32 && c as u32 <= 0x7e {
        seq![c]
    } else {
        seq!['\\', 'u', '{'] + radix_str(c as nat, 16, false) + seq!['}']
    }
}

/// Escape of a whole character sequence.
pub open spec fn escaped_str(s: Seq<char>) -> Seq<char>
    decreases s,
{
    if s.len() == 0 {
        Seq::empty()
    } else {
        escaped_char(s[0]) + escaped_str(s.drop_first())
    }
}

/// Appends the escape of one character to `out`.
pub fn push_escaped_char(c: char, out: &mut Vec<char>)
    ensures
        final(out)@ == old(out)@ + escaped_char(c),
{
    if c == '\t' {
        out.push('\\');
        out.push('t');
    } else if c == '\r' {
        out.push('\\');
        out.push('r');
    } else if c == '\n' {
        out.push('\\');
        out.push('n');
    } else if c == '\\' {
        out.push('\\');
        out.push('\\');
    } else if c == '\'' {
        out.push('\\');
        out.push('\'');
    } else if c == '"' {
        out.push('\\');
        out.push('"');
    } else if 0x20 <= c as u32 && c as u32 <= 0x7e {
        out.push(c);
    } else {
        out.push('\\');
        out.push('u');
        out.push('{');
        push_radix_u64(c as u64, 16, false, out);
        out.push('}');
    }
}

/// Appends the escape of every character of `s` to `out`.
pub fn push_escaped_str(s: &str, out: &mut Vec<char>)
    ensures
        final(out)@ == old(out)@ + escaped_str(s@),
{
    let n: usize = s.unicode_len();
    let mut i: usize = 0;
    while i < n
        invariant
            0 <= i <= n,
            n == s@.len(),
            out@ == old(out)@ + escaped_str(s@.subrange(0, i as int)),
        decreases n - i,
    {
        let c: char = s.get_char(i);
        push_escaped_char(c, out);
        proof {
            lemma_escaped_str_snoc(s@.subrange(0, i as int + 1));
            assert(s@.subrange(0, i as int + 1).drop_last() =~= s@.subrange(0, i as int));
        }
        i = i + 1;
    }
    proof {
        assert(s@.subrange(0, s@.len() as int) =~= s@);
    }
}

/// The escape of a sequence ends with the escape of its last character.
pub proof fn lemma_escaped_str_snoc(s: Seq<char>)
    requires
        s.len() > 0,
    ensures
        escaped_str(s) == escaped_str(s.drop_last()) + escaped_char(s.last()),
    decreases s,
{
    if s.len() == 1 {
        assert(s.drop_last() =~= Seq::<char>::empty());
        assert(s.drop_first() =~= Seq::<char>::empty());
        assert(escaped_str(s) == escaped_char(s[0]) + escaped_str(s.drop_first()));
        assert(escaped_char(s[0]) + Seq::<char>::empty() =~= escaped_char(s[0]));
        assert(escaped_str(s) =~= escaped_char(s[0]));
        assert(escaped_str(s.drop_last()) + escaped_char(s.last()) =~= escaped_char(s[0]));
    } else {
        lemma_escaped_str_snoc(s.drop_first());
        assert(s.drop_first().drop_last() =~= s.drop_last().drop_first());
        assert(s.drop_last()[0] == s[0]);
        assert(escaped_str(s.drop_last()) == escaped_char(s[0]) + escaped_str(
            s.drop_last().drop_first(),
        ));
        assert(escaped_str(s) =~= escaped_str(s.drop_last()) + escaped_char(s.last()));
    }
}

/// Relies on `String`'s `FromIterator` over `char`: collecting yields a
/// string holding exactly the characters of the iterator, in order.
#[verifier::external_body]
pub fn chars_to_string(cs: &Vec<char>) -> (s: String)
    ensures
        s@ == cs@,
{
    cs.iter().collect()
}

} // verus!
