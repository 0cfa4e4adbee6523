//! Numbers in hexadecimal.

use crate::crypto::hex_digit;
use crate::text::chars;
use vstd::prelude::*;

verus! {

/// The last `width` hexadecimal digits of a number, in lower case.
pub open spec fn hex_digits(n: nat, width: nat) -> Seq<char>
    decreases width,
{
    if width == 0 {
        Seq::empty()
    } else {
        hex_digits(n / 16, (width - 1) as nat).push(hex_digit((n % 16) as int))
    }
}

/// A 64-bit identifier: sixteen digits, padded with zeros.
pub open spec fn hex_id(n: u64) -> Seq<char> {
    hex_digits(n as nat, 16)
}

fn digit_char(n: u64) -> (r: char)
    requires
        n < 16,
    ensures
        r == hex_digit(n as int),
{
    if n < 10 {
        (('0' as u8) + (n as u8)) as char
    } else {
        (('a' as u8) + ((n - 10) as u8)) as char
    }
}

fn push_digits(n: u64, width: usize, out: &mut String)
    ensures
        final(out)@ == old(out)@ + hex_digits(n as nat, width as nat),
    decreases width,
{
    if width > 0 {
        push_digits(n / 16, width - 1, out);
        out.push(digit_char(n % 16));
        assert(out@ =~= old(out)@ + hex_digits(n as nat, width as nat));
    } else {
        assert(out@ =~= old(out)@ + hex_digits(n as nat, 0));
    }
}

/// Writes a 64-bit identifier.
pub fn push_hex_id(n: u64, out: &mut String)
    ensures
        final(out)@ == old(out)@ + hex_id(n),
{
    push_digits(n, 16, out);
}

/// The text of a 64-bit identifier.
pub fn hex_id_text(n: u64) -> (r: String)
    ensures
        r@ == hex_id(n),
{
    let mut out = String::new();
    push_hex_id(n, &mut out);
    assert(out@ =~= hex_id(n));
    out
}

// ── Reading ─────────────────────────────────────────────────────────

/// What a character counts as a hexadecimal digit, of either case.
pub open spec fn hex_value(c: char) -> Option<nat> {
    if '0' <= c && c <= '9' {
        Some((c as u32 - '0' as u32) as nat)
    } else if 'a' <= c && c <= 'f' {
        Some((c as u32 - 'a' as u32 + 10) as nat)
    } else if 'A' <= c && c <= 'F' {
        Some((c as u32 - 'A' as u32 + 10) as nat)
    } else {
        None
    }
}

/// The number that some hexadecimal digits stand for.
pub open spec fn hex_number(s: Seq<char>) -> Option<nat>
    decreases s.len(),
{
    if s.len() == 0 {
        Some(0)
    } else {
        match (hex_number(s.drop_last()), hex_value(s.last())) {
            (Some(n), Some(d)) => Some(n * 16 + d),
            _ => None,
        }
    }
}

/// A hexadecimal literal: digits, at least one, with a plus sign allowed.
pub open spec fn hex_literal(s: Seq<char>) -> Option<nat> {
    let body = if s.len() > 0 && s[0] == '+' {
        s.drop_first()
    } else {
        s
    };
    if body.len() == 0 {
        None
    } else {
        hex_number(body)
    }
}

fn digit_value(c: char) -> (r: Option<u64>)
    ensures
        match r {
            Some(d) => hex_value(c) == Some(d as nat) && d < 16,
            None => hex_value(c) is None,
        },
{
    if '0' <= c && c <= '9' {
        Some((c as u32 - '0' as u32) as u64)
    } else if 'a' <= c && c <= 'f' {
        Some((c as u32 - 'a' as u32 + 10) as u64)
    } else if 'A' <= c && c <= 'F' {
        Some((c as u32 - 'A' as u32 + 10) as u64)
    } else {
        None
    }
}

/// Reads a 64-bit hexadecimal literal.
pub fn parse_hex(s: &str) -> (r: Option<u64>)
    ensures
        match r {
            Some(n) => hex_literal(s@) == Some(n as nat),
            None => hex_literal(s@) is None || hex_literal(s@)->0 > u64::MAX,
        },
{
    let v = chars(s);
    let n: usize = v.len();
    let from: usize = if n > 0 && v[0] == '+' {
        1
    } else {
        0
    };
    let ghost body = if from == 1 { v@.drop_first() } else { v@ };
    assert(body =~= v@.subrange(from as int, n as int));
    if from == n {
        return None;
    }
    let mut i: usize = from;
    let mut acc: u64 = 0;
    let mut over: bool = false;
    assert(v@.subrange(from as int, from as int) =~= Seq::<char>::empty());
    while i < n
        invariant
            from <= i <= n,
            n == v@.len(),
            v@ == s@,
            body == v@.subrange(from as int, n as int),
            hex_literal(s@) == hex_number(body),
            !over ==> hex_number(v@.subrange(from as int, i as int)) == Some(acc as nat),
            over ==> (hex_number(v@.subrange(from as int, i as int)) matches Some(m) && m
                > u64::MAX),
        decreases n - i,
    {
        let ghost done = v@.subrange(from as int, i as int + 1);
        assert(done.drop_last() =~= v@.subrange(from as int, i as int));
        assert(done.last() == v@[i as int]);
        match digit_value(v[i]) {
            Some(d) => {
                if !over {
                    if acc > 0x0fff_ffff_ffff_ffff {
                        over = true;
                    } else {
                        acc = acc * 16 + d;
                    }
                }
            },
            None => {
                proof {
                    not_a_number(body, i - from);
                }
                return None;
            },
        }
        i = i + 1;
    }
    if over {
        None
    } else {
        Some(acc)
    }
}

proof fn not_a_number(s: Seq<char>, at: int)
    requires
        0 <= at < s.len(),
        hex_value(s[at]) is None,
    ensures
        hex_number(s) is None,
    decreases s.len(),
{
    if at < s.len() - 1 {
        not_a_number(s.drop_last(), at);
    }
}

// ── Laws ────────────────────────────────────────────────────────────

proof fn digits_tell_apart(a: nat, b: nat, width: nat)
    requires
        hex_digits(a, width) == hex_digits(b, width),
        a < vstd::arithmetic::power::pow(16, width),
        b < vstd::arithmetic::power::pow(16, width),
    ensures
        a == b,
    decreases width,
{
    vstd::arithmetic::power::lemma_pow0(16);
    if width > 0 {
        let w = (width - 1) as nat;
        vstd::arithmetic::power::lemma_pow_adds(16, w, 1);
        vstd::arithmetic::power::lemma_pow1(16);
        let x = hex_digits(a / 16, w);
        let y = hex_digits(b / 16, w);
        assert(hex_digits(a, width).drop_last() =~= x);
        assert(hex_digits(b, width).drop_last() =~= y);
        assert(hex_digits(a, width).last() == hex_digit((a % 16) as int));
        assert(hex_digits(b, width).last() == hex_digit((b % 16) as int));
        digits_tell_apart(a / 16, b / 16, w);
    }
}

/// Identifiers that are written alike are the same.
pub proof fn ids_tell_apart(a: u64, b: u64)
    requires
        hex_id(a) == hex_id(b),
    ensures
        a == b,
{
    assert(vstd::arithmetic::power::pow(16, 16) == 0x1_0000_0000_0000_0000) by {
        reveal_with_fuel(vstd::arithmetic::power::pow, 17);
    }
    digits_tell_apart(a as nat, b as nat, 16);
}

/// An identifier reads back as the number that was written.
pub proof fn written_ids_read_back(n: u64)
    ensures
        hex_literal(hex_id(n)) == Some(n as nat),
{
    assert(vstd::arithmetic::power::pow(16, 16) == 0x1_0000_0000_0000_0000) by {
        reveal_with_fuel(vstd::arithmetic::power::pow, 17);
    }
    digits_length(n as nat, 16);
    digits_read_back(n as nat, 16);
    digits_hold_no_sign(n as nat, 16);
}

proof fn digits_length(n: nat, width: nat)
    ensures
        hex_digits(n, width).len() == width,
    decreases width,
{
    if width > 0 {
        digits_length(n / 16, (width - 1) as nat);
    }
}

proof fn digits_hold_no_sign(n: nat, width: nat)
    ensures
        forall|i: int| 0 <= i < width ==> #[trigger] hex_digits(n, width)[i] != '+',
    decreases width,
{
    digits_length(n, width);
    if width > 0 {
        let w = (width - 1) as nat;
        digits_length(n / 16, w);
        digits_hold_no_sign(n / 16, w);
        assert forall|i: int| 0 <= i < width implies #[trigger] hex_digits(n, width)[i] != '+' by {
            if i < w {
                assert(hex_digits(n, width)[i] == hex_digits(n / 16, w)[i]);
            }
        }
    }
}

proof fn digits_read_back(n: nat, width: nat)
    requires
        n < vstd::arithmetic::power::pow(16, width),
    ensures
        hex_number(hex_digits(n, width)) == Some(n),
    decreases width,
{
    vstd::arithmetic::power::lemma_pow0(16);
    if width > 0 {
        let w = (width - 1) as nat;
        vstd::arithmetic::power::lemma_pow_adds(16, w, 1);
        vstd::arithmetic::power::lemma_pow1(16);
        digits_read_back(n / 16, w);
        assert(hex_digits(n, width).drop_last() =~= hex_digits(n / 16, w));
        assert(hex_value(hex_digit((n % 16) as int)) == Some(n % 16));
    }
}

} // verus!
