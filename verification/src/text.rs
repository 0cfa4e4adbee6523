//! Text as a sequence of characters: the string operations that the rest of
//! the library is specified in.

use vstd::prelude::*;

verus! {

/// `String::push` of std: "appends the given char to the end of this String".
pub assume_specification[ String::push ](s: &mut String, c: char)
    ensures
        final(s)@ == old(s)@.push(c),
;

/// What std's `str::to_lowercase` gives for a text.
pub uninterp spec fn unicode_lowercase(s: Seq<char>) -> Seq<char>;

/// What std's `str::to_uppercase` gives for a text.
pub uninterp spec fn unicode_uppercase(s: Seq<char>) -> Seq<char>;

/// What std's `char::is_alphanumeric` answers for a character.
pub uninterp spec fn unicode_alphanumeric(c: char) -> bool;

/// Calls std's `str::to_lowercase`. Claims only that the result is a function
/// of the text.
#[verifier::external_body]
fn std_to_lowercase(s: &str) -> (r: String)
    ensures
        r@ == unicode_lowercase(s@),
{
    s.to_lowercase()
}

/// Calls std's `str::to_uppercase`. Claims only that the result is a function
/// of the text.
#[verifier::external_body]
fn std_to_uppercase(s: &str) -> (r: String)
    ensures
        r@ == unicode_uppercase(s@),
{
    s.to_uppercase()
}

/// Calls std's `char::is_alphanumeric`. Claims only that the answer is a
/// function of the character.
#[verifier::external_body]
fn std_is_alphanumeric(c: char) -> (r: bool)
    ensures
        r == unicode_alphanumeric(c),
{
    c.is_alphanumeric()
}

/// The characters with Unicode's White_Space property.
pub open spec fn is_whitespace(c: char) -> bool {
    ||| 0x09 <= c as u32 <= 0x0d
    ||| c as u32 == 0x20
    ||| c as u32 == 0x85
    ||| c as u32 == 0xa0
    ||| c as u32 == 0x1680
    ||| 0x2000 <= c as u32 <= 0x200a
    ||| c as u32 == 0x2028
    ||| c as u32 == 0x2029
    ||| c as u32 == 0x202f
    ||| c as u32 == 0x205f
    ||| c as u32 == 0x3000
}

pub open spec fn is_digit(c: char) -> bool {
    '0' <= c <= '9'
}

pub open spec fn is_ascii_char(c: char) -> bool {
    c as u32 <= 0x7f
}

pub open spec fn is_ascii_letter(c: char) -> bool {
    ('a' <= c <= 'z') || ('A' <= c <= 'Z')
}

/// Letters and digits: the ASCII ones, and beyond ASCII whatever std counts
/// as alphanumeric.
pub open spec fn is_alphanumeric(c: char) -> bool {
    if is_ascii_char(c) {
        is_ascii_letter(c) || is_digit(c)
    } else {
        unicode_alphanumeric(c)
    }
}

pub open spec fn all_ascii(s: Seq<char>) -> bool {
    forall|i: int| 0 <= i < s.len() ==> is_ascii_char(#[trigger] s[i])
}

pub open spec fn ascii_lower(c: char) -> char {
    if 'A' <= c <= 'Z' {
        ((c as u32) + 32) as char
    } else {
        c
    }
}

pub open spec fn ascii_upper(c: char) -> char {
    if 'a' <= c <= 'z' {
        ((c as u32) - 32) as char
    } else {
        c
    }
}

/// The text in lower case. ASCII text is lowered letter by letter.
pub open spec fn lowered(s: Seq<char>) -> Seq<char> {
    if all_ascii(s) {
        s.map_values(|c: char| ascii_lower(c))
    } else {
        unicode_lowercase(s)
    }
}

/// The text in upper case. ASCII text is raised letter by letter.
pub open spec fn raised(s: Seq<char>) -> Seq<char> {
    if all_ascii(s) {
        s.map_values(|c: char| ascii_upper(c))
    } else {
        unicode_uppercase(s)
    }
}

pub open spec fn trim_start(s: Seq<char>) -> Seq<char>
    decreases s.len(),
{
    if s.len() > 0 && is_whitespace(s[0]) {
        trim_start(s.drop_first())
    } else {
        s
    }
}

pub open spec fn trim_end(s: Seq<char>) -> Seq<char>
    decreases s.len(),
{
    if s.len() > 0 && is_whitespace(s.last()) {
        trim_end(s.drop_last())
    } else {
        s
    }
}

/// The text without the whitespace at its two ends.
pub open spec fn trimmed(s: Seq<char>) -> Seq<char> {
    trim_end(trim_start(s))
}

pub open spec fn starts_with_at(s: Seq<char>, at: int, prefix: Seq<char>) -> bool {
    at + prefix.len() <= s.len() && s.subrange(at, at + prefix.len()) == prefix
}

pub open spec fn has_prefix(s: Seq<char>, prefix: Seq<char>) -> bool {
    starts_with_at(s, 0, prefix)
}

/// The first position at or after `from` where `c` stands, or the length.
pub open spec fn find_char(s: Seq<char>, from: int, c: char) -> int
    decreases s.len() - from,
{
    if from >= s.len() {
        s.len() as int
    } else if s[from] == c {
        from
    } else {
        find_char(s, from + 1, c)
    }
}

/// The last position where `c` stands, if it stands anywhere.
pub open spec fn rfind_char(s: Seq<char>, c: char) -> Option<int>
    decreases s.len(),
{
    if s.len() == 0 {
        None
    } else if s.last() == c {
        Some(s.len() - 1)
    } else {
        rfind_char(s.drop_last(), c)
    }
}

/// The decimal value of a run of digits.
pub open spec fn digits_value(s: Seq<char>) -> nat
    decreases s.len(),
{
    if s.len() == 0 {
        0
    } else {
        digits_value(s.drop_last()) * 10 + ((s.last() as u32 - '0' as u32) as nat)
    }
}

pub open spec fn all_digits(s: Seq<char>) -> bool {
    forall|i: int| 0 <= i < s.len() ==> is_digit(#[trigger] s[i])
}

/// A non-empty run of digits, and its value.
pub open spec fn natural(s: Seq<char>) -> Option<nat> {
    if s.len() > 0 && all_digits(s) {
        Some(digits_value(s))
    } else {
        None
    }
}

/// An unsigned integer literal: digits, with an optional `+` before them.
pub open spec fn unsigned_literal(s: Seq<char>) -> Option<nat> {
    if s.len() > 0 && s[0] == '+' {
        natural(s.drop_first())
    } else {
        natural(s)
    }
}

/// A signed integer literal: digits, with an optional `+` or `-` before them.
pub open spec fn signed_literal(s: Seq<char>) -> Option<int> {
    if s.len() > 0 && s[0] == '-' {
        match natural(s.drop_first()) {
            Some(n) => Some(-(n as int)),
            None => None,
        }
    } else {
        match unsigned_literal(s) {
            Some(n) => Some(n as int),
            None => None,
        }
    }
}

/// The decimal digits of a natural number.
pub open spec fn decimal(n: nat) -> Seq<char>
    decreases n,
{
    if n < 10 {
        seq![('0' as u32 + n) as char]
    } else {
        decimal(n / 10).push(('0' as u32 + n % 10) as char)
    }
}

/// The decimal form of an integer, with `-` before a negative one.
pub open spec fn signed_decimal(n: int) -> Seq<char> {
    if n < 0 {
        seq!['-'] + decimal((-n) as nat)
    } else {
        decimal(n as nat)
    }
}

/// Whether `a` comes before `b` in the order of their characters' code
/// points (which is also the order of their UTF-8 bytes).
pub open spec fn text_less(a: Seq<char>, b: Seq<char>) -> bool
    decreases a.len(),
{
    if b.len() == 0 {
        false
    } else if a.len() == 0 {
        true
    } else if a[0] == b[0] {
        text_less(a.drop_first(), b.drop_first())
    } else {
        a[0] < b[0]
    }
}

/// The texts joined with `sep` between neighbours.
pub open spec fn joined(parts: Seq<Seq<char>>, sep: Seq<char>) -> Seq<char>
    decreases parts.len(),
{
    if parts.len() == 0 {
        Seq::empty()
    } else if parts.len() == 1 {
        parts[0]
    } else {
        joined(parts.drop_last(), sep) + sep + parts.last()
    }
}

/// The text that there may be.
pub open spec fn opt_text(v: Option<String>) -> Option<Seq<char>> {
    match v {
        Some(s) => Some(s@),
        None => None,
    }
}

/// The views of a vector of strings.
pub open spec fn texts(v: Seq<String>) -> Seq<Seq<char>> {
    v.map_values(|s: String| s@)
}

// ── Laws of the order ───────────────────────────────────────────────

/// No text comes before itself.
pub proof fn text_less_irreflexive(a: Seq<char>)
    ensures
        !text_less(a, a),
    decreases a.len(),
{
    if a.len() > 0 {
        text_less_irreflexive(a.drop_first());
    }
}

/// The order of texts is transitive.
pub proof fn text_less_transitive(a: Seq<char>, b: Seq<char>, c: Seq<char>)
    requires
        text_less(a, b),
        text_less(b, c),
    ensures
        text_less(a, c),
    decreases a.len(),
{
    if a.len() > 0 && b.len() > 0 && c.len() > 0 && a[0] == b[0] && b[0] == c[0] {
        text_less_transitive(a.drop_first(), b.drop_first(), c.drop_first());
    }
}

/// Of two different texts one comes before the other.
pub proof fn text_less_total(a: Seq<char>, b: Seq<char>)
    ensures
        text_less(a, b) || text_less(b, a) || a == b,
    decreases a.len(),
{
    if a.len() > 0 && b.len() > 0 {
        if a[0] == b[0] {
            text_less_total(a.drop_first(), b.drop_first());
            if a.drop_first() == b.drop_first() {
                assert(a =~= seq![a[0]] + a.drop_first());
                assert(b =~= seq![b[0]] + b.drop_first());
            }
        }
    } else if a.len() == 0 && b.len() == 0 {
        assert(a =~= b);
    }
}

// ── Executable operations ───────────────────────────────────────────

/// The characters of a text.
pub fn chars(s: &str) -> (r: Vec<char>)
    ensures
        r@ == s@,
{
    let mut out: Vec<char> = Vec::new();
    for c in it: s.chars()
        invariant
            out@ == it.seq().take(it.index()),
            it.seq() == s@,
    {
        out.push(c);
        assert(out@ =~= it.seq().take(it.index() + 1));
    }
    assert(out@ =~= s@);
    out
}

/// The text made of the characters from `from` up to `to`.
pub fn text(v: &Vec<char>, from: usize, to: usize) -> (r: String)
    requires
        from <= to <= v@.len(),
    ensures
        r@ == v@.subrange(from as int, to as int),
{
    let mut out = String::new();
    let mut i: usize = from;
    while i < to
        invariant
            from <= i <= to <= v@.len(),
            out@ == v@.subrange(from as int, i as int),
        decreases to - i,
    {
        out.push(v[i]);
        i = i + 1;
        assert(out@ =~= v@.subrange(from as int, i as int));
    }
    assert(out@ =~= v@.subrange(from as int, to as int));
    out
}

/// Whether two texts are the same.
pub fn same(a: &str, b: &str) -> (r: bool)
    ensures
        r == (a@ == b@),
{
    let x = a.as_bytes();
    let y = b.as_bytes();
    proof {
        vstd::utf8::encode_utf8_decode_utf8(a@);
        vstd::utf8::encode_utf8_decode_utf8(b@);
        vstd::utf8::encode_utf8_valid_utf8(a@);
        vstd::utf8::encode_utf8_valid_utf8(b@);
    }
    if x.len() != y.len() {
        return false;
    }
    let n: usize = x.len();
    let mut i: usize = 0;
    while i < n
        invariant
            i <= n == x@.len(),
            x@.len() == y@.len(),
            x@ == vstd::utf8::encode_utf8(a@),
            y@ == vstd::utf8::encode_utf8(b@),
            forall|j: int| 0 <= j < i ==> x@[j] == y@[j],
        decreases n - i,
    {
        if x[i] != y[i] {
            return false;
        }
        i = i + 1;
    }
    assert(x@ =~= y@);
    true
}

pub fn char_is_whitespace(c: char) -> (r: bool)
    ensures
        r == is_whitespace(c),
{
    let n: u32 = c as u32;
    (0x09 <= n && n <= 0x0d) || n == 0x20 || n == 0x85 || n == 0xa0 || n == 0x1680 || (0x2000 <= n
        && n <= 0x200a) || n == 0x2028 || n == 0x2029 || n == 0x202f || n == 0x205f || n == 0x3000
}

pub fn char_is_digit(c: char) -> (r: bool)
    ensures
        r == is_digit(c),
{
    '0' <= c && c <= '9'
}

pub fn char_is_alphanumeric(c: char) -> (r: bool)
    ensures
        r == is_alphanumeric(c),
{
    let n: u32 = c as u32;
    if n <= 0x7f {
        ('a' <= c && c <= 'z') || ('A' <= c && c <= 'Z') || ('0' <= c && c <= '9')
    } else {
        std_is_alphanumeric(c)
    }
}

/// Whether every character of a text is ASCII.
fn is_all_ascii(v: &Vec<char>) -> (r: bool)
    ensures
        r == all_ascii(v@),
{
    let mut i: usize = 0;
    while i < v.len()
        invariant
            i <= v@.len(),
            forall|j: int| 0 <= j < i ==> is_ascii_char(#[trigger] v@[j]),
        decreases v@.len() - i,
    {
        let c: char = v[i];
        let n: u32 = c as u32;
        if n > 0x7f {
            assert(!is_ascii_char(v@[i as int]));
            return false;
        }
        i = i + 1;
    }
    true
}

fn lower_char(c: char) -> (r: char)
    ensures
        r == ascii_lower(c),
{
    if 'A' <= c && c <= 'Z' {
        let b: u8 = c as u8;
        (b + 32) as char
    } else {
        c
    }
}

fn upper_char(c: char) -> (r: char)
    ensures
        r == ascii_upper(c),
{
    if 'a' <= c && c <= 'z' {
        let b: u8 = c as u8;
        (b - 32) as char
    } else {
        c
    }
}

/// The text with its ASCII letters in lower case, and no others.
pub fn ascii_lowercase(s: &str) -> (r: String)
    ensures
        r@ == s@.map_values(|c: char| ascii_lower(c)),
{
    let v = chars(s);
    let mut out = String::new();
    let mut i: usize = 0;
    while i < v.len()
        invariant
            i <= v@.len(),
            out@ == v@.take(i as int).map_values(|c: char| ascii_lower(c)),
        decreases v@.len() - i,
    {
        out.push(lower_char(v[i]));
        i = i + 1;
        assert(out@ =~= v@.take(i as int).map_values(|c: char| ascii_lower(c)));
    }
    assert(v@.take(v@.len() as int) =~= v@);
    out
}

/// The text in lower case.
pub fn to_lower(s: &str) -> (r: String)
    ensures
        r@ == lowered(s@),
{
    let v = chars(s);
    if !is_all_ascii(&v) {
        return std_to_lowercase(s);
    }
    ascii_lowercase(s)
}

/// The text in upper case.
pub fn to_upper(s: &str) -> (r: String)
    ensures
        r@ == raised(s@),
{
    let v = chars(s);
    if !is_all_ascii(&v) {
        return std_to_uppercase(s);
    }
    let mut out = String::new();
    let mut i: usize = 0;
    while i < v.len()
        invariant
            i <= v@.len(),
            out@ == v@.take(i as int).map_values(|c: char| ascii_upper(c)),
        decreases v@.len() - i,
    {
        out.push(upper_char(v[i]));
        i = i + 1;
        assert(out@ =~= v@.take(i as int).map_values(|c: char| ascii_upper(c)));
    }
    assert(v@.take(v@.len() as int) =~= v@);
    out
}

/// The text without the whitespace at its two ends.
pub fn trim(s: &str) -> (r: String)
    ensures
        r@ == trimmed(s@),
{
    let v = chars(s);
    let n: usize = v.len();
    let mut from: usize = 0;
    assert(v@.skip(0) =~= v@);
    while from < n && char_is_whitespace(v[from])
        invariant
            from <= n == v@.len(),
            trim_start(v@) == trim_start(v@.skip(from as int)),
        decreases n - from,
    {
        assert(v@.skip(from as int).drop_first() =~= v@.skip(from as int + 1));
        from = from + 1;
    }
    assert(trim_start(v@) == v@.skip(from as int));
    let mut to: usize = n;
    assert(v@.subrange(from as int, to as int) =~= v@.skip(from as int));
    while from < to && char_is_whitespace(v[to - 1])
        invariant
            from <= to <= n == v@.len(),
            trim_end(v@.skip(from as int)) == trim_end(v@.subrange(from as int, to as int)),
        decreases to,
    {
        assert(v@.subrange(from as int, to as int).drop_last() =~= v@.subrange(
            from as int,
            to as int - 1,
        ));
        to = to - 1;
    }
    text(&v, from, to)
}

/// Whether `lit` stands at position `at`.
pub fn starts_at(v: &Vec<char>, at: usize, lit: &str) -> (r: bool)
    requires
        at <= v@.len(),
    ensures
        r == starts_with_at(v@, at as int, lit@),
{
    let w = chars(lit);
    let n: usize = v.len();
    if w.len() > n - at {
        return false;
    }
    let mut i: usize = 0;
    while i < w.len()
        invariant
            at <= v@.len() == n,
            i <= w@.len() <= v@.len() - at,
            w@ == lit@,
            forall|j: int| 0 <= j < i ==> v@[at + j] == w@[j],
        decreases w@.len() - i,
    {
        if v[at + i] != w[i] {
            assert(v@.subrange(at as int, at + lit@.len())[i as int] != lit@[i as int]);
            return false;
        }
        i = i + 1;
    }
    assert(v@.subrange(at as int, at + lit@.len()) =~= lit@);
    true
}

/// Whether a text begins with another.
pub fn begins_with(s: &str, prefix: &str) -> (r: bool)
    ensures
        r == has_prefix(s@, prefix@),
{
    let v = chars(s);
    starts_at(&v, 0, prefix)
}

proof fn find_char_bounds(s: Seq<char>, from: int, c: char)
    requires
        0 <= from <= s.len(),
    ensures
        from <= find_char(s, from, c) <= s.len(),
        find_char(s, from, c) < s.len() ==> s[find_char(s, from, c)] == c,
        forall|j: int| from <= j < find_char(s, from, c) ==> s[j] != c,
    decreases s.len() - from,
{
    if from < s.len() && s[from] != c {
        find_char_bounds(s, from + 1, c);
    }
}

/// The first position at or after `from` where `c` stands, or the length.
pub fn find(v: &Vec<char>, from: usize, c: char) -> (r: usize)
    requires
        from <= v@.len(),
    ensures
        r == find_char(v@, from as int, c),
        from <= r <= v@.len(),
        r < v@.len() ==> v@[r as int] == c,
        forall|j: int| from <= j < r ==> v@[j] != c,
{
    proof {
        find_char_bounds(v@, from as int, c);
    }
    let mut i: usize = from;
    while i < v.len()
        invariant
            from <= i <= v@.len(),
            find_char(v@, from as int, c) == find_char(v@, i as int, c),
            forall|j: int| from <= j < i ==> v@[j] != c,
        decreases v@.len() - i,
    {
        if v[i] == c {
            return i;
        }
        i = i + 1;
    }
    i
}

/// The last position where `c` stands.
pub fn rfind(v: &Vec<char>, c: char) -> (r: Option<usize>)
    ensures
        match r {
            Some(i) => rfind_char(v@, c) == Some(i as int) && i < v@.len(),
            None => rfind_char(v@, c) is None,
        },
{
    let mut n: usize = v.len();
    assert(v@.take(n as int) =~= v@);
    while n > 0
        invariant
            n <= v@.len(),
            rfind_char(v@, c) == rfind_char(v@.take(n as int), c),
        decreases n,
    {
        if v[n - 1] == c {
            return Some(n - 1);
        }
        assert(v@.take(n as int).drop_last() =~= v@.take(n as int - 1));
        n = n - 1;
    }
    None
}

/// The value of the digits from `from` up to `to`, if it does not exceed
/// `max`.
fn digits_up_to(v: &Vec<char>, from: usize, to: usize, max: u64) -> (r: Option<u64>)
    requires
        from <= to <= v@.len(),
        all_digits(v@.subrange(from as int, to as int)),
    ensures
        match r {
            Some(n) => n == digits_value(v@.subrange(from as int, to as int)) && n <= max,
            None => digits_value(v@.subrange(from as int, to as int)) > max,
        },
{
    let ghost all = v@.subrange(from as int, to as int);
    let mut i: usize = from;
    let mut acc: u64 = 0;
    let mut over: bool = false;
    assert(v@.subrange(from as int, from as int) =~= Seq::<char>::empty());
    while i < to
        invariant
            from <= i <= to <= v@.len(),
            all == v@.subrange(from as int, to as int),
            all_digits(all),
            !over ==> acc == digits_value(v@.subrange(from as int, i as int)) && acc <= max,
            over ==> digits_value(v@.subrange(from as int, i as int)) > max,
        decreases to - i,
    {
        let c: char = v[i];
        assert(all[i - from] == c);
        assert(is_digit(all[i - from]));
        let d: u64 = (c as u32 - '0' as u32) as u64;
        let ghost before = v@.subrange(from as int, i as int);
        let ghost after = v@.subrange(from as int, i as int + 1);
        assert(after.drop_last() =~= before);
        assert(after.last() == c);
        assert(digits_value(after) == digits_value(before) * 10 + d as nat);
        if !over {
            if d > max || acc > max / 10 || acc * 10 > max - d {
                over = true;
            } else {
                acc = acc * 10 + d;
            }
        }
        i = i + 1;
    }
    if over {
        None
    } else {
        Some(acc)
    }
}

/// The first position at or after `from` that holds no digit.
pub fn digits_end(v: &Vec<char>, from: usize) -> (r: usize)
    requires
        from <= v@.len(),
    ensures
        from <= r <= v@.len(),
        all_digits(v@.subrange(from as int, r as int)),
        r < v@.len() ==> !is_digit(v@[r as int]),
{
    let mut i: usize = from;
    while i < v.len() && char_is_digit(v[i])
        invariant
            from <= i <= v@.len(),
            forall|j: int| from <= j < i ==> is_digit(#[trigger] v@[j]),
        decreases v@.len() - i,
    {
        i = i + 1;
    }
    i
}

/// Reads an unsigned integer literal that does not exceed `max`.
pub fn parse_unsigned(s: &str, max: u64) -> (r: Option<u64>)
    ensures
        match r {
            Some(n) => unsigned_literal(s@) == Some(n as nat) && n <= max,
            None => unsigned_literal(s@) is None || unsigned_literal(s@)->0 > max,
        },
{
    let v = chars(s);
    parse_unsigned_from(&v, max)
}

fn parse_unsigned_from(v: &Vec<char>, max: u64) -> (r: Option<u64>)
    ensures
        match r {
            Some(n) => unsigned_literal(v@) == Some(n as nat) && n <= max,
            None => unsigned_literal(v@) is None || unsigned_literal(v@)->0 > max,
        },
{
    let n: usize = v.len();
    let from: usize = if n > 0 && v[0] == '+' {
        1
    } else {
        0
    };
    parse_natural_from(v, from, max)
}

fn parse_natural_from(v: &Vec<char>, from: usize, max: u64) -> (r: Option<u64>)
    requires
        from <= 1,
        from <= v@.len(),
    ensures
        ({
            let lit = natural(if from == 0 { v@ } else { v@.drop_first() });
            match r {
                Some(n) => lit == Some(n as nat) && n <= max,
                None => lit is None || lit->0 > max,
            }
        }),
{
    let n: usize = v.len();
    let end: usize = digits_end(v, from);
    let ghost body = if from == 0 { v@ } else { v@.drop_first() };
    assert(body =~= v@.subrange(from as int, n as int));
    if end != n {
        assert(!is_digit(body[end - from]));
        return None;
    }
    if from == n {
        return None;
    }
    digits_up_to(v, from, n, max)
}

/// Reads a signed 64-bit integer literal.
pub fn parse_i64(s: &str) -> (r: Option<i64>)
    ensures
        match r {
            Some(n) => signed_literal(s@) == Some(n as int),
            None => signed_literal(s@) is None || signed_literal(s@)->0 > i64::MAX
                || signed_literal(s@)->0 < i64::MIN,
        },
{
    let v = chars(s);
    if v.len() > 0 && v[0] == '-' {
        match parse_natural_from(&v, 1, 0x8000_0000_0000_0000) {
            Some(n) => {
                if n == 0x8000_0000_0000_0000 {
                    Some(i64::MIN)
                } else {
                    Some(-(n as i64))
                }
            },
            None => None,
        }
    } else {
        match parse_unsigned_from(&v, 0x7fff_ffff_ffff_ffff) {
            Some(n) => Some(n as i64),
            None => None,
        }
    }
}

/// The value of a run of digits of `v`, as a signed 64-bit integer.
pub fn digits_i64(v: &Vec<char>, from: usize, to: usize) -> (r: Option<i64>)
    requires
        from <= to <= v@.len(),
        all_digits(v@.subrange(from as int, to as int)),
    ensures
        match r {
            Some(n) => n == digits_value(v@.subrange(from as int, to as int)),
            None => digits_value(v@.subrange(from as int, to as int)) > i64::MAX,
        },
{
    match digits_up_to(v, from, to, 0x7fff_ffff_ffff_ffff) {
        Some(n) => Some(n as i64),
        None => None,
    }
}

/// The decimal digits of a number.
pub fn decimal_u64(n: u64) -> (r: String)
    ensures
        r@ == decimal(n as nat),
    decreases n,
{
    let d: u8 = (n % 10) as u8;
    let c: char = (48 + d) as char;
    if n < 10 {
        let mut out = String::new();
        out.push(c);
        assert(out@ =~= decimal(n as nat));
        out
    } else {
        let mut out = decimal_u64(n / 10);
        out.push(c);
        out
    }
}

/// The decimal form of a signed number.
pub fn decimal_i64(n: i64) -> (r: String)
    ensures
        r@ == signed_decimal(n as int),
{
    if n < 0 {
        let mut out = String::new();
        out.push('-');
        let m: u64 = if n == i64::MIN {
            0x8000_0000_0000_0000
        } else {
            (-n) as u64
        };
        let d = decimal_u64(m);
        out.append(d.as_str());
        assert(out@ =~= signed_decimal(n as int));
        out
    } else {
        decimal_u64(n as u64)
    }
}

/// Whether `a` comes before `b`.
pub fn less(a: &str, b: &str) -> (r: bool)
    ensures
        r == text_less(a@, b@),
{
    let x = chars(a);
    let y = chars(b);
    let mut i: usize = 0;
    assert(x@.skip(0) =~= x@);
    assert(y@.skip(0) =~= y@);
    while i < x.len() && i < y.len()
        invariant
            i <= x@.len(),
            i <= y@.len(),
            x@ == a@,
            y@ == b@,
            text_less(x@, y@) == text_less(x@.skip(i as int), y@.skip(i as int)),
        decreases x@.len() - i,
    {
        if x[i] != y[i] {
            return x[i] < y[i];
        }
        assert(x@.skip(i as int).drop_first() =~= x@.skip(i as int + 1));
        assert(y@.skip(i as int).drop_first() =~= y@.skip(i as int + 1));
        i = i + 1;
    }
    i < y.len()
}

/// The texts joined with `sep` between neighbours.
pub fn join(parts: &Vec<String>, sep: &str) -> (r: String)
    ensures
        r@ == joined(texts(parts@), sep@),
{
    let mut out = String::new();
    let mut i: usize = 0;
    assert(texts(parts@).take(0) =~= Seq::<Seq<char>>::empty());
    while i < parts.len()
        invariant
            i <= parts@.len(),
            out@ == joined(texts(parts@).take(i as int), sep@),
        decreases parts@.len() - i,
    {
        if i > 0 {
            out.append(sep);
        }
        out.append(parts[i].as_str());
        proof {
            let t = texts(parts@).take(i as int + 1);
            assert(t.drop_last() =~= texts(parts@).take(i as int));
            assert(t.last() == parts@[i as int]@);
            if i == 0 {
                assert(out@ =~= t[0]);
            }
        }
        i = i + 1;
    }
    assert(texts(parts@).take(parts@.len() as int) =~= texts(parts@));
    out
}

/// A copy of the text that there may be.
pub fn copy_text(v: &Option<String>) -> (r: Option<String>)
    ensures
        opt_text(r) == opt_text(*v),
{
    match v {
        Some(s) => Some(s.clone()),
        None => None,
    }
}

/// The parts of a text between occurrences of `sep`.
pub open spec fn split_on(s: Seq<char>, sep: char) -> Seq<Seq<char>>
    decreases s.len(),
{
    let at = find_char(s, 0, sep);
    if at < 0 || at >= s.len() {
        seq![s]
    } else {
        seq![s.take(at)] + split_on(s.skip(at + 1), sep)
    }
}

/// The parts of a text between occurrences of `sep`.
pub fn split(s: &str, sep: char) -> (r: Vec<String>)
    ensures
        texts(r@) == split_on(s@, sep),
        r@.len() > 0,
{
    let v = chars(s);
    let mut out: Vec<String> = Vec::new();
    let mut from: usize = 0;
    assert(v@.skip(0) =~= v@);
    assert(texts(out@) + split_on(v@, sep) =~= split_on(v@, sep));
    loop
        invariant
            from <= v@.len(),
            texts(out@) + split_on(v@.skip(from as int), sep) == split_on(v@, sep),
            v@ == s@,
        decreases v@.len() - from,
    {
        let at: usize = find(&v, from, sep);
        let ghost rest = v@.skip(from as int);
        let ghost before = out@;
        proof {
            find_char_skip(v@, from as int, sep);
        }
        let part = text(&v, from, at);
        out.push(part);
        assert(texts(out@) =~= texts(before).push(part@));
        if at >= v.len() {
            assert(part@ =~= rest);
            assert(texts(before) + seq![rest] =~= texts(before).push(rest));
            return out;
        }
        proof {
            assert(part@ =~= rest.take(at - from));
            assert(rest.skip(at - from + 1) =~= v@.skip(at as int + 1));
            assert(texts(before) + (seq![part@] + split_on(v@.skip(at as int + 1), sep)) =~= texts(
                out@,
            ) + split_on(v@.skip(at as int + 1), sep));
        }
        from = at + 1;
    }
}

/// Looking for a character from a position is looking in what follows it.
proof fn find_char_skip(s: Seq<char>, from: int, c: char)
    requires
        0 <= from <= s.len(),
    ensures
        find_char(s.skip(from), 0, c) == find_char(s, from, c) - from,
{
    find_char_shift(s, from, from, c);
}

proof fn find_char_shift(s: Seq<char>, base: int, from: int, c: char)
    requires
        0 <= base <= from <= s.len(),
    ensures
        find_char(s.skip(base), from - base, c) == find_char(s, from, c) - base,
    decreases s.len() - from,
{
    if from < s.len() {
        assert(s.skip(base)[from - base] == s[from]);
        if s[from] != c {
            find_char_shift(s, base, from + 1, c);
        }
    }
}

/// The text without the run of `c` that it begins with.
pub open spec fn strip_leading(s: Seq<char>, c: char) -> Seq<char>
    decreases s.len(),
{
    if s.len() > 0 && s[0] == c {
        strip_leading(s.drop_first(), c)
    } else {
        s
    }
}

/// The text without the run of `c` that it ends with.
pub open spec fn strip_trailing(s: Seq<char>, c: char) -> Seq<char>
    decreases s.len(),
{
    if s.len() > 0 && s.last() == c {
        strip_trailing(s.drop_last(), c)
    } else {
        s
    }
}

/// The text without the run of `open` that it begins with and the run of
/// `close` that it ends with.
pub fn strip_ends(s: &str, open: char, close: char) -> (r: String)
    ensures
        r@ == strip_trailing(strip_leading(s@, open), close),
{
    let v = chars(s);
    let n: usize = v.len();
    let mut from: usize = 0;
    assert(v@.skip(0) =~= v@);
    while from < n && v[from] == open
        invariant
            from <= n == v@.len(),
            strip_leading(v@, open) == strip_leading(v@.skip(from as int), open),
        decreases n - from,
    {
        assert(v@.skip(from as int).drop_first() =~= v@.skip(from as int + 1));
        from = from + 1;
    }
    assert(strip_leading(v@, open) == v@.skip(from as int));
    let mut to: usize = n;
    assert(v@.subrange(from as int, to as int) =~= v@.skip(from as int));
    while from < to && v[to - 1] == close
        invariant
            from <= to <= n == v@.len(),
            strip_trailing(v@.skip(from as int), close) == strip_trailing(
                v@.subrange(from as int, to as int),
                close,
            ),
        decreases to,
    {
        assert(v@.subrange(from as int, to as int).drop_last() =~= v@.subrange(
            from as int,
            to as int - 1,
        ));
        to = to - 1;
    }
    text(&v, from, to)
}

/// What follows the first `n` characters of a text.
pub fn after_first(s: &str, n: usize) -> (r: String)
    requires
        n <= s@.len(),
    ensures
        r@ == s@.skip(n as int),
{
    let v = chars(s);
    let end: usize = v.len();
    let r = text(&v, n, end);
    assert(r@ =~= s@.skip(n as int));
    r
}

/// What follows a prefix, where the text begins with it.
pub fn strip_prefix(s: &str, prefix: &str) -> (r: Option<String>)
    ensures
        match r {
            Some(rest) => has_prefix(s@, prefix@) && rest@ == s@.skip(prefix@.len() as int),
            None => !has_prefix(s@, prefix@),
        },
{
    if begins_with(s, prefix) {
        let n: usize = chars(prefix).len();
        Some(after_first(s, n))
    } else {
        None
    }
}

/// Whether a text is empty once trimmed.
pub fn is_blank(s: &str) -> (r: bool)
    ensures
        r == (trimmed(s@).len() == 0),
{
    trim(s).as_str().is_empty()
}

/// The UTF-8 bytes of a text.
pub fn bytes_of(s: &str) -> (r: Vec<u8>)
    ensures
        r@ == vstd::utf8::encode_utf8(s@),
{
    s.as_bytes_vec()
}

/// Whether a text occurs in another.
pub open spec fn has_substring(s: Seq<char>, part: Seq<char>) -> bool {
    exists|at: int| 0 <= at <= s.len() && #[trigger] starts_with_at(s, at, part)
}

pub fn contains(s: &str, part: &str) -> (r: bool)
    ensures
        r == has_substring(s@, part@),
{
    let v = chars(s);
    let mut i: usize = 0;
    while i <= v.len()
        invariant
            i <= v@.len() + 1,
            v@ == s@,
            forall|at: int| 0 <= at < i ==> !#[trigger] starts_with_at(s@, at, part@),
        decreases v@.len() + 1 - i,
    {
        if starts_at(&v, i, part) {
            return true;
        }
        if i == v.len() {
            return false;
        }
        i = i + 1;
    }
    false
}

/// The first position at or after `from` at which a text stands.
pub open spec fn first_at(s: Seq<char>, from: int, part: Seq<char>) -> Option<int>
    decreases s.len() + 1 - from,
{
    if from < 0 || from > s.len() {
        None
    } else if starts_with_at(s, from, part) {
        Some(from)
    } else {
        first_at(s, from + 1, part)
    }
}

/// The two sides of the first place at which a text stands.
pub open spec fn sides(s: Seq<char>, part: Seq<char>) -> Option<(Seq<char>, Seq<char>)> {
    match first_at(s, 0, part) {
        Some(i) => Some((s.take(i), s.skip(i + part.len()))),
        None => None,
    }
}

pub fn split_once(s: &str, part: &str) -> (r: Option<(String, String)>)
    ensures
        match r {
            Some((a, b)) => sides(s@, part@) == Some((a@, b@)),
            None => sides(s@, part@) is None,
        },
{
    let v = chars(s);
    let n: usize = v.len();
    let m: usize = chars(part).len();
    let mut i: usize = 0;
    while i <= n
        invariant
            i <= n + 1,
            n == v@.len(),
            v@ == s@,
            m == part@.len(),
            first_at(s@, 0, part@) == first_at(s@, i as int, part@),
        decreases n + 1 - i,
    {
        if starts_at(&v, i, part) {
            let a = text(&v, 0, i);
            let b = text(&v, i + m, n);
            assert(a@ =~= s@.take(i as int));
            assert(b@ =~= s@.skip(i + part@.len()));
            return Some((a, b));
        }
        if i == n {
            assert(first_at(s@, n as int + 1, part@) is None);
            return None;
        }
        i = i + 1;
    }
    None
}

// ── Numbers read back ───────────────────────────────────────────────

proof fn decimal_is_digits(n: nat)
    ensures
        decimal(n).len() > 0,
        all_digits(decimal(n)),
        digits_value(decimal(n)) == n,
    decreases n,
{
    if n < 10 {
        assert(decimal(n).drop_last() =~= Seq::<char>::empty());
        assert(digits_value(Seq::<char>::empty()) == 0);
        assert(decimal(n).last() as u32 - '0' as u32 == n);
    } else {
        decimal_is_digits(n / 10);
        assert(decimal(n).last() as u32 - '0' as u32 == n % 10);
        assert(decimal(n).drop_last() =~= decimal(n / 10));
        assert(all_digits(decimal(n))) by {
            assert forall|i: int| 0 <= i < decimal(n).len() implies is_digit(
                #[trigger] decimal(n)[i],
            ) by {
                if i < decimal(n).len() - 1 {
                    assert(decimal(n)[i] == decimal(n / 10)[i]);
                    assert(is_digit(decimal(n / 10)[i]));
                }
            }
        }
    }
}

/// The decimal form of an integer reads back as that integer, and holds
/// nothing but digits and a sign.
pub proof fn signed_decimal_reads_back(n: int)
    ensures
        signed_literal(signed_decimal(n)) == Some(n),
        forall|i: int|
            0 <= i < signed_decimal(n).len() ==> is_digit(#[trigger] signed_decimal(n)[i])
                || signed_decimal(n)[i] == '-',
{
    if n < 0 {
        decimal_is_digits((-n) as nat);
        assert(signed_decimal(n).drop_first() =~= decimal((-n) as nat));
        assert forall|i: int| 0 <= i < signed_decimal(n).len() implies is_digit(
            #[trigger] signed_decimal(n)[i],
        ) || signed_decimal(n)[i] == '-' by {
            if i > 0 {
                assert(signed_decimal(n)[i] == decimal((-n) as nat)[i - 1]);
            }
        }
    } else {
        decimal_is_digits(n as nat);
        assert(is_digit(decimal(n as nat)[0]));
    }
}

/// The decimal form of a number is all digits, reads back as that number, and
/// has no zero in front of another digit.
pub proof fn decimal_reads_back(n: nat)
    ensures
        decimal(n).len() > 0,
        all_digits(decimal(n)),
        digits_value(decimal(n)) == n,
        decimal(n)[0] == '0' ==> n == 0,
        n < 10 <==> decimal(n).len() == 1,
    decreases n,
{
    decimal_is_digits(n);
    if n >= 10 {
        decimal_reads_back(n / 10);
        assert(decimal(n)[0] == decimal(n / 10)[0]);
    }
}

/// Texts are ordered by the first character in which they differ, and a text
/// comes before every longer one that begins with it.
pub proof fn texts_are_ordered_by_the_first_difference(
    p: Seq<char>,
    a: char,
    b: char,
    x: Seq<char>,
    y: Seq<char>,
)
    ensures
        a < b ==> text_less(p + seq![a] + x, p + seq![b] + y) && !text_less(
            p + seq![b] + y,
            p + seq![a] + x,
        ),
        text_less(p, p + seq![a] + x),
    decreases p.len(),
{
    let (l, r) = (p + seq![a] + x, p + seq![b] + y);
    if p.len() == 0 {
        assert(l[0] == a && r[0] == b);
    } else {
        let q = p.drop_first();
        texts_are_ordered_by_the_first_difference(q, a, b, x, y);
        assert(l.drop_first() =~= q + seq![a] + x);
        assert(r.drop_first() =~= q + seq![b] + y);
        assert(l[0] == p[0] && r[0] == p[0]);
    }
}

/// What is found is the first place of a character, and nothing is found only
/// where it does not occur.
pub proof fn the_first_place_is_found(s: Seq<char>, from: int, c: char)
    requires
        0 <= from <= s.len(),
    ensures
        from <= find_char(s, from, c) <= s.len(),
        find_char(s, from, c) < s.len() ==> s[find_char(s, from, c)] == c,
        forall|k: int| from <= k < find_char(s, from, c) ==> #[trigger] s[k] != c,
    decreases s.len() - from,
{
    if from < s.len() && s[from] != c {
        the_first_place_is_found(s, from + 1, c);
    }
}

/// Trimming takes whitespace from both ends, all of it and nothing else.
pub proof fn trimming_takes_whitespace_only(s: Seq<char>)
    ensures
        exists|a: int, b: int|
            0 <= a <= b <= s.len() && trimmed(s) == #[trigger] s.subrange(a, b) && (forall|k: int|
                0 <= k < s.len() && !(a <= k < b) ==> is_whitespace(#[trigger] s[k])),
        trimmed(s).len() > 0 ==> !is_whitespace(trimmed(s)[0]) && !is_whitespace(trimmed(s).last()),
{
    start_is_whitespace(s);
    let a = s.len() - trim_start(s).len();
    let t = trim_start(s);
    end_is_whitespace(t);
    let b = a + trimmed(s).len();
    assert(trimmed(s) =~= s.subrange(a, b));
    assert forall|k: int| 0 <= k < s.len() && !(a <= k < b) implies is_whitespace(#[trigger] s[k]) by {
        if k >= b {
            assert(t[k - a] == s[k]);
        }
    }
    if trimmed(s).len() > 0 {
        assert(trimmed(s)[0] == t[0]);
    }
}

proof fn start_is_whitespace(s: Seq<char>)
    ensures
        trim_start(s).len() <= s.len(),
        trim_start(s) == s.skip(s.len() - trim_start(s).len()),
        forall|k: int| 0 <= k < s.len() - trim_start(s).len() ==> is_whitespace(#[trigger] s[k]),
        trim_start(s).len() > 0 ==> !is_whitespace(trim_start(s)[0]),
    decreases s.len(),
{
    if s.len() > 0 && is_whitespace(s[0]) {
        let rest = s.drop_first();
        start_is_whitespace(rest);
        assert forall|k: int| 0 <= k < s.len() - trim_start(s).len() implies is_whitespace(
            #[trigger] s[k],
        ) by {
            if k > 0 {
                assert(rest[k - 1] == s[k]);
            }
        }
        assert(trim_start(s) =~= s.skip(s.len() - trim_start(s).len()));
    } else {
        assert(s =~= s.skip(0));
    }
}

proof fn end_is_whitespace(s: Seq<char>)
    ensures
        trim_end(s).len() <= s.len(),
        trim_end(s) == s.take(trim_end(s).len() as int),
        forall|k: int| trim_end(s).len() <= k < s.len() ==> is_whitespace(#[trigger] s[k]),
        trim_end(s).len() > 0 ==> !is_whitespace(trim_end(s).last()),
    decreases s.len(),
{
    if s.len() > 0 && is_whitespace(s.last()) {
        let rest = s.drop_last();
        end_is_whitespace(rest);
        assert forall|k: int| trim_end(s).len() <= k < s.len() implies is_whitespace(
            #[trigger] s[k],
        ) by {
            if k < rest.len() {
                assert(rest[k] == s[k]);
            } else {
                assert(s[k] == s.last());
            }
        }
        assert(trim_end(s) =~= s.take(trim_end(s).len() as int));
    } else {
        assert(s =~= s.take(s.len() as int));
    }
}

/// The parts of a text, joined by what parted them, are the text again, and none
/// of them holds it.
pub proof fn parts_join_again(s: Seq<char>, sep: char)
    ensures
        split_on(s, sep).len() > 0,
        joined(split_on(s, sep), seq![sep]) == s,
        forall|i: int|
            0 <= i < split_on(s, sep).len() ==> !(#[trigger] split_on(s, sep)[i]).contains(sep),
    decreases s.len(),
{
    the_first_place_is_found(s, 0, sep);
    let at = find_char(s, 0, sep);
    if at < s.len() {
        let rest = s.skip(at + 1);
        let parts = split_on(rest, sep);
        parts_join_again(rest, sep);
        joined_in_front(s.take(at), parts, seq![sep]);
        assert(split_on(s, sep) =~= seq![s.take(at)] + parts);
        assert(s.take(at) + seq![sep] + rest =~= s);
        assert forall|i: int| 0 <= i < split_on(s, sep).len() implies !(#[trigger] split_on(
            s,
            sep,
        )[i]).contains(sep) by {
            if i == 0 {
                assert forall|k: int| 0 <= k < at implies s.take(at)[k] != sep by {
                    assert(s[k] != sep);
                }
            } else {
                assert(split_on(s, sep)[i] == parts[i - 1]);
            }
        }
    } else {
        assert forall|k: int| 0 <= k < s.len() implies s[k] != sep by {}
    }
}

proof fn joined_in_front(first: Seq<char>, parts: Seq<Seq<char>>, sep: Seq<char>)
    requires
        parts.len() > 0,
    ensures
        joined(seq![first] + parts, sep) == first + sep + joined(parts, sep),
    decreases parts.len(),
{
    let all = seq![first] + parts;
    assert(all.last() == parts.last());
    if parts.len() == 1 {
        assert(all.drop_last() =~= seq![first]);
        assert(joined(seq![first], sep) == first);
    } else {
        assert(all.drop_last() =~= seq![first] + parts.drop_last());
        joined_in_front(first, parts.drop_last(), sep);
        assert(joined(all, sep) =~= first + sep + joined(parts, sep));
    }
}

/// Lower and upper case of ASCII text differ in the letters alone, and each undoes
/// the other there.
pub proof fn cases_differ_in_letters(s: Seq<char>, i: int)
    requires
        all_ascii(s),
        0 <= i < s.len(),
    ensures
        lowered(s).len() == s.len() && raised(s).len() == s.len(),
        'A' <= s[i] <= 'Z' ==> lowered(s)[i] as int == s[i] as int + 32 && raised(s)[i] == s[i],
        'a' <= s[i] <= 'z' ==> raised(s)[i] as int == s[i] as int - 32 && lowered(s)[i] == s[i],
        !('A' <= s[i] <= 'Z') && !('a' <= s[i] <= 'z') ==> lowered(s)[i] == s[i] && raised(s)[i]
            == s[i],
{
}

/// A number has as few digits as its size asks for.
pub proof fn small_numbers_are_short(n: nat)
    requires
        n < 100_000_000_000_000,
    ensures
        decimal(n).len() <= 14,
{
    reveal_with_fuel(decimal, 15);
}

/// A text without the separator is the first part of what it and a separator
/// stand before.
pub proof fn the_first_part_is_split_off(x: Seq<char>, sep: char, y: Seq<char>)
    requires
        !x.contains(sep),
    ensures
        split_on(x + seq![sep] + y, sep) == seq![x] + split_on(y, sep),
        split_on(x, sep) == seq![x],
{
    let s = x + seq![sep] + y;
    the_first_place_is_found(s, 0, sep);
    let at = find_char(s, 0, sep);
    if at < x.len() {
        assert(x[at] == sep);
        assert(x.contains(x[at]));
    }
    if at > x.len() {
        assert(s[x.len() as int] == sep);
    }
    assert(s.take(at) =~= x);
    assert(s.skip(at + 1) =~= y);
    the_first_place_is_found(x, 0, sep);
    let none = find_char(x, 0, sep);
    if none < x.len() {
        assert(x.contains(x[none]));
    }
}

/// A plus before a number changes nothing, a minus makes it negative; blank text
/// and a sign alone are no number.
pub proof fn signs_are_read(n: nat)
    ensures
        unsigned_literal(seq!['+'] + decimal(n)) == Some(n),
        unsigned_literal(decimal(n)) == Some(n),
        unsigned_literal(seq!['-'] + decimal(n)) is None,
        signed_literal(seq!['+'] + decimal(n)) == Some(n as int),
        signed_literal(seq!['-'] + decimal(n)) == Some(-(n as int)),
        unsigned_literal(Seq::empty()) is None && signed_literal(Seq::empty()) is None,
        unsigned_literal(seq!['+']) is None && signed_literal(seq!['-']) is None,
{
    decimal_reads_back(n);
    let d = decimal(n);
    let (p, m) = (seq!['+'] + d, seq!['-'] + d);
    assert(p.drop_first() =~= d && m.drop_first() =~= d);
    assert(is_digit(d[0]));
    assert(!is_digit(m[0]));
    assert(seq!['+'].drop_first().len() == 0 && seq!['-'].drop_first().len() == 0);
}

} // verus!
