//! Listen addresses, and which of them only this machine can reach.

use crate::text::{char_is_digit, chars, rfind, rfind_char, same, split, split_on, strip_ends, strip_leading, strip_trailing, text, texts};
use vstd::prelude::*;

verus! {

// ── Addresses as text ───────────────────────────────────────────────

/// A decimal octet: up to three digits, at most 255, no leading zero.
pub open spec fn octet(s: Seq<char>) -> Option<int> {
    let n = crate::text::digits_value(s);
    if 1 <= s.len() <= 3 && crate::text::all_digits(s) && (s.len() == 1 || s[0] != '0') && n
        <= 255 {
        Some(n as int)
    } else {
        None
    }
}

/// The octets of a dotted address.
pub open spec fn ipv4(s: Seq<char>) -> Option<Seq<int>> {
    let parts = split_on(s, '.');
    if parts.len() == 4 && octet(parts[0]) is Some && octet(parts[1]) is Some && octet(
        parts[2],
    ) is Some && octet(parts[3]) is Some {
        Some(seq![octet(parts[0])->0, octet(parts[1])->0, octet(parts[2])->0, octet(parts[3])->0])
    } else {
        None
    }
}

pub open spec fn hex_value(c: char) -> Option<int> {
    if '0' <= c <= '9' {
        Some(c as int - '0' as int)
    } else if 'a' <= c <= 'f' {
        Some(c as int - 'a' as int + 10)
    } else if 'A' <= c <= 'F' {
        Some(c as int - 'A' as int + 10)
    } else {
        None
    }
}

/// The value of hexadecimal digits.
pub open spec fn hex_number(s: Seq<char>) -> Option<int>
    decreases s.len(),
{
    if s.len() == 0 {
        Some(0)
    } else {
        match (hex_number(s.drop_last()), hex_value(s.last())) {
            (Some(n), Some(d)) => Some(n * 16 + d),
            _ => None,
        }
    }
}

/// A group of an IPv6 address: one to four hexadecimal digits.
pub open spec fn hex_group(s: Seq<char>) -> Option<int> {
    if 1 <= s.len() <= 4 {
        hex_number(s)
    } else {
        None
    }
}

/// The values of parts that are all groups.
pub open spec fn hex_groups(parts: Seq<Seq<char>>) -> Option<Seq<int>>
    decreases parts.len(),
{
    if parts.len() == 0 {
        Some(Seq::empty())
    } else {
        match (hex_groups(parts.drop_last()), hex_group(parts.last())) {
            (Some(init), Some(n)) => Some(init.push(n)),
            _ => None,
        }
    }
}

/// Groups separated by colons, or nothing at all.
pub open spec fn plain_groups(s: Seq<char>) -> Option<Seq<int>> {
    if s.len() == 0 {
        Some(Seq::empty())
    } else {
        hex_groups(split_on(s, ':'))
    }
}

/// Groups separated by colons, the last two perhaps written as a dotted
/// address, or nothing at all.
pub open spec fn groups(s: Seq<char>) -> Option<Seq<int>> {
    let parts = split_on(s, ':');
    if s.len() == 0 {
        Some(Seq::empty())
    } else {
        match ipv4(parts.last()) {
            Some(o) => match hex_groups(parts.drop_last()) {
                Some(init) => Some(init.push(o[0] * 256 + o[1]).push(o[2] * 256 + o[3])),
                None => None,
            },
            None => hex_groups(parts),
        }
    }
}

/// The position of the first `::`, or the length.
pub open spec fn double_colon(s: Seq<char>, from: int) -> int
    decreases s.len() - from,
{
    if from + 1 >= s.len() {
        s.len() as int
    } else if s[from] == ':' && s[from + 1] == ':' {
        from
    } else {
        double_colon(s, from + 1)
    }
}

pub open spec fn zeros(n: int) -> Seq<int> {
    Seq::new(n as nat, |i: int| 0int)
}

/// The eight groups of an IPv6 address. `::` stands for one or more groups of
/// zero.
pub open spec fn ipv6(s: Seq<char>) -> Option<Seq<int>> {
    let at = double_colon(s, 0);
    if at < s.len() {
        match (plain_groups(s.take(at)), groups(s.skip(at + 2))) {
            (Some(head), Some(tail)) => if head.len() + tail.len() <= 7 {
                Some(head + zeros(8 - head.len() - tail.len()) + tail)
            } else {
                None
            },
            _ => None,
        }
    } else {
        match groups(s) {
            Some(g) => if g.len() == 8 {
                Some(g)
            } else {
                None
            },
            None => None,
        }
    }
}

// ── Loopback ────────────────────────────────────────────────────────

/// Whether a host is one that only this machine can reach: an address in
/// 127.0.0.0/8, the address ::1, or the name `localhost`.
pub open spec fn is_loopback_host(host: Seq<char>) -> bool {
    match ipv4(host) {
        Some(o) => o[0] == 127,
        None => match ipv6(host) {
            Some(g) => g == seq![0int, 0, 0, 0, 0, 0, 0, 1],
            None => host == "localhost"@,
        },
    }
}

/// The host of a `host:port` address, without the brackets of an IPv6 one.
pub open spec fn host_of(addr: Seq<char>) -> Seq<char> {
    let host = match rfind_char(addr, ':') {
        Some(i) => addr.take(i),
        None => addr,
    };
    strip_trailing(strip_leading(host, '['), ']')
}

/// Whether a `host:port` listen address is loopback-only.
pub open spec fn is_loopback(addr: Seq<char>) -> bool {
    is_loopback_host(host_of(addr))
}

// ── Executable forms ────────────────────────────────────────────────

fn read_octet(s: &str) -> (r: Option<u16>)
    ensures
        match r {
            Some(n) => octet(s@) == Some(n as int) && n <= 255,
            None => octet(s@) is None,
        },
{
    let v = chars(s);
    let n: usize = v.len();
    if n < 1 || n > 3 || (n > 1 && v[0] == '0') {
        return None;
    }
    let mut acc: u16 = 0;
    let mut i: usize = 0;
    assert(v@.take(0) =~= Seq::<char>::empty());
    while i < n
        invariant
            i <= n == v@.len(),
            n <= 3,
            v@ == s@,
            acc == crate::text::digits_value(v@.take(i as int)),
            i == 0 ==> acc == 0,
            i == 1 ==> acc <= 9,
            i == 2 ==> acc <= 99,
            i == 3 ==> acc <= 999,
            forall|j: int| 0 <= j < i ==> crate::text::is_digit(#[trigger] v@[j]),
        decreases n - i,
    {
        let c: char = v[i];
        if !char_is_digit(c) {
            assert(!crate::text::is_digit(s@[i as int]));
            return None;
        }
        let d: u16 = (c as u32 - '0' as u32) as u16;
        assert(v@.take(i as int + 1).drop_last() =~= v@.take(i as int));
        acc = acc * 10 + d;
        i = i + 1;
    }
    assert(v@.take(n as int) =~= v@);
    if acc <= 255 {
        Some(acc)
    } else {
        None
    }
}

fn read_ipv4(s: &str) -> (r: Option<[u16; 4]>)
    ensures
        match r {
            Some(o) => ipv4(s@) == Some(
                seq![o[0] as int, o[1] as int, o[2] as int, o[3] as int],
            ) && o[0] <= 255 && o[1] <= 255 && o[2] <= 255 && o[3] <= 255,
            None => ipv4(s@) is None,
        },
{
    let parts = split(s, '.');
    let ghost views = split_on(s@, '.');
    assert(views.len() == parts@.len());
    if parts.len() != 4 {
        return None;
    }
    assert(views[0] == parts@[0]@ && views[1] == parts@[1]@ && views[2] == parts@[2]@ && views[3]
        == parts@[3]@);
    match (
        read_octet(parts[0].as_str()),
        read_octet(parts[1].as_str()),
        read_octet(parts[2].as_str()),
        read_octet(parts[3].as_str()),
    ) {
        (Some(a), Some(b), Some(c), Some(d)) => Some([a, b, c, d]),
        _ => None,
    }
}

fn read_hex_digit(c: char) -> (r: Option<u32>)
    ensures
        match r {
            Some(d) => hex_value(c) == Some(d as int) && d < 16,
            None => hex_value(c) is None,
        },
{
    if '0' <= c && c <= '9' {
        Some(c as u32 - '0' as u32)
    } else if 'a' <= c && c <= 'f' {
        Some(c as u32 - 'a' as u32 + 10)
    } else if 'A' <= c && c <= 'F' {
        Some(c as u32 - 'A' as u32 + 10)
    } else {
        None
    }
}

proof fn hex_number_prefix(s: Seq<char>, n: int)
    requires
        0 <= n <= s.len(),
        hex_number(s.take(n)) is None,
    ensures
        hex_number(s) is None,
    decreases s.len() - n,
{
    if n < s.len() {
        assert(s.take(n + 1).drop_last() =~= s.take(n));
        hex_number_prefix(s, n + 1);
    } else {
        assert(s.take(n) =~= s);
    }
}

fn read_hex_group(s: &str) -> (r: Option<u32>)
    ensures
        match r {
            Some(n) => hex_group(s@) == Some(n as int) && n <= 0xffff,
            None => hex_group(s@) is None,
        },
{
    let v = chars(s);
    let n: usize = v.len();
    if n < 1 || n > 4 {
        return None;
    }
    let mut acc: u32 = 0;
    let mut i: usize = 0;
    assert(v@.take(0) =~= Seq::<char>::empty());
    while i < n
        invariant
            i <= n == v@.len(),
            n <= 4,
            v@ == s@,
            hex_number(v@.take(i as int)) == Some(acc as int),
            i == 0 ==> acc == 0,
            i == 1 ==> acc <= 0xf,
            i == 2 ==> acc <= 0xff,
            i == 3 ==> acc <= 0xfff,
            i == 4 ==> acc <= 0xffff,
        decreases n - i,
    {
        assert(v@.take(i as int + 1).drop_last() =~= v@.take(i as int));
        assert(v@.take(i as int + 1).last() == v@[i as int]);
        match read_hex_digit(v[i]) {
            Some(d) => {
                acc = acc * 16 + d;
            },
            None => {
                proof {
                    hex_number_prefix(v@, i as int + 1);
                }
                return None;
            },
        }
        i = i + 1;
    }
    assert(v@.take(n as int) =~= v@);
    Some(acc)
}

pub open spec fn as_ints(v: Seq<u32>) -> Seq<int> {
    v.map_values(|n: u32| n as int)
}

proof fn hex_groups_prefix(parts: Seq<Seq<char>>, n: int)
    requires
        0 <= n <= parts.len(),
        hex_groups(parts.take(n)) is None,
    ensures
        hex_groups(parts) is None,
    decreases parts.len() - n,
{
    if n < parts.len() {
        assert(parts.take(n + 1).drop_last() =~= parts.take(n));
        hex_groups_prefix(parts, n + 1);
    } else {
        assert(parts.take(n) =~= parts);
    }
}

/// Reads the first `n` parts as groups.
fn read_hex_groups(parts: &Vec<String>, n: usize) -> (r: Option<Vec<u32>>)
    requires
        n <= parts@.len(),
    ensures
        match r {
            Some(g) => hex_groups(texts(parts@).take(n as int)) == Some(as_ints(g@)),
            None => hex_groups(texts(parts@).take(n as int)) is None,
        },
{
    let ghost all = texts(parts@).take(n as int);
    let mut out: Vec<u32> = Vec::new();
    let mut i: usize = 0;
    assert(all.take(0) =~= Seq::<Seq<char>>::empty());
    assert(as_ints(out@) =~= Seq::<int>::empty());
    while i < n
        invariant
            i <= n <= parts@.len(),
            all == texts(parts@).take(n as int),
            hex_groups(all.take(i as int)) == Some(as_ints(out@)),
        decreases n - i,
    {
        assert(all.take(i as int + 1).drop_last() =~= all.take(i as int));
        assert(all.take(i as int + 1).last() == parts@[i as int]@);
        match read_hex_group(parts[i].as_str()) {
            Some(g) => {
                let ghost before = out@;
                out.push(g);
                assert(as_ints(out@) =~= as_ints(before).push(g as int));
            },
            None => {
                proof {
                    hex_groups_prefix(all, i as int + 1);
                }
                return None;
            },
        }
        i = i + 1;
    }
    assert(all.take(n as int) =~= all);
    Some(out)
}

fn read_plain_groups(s: &str) -> (r: Option<Vec<u32>>)
    ensures
        match r {
            Some(g) => plain_groups(s@) == Some(as_ints(g@)),
            None => plain_groups(s@) is None,
        },
{
    if s.is_empty() {
        let none: Vec<u32> = Vec::new();
        assert(as_ints(none@) =~= Seq::<int>::empty());
        return Some(none);
    }
    let parts = split(s, ':');
    let n: usize = parts.len();
    assert(texts(parts@).take(n as int) =~= texts(parts@));
    read_hex_groups(&parts, n)
}

fn read_groups(s: &str) -> (r: Option<Vec<u32>>)
    ensures
        match r {
            Some(g) => groups(s@) == Some(as_ints(g@)),
            None => groups(s@) is None,
        },
{
    if s.is_empty() {
        let none: Vec<u32> = Vec::new();
        assert(as_ints(none@) =~= Seq::<int>::empty());
        return Some(none);
    }
    let parts = split(s, ':');
    let ghost views = texts(parts@);
    let n: usize = parts.len();
    assert(views.last() == parts@[n - 1]@);
    match read_ipv4(parts[n - 1].as_str()) {
        Some(o) => {
            assert(views.take(n - 1) =~= views.drop_last());
            match read_hex_groups(&parts, n - 1) {
                Some(mut g) => {
                    let ghost before = as_ints(g@);
                    let high: u32 = (o[0] as u32) * 256 + (o[1] as u32);
                    let low: u32 = (o[2] as u32) * 256 + (o[3] as u32);
                    g.push(high);
                    g.push(low);
                    assert(as_ints(g@) =~= before.push(high as int).push(low as int));
                    Some(g)
                },
                None => None,
            }
        },
        None => {
            assert(views.take(n as int) =~= views);
            read_hex_groups(&parts, n)
        },
    }
}

fn find_double_colon(v: &Vec<char>) -> (r: usize)
    ensures
        r == double_colon(v@, 0),
        r <= v@.len(),
        r < v@.len() ==> r + 2 <= v@.len(),
{
    let n: usize = v.len();
    let mut i: usize = 0;
    while i < n && n - i >= 2
        invariant
            i <= n == v@.len(),
            double_colon(v@, 0) == double_colon(v@, i as int),
        decreases n - i,
    {
        if v[i] == ':' && v[i + 1] == ':' {
            return i;
        }
        i = i + 1;
    }
    n
}

/// Whether groups are those of ::1, with groups of zero between head and tail.
fn is_one(head: &Vec<u32>, tail: &Vec<u32>) -> (r: bool)
    requires
        head@.len() + tail@.len() <= 8,
    ensures
        r == (as_ints(head@) + zeros(8 - head@.len() - tail@.len()) + as_ints(tail@) == seq![
            0int,
            0,
            0,
            0,
            0,
            0,
            0,
            1,
        ]),
{
    let ghost whole = as_ints(head@) + zeros(8 - head@.len() - tail@.len()) + as_ints(tail@);
    let ghost one = seq![0int, 0, 0, 0, 0, 0, 0, 1];
    let h: usize = head.len();
    let t: usize = tail.len();
    assert(whole.len() == 8);
    let mut i: usize = 0;
    while i < h
        invariant
            i <= h == head@.len(),
            t == tail@.len(),
            h + t <= 8,
            whole == as_ints(head@) + zeros(8 - head@.len() - tail@.len()) + as_ints(tail@),
            one == seq![0int, 0, 0, 0, 0, 0, 0, 1],
            forall|j: int| 0 <= j < i ==> whole[j] == one[j],
        decreases h - i,
    {
        let wanted: u32 = if i == 7 {
            1
        } else {
            0
        };
        assert(one[i as int] == wanted);
        assert(whole[i as int] == head@[i as int]);
        if head[i] != wanted {
            return false;
        }
        i = i + 1;
    }
    if t == 0 && h < 8 {
        assert(whole[7] == 0);
        return false;
    }
    let mut k: usize = 0;
    while k < t
        invariant
            k <= t == tail@.len(),
            h == head@.len(),
            h + t <= 8,
            whole == as_ints(head@) + zeros(8 - head@.len() - tail@.len()) + as_ints(tail@),
            one == seq![0int, 0, 0, 0, 0, 0, 0, 1],
            forall|j: int| 8 - t <= j < 8 - t + k ==> whole[j] == one[j],
        decreases t - k,
    {
        let wanted: u32 = if k + 1 == t {
            1
        } else {
            0
        };
        assert(one[8 - t + k] == wanted);
        assert(whole[8 - t + k] == tail@[k as int]);
        if tail[k] != wanted {
            return false;
        }
        k = k + 1;
    }
    proof {
        assert forall|j: int| 0 <= j < 8 implies whole[j] == one[j] by {
            if h <= j < 8 - t {
                assert(whole[j] == 0);
                assert(j < 7);
            }
        }
        assert(whole =~= one);
    }
    true
}

/// Whether a host is an IPv6 address, and then whether it is ::1.
fn read_ipv6_loopback(s: &str) -> (r: Option<bool>)
    ensures
        match r {
            Some(b) => ipv6(s@) is Some && b == (ipv6(s@)->0 == seq![0int, 0, 0, 0, 0, 0, 0, 1]),
            None => ipv6(s@) is None,
        },
{
    let v = chars(s);
    let n: usize = v.len();
    let at: usize = find_double_colon(&v);
    if at < n {
        let before = text(&v, 0, at);
        let after = text(&v, at + 2, n);
        assert(before@ =~= s@.take(at as int));
        assert(after@ =~= s@.skip(at as int + 2));
        match (read_plain_groups(before.as_str()), read_groups(after.as_str())) {
            (Some(head), Some(tail)) => {
                assert(as_ints(head@).len() == head@.len());
                assert(as_ints(tail@).len() == tail@.len());
                if head.len() > 7 || tail.len() > 7 - head.len() {
                    return None;
                }
                Some(is_one(&head, &tail))
            },
            _ => None,
        }
    } else {
        match read_groups(s) {
            Some(g) => {
                assert(as_ints(g@).len() == g@.len());
                if g.len() != 8 {
                    return None;
                }
                let none: Vec<u32> = Vec::new();
                assert(as_ints(g@) + zeros(0) + as_ints(none@) =~= as_ints(g@));
                Some(is_one(&g, &none))
            },
            None => None,
        }
    }
}

/// Whether a `host:port` listen address is loopback-only.
///
/// `0.0.0.0` and `::` count as off-box because they accept traffic on every
/// interface. An unparseable or name-based host counts as off-box too, an empty
/// one among them; the one name that is trusted is `localhost`.
pub fn is_loopback_addr(addr: &str) -> (r: bool)
    ensures
        r == is_loopback(addr@),
{
    let v = chars(addr);
    let host: String = match rfind(&v, ':') {
        Some(i) => {
            let h = text(&v, 0, i);
            assert(h@ =~= addr@.take(i as int));
            h
        },
        None => addr.to_owned(),
    };
    let host = strip_ends(host.as_str(), '[', ']');
    assert(host@ == host_of(addr@));
    match read_ipv4(host.as_str()) {
        Some(o) => o[0] == 127,
        None => match read_ipv6_loopback(host.as_str()) {
            Some(b) => b,
            None => same(host.as_str(), "localhost"),
        },
    }
}

// ── Laws ────────────────────────────────────────────────────────────

/// Four numbers below 256 with points between them are an address, and it is of
/// this machine exactly when the first is 127, whatever its port.
pub proof fn dotted_addresses_read_back(a: nat, b: nat, c: nat, d: nat, port: Seq<char>)
    requires
        a <= 255,
        b <= 255,
        c <= 255,
        d <= 255,
        !port.contains(':'),
    ensures
        ({
            let s = crate::text::decimal(a) + seq!['.'] + (crate::text::decimal(b) + seq!['.'] + (
            crate::text::decimal(c) + seq!['.'] + crate::text::decimal(d)));
            &&& ipv4(s) == Some(seq![a as int, b as int, c as int, d as int])
            &&& is_loopback_host(s) <==> a == 127
            &&& is_loopback(s + seq![':'] + port) <==> a == 127
        }),
{
    let (p, q, r, t) = (
        crate::text::decimal(a),
        crate::text::decimal(b),
        crate::text::decimal(c),
        crate::text::decimal(d),
    );
    octets_read_back(a);
    octets_read_back(b);
    octets_read_back(c);
    octets_read_back(d);
    let tail = r + seq!['.'] + t;
    let more = q + seq!['.'] + tail;
    let s = p + seq!['.'] + more;
    crate::text::the_first_part_is_split_off(p, '.', more);
    crate::text::the_first_part_is_split_off(q, '.', tail);
    crate::text::the_first_part_is_split_off(r, '.', t);
    crate::text::the_first_part_is_split_off(t, '.', t);
    assert(split_on(s, '.') =~= seq![p, q, r, t]);
    let addr = s + seq![':'] + port;
    last_colon(s, port);
    assert(addr.take(s.len() as int) =~= s);
    assert(s[0] == p[0]);
    assert(s.last() == t.last());
    assert(strip_leading(s, '[') == s);
    assert(strip_trailing(s, ']') == s);
}

proof fn octets_read_back(n: nat)
    requires
        n <= 255,
    ensures
        octet(crate::text::decimal(n)) == Some(n as int),
        !crate::text::decimal(n).contains('.'),
        crate::text::is_digit(crate::text::decimal(n)[0]),
        crate::text::is_digit(crate::text::decimal(n).last()),
        crate::text::decimal(n).len() > 0,
{
    crate::text::decimal_reads_back(n);
    reveal_with_fuel(crate::text::decimal, 4);
    let d = crate::text::decimal(n);
    assert(crate::text::is_digit(d[0]) && crate::text::is_digit(d[d.len() - 1]));
    assert forall|i: int| 0 <= i < d.len() implies d[i] != '.' by {
        assert(crate::text::is_digit(d[i]));
    }
}

proof fn last_colon(host: Seq<char>, port: Seq<char>)
    requires
        !port.contains(':'),
    ensures
        rfind_char(host + seq![':'] + port, ':') == Some(host.len() as int),
    decreases port.len(),
{
    let s = host + seq![':'] + port;
    if port.len() > 0 {
        assert(port.contains(port.last()));
        assert(s.last() == port.last());
        assert(s.drop_last() =~= host + seq![':'] + port.drop_last());
        assert forall|k: int| 0 <= k < port.len() - 1 implies port.drop_last()[k] != ':' by {
            assert(port.contains(port[k]));
        }
        last_colon(host, port.drop_last());
    } else {
        assert(s =~= host.push(':'));
    }
}

} // verus!
