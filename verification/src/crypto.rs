//! Digests, hexadecimal text and random bytes, from the crates that provide
//! them.

use crate::time::Timestamp;
use rand::RngCore;
use sha2::Digest;
use vstd::prelude::*;

verus! {

/// The SHA-256 digest of a sequence of bytes.
pub uninterp spec fn sha256(data: Seq<u8>) -> Seq<u8>;

/// Calls `Sha256::digest` of sha2. Claims that the result is a function of
/// the data and 32 bytes long.
#[verifier::external_body]
fn sha2_digest(data: &Vec<u8>) -> (r: Vec<u8>)
    ensures
        r@ == sha256(data@),
        r@.len() == 32,
{
    sha2::Sha256::digest(data).to_vec()
}

pub open spec fn hex_digit(n: int) -> char {
    if n < 10 {
        (('0' as u32) + n) as char
    } else {
        (('a' as u32) + (n - 10)) as char
    }
}

/// Two lower-case hexadecimal digits for each byte, the high one first.
pub open spec fn hex_text(data: Seq<u8>) -> Seq<char> {
    Seq::new(
        2 * data.len(),
        |i: int|
            hex_digit(
                if i % 2 == 0 {
                    data[i / 2] as int / 16
                } else {
                    data[i / 2] as int % 16
                },
            ),
    )
}

/// Calls `hex::encode`, which writes each byte as two lower-case hexadecimal
/// digits.
#[verifier::external_body]
pub(crate) fn hex_encode(data: &Vec<u8>) -> (r: String)
    ensures
        r@ == hex_text(data@),
{
    hex::encode(data)
}

/// Calls `fill_bytes` on the thread's generator of rand. Claims only that as
/// many bytes come back as were asked for; their values are left to chance. No
/// vector is longer than `isize::MAX` bytes. The generator panics where the
/// system gives it no entropy to start from, whatever was asked for.
#[verifier::external_body]
fn rand_bytes(n: usize) -> (r: Vec<u8>)
    requires
        n <= isize::MAX,
    ensures
        r@.len() == n,
{
    let mut buf = vec![0u8; n];
    rand::thread_rng().fill_bytes(&mut buf);
    buf
}

/// Calls chrono's conversion of the system's time and gives its seconds and
/// nanoseconds, which lie before zero for a clock before 1970. Nothing is
/// claimed of what the clock says.
#[verifier::external_body]
fn chrono_now() -> (r: (i64, u32)) {
    let now = chrono::DateTime::<chrono::Utc>::from(std::time::SystemTime::now());
    (now.timestamp(), now.timestamp_subsec_nanos())
}

/// The present instant. An instant that a `Timestamp` cannot hold reads as the
/// epoch.
pub fn now() -> (r: Timestamp)
    ensures
        r@.exists_in_time(),
{
    let (secs, nanos) = chrono_now();
    match Timestamp::new(secs, nanos) {
        Some(t) => t,
        None => Timestamp::from_unix_nanos(0),
    }
}

/// The SHA-256 digest of some bytes.
pub fn sha256_of(data: &Vec<u8>) -> (r: Vec<u8>)
    ensures
        r@ == sha256(data@),
        r@.len() == 32,
{
    sha2_digest(data)
}

/// Random bytes as hexadecimal text.
pub fn random_hex(bytes: usize) -> (r: String)
    requires
        2 * bytes <= isize::MAX,
    ensures
        exists|data: Seq<u8>| data.len() == bytes && r@ == #[trigger] hex_text(data),
{
    let buf = rand_bytes(bytes);
    hex_encode(&buf)
}

pub open spec fn is_hex_char(c: char) -> bool {
    ('0' <= c <= '9') || ('a' <= c <= 'f')
}

/// Hexadecimal text holds nothing but hexadecimal digits, two per byte.
pub proof fn hex_text_chars(data: Seq<u8>)
    ensures
        hex_text(data).len() == 2 * data.len(),
        forall|i: int|
            0 <= i < hex_text(data).len() ==> is_hex_char(#[trigger] hex_text(data)[i]),
{
    assert forall|i: int| 0 <= i < hex_text(data).len() implies is_hex_char(
        #[trigger] hex_text(data)[i],
    ) by {
        let b = data[i / 2] as int;
        assert(0 <= b / 16 < 16);
        assert(0 <= b % 16 < 16);
    }
}

/// The number that a hexadecimal digit stands for.
pub open spec fn hex_value(c: char) -> int {
    if '0' <= c <= '9' {
        c as int - '0' as int
    } else {
        c as int - 'a' as int + 10
    }
}

/// Two digits for each byte, the high one first, from which the byte is read
/// back; two ids are written alike only if they are alike.
pub proof fn hex_reads_back(a: Seq<u8>, b: Seq<u8>)
    ensures
        hex_text(a).len() == 2 * a.len(),
        forall|i: int|
            0 <= i < a.len() ==> #[trigger] a[i] == 16 * hex_value(hex_text(a)[2 * i]) + hex_value(
                hex_text(a)[2 * i + 1],
            ),
        hex_text(a) == hex_text(b) <==> a == b,
{
    assert forall|i: int| 0 <= i < a.len() implies #[trigger] a[i] == 16 * hex_value(
        hex_text(a)[2 * i],
    ) + hex_value(hex_text(a)[2 * i + 1]) by {
        hex_byte(a, i);
    }
    if hex_text(a) == hex_text(b) {
        assert(hex_text(a).len() == 2 * a.len() && hex_text(b).len() == 2 * b.len());
        assert forall|i: int| 0 <= i < a.len() implies a[i] == b[i] by {
            hex_byte(a, i);
            hex_byte(b, i);
        }
        assert(a =~= b);
    }
}

proof fn hex_byte(a: Seq<u8>, i: int)
    requires
        0 <= i < a.len(),
    ensures
        a[i] == 16 * hex_value(hex_text(a)[2 * i]) + hex_value(hex_text(a)[2 * i + 1]),
{
    assert((2 * i) / 2 == i && (2 * i + 1) / 2 == i && (2 * i) % 2 == 0 && (2 * i + 1) % 2 == 1);
    let n = a[i] as int;
    assert(hex_text(a)[2 * i] == hex_digit(n / 16));
    assert(hex_text(a)[2 * i + 1] == hex_digit(n % 16));
}

} // verus!
