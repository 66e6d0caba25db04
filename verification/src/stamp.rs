//! Wall-clock timestamps and random identifiers for packet records.

use vstd::prelude::*;

verus! {

/// `SystemTime::now().duration_since(UNIX_EPOCH)` in nanoseconds; `None`
/// when the clock reads before the epoch. Nothing is promised about the
/// value: it is the clock's reading at the call.
#[verifier::external_body]
fn nanos_since_epoch() -> Option<u128> {
    std::time::SystemTime::now().duration_since(std::time::UNIX_EPOCH).ok().map(|elapsed| elapsed.as_nanos())
}

/// A clock reading as a timestamp: its nanoseconds, at most `i64::MAX`
/// (which is reached in 2262); 0 for a clock before the epoch.
pub open spec fn timestamp_of(reading: Option<u128>) -> i64 {
    match reading {
        Some(n) => if n <= 0x7fff_ffff_ffff_ffff {
            n as i64
        } else {
            0x7fff_ffff_ffff_ffffi64
        },
        None => 0,
    }
}

fn nanos_from(reading: Option<u128>) -> (r: i64)
    ensures
        r == timestamp_of(reading),
{
    match reading {
        Some(n) => if n <= 0x7fff_ffff_ffff_ffffu128 {
            n as i64
        } else {
            0x7fff_ffff_ffff_ffffi64
        },
        None => 0,
    }
}

/// The current time as nanoseconds since the Unix epoch (see
/// `timestamp_of`); the reading itself is the clock's.
pub(crate) fn now_nanos() -> (r: i64)
    ensures
        r >= 0,
{
    nanos_from(nanos_since_epoch())
}

pub open spec fn is_lower_hex(c: char) -> bool {
    ('0' <= c && c <= '9') || ('a' <= c && c <= 'f')
}

/// The text of a version-4 UUID in its simple form: 32 lower-case hex
/// digits, the version digit (the 13th) `4`, and the variant digit (the
/// 17th) one of `8`, `9`, `a`, `b`.
pub open spec fn is_simple_uuid(s: Seq<char>) -> bool {
    &&& s.len() == 32
    &&& forall|i: int| 0 <= i < s.len() ==> is_lower_hex(#[trigger] s[i])
    &&& s[12] == '4'
    &&& (s[16] == '8' || s[16] == '9' || s[16] == 'a' || s[16] == 'b')
}

/// The lower-case hex digit of `n` (0 to 15).
pub open spec fn hex_digit(n: int) -> char {
    if n < 10 {
        (('0' as int) + n) as char
    } else {
        (('a' as int) + n - 10) as char
    }
}

/// The bytes as lower-case hex, two digits a byte, high digit first.
pub open spec fn hex_of(bytes: Seq<u8>) -> Seq<char> {
    Seq::new(
        2 * bytes.len(),
        |i: int|
            if i % 2 == 0 {
                hex_digit(bytes[i / 2] as int / 16)
            } else {
                hex_digit(bytes[i / 2] as int % 16)
            },
    )
}

/// The 16 random bytes with the version (4) and variant (`10`) bits set, as
/// `uuid::Builder::from_random_bytes` sets them.
pub open spec fn v4_bytes(bytes: Seq<u8>) -> Seq<u8> {
    bytes.update(6, (bytes[6] % 16 + 0x40) as u8).update(8, (bytes[8] % 64 + 0x80) as u8)
}

/// The simple text of the version-4 UUID built from 16 random bytes.
pub open spec fn uuid_v4_text(bytes: Seq<u8>) -> Seq<char> {
    hex_of(v4_bytes(bytes))
}

/// `getrandom::fill` of 16 bytes: random bytes from the operating system,
/// or `None` when it cannot give them. Which bytes come is chance.
#[verifier::external_body]
fn os_random_bytes() -> Option<[u8; 16]> {
    let mut bytes = [0u8; 16];
    getrandom::fill(&mut bytes).ok().map(|_| bytes)
}

/// `Builder::from_random_bytes(bytes).into_uuid().simple().to_string()`: the
/// bytes with the version and variant bits set (`with_version`,
/// `with_variant`), written as lower-case hex by the `Simple` formatter.
#[verifier::external_body]
fn uuid_text(bytes: [u8; 16]) -> (r: String)
    ensures
        r@ == uuid_v4_text(bytes@),
{
    uuid::Builder::from_random_bytes(bytes).into_uuid().simple().to_string()
}

/// The text of every version-4 UUID has the simple form.
proof fn lemma_uuid_text_shape(bytes: Seq<u8>)
    requires
        bytes.len() == 16,
    ensures
        is_simple_uuid(uuid_v4_text(bytes)),
{
    let v = v4_bytes(bytes);
    let s = uuid_v4_text(bytes);
    assert forall|i: int| 0 <= i < s.len() implies is_lower_hex(#[trigger] s[i]) by {
        assert(0 <= v[i / 2] / 16 < 16);
        assert(0 <= v[i / 2] % 16 < 16);
    }
    assert(v[6] / 16 == 4);
    assert(8 <= v[8] / 16 < 12);
    assert(s[12] == hex_digit(v[6] as int / 16));
    assert(s[16] == hex_digit(v[8] as int / 16));
}

/// The 16 bytes of a clock reading, low byte first.
pub open spec fn clock_seq(m: u128) -> Seq<u8> {
    seq![
        (m % 256) as u8,
        ((m / 0x100) % 256) as u8,
        ((m / 0x1_0000) % 256) as u8,
        ((m / 0x100_0000) % 256) as u8,
        ((m / 0x1_0000_0000) % 256) as u8,
        ((m / 0x100_0000_0000) % 256) as u8,
        ((m / 0x1_0000_0000_0000) % 256) as u8,
        ((m / 0x100_0000_0000_0000) % 256) as u8,
        ((m / 0x1_0000_0000_0000_0000) % 256) as u8,
        ((m / 0x100_0000_0000_0000_0000) % 256) as u8,
        ((m / 0x1_0000_0000_0000_0000_0000) % 256) as u8,
        ((m / 0x100_0000_0000_0000_0000_0000) % 256) as u8,
        ((m / 0x1_0000_0000_0000_0000_0000_0000) % 256) as u8,
        ((m / 0x100_0000_0000_0000_0000_0000_0000) % 256) as u8,
        ((m / 0x1_0000_0000_0000_0000_0000_0000_0000) % 256) as u8,
        ((m / 0x100_0000_0000_0000_0000_0000_0000_0000) % 256) as u8,
    ]
}

fn clock_bytes(m: u128) -> (r: [u8; 16])
    ensures
        r@ == clock_seq(m),
{
    let r = [
        (m % 256) as u8,
        ((m / 0x100) % 256) as u8,
        ((m / 0x1_0000) % 256) as u8,
        ((m / 0x100_0000) % 256) as u8,
        ((m / 0x1_0000_0000) % 256) as u8,
        ((m / 0x100_0000_0000) % 256) as u8,
        ((m / 0x1_0000_0000_0000) % 256) as u8,
        ((m / 0x100_0000_0000_0000) % 256) as u8,
        ((m / 0x1_0000_0000_0000_0000) % 256) as u8,
        ((m / 0x100_0000_0000_0000_0000) % 256) as u8,
        ((m / 0x1_0000_0000_0000_0000_0000) % 256) as u8,
        ((m / 0x100_0000_0000_0000_0000_0000) % 256) as u8,
        ((m / 0x1_0000_0000_0000_0000_0000_0000) % 256) as u8,
        ((m / 0x100_0000_0000_0000_0000_0000_0000) % 256) as u8,
        ((m / 0x1_0000_0000_0000_0000_0000_0000_0000) % 256) as u8,
        ((m / 0x100_0000_0000_0000_0000_0000_0000_0000) % 256) as u8,
    ];
    assert(r@ =~= clock_seq(m));
    r
}

/// The bytes a new identifier is made from: the operating system's random
/// bytes, or, when it gave none, the clock reading's bytes (0 for a clock
/// before the epoch).
pub open spec fn id_bytes(drawn: Option<[u8; 16]>, clock: Option<u128>) -> Seq<u8> {
    match drawn {
        Some(b) => b@,
        None => clock_seq(
            match clock {
                Some(m) => m,
                None => 0,
            },
        ),
    }
}

fn uuid_from(drawn: Option<[u8; 16]>, clock: Option<u128>) -> (r: String)
    ensures
        r@ == uuid_v4_text(id_bytes(drawn, clock)),
        is_simple_uuid(r@),
{
    let bytes = match drawn {
        Some(b) => b,
        None => clock_bytes(
            match clock {
                Some(m) => m,
                None => 0,
            },
        ),
    };
    proof {
        lemma_uuid_text_shape(bytes@);
    }
    uuid_text(bytes)
}

/// A fresh version-4 UUID in its simple form (see `id_bytes`).
pub(crate) fn new_simple_uuid() -> (r: String)
    ensures
        is_simple_uuid(r@),
{
    let drawn = os_random_bytes();
    let clock = if drawn.is_some() { None } else { nanos_since_epoch() };
    uuid_from(drawn, clock)
}

/// A record identifier: `prefix` followed by a fresh simple UUID.
pub fn fresh_id(prefix: &str) -> (r: String)
    ensures
        r@.len() == prefix@.len() + 32,
        r@.take(prefix@.len() as int) == prefix@,
        is_simple_uuid(r@.skip(prefix@.len() as int)),
{
    let mut id = prefix.to_string();
    let uuid = new_simple_uuid();
    crate::text::push_str(&mut id, uuid.as_str());
    assert(id@.take(prefix@.len() as int) =~= prefix@);
    assert(id@.skip(prefix@.len() as int) =~= uuid@);
    id
}

} // verus!
