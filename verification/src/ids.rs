//! Identity encodings: blake3 content hashes, UUIDs and wall-clock
//! timestamps, plus the text forms the registry stores and compares.

use vstd::prelude::*;

verus! {

// ---------------------------------------------------------------------
// Hex
// ---------------------------------------------------------------------

/// Lowercase hex digit for `d < 16`.
pub open spec fn hex_char(d: nat) -> char {
    if d < 10 {
        crate::text::digit_char(d)
    } else if d == 10 {
        'a'
    } else if d == 11 {
        'b'
    } else if d == 12 {
        'c'
    } else if d == 13 {
        'd'
    } else if d == 14 {
        'e'
    } else {
        'f'
    }
}

fn hex_char_of(d: u8) -> (c: char)
    requires
        d < 16,
    ensures
        c == hex_char(d as nat),
{
    if d == 0 { '0' }
    else if d == 1 { '1' }
    else if d == 2 { '2' }
    else if d == 3 { '3' }
    else if d == 4 { '4' }
    else if d == 5 { '5' }
    else if d == 6 { '6' }
    else if d == 7 { '7' }
    else if d == 8 { '8' }
    else if d == 9 { '9' }
    else if d == 10 { 'a' }
    else if d == 11 { 'b' }
    else if d == 12 { 'c' }
    else if d == 13 { 'd' }
    else if d == 14 { 'e' }
    else { 'f' }
}

/// Two lowercase hex digits per byte, high nibble first
/// (`blake3::Hash::to_hex`).
pub open spec fn hex_seq(bytes: Seq<u8>) -> Seq<char> {
    Seq::new(
        2 * bytes.len(),
        |p: int|
            if p % 2 == 0 {
                hex_char((bytes[p / 2] / 16) as nat)
            } else {
                hex_char((bytes[p / 2] % 16) as nat)
            },
    )
}

pub fn hex_lower(bytes: &Vec<u8>) -> (r: Vec<char>)
    ensures
        r@ == hex_seq(bytes@),
{
    let mut r: Vec<char> = Vec::new();
    let mut i: usize = 0;
    while i < bytes.len()
        invariant
            i <= bytes@.len(),
            r@.len() == 2 * i,
            forall|p: int| 0 <= p < 2 * i ==> #[trigger] r@[p] == hex_seq(bytes@)[p],
        decreases bytes@.len() - i,
    {
        let b = bytes[i];
        r.push(hex_char_of(b / 16));
        r.push(hex_char_of(b % 16));
        i = i + 1;
    }
    proof {
        assert(r@ =~= hex_seq(bytes@));
    }
    r
}

// ---------------------------------------------------------------------
// blake3
// ---------------------------------------------------------------------

/// The blake3 digest of a byte string (32 bytes).
pub uninterp spec fn blake3_digest(data: Seq<u8>) -> Seq<u8>;

/// Calls `blake3::hash`. Claims: the 32 digest bytes are a function of the
/// input bytes alone (named `blake3_digest`); a blake3 hash is 32 bytes.
#[verifier::external_body]
fn blake3_bytes(data: &[u8]) -> (r: Vec<u8>)
    ensures
        r@ == blake3_digest(data@),
        r@.len() == 32,
{
    blake3::hash(data).as_bytes().to_vec()
}

/// The seed a text's wavefront encoding is drawn from: the blake3 digest
/// of its UTF-8 bytes.
pub fn text_seed(data: &[u8]) -> (r: Vec<u8>)
    ensures
        r@ == blake3_digest(data@),
        r@.len() == 32,
{
    blake3_bytes(data)
}

/// Content identity: the lowercase hex blake3 digest of `data`
/// (what `blake3::hash(data).to_hex().to_string()` gives).
pub fn content_hash(data: &[u8]) -> (r: String)
    ensures
        r@ == hex_seq(blake3_digest(data@)),
        r@.len() == 64,
{
    let digest = blake3_bytes(data);
    let h = hex_lower(&digest);
    crate::text::string_of(&h)
}

// ---------------------------------------------------------------------
// UUIDs
// ---------------------------------------------------------------------

/// Nibble `i` (0 = most significant) of a 128-bit value.
pub open spec fn nibble(u: u128, i: int) -> u128 {
    (u >> ((124 - 4 * i) as u128)) & 0xf
}

/// Number of hyphens before position `p` in the 36-character form.
pub open spec fn uuid_hyphens_before(p: int) -> int {
    if p <= 8 { 0 } else if p <= 13 { 1 } else if p <= 18 { 2 } else if p <= 23 { 3 } else { 4 }
}

/// The hyphenated lowercase text form `xxxxxxxx-xxxx-xxxx-xxxx-xxxxxxxxxxxx`
/// of a UUID given as its big-endian 128-bit value (`Uuid`'s `Display`).
pub open spec fn uuid_seq(u: u128) -> Seq<char> {
    Seq::new(
        36,
        |p: int|
            if p == 8 || p == 13 || p == 18 || p == 23 {
                '-'
            } else {
                hex_char(nibble(u, p - uuid_hyphens_before(p)) as nat)
            },
    )
}

pub fn uuid_text(u: u128) -> (r: String)
    ensures
        r@ == uuid_seq(u),
{
    let mut v: Vec<char> = Vec::new();
    let mut i: usize = 0;
    while i < 32
        invariant
            i <= 32,
            v@.len() == i + (if i <= 8 { 0int } else if i <= 12 { 1 } else if i <= 16 { 2 } else if i
                <= 20 { 3 } else { 4 }),
            forall|p: int| 0 <= p < v@.len() ==> #[trigger] v@[p] == uuid_seq(u)[p],
        decreases 32 - i,
    {
        if i == 8 || i == 12 || i == 16 || i == 20 {
            v.push('-');
        }
        let shift: u128 = (124 - 4 * i) as u128;
        let d: u128 = (u >> shift) & 0xf;
        assert(d < 16) by (bit_vector)
            requires
                d == (u >> shift) & 0xf,
        ;
        v.push(hex_char_of(d as u8));
        i = i + 1;
    }
    proof {
        assert(v@ =~= uuid_seq(u));
    }
    crate::text::string_of(&v)
}

/// Calls `uuid::Uuid::new_v4`, giving its big-endian 128-bit value.
/// Random; the only claim is the one the crate's source fixes for every
/// outcome: version nibble 4 and RFC 4122 variant bits `10`.
#[verifier::external_body]
pub(crate) fn new_uuid() -> (u: u128)
    ensures
        (u >> 76u128) & 0xf == 4,
        (u >> 62u128) & 0x3 == 2,
{
    uuid::Uuid::new_v4().as_u128()
}

// ---------------------------------------------------------------------
// Wall clock
// ---------------------------------------------------------------------

/// A UTC instant as seconds since the Unix epoch plus sub-second nanos
/// (a leap second can push `nanos` past 999 999 999).
#[derive(Clone, Copy, Debug, PartialEq, Eq, Structural)]
pub struct Timestamp {
    pub secs: i64,
    pub nanos: u32,
}

/// Calls `chrono::Utc::now`. The current time: nothing is claimed about
/// its value beyond chrono's sub-second range (`nanos < 2 000 000 000`).
#[verifier::external_body]
pub(crate) fn utc_now() -> (t: Timestamp)
    ensures
        t.nanos < 2_000_000_000,
{
    let now = chrono::Utc::now();
    Timestamp { secs: now.timestamp(), nanos: now.timestamp_subsec_nanos() }
}

} // verus!
