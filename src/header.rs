use vstd::prelude::*;

use vstd::arithmetic::div_mod::lemma_fundamental_div_mod_converse;

use crate::error::GpkError;

verus! {

/// Size of the archive header: one little-endian `u32`.
pub const HEADER_SIZE: usize = 4;

/// The decoded archive header.
#[derive(Clone, Copy, Debug, PartialEq, Eq, Structural)]
pub struct Header {
    pub entry_count: u32,
}

/// The little-endian value of the four bytes of `b` starting at `i`.
pub open spec fn le_u32_value(b: Seq<u8>, i: int) -> int {
    b[i] + 256 * b[i + 1] + 65536 * b[i + 2] + 16777216 * b[i + 3]
}

/// The four little-endian bytes of `n`.
pub open spec fn le_u32_bytes(n: u32) -> Seq<u8> {
    seq![
        (n % 256) as u8,
        ((n / 256) % 256) as u8,
        ((n / 65536) % 256) as u8,
        (n / 16777216) as u8,
    ]
}

/// What decoding the header of `b` gives.
pub open spec fn parse_header_spec(b: Seq<u8>) -> Result<Header, GpkError> {
    if b.len() < HEADER_SIZE {
        Err(GpkError::TruncatedHeader { buffer_len: b.len() as usize })
    } else {
        Ok(Header { entry_count: le_u32_value(b, 0) as u32 })
    }
}

/// Reads the little-endian `u32` stored in `buf[at..at + 4]`.
pub fn read_le_u32(buf: &[u8], at: usize) -> (r: u32)
    requires
        at + 4 <= buf@.len(),
    ensures
        r as int == le_u32_value(buf@, at as int),
{
    let b0 = buf[at] as u32;
    let b1 = buf[at + 1] as u32;
    let b2 = buf[at + 2] as u32;
    let b3 = buf[at + 3] as u32;
    b0 + b1 * 256 + b2 * 65536 + b3 * 16777216
}

/// Decodes the entry count from the first four bytes of an archive.
pub fn parse_header(buf: &[u8]) -> (r: Result<Header, GpkError>)
    ensures
        r == parse_header_spec(buf@),
        r is Err <==> buf@.len() < HEADER_SIZE,
{
    if buf.len() < HEADER_SIZE {
        Err(GpkError::TruncatedHeader { buffer_len: buf.len() })
    } else {
        Ok(Header { entry_count: read_le_u32(buf, 0) })
    }
}

/// Decoding the four little-endian bytes of any count, followed by anything,
/// gives that count back.
pub proof fn lemma_header_round_trip(n: u32, rest: Seq<u8>)
    ensures
        parse_header_spec(le_u32_bytes(n) + rest) == Ok::<Header, GpkError>(Header { entry_count: n }),
{
    let b = le_u32_bytes(n) + rest;
    assert(b[0] == (n % 256) as u8);
    assert(b[1] == ((n / 256) % 256) as u8);
    assert(b[2] == ((n / 65536) % 256) as u8);
    assert(b[3] == (n / 16777216) as u8);
    assert(le_u32_value(b, 0) == n);
}

/// Encoding the count decoded from any buffer of at least four bytes gives
/// back its first four bytes.
pub proof fn lemma_header_bytes_round_trip(b: Seq<u8>)
    requires
        b.len() >= HEADER_SIZE,
    ensures
        parse_header_spec(b) matches Ok(h) && le_u32_bytes(h.entry_count) == b.subrange(0, 4),
{
    let n = le_u32_value(b, 0) as u32;
    let (b0, b1, b2, b3) = (b[0] as int, b[1] as int, b[2] as int, b[3] as int);
    assert(n == le_u32_value(b, 0));
    lemma_fundamental_div_mod_converse(n as int, 256, b1 + 256 * b2 + 65536 * b3, b0);
    lemma_fundamental_div_mod_converse(n as int, 65536, b2 + 256 * b3, b0 + 256 * b1);
    lemma_fundamental_div_mod_converse(n as int, 16777216, b3, b0 + 256 * b1 + 65536 * b2);
    lemma_fundamental_div_mod_converse(b1 + 256 * b2 + 65536 * b3, 256, b2 + 256 * b3, b1);
    lemma_fundamental_div_mod_converse(b2 + 256 * b3, 256, b3, b2);
    assert(le_u32_bytes(n) =~= b.subrange(0, 4));
}

} // verus!
