use vstd::prelude::*;
use byteorder::{ByteOrder, LittleEndian};

verus! {

/// The unsigned integer that the four bytes of `d` at `at` hold, least
/// significant byte first.
pub open spec fn le_word(d: Seq<u8>, at: int) -> int {
    d[at] as int + 256 * d[at + 1] as int + 65536 * d[at + 2] as int + 16777216 * d[at + 3] as int
}

/// The `k`-th four-byte word of `d`.
pub open spec fn word_at(d: Seq<u8>, k: int) -> int {
    le_word(d, 4 * k)
}

/// Relies on `byteorder::LittleEndian::read_u32`, which reads the first four
/// bytes of its slice, least significant first (and panics on fewer).
#[verifier::external_body]
pub(crate) fn read_le_u32(buf: &Vec<u8>, at: usize) -> (r: u32)
    requires
        at + 4 <= buf@.len(),
    ensures
        r as int == le_word(buf@, at as int),
{
    LittleEndian::read_u32(&buf[at..])
}

} // verus!
