//! Little-endian integer fields inside byte records.

use vstd::prelude::*;
use vstd::bytes::lemma_auto_spec_u64_to_from_le_bytes;
use vstd::bytes::spec_u64_from_le_bytes;
use vstd::bytes::spec_u64_to_le_bytes;
use vstd::bytes::u64_from_le_bytes;
use vstd::bytes::u64_to_le_bytes;
use vstd::slice::slice_subrange;

verus! {

/// The unsigned 64-bit field that starts at byte `off` of `s`.
pub open spec fn word_at(s: Seq<u8>, off: int) -> u64 {
    spec_u64_from_le_bytes(s.subrange(off, off + 8))
}

/// Two's-complement reading of a 64-bit word.
pub open spec fn signed_of(u: u64) -> i64 {
    if u <= i64::MAX as u64 {
        u as i64
    } else {
        (u - 0x1_0000_0000_0000_0000) as i64
    }
}

/// The signed 64-bit field that starts at byte `off` of `s`.
pub open spec fn signed_at(s: Seq<u8>, off: int) -> i64 {
    signed_of(word_at(s, off))
}

/// The eight bytes that hold `v`.
pub open spec fn word_bytes(v: u64) -> Seq<u8> {
    spec_u64_to_le_bytes(v)
}

/// A word written between a prefix and a suffix is read back at the
/// prefix's length.
pub proof fn lemma_word_at_written(prefix: Seq<u8>, v: u64, suffix: Seq<u8>)
    ensures
        word_bytes(v).len() == 8,
        word_at(prefix + word_bytes(v) + suffix, prefix.len() as int) == v,
{
    lemma_auto_spec_u64_to_from_le_bytes();
    let whole = prefix + word_bytes(v) + suffix;
    let off = prefix.len() as int;
    assert(whole.subrange(off, off + 8) =~= word_bytes(v));
}

pub(crate) fn read_u64(data: &[u8], off: usize) -> (v: u64)
    requires
        off + 8 <= data@.len(),
    ensures
        v == word_at(data@, off as int),
{
    let len = data.len();
    assert(off + 8 <= len);
    let field = slice_subrange(data, off, off + 8);
    u64_from_le_bytes(field)
}

pub(crate) fn to_signed(u: u64) -> (v: i64)
    ensures
        v == signed_of(u),
{
    if u <= i64::MAX as u64 {
        u as i64
    } else {
        ((u - 0x8000_0000_0000_0000) as i64) + i64::MIN
    }
}

pub(crate) fn read_i64(data: &[u8], off: usize) -> (v: i64)
    requires
        off + 8 <= data@.len(),
    ensures
        v == signed_at(data@, off as int),
{
    to_signed(read_u64(data, off))
}

pub(crate) fn write_u64(out: &mut Vec<u8>, v: u64)
    ensures
        final(out)@ == old(out)@ + word_bytes(v),
        word_bytes(v).len() == 8,
{
    let mut field = u64_to_le_bytes(v);
    out.append(&mut field);
}

} // verus!
