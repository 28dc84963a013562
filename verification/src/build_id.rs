//! The short build identifier: a 32-bit fold of the full build id that a
//! toolchain embeds in each firmware image. Both the device and the host
//! tool compute it, so persisted log data can be matched to the image that
//! produced it.

use vstd::prelude::*;

use crate::bytes::le32;

verus! {

/// The little-endian value of up to four bytes, zero-padded at the top.
pub open spec fn padded_word(s: Seq<u8>) -> u32
    recommends
        s.len() <= 4,
{
    (word_byte(s, 0) + word_byte(s, 1) * 0x100 + word_byte(s, 2) * 0x10000 + word_byte(s, 3)
        * 0x1000000) as u32
}

/// Byte `i` of a short tail, or zero past its end.
pub open spec fn word_byte(s: Seq<u8>, i: int) -> int {
    if i < s.len() {
        s[i] as int
    } else {
        0
    }
}

/// The 32-bit fold of a build id: the exclusive-or of its little-endian
/// words, with a zero-padded final word.
pub open spec fn short_id_spec(s: Seq<u8>) -> u32
    decreases s.len(),
{
    if s.len() > 4 {
        le32(s.subrange(0, 4)) ^ short_id_spec(s.skip(4))
    } else {
        padded_word(s)
    }
}

/// Folds a full build id into its 32-bit short form.
pub fn short_id(full_id: &[u8]) -> (r: u32)
    ensures
        r == short_id_spec(full_id@),
{
    let mut id: u32 = 0;
    let mut off: usize = 0;
    proof {
        assert(full_id@.skip(0) =~= full_id@);
        let c = short_id_spec(full_id@);
        assert(0u32 ^ c == c) by (bit_vector);
    }
    while full_id.len() - off > 4
        invariant
            off <= full_id@.len(),
            short_id_spec(full_id@) == id ^ short_id_spec(full_id@.skip(off as int)),
        decreases full_id@.len() - off,
    {
        let ghost rem = full_id@.skip(off as int);
        let b0 = full_id[off] as u32;
        let b1 = full_id[off + 1] as u32;
        let b2 = full_id[off + 2] as u32;
        let b3 = full_id[off + 3] as u32;
        let word = b0 + b1 * 0x100 + b2 * 0x10000 + b3 * 0x1000000;
        proof {
            assert(rem.subrange(0, 4) =~= full_id@.subrange(off as int, off as int + 4));
            assert(rem.skip(4) =~= full_id@.skip(off as int + 4));
            let a = id;
            let b = word;
            let c = short_id_spec(full_id@.skip(off as int + 4));
            assert((a ^ b) ^ c == a ^ (b ^ c)) by (bit_vector);
        }
        id = id ^ word;
        off = off + 4;
    }
    let mut tail: [u8; 4] = [0, 0, 0, 0];
    let rem_len = full_id.len() - off;
    if rem_len > 0 {
        tail[0] = full_id[off];
    }
    if rem_len > 1 {
        tail[1] = full_id[off + 1];
    }
    if rem_len > 2 {
        tail[2] = full_id[off + 2];
    }
    if rem_len > 3 {
        tail[3] = full_id[off + 3];
    }
    let word = tail[0] as u32 + (tail[1] as u32) * 0x100 + (tail[2] as u32) * 0x10000 + (
    tail[3] as u32) * 0x1000000;
    proof {
        assert(word == padded_word(full_id@.skip(off as int)));
    }
    id ^ word
}

} // verus!
