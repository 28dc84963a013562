//! Decoding of the byte-stuffed log frames: each frame on the wire is
//! zero-free and ends at a zero delimiter; the stuffing is undone from the
//! last byte backwards.
//!
//! A marker byte below 0x80 describes a group of seven payload bytes by its
//! seven low bits: a set bit stands for a zero byte, a clear bit takes the
//! next stream byte. Markers 0x80 to 0xfe carry a zero and a run of literal
//! bytes; 0xff carries the longest literal run with no zero.

use vstd::prelude::*;

use crate::errors::FrameError;

verus! {

/// Whether bit `n` of `x` is set.
pub open spec fn bit_set(x: u8, n: u8) -> bool {
    x & (1u8 << n) != 0
}

/// How many of the marker's seven group bits, from bit 6 down, starting at
/// group position `i`, are clear: each clear bit consumes one stream byte.
pub open spec fn zero_bits(x: u8, i: int) -> nat
    decreases 7 - i,
{
    if i >= 7 {
        0
    } else {
        (if bit_set(x, (6 - i) as u8) {
            0nat
        } else {
            1nat
        }) + zero_bits(x, i + 1)
    }
}

/// The group bytes from position `i` on, reading consumed bytes from the
/// reversed stream `s`: a set bit yields a zero, a clear bit yields the
/// next stream byte.
pub open spec fn group_out(x: u8, i: int, s: Seq<u8>) -> Seq<u8>
    decreases 7 - i,
{
    if i >= 7 {
        Seq::empty()
    } else if bit_set(x, (6 - i) as u8) {
        seq![0u8] + group_out(x, i + 1, s)
    } else {
        seq![s[0]] + group_out(x, i + 1, s.skip(1))
    }
}

/// Decodes the reversed frame `s`: the marker comes first, its consumed
/// bytes follow. The result is the reversed payload, or nothing when the
/// frame contains a zero or ends mid-group.
pub open spec fn decode_rev(s: Seq<u8>) -> Option<Seq<u8>>
    decreases s.len(),
{
    if s.len() == 0 {
        Some(Seq::empty())
    } else {
        let x = s[0];
        let t = s.skip(1);
        if x == 0 {
            None
        } else if x < 0x80 {
            let needed = zero_bits(x, 0);
            if t.len() < needed {
                None
            } else {
                match decode_rev(t.skip(needed as int)) {
                    Some(out) => Some(group_out(x, 0, t) + out),
                    None => None,
                }
            }
        } else if x < 0xff {
            let n = x - 0x80 + 7;
            if t.len() < n {
                None
            } else {
                match decode_rev(t.skip(n as int)) {
                    Some(out) => Some(seq![0u8] + t.take(n as int) + out),
                    None => None,
                }
            }
        } else {
            if t.len() < 134 {
                None
            } else {
                match decode_rev(t.skip(134)) {
                    Some(out) => Some(t.take(134) + out),
                    None => None,
                }
            }
        }
    }
}

/// What undoing the stuffing of one frame yields: the frame is walked from
/// its last byte, and the output read back in forward order.
pub open spec fn rzcobs_decode_spec(data: Seq<u8>) -> Option<Seq<u8>> {
    match decode_rev(data.reverse()) {
        Some(out) => Some(out.reverse()),
        None => None,
    }
}

/// Decodes the group of marker `x` from position `i` on, consuming from
/// `data[..p]` backwards. Returns the group bytes (reversed order) and the
/// remaining length, or fails when the frame ends mid-group.
fn decode_group_exec(data: &[u8], x: u8, i: usize, p: usize) -> (res: Result<
    (Vec<u8>, usize),
    FrameError,
>)
    requires
        i <= 7,
        p <= data@.len(),
    ensures
        data@.take(p as int).reverse().len() >= zero_bits(x, i as int) ==> {
            &&& res matches Ok((v, q)) && v@ == group_out(
                x,
                i as int,
                data@.take(p as int).reverse(),
            ) && q == p - zero_bits(x, i as int)
        },
        data@.take(p as int).reverse().len() < zero_bits(x, i as int) ==> res == Err::<
            (Vec<u8>, usize),
            FrameError,
        >(FrameError::Malformed),
    decreases 7 - i,
{
    if i == 7 {
        let v: Vec<u8> = Vec::new();
        assert(v@ =~= group_out(x, 7, data@.take(p as int).reverse()));
        return Ok((v, p));
    }
    let shift: u8 = (6 - i) as u8;
    if x & (1u8 << shift) != 0 {
        match decode_group_exec(data, x, i + 1, p) {
            Ok((rest, q)) => {
                let mut v: Vec<u8> = Vec::new();
                v.push(0u8);
                let mut k: usize = 0;
                let n = rest.len();
                while k < n
                    invariant
                        k <= n,
                        n == rest@.len(),
                        v@ == seq![0u8] + rest@.take(k as int),
                    decreases n - k,
                {
                    v.push(rest[k]);
                    assert(v@ =~= seq![0u8] + rest@.take(k as int + 1));
                    k = k + 1;
                }
                assert(v@ =~= seq![0u8] + rest@);
                Ok((v, q))
            },
            Err(e) => Err(e),
        }
    } else {
        if p == 0 {
            return Err(FrameError::Malformed);
        }
        let b = data[p - 1];
        proof {
            assert(data@.take(p as int).reverse()[0] == data@[p - 1]);
            assert(data@.take(p as int).reverse().skip(1) =~= data@.take(p as int - 1).reverse());
        }
        match decode_group_exec(data, x, i + 1, p - 1) {
            Ok((rest, q)) => {
                let mut v: Vec<u8> = Vec::new();
                v.push(b);
                let mut k: usize = 0;
                let n = rest.len();
                while k < n
                    invariant
                        k <= n,
                        n == rest@.len(),
                        v@ == seq![b] + rest@.take(k as int),
                    decreases n - k,
                {
                    v.push(rest[k]);
                    assert(v@ =~= seq![b] + rest@.take(k as int + 1));
                    k = k + 1;
                }
                assert(v@ =~= seq![b] + rest@);
                Ok((v, q))
            },
            Err(e) => Err(e),
        }
    }
}

/// Decodes `data[..p]` from its last byte backwards, returning the payload
/// in reversed order.
#[verifier::rlimit(80)]
fn decode_rev_exec(data: &[u8], p: usize) -> (res: Result<Vec<u8>, FrameError>)
    requires
        p <= data@.len(),
    ensures
        match decode_rev(data@.take(p as int).reverse()) {
            Some(out) => res matches Ok(v) && v@ == out,
            None => res == Err::<Vec<u8>, FrameError>(FrameError::Malformed),
        },
    decreases p,
{
    if p == 0 {
        let v: Vec<u8> = Vec::new();
        assert(data@.take(0).reverse() =~= Seq::<u8>::empty());
        return Ok(v);
    }
    let ghost s = data@.take(p as int).reverse();
    let x = data[p - 1];
    proof {
        assert(s[0] == data@[p - 1]);
        assert(s.skip(1) =~= data@.take(p as int - 1).reverse());
    }
    if x == 0 {
        return Err(FrameError::Malformed);
    }
    if x < 0x80 {
        match decode_group_exec(data, x, 0, p - 1) {
            Ok((mut group, q)) => {
                proof {
                    assert(data@.take(q as int).reverse() =~= s.skip(1).skip(
                        zero_bits(x, 0) as int,
                    ));
                }
                match decode_rev_exec(data, q) {
                    Ok(mut rest) => {
                        let mut k: usize = 0;
                        let n = rest.len();
                        let ghost g0 = group@;
                        while k < n
                            invariant
                                k <= n,
                                n == rest@.len(),
                                group@ == g0 + rest@.take(k as int),
                            decreases n - k,
                        {
                            group.push(rest[k]);
                            assert(group@ =~= g0 + rest@.take(k as int + 1));
                            k = k + 1;
                        }
                        assert(group@ =~= g0 + rest@);
                        Ok(group)
                    },
                    Err(e) => Err(e),
                }
            },
            Err(e) => Err(e),
        }
    } else if x < 0xff {
        let n_lit: usize = (x - 0x80) as usize + 7;
        if p - 1 < n_lit {
            proof {
                assert(s.skip(1).len() < x - 0x80 + 7);
            }
            return Err(FrameError::Malformed);
        }
        let mut v: Vec<u8> = Vec::new();
        v.push(0u8);
        let mut k: usize = 0;
        while k < n_lit
            invariant
                k <= n_lit,
                n_lit <= p - 1,
                p <= data@.len(),
                v@ == seq![0u8] + data@.take(p as int - 1).reverse().take(k as int),
            decreases n_lit - k,
        {
            proof {
                assert(data@.take(p as int - 1).reverse()[k as int] == data@[p - 2 - k]);
            }
            v.push(data[p - 2 - k]);
            assert(v@ =~= seq![0u8] + data@.take(p as int - 1).reverse().take(k as int + 1));
            k = k + 1;
        }
        proof {
            assert(data@.take((p - 1 - n_lit) as int).reverse() =~= s.skip(1).skip(n_lit as int));
        }
        match decode_rev_exec(data, p - 1 - n_lit) {
            Ok(rest) => {
                let mut out = v;
                let mut k2: usize = 0;
                let n2 = rest.len();
                let ghost o0 = out@;
                while k2 < n2
                    invariant
                        k2 <= n2,
                        n2 == rest@.len(),
                        out@ == o0 + rest@.take(k2 as int),
                    decreases n2 - k2,
                {
                    out.push(rest[k2]);
                    assert(out@ =~= o0 + rest@.take(k2 as int + 1));
                    k2 = k2 + 1;
                }
                assert(out@ =~= o0 + rest@);
                proof {
                    assert(s.skip(1).take(n_lit as int) =~= data@.take(p as int - 1).reverse().take(
                        n_lit as int,
                    ));
                }
                Ok(out)
            },
            Err(e) => Err(e),
        }
    } else {
        let n_lit: usize = 134;
        if p - 1 < n_lit {
            return Err(FrameError::Malformed);
        }
        let mut v: Vec<u8> = Vec::new();
        let mut k: usize = 0;
        while k < n_lit
            invariant
                k <= n_lit,
                n_lit <= p - 1,
                p <= data@.len(),
                v@ == data@.take(p as int - 1).reverse().take(k as int),
            decreases n_lit - k,
        {
            proof {
                assert(data@.take(p as int - 1).reverse()[k as int] == data@[p - 2 - k]);
            }
            v.push(data[p - 2 - k]);
            assert(v@ =~= data@.take(p as int - 1).reverse().take(k as int + 1));
            k = k + 1;
        }
        proof {
            assert(data@.take((p - 1 - n_lit) as int).reverse() =~= s.skip(1).skip(n_lit as int));
        }
        match decode_rev_exec(data, p - 1 - n_lit) {
            Ok(rest) => {
                let mut out = v;
                let mut k2: usize = 0;
                let n2 = rest.len();
                let ghost o0 = out@;
                while k2 < n2
                    invariant
                        k2 <= n2,
                        n2 == rest@.len(),
                        out@ == o0 + rest@.take(k2 as int),
                    decreases n2 - k2,
                {
                    out.push(rest[k2]);
                    assert(out@ =~= o0 + rest@.take(k2 as int + 1));
                    k2 = k2 + 1;
                }
                assert(out@ =~= o0 + rest@);
                proof {
                    assert(s.skip(1).take(n_lit as int) =~= data@.take(p as int - 1).reverse().take(
                        n_lit as int,
                    ));
                }
                Ok(out)
            },
            Err(e) => Err(e),
        }
    }
}

/// Index of the first zero byte, or the length when there is none.
pub open spec fn first_zero(bytes: Seq<u8>) -> nat
    decreases bytes.len(),
{
    if bytes.len() == 0 {
        0
    } else if bytes[0] == 0 {
        0
    } else {
        1 + first_zero(bytes.skip(1))
    }
}

/// A prefix without zeros, ended by a zero or by the end of the sequence,
/// places the first zero.
pub proof fn lemma_first_zero_is(bytes: Seq<u8>, m: int)
    requires
        0 <= m <= bytes.len(),
        forall|j: int| 0 <= j < m ==> bytes[j] != 0,
        m < bytes.len() ==> bytes[m] == 0,
    ensures
        first_zero(bytes) == m,
    decreases m,
{
    if m > 0 {
        lemma_first_zero_is(bytes.skip(1), m - 1);
    }
}

/// What a received byte run decodes to: one frame per zero delimiter, each
/// unstuffed; empty frames vanish, a truncated tail without a delimiter is
/// ignored, and one malformed frame poisons the whole run.
pub open spec fn decode_frames_spec(bytes: Seq<u8>) -> Option<Seq<Seq<u8>>>
    decreases bytes.len(),
{
    let z = first_zero(bytes);
    if z >= bytes.len() {
        Some(Seq::empty())
    } else if z == 0 {
        decode_frames_spec(bytes.skip(1))
    } else {
        match rzcobs_decode_spec(bytes.take(z as int)) {
            None => None,
            Some(f) => match decode_frames_spec(bytes.skip(z as int + 1)) {
                Some(fs) => Some(seq![f] + fs),
                None => None,
            },
        }
    }
}

/// Splits a received byte run at its zero delimiters and unstuffs each
/// complete frame, in order.
#[verifier::loop_isolation(false)]
pub fn decode_frames(bytes: &[u8]) -> (res: Result<Vec<Vec<u8>>, FrameError>)
    ensures
        match decode_frames_spec(bytes@) {
            Some(fs) => res matches Ok(v) && v@.map_values(|f: Vec<u8>| f@) == fs,
            None => res == Err::<Vec<Vec<u8>>, FrameError>(FrameError::Malformed),
        },
{
    let mut frames: Vec<Vec<u8>> = Vec::new();
    let len = bytes.len();
    let mut s: usize = 0;
    proof {
        assert(bytes@.skip(0) =~= bytes@);
        assert(frames@.map_values(|f: Vec<u8>| f@) =~= Seq::<Seq<u8>>::empty());
    }
    while s < len
        invariant
            s <= len,
            len == bytes@.len(),
            match decode_frames_spec(bytes@.skip(s as int)) {
                Some(fs) => decode_frames_spec(bytes@) == Some(
                    frames@.map_values(|f: Vec<u8>| f@) + fs,
                ),
                None => decode_frames_spec(bytes@) is None,
            },
        decreases len - s,
    {
        let ghost rem = bytes@.skip(s as int);
        // Find the next frame delimiter.
        let mut z: usize = s;
        while z < len && bytes[z] != 0
            invariant
                s <= z <= len,
                forall|j: int| s <= j < z ==> bytes@[j] != 0,
            decreases len - z,
        {
            z = z + 1;
        }
        proof {
            lemma_first_zero_is(rem, z - s);
        }
        if z == len {
            // No delimiter: the trailing partial frame stays buffered.
            return Ok(frames);
        }
        if z == s {
            proof {
                assert(rem.skip(1) =~= bytes@.skip(s as int + 1));
            }
            s = s + 1;
            continue;
        }
        let ghost frames0 = frames@.map_values(|f: Vec<u8>| f@);
        proof {
            assert(rem.take(z - s) =~= bytes@.subrange(s as int, z as int));
            assert(rem.skip(z - s + 1) =~= bytes@.skip(z as int + 1));
        }
        let stuffed = slice_range_to_vec(bytes, s, z);
        match rzcobs_decode(stuffed.as_slice()) {
            Ok(frame) => {
                frames.push(frame);
                proof {
                    assert(frames@.map_values(|f: Vec<u8>| f@) =~= frames0.push(
                        frames@[frames@.len() - 1]@,
                    ));
                }
            },
            Err(e) => {
                return Err(e);
            },
        }
        s = z + 1;
        proof {
            match decode_frames_spec(bytes@.skip(s as int)) {
                Some(fs) => {
                    assert(frames0 + (seq![frames@[frames@.len() - 1]@] + fs)
                        =~= frames@.map_values(|f: Vec<u8>| f@) + fs);
                },
                None => {},
            }
        }
    }
    proof {
        assert(bytes@.skip(len as int).len() == 0);
    }
    Ok(frames)
}

/// Copies `bytes[from .. to]` into a fresh vector.
fn slice_range_to_vec(bytes: &[u8], from: usize, to: usize) -> (r: Vec<u8>)
    requires
        from <= to <= bytes@.len(),
    ensures
        r@ == bytes@.subrange(from as int, to as int),
{
    let mut v: Vec<u8> = Vec::new();
    let mut k: usize = from;
    while k < to
        invariant
            from <= k <= to,
            to <= bytes@.len(),
            v@ == bytes@.subrange(from as int, k as int),
        decreases to - k,
    {
        v.push(bytes[k]);
        assert(v@ =~= bytes@.subrange(from as int, k as int + 1));
        k = k + 1;
    }
    v
}

/// Undoes the byte stuffing of one zero-free frame. The frame is malformed
/// when it contains a zero byte or ends in the middle of a group or run.
pub fn rzcobs_decode(data: &[u8]) -> (res: Result<Vec<u8>, FrameError>)
    ensures
        match rzcobs_decode_spec(data@) {
            Some(out) => res matches Ok(v) && v@ == out,
            None => res == Err::<Vec<u8>, FrameError>(FrameError::Malformed),
        },
{
    proof {
        assert(data@.take(data@.len() as int) =~= data@);
    }
    match decode_rev_exec(data, data.len()) {
        Ok(rev_out) => {
            let mut out: Vec<u8> = Vec::new();
            let n = rev_out.len();
            let mut k: usize = 0;
            while k < n
                invariant
                    k <= n,
                    n == rev_out@.len(),
                    out@ == rev_out@.reverse().take(k as int),
                decreases n - k,
            {
                proof {
                    assert(rev_out@.reverse()[k as int] == rev_out@[n - 1 - k]);
                }
                out.push(rev_out[n - 1 - k]);
                assert(out@ =~= rev_out@.reverse().take(k as int + 1));
                k = k + 1;
            }
            assert(out@ =~= rev_out@.reverse());
            Ok(out)
        },
        Err(e) => Err(e),
    }
}

} // verus!
