//! The payload codec: translation between raw register bytes and the
//! semantic 64-bit values they carry.
//!
//! Byte order is little-endian for every kind except the two composite
//! formats.  `Frequency` is a fixed-point ratio: a 6-byte numerator
//! followed by a 2-byte denominator, decoded as their (truncating)
//! quotient, with a zero denominator treated as unity.  `TimeOfDay` is
//! an epoch-based timestamp: 5 fractional-seconds bytes (ignored by the
//! decode) followed by a 6-byte seconds count.  Encoding of `TimeOfDay`
//! does not invert its decode and is left out of the contract here.

use crate::contents::spec_size;
use crate::contents::Contents;
use vstd::arithmetic::div_mod::lemma_div_denominator;
use vstd::arithmetic::div_mod::lemma_mod_breakdown;
use vstd::arithmetic::power2::lemma2_to64;
use vstd::arithmetic::power2::lemma2_to64_rest;
use vstd::arithmetic::power2::lemma_pow2_adds;
use vstd::arithmetic::power2::lemma_pow2_pos;
use vstd::arithmetic::power2::lemma_pow2_strictly_increases;
use vstd::arithmetic::power2::pow2;
use vstd::prelude::*;
use vstd::slice::slice_subrange;

verus! {

/// The little-endian unsigned integer formed by a byte sequence: the
/// first byte is the least significant.
pub open spec fn le_value(s: Seq<u8>) -> nat
    decreases s.len(),
{
    if s.len() == 0 {
        0
    } else {
        (s[0] + 256 * le_value(s.skip(1))) as nat
    }
}

/// The `n`-byte little-endian encoding of `v`: byte `i` holds bits
/// `8*i .. 8*i + 8` of `v`.  Bits of `v` beyond `8 * n` are dropped.
pub open spec fn le_bytes(v: nat, n: nat) -> Seq<u8>
    decreases n,
{
    if n == 0 {
        Seq::empty()
    } else {
        seq![(v % 256) as u8] + le_bytes(v / 256, (n - 1) as nat)
    }
}

/// The semantic value of a register's bytes under a contents kind.
pub open spec fn spec_value(c: Contents, data: Seq<u8>) -> nat {
    match c {
        Contents::Frequency => {
            let m = le_value(data.subrange(0, 6));
            let n = le_value(data.subrange(6, 8));
            if n == 0 {
                m
            } else {
                m / n
            }
        },
        Contents::TimeOfDay => le_value(data.subrange(5, 11)),
        _ => le_value(data.subrange(0, spec_size(c) as int)),
    }
}

proof fn lemma_le_bytes_len(v: nat, n: nat)
    ensures
        le_bytes(v, n).len() == n,
    decreases n,
{
    if n > 0 {
        lemma_le_bytes_len(v / 256, (n - 1) as nat);
    }
}

/// Decoding an encoding yields the value truncated to the encoded width.
pub proof fn lemma_le_bytes_value(v: nat, n: nat)
    ensures
        le_value(le_bytes(v, n)) == v % pow2(8 * n),
    decreases n,
{
    lemma2_to64();
    if n == 0 {
        assert(v % 1 == 0) by (nonlinear_arith);
    } else {
        let tail = le_bytes(v / 256, (n - 1) as nat);
        lemma_le_bytes_value(v / 256, (n - 1) as nat);
        assert((seq![(v % 256) as u8] + tail).skip(1) =~= tail);
        lemma_pow2_adds(8, 8 * (n - 1) as nat);
        lemma_pow2_pos(8 * (n - 1) as nat);
        lemma_mod_breakdown(v as int, 256, pow2(8 * (n - 1) as nat) as int);
    }
}

/// Round trip: encoding `v` at a plain little-endian kind and decoding
/// the bytes that were written yields `v` modulo `2^(8 * size)`.
pub proof fn lemma_round_trip(c: Contents, v: u64)
    requires
        !(c is Frequency),
        !(c is TimeOfDay),
    ensures
        spec_value(c, le_bytes(v as nat, spec_size(c))) == (v as nat) % pow2(8 * spec_size(c)),
{
    lemma_le_bytes_len(v as nat, spec_size(c));
    lemma_le_bytes_value(v as nat, spec_size(c));
    assert(le_bytes(v as nat, spec_size(c)).subrange(0, spec_size(c) as int) =~= le_bytes(
        v as nat,
        spec_size(c),
    ));
}

/// Decoding a buffer at a plain little-endian kind reads exactly the
/// little-endian integer of its first `size` bytes: the composite
/// structure of the other two kinds plays no part.
pub proof fn lemma_decode_le(c: Contents, buf: Seq<u8>)
    requires
        !(c is Frequency),
        !(c is TimeOfDay),
        buf.len() >= spec_size(c),
    ensures
        spec_value(c, buf.subrange(0, spec_size(c) as int)) == le_value(
            buf.subrange(0, spec_size(c) as int),
        ),
{
    let data = buf.subrange(0, spec_size(c) as int);
    assert(data.subrange(0, spec_size(c) as int) =~= data);
}

/// Reads the `len`-byte little-endian integer at `bytes[start..]`.
fn le_u64(bytes: &[u8], start: usize, len: usize) -> (v: u64)
    requires
        start + len <= bytes@.len(),
        len <= 8,
    ensures
        v == le_value(bytes@.subrange(start as int, start + len)),
{
    let total = bytes.len();
    let mut v: u64 = 0;
    let mut i: usize = len;
    proof {
        lemma2_to64();
        assert(bytes@.subrange(start + len, start + len) =~= Seq::<u8>::empty());
    }
    while i > 0
        invariant
            i <= len,
            len <= 8,
            start + len <= total,
            total == bytes@.len(),
            v == le_value(bytes@.subrange(start + i, start + len)),
            v < pow2((8 * (len - i)) as nat),
        decreases i,
    {
        i = i - 1;
        let b = bytes[start + i];
        proof {
            let s = bytes@.subrange(start + i, start + len);
            assert(s.skip(1) =~= bytes@.subrange(start + i + 1, start + len));
            lemma2_to64();
            lemma2_to64_rest();
            let k = (8 * (len - i - 1)) as nat;
            if k < 56 {
                lemma_pow2_strictly_increases(k, 56);
            }
            lemma_pow2_adds(k, 8);
        }
        v = b as u64 + v * 256;
    }
    v
}

/// Writes the `len`-byte little-endian encoding of `value` at
/// `data[start..]`, leaving every other byte unchanged.
fn write_le(data: &mut [u8], start: usize, len: usize, value: u64)
    requires
        start + len <= old(data)@.len(),
    ensures
        final(data)@.len() == old(data)@.len(),
        final(data)@.subrange(start as int, start + len) == le_bytes(value as nat, len as nat),
        forall|j: int|
            0 <= j < old(data)@.len() && !(start <= j < start + len) ==> final(data)@[j] == old(data)@[j],
{
    let total = data.len();
    let mut v: u64 = value;
    let mut i: usize = 0;
    proof {
        lemma2_to64();
        assert(data@.subrange(start as int, start as int) =~= le_bytes(value as nat, 0));
        assert((value as nat) / 1 == value as nat) by (nonlinear_arith);
    }
    while i < len
        invariant
            i <= len,
            start + len <= total,
            total == data@.len(),
            data@.len() == old(data)@.len(),
            v == (value as nat) / pow2((8 * i) as nat),
            data@.subrange(start as int, start + i) == le_bytes(value as nat, i as nat),
            forall|j: int|
                0 <= j < data@.len() && !(start <= j < start + i) ==> data@[j] == old(data)@[j],
        decreases len - i,
    {
        proof {
            lemma2_to64();
            lemma_pow2_adds((8 * i) as nat, 8);
            lemma_pow2_pos((8 * i) as nat);
            lemma_div_denominator(value as int, pow2((8 * i) as nat) as int, 256);
            lemma_le_bytes_snoc(value as nat, i as nat);
        }
        let ghost pre = data@;
        data[start + i] = (v % 256) as u8;
        proof {
            assert(data@.subrange(start as int, start + i) =~= pre.subrange(
                start as int,
                start + i,
            ));
            assert(data@.subrange(start as int, start + i + 1) =~= data@.subrange(
                start as int,
                start + i,
            ).push(((value as nat / pow2((8 * i) as nat)) % 256) as u8));
        }
        v = v / 256;
        i = i + 1;
    }
}

/// Extending an encoding by one byte appends the next byte of the value.
proof fn lemma_le_bytes_snoc(v: nat, n: nat)
    ensures
        le_bytes(v, n + 1) == le_bytes(v, n).push(((v / pow2(8 * n)) % 256) as u8),
    decreases n,
{
    lemma2_to64();
    if n == 0 {
        reveal_with_fuel(le_bytes, 3);
        assert(v / 1 == v) by (nonlinear_arith);
        assert(le_bytes(v, 1) =~= le_bytes(v, 0).push(((v / pow2(0)) % 256) as u8));
    } else {
        lemma_le_bytes_snoc(v / 256, (n - 1) as nat);
        lemma_pow2_adds(8, 8 * (n - 1) as nat);
        lemma_pow2_pos(8 * (n - 1) as nat);
        lemma_div_denominator(v as int, 256, pow2(8 * (n - 1) as nat) as int);
        assert(le_bytes(v, n + 1) =~= le_bytes(v, n).push(((v / pow2(8 * n)) % 256) as u8));
    }
}

/// A byte-buffer view tagged with a contents kind: the unit of
/// encoding and decoding.  A payload never references more bytes than
/// its kind requires.
#[derive(Debug)]
pub struct Payload<'a> {
    pub contents: Contents,
    pub data: &'a [u8],
}

impl<'a> Payload<'a> {
    /// Well-formed: the buffer holds exactly the bytes of one value of
    /// the tagged kind.
    pub open spec fn wf(self) -> bool {
        self.data@.len() == spec_size(self.contents)
    }

    /// Views the first `contents.size()` bytes of `slice` as a payload.
    /// Fails exactly when the buffer is too short.
    pub fn from_slice(contents: Contents, slice: &'a [u8]) -> (r: Option<Payload<'a>>)
        ensures
            r is Some <==> slice@.len() >= spec_size(contents),
            r matches Some(p) ==> p.contents == contents && p.wf() && p.data@ == slice@.subrange(
                0,
                spec_size(contents) as int,
            ),
    {
        let len = contents.size() as usize;
        if slice.len() < len {
            None
        } else {
            Some(Payload { contents, data: slice_subrange(slice, 0, len) })
        }
    }

    /// Writes the little-endian encoding of `value` into the first
    /// `contents.size()` bytes of `data` and views them as a payload.
    /// For `Frequency`, the 6-byte numerator is `value` and the 2-byte
    /// denominator is fixed to one.  `TimeOfDay` is decode-only.
    pub fn into_slice(contents: Contents, value: u64, data: &'a mut [u8]) -> (r: Option<
        Payload<'a>,
    >)
        requires
            !(contents is TimeOfDay),
            old(data)@.len() >= spec_size(contents),
        ensures
            final(data)@.len() == old(data)@.len(),
            final(data)@.subrange(spec_size(contents) as int, old(data)@.len() as int)
                == old(data)@.subrange(spec_size(contents) as int, old(data)@.len() as int),
            !(contents is Frequency) ==> final(data)@.subrange(0, spec_size(contents) as int)
                == le_bytes(value as nat, spec_size(contents)),
            contents is Frequency ==> final(data)@.subrange(0, 6) == le_bytes(value as nat, 6)
                && final(data)@[6] == 1u8 && final(data)@[7] == 0u8,
            r is Some,
            r matches Some(p) ==> p.contents == contents && p.wf()
                && p.data@ == final(data)@.subrange(0, spec_size(contents) as int),
    {
        let len = contents.size() as usize;
        match contents {
            Contents::Frequency => {
                write_le(data, 0, 6, value);
                write_le(data, 6, 2, 1);
                proof {
                    lemma_le_bytes_len(value as nat, 6);
                    lemma_le_bytes_len(1, 2);
                    assert(data@.subrange(0, 6) =~= le_bytes(value as nat, 6));
                    reveal_with_fuel(le_bytes, 3);
                    assert(data@.subrange(6, 8) == le_bytes(1nat, 2));
                    assert(le_bytes(1nat, 2)[0] == 1u8 && le_bytes(1nat, 2)[1] == 0u8);
                }
            },
            _ => {
                write_le(data, 0, len, value);
            },
        }
        proof {
            lemma_le_bytes_len(value as nat, spec_size(contents));
        }
        let d: &'a [u8] = data;
        Some(Payload { contents, data: slice_subrange(d, 0, len) })
    }

    /// The semantic value of the payload's bytes under its kind.
    pub fn value(&self) -> (v: u64)
        requires
            self.wf(),
        ensures
            v == spec_value(self.contents, self.data@),
    {
        match self.contents {
            Contents::Frequency => {
                let m = le_u64(self.data, 0, 6);
                let n = le_u64(self.data, 6, 2);
                if n == 0 {
                    m
                } else {
                    m / n
                }
            },
            Contents::TimeOfDay => le_u64(self.data, 5, 6),
            _ => {
                let len = self.contents.size() as usize;
                le_u64(self.data, 0, len)
            },
        }
    }
}

} // verus!
