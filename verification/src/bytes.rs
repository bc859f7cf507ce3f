//! Little-endian integer fields and length-prefixed byte fields: the
//! primitives of the wire codec, with their decode-of-encode lemmas.
//!
//! Decoding is specified on the remaining input: a decoder takes a byte
//! sequence and yields the value together with the bytes it did not consume.

use vstd::prelude::*;

verus! {

pub open spec fn le16(b0: u8, b1: u8) -> u16 {
    (b0 as u16) | ((b1 as u16) << 8)
}

pub open spec fn le32(b0: u8, b1: u8, b2: u8, b3: u8) -> u32 {
    (b0 as u32) | ((b1 as u32) << 8) | ((b2 as u32) << 16) | ((b3 as u32) << 24)
}

pub open spec fn enc_u16(x: u16) -> Seq<u8> {
    seq![(x & 0xff) as u8, ((x >> 8) & 0xff) as u8]
}

pub open spec fn enc_u32(x: u32) -> Seq<u8> {
    seq![
        (x & 0xff) as u8,
        ((x >> 8) & 0xff) as u8,
        ((x >> 16) & 0xff) as u8,
        ((x >> 24) & 0xff) as u8,
    ]
}

pub open spec fn enc_u64(x: u64) -> Seq<u8> {
    enc_u32((x & 0xffff_ffff) as u32) + enc_u32(((x >> 32) & 0xffff_ffff) as u32)
}

pub open spec fn enc_u128(x: u128) -> Seq<u8> {
    enc_u64((x & 0xffff_ffff_ffff_ffff) as u64) + enc_u64(((x >> 64) & 0xffff_ffff_ffff_ffff) as u64)
}

/// A byte field: a 32-bit length, then the bytes themselves.
pub open spec fn enc_bytes(b: Seq<u8>) -> Seq<u8>
    recommends
        b.len() < 0x1_0000_0000,
{
    enc_u32(b.len() as u32) + b
}

pub open spec fn dec_u16(s: Seq<u8>) -> Option<(u16, Seq<u8>)> {
    if s.len() >= 2 {
        Some((le16(s[0], s[1]), s.skip(2)))
    } else {
        None
    }
}

pub open spec fn dec_u32(s: Seq<u8>) -> Option<(u32, Seq<u8>)> {
    if s.len() >= 4 {
        Some((le32(s[0], s[1], s[2], s[3]), s.skip(4)))
    } else {
        None
    }
}

pub open spec fn dec_u64(s: Seq<u8>) -> Option<(u64, Seq<u8>)> {
    match dec_u32(s) {
        Some((lo, s1)) => match dec_u32(s1) {
            Some((hi, s2)) => Some(((lo as u64) | ((hi as u64) << 32), s2)),
            None => None,
        },
        None => None,
    }
}

pub open spec fn dec_u128(s: Seq<u8>) -> Option<(u128, Seq<u8>)> {
    match dec_u64(s) {
        Some((lo, s1)) => match dec_u64(s1) {
            Some((hi, s2)) => Some(((lo as u128) | ((hi as u128) << 64), s2)),
            None => None,
        },
        None => None,
    }
}

pub open spec fn dec_bytes(s: Seq<u8>) -> Option<(Seq<u8>, Seq<u8>)> {
    match dec_u32(s) {
        Some((n, s1)) => if n <= s1.len() {
            Some((s1.take(n as int), s1.skip(n as int)))
        } else {
            None
        },
        None => None,
    }
}

pub proof fn lemma_dec_enc_u16(x: u16, rest: Seq<u8>)
    ensures
        dec_u16(enc_u16(x) + rest) == Some((x, rest)),
{
    let s = enc_u16(x) + rest;
    assert(le16((x & 0xff) as u8, ((x >> 8) & 0xff) as u8) == x) by (bit_vector);
    assert(s.skip(2) =~= rest);
}

pub proof fn lemma_dec_enc_u32(x: u32, rest: Seq<u8>)
    ensures
        dec_u32(enc_u32(x) + rest) == Some((x, rest)),
{
    let s = enc_u32(x) + rest;
    assert(le32(
        (x & 0xff) as u8,
        ((x >> 8) & 0xff) as u8,
        ((x >> 16) & 0xff) as u8,
        ((x >> 24) & 0xff) as u8,
    ) == x) by (bit_vector);
    assert(s.skip(4) =~= rest);
}

pub proof fn lemma_dec_enc_u64(x: u64, rest: Seq<u8>)
    ensures
        dec_u64(enc_u64(x) + rest) == Some((x, rest)),
{
    let lo = (x & 0xffff_ffff) as u32;
    let hi = ((x >> 32) & 0xffff_ffff) as u32;
    assert(enc_u64(x) + rest =~= enc_u32(lo) + (enc_u32(hi) + rest));
    lemma_dec_enc_u32(lo, enc_u32(hi) + rest);
    lemma_dec_enc_u32(hi, rest);
    assert((((x & 0xffff_ffff) as u32) as u64) | (((((x >> 32) & 0xffff_ffff) as u32) as u64)
        << 32) == x) by (bit_vector);
}

pub proof fn lemma_dec_enc_u128(x: u128, rest: Seq<u8>)
    ensures
        dec_u128(enc_u128(x) + rest) == Some((x, rest)),
{
    let lo = (x & 0xffff_ffff_ffff_ffff) as u64;
    let hi = ((x >> 64) & 0xffff_ffff_ffff_ffff) as u64;
    assert(enc_u128(x) + rest =~= enc_u64(lo) + (enc_u64(hi) + rest));
    lemma_dec_enc_u64(lo, enc_u64(hi) + rest);
    lemma_dec_enc_u64(hi, rest);
    assert((((x & 0xffff_ffff_ffff_ffff) as u64) as u128) | (((((x >> 64)
        & 0xffff_ffff_ffff_ffff) as u64) as u128) << 64) == x) by (bit_vector);
}

pub proof fn lemma_dec_enc_bytes(b: Seq<u8>, rest: Seq<u8>)
    requires
        b.len() < 0x1_0000_0000,
    ensures
        dec_bytes(enc_bytes(b) + rest) == Some((b, rest)),
{
    let n = b.len() as u32;
    assert(enc_bytes(b) + rest =~= enc_u32(n) + (b + rest));
    lemma_dec_enc_u32(n, b + rest);
    assert((b + rest).take(n as int) =~= b);
    assert((b + rest).skip(n as int) =~= rest);
}

/// Append the two little-endian bytes of `x`.
pub fn write_u16(out: &mut Vec<u8>, x: u16)
    ensures
        final(out)@ == old(out)@ + enc_u16(x),
{
    out.push((x & 0xff) as u8);
    out.push(((x >> 8) & 0xff) as u8);
    proof {
        assert(final(out)@ =~= old(out)@ + enc_u16(x));
    }
}

/// Append the four little-endian bytes of `x`.
pub fn write_u32(out: &mut Vec<u8>, x: u32)
    ensures
        final(out)@ == old(out)@ + enc_u32(x),
{
    out.push((x & 0xff) as u8);
    out.push(((x >> 8) & 0xff) as u8);
    out.push(((x >> 16) & 0xff) as u8);
    out.push(((x >> 24) & 0xff) as u8);
    proof {
        assert(final(out)@ =~= old(out)@ + enc_u32(x));
    }
}

/// Append the eight little-endian bytes of `x`.
pub fn write_u64(out: &mut Vec<u8>, x: u64)
    ensures
        final(out)@ == old(out)@ + enc_u64(x),
{
    write_u32(out, (x & 0xffff_ffff) as u32);
    write_u32(out, ((x >> 32) & 0xffff_ffff) as u32);
    proof {
        assert(final(out)@ =~= old(out)@ + enc_u64(x));
    }
}

/// Append the sixteen little-endian bytes of `x`.
pub fn write_u128(out: &mut Vec<u8>, x: u128)
    ensures
        final(out)@ == old(out)@ + enc_u128(x),
{
    write_u64(out, (x & 0xffff_ffff_ffff_ffff) as u64);
    write_u64(out, ((x >> 64) & 0xffff_ffff_ffff_ffff) as u64);
    proof {
        assert(final(out)@ =~= old(out)@ + enc_u128(x));
    }
}

/// Append a length-prefixed byte field.
#[verifier::loop_isolation(false)]
pub fn write_bytes(out: &mut Vec<u8>, b: &Vec<u8>)
    requires
        b@.len() < 0x1_0000_0000,
    ensures
        final(out)@ == old(out)@ + enc_bytes(b@),
{
    write_u32(out, b.len() as u32);
    let n = b.len();
    let mut i: usize = 0;
    while i < n
        invariant
            i <= n,
            out@ == old(out)@ + enc_u32(b@.len() as u32) + b@.take(i as int),
        decreases n - i,
    {
        out.push(b[i]);
        proof {
            assert(out@ =~= old(out)@ + enc_u32(b@.len() as u32) + b@.take(i + 1));
        }
        i = i + 1;
    }
    proof {
        assert(out@ =~= old(out)@ + enc_bytes(b@));
    }
}

/// Byte-for-byte copy of a vector.
#[verifier::loop_isolation(false)]
pub fn copy_bytes(v: &Vec<u8>) -> (r: Vec<u8>)
    ensures
        r@ == v@,
{
    let n = v.len();
    let mut r: Vec<u8> = Vec::new();
    let mut i: usize = 0;
    while i < n
        invariant
            i <= n,
            r@ == v@.take(i as int),
        decreases n - i,
    {
        r.push(v[i]);
        proof {
            assert(r@ =~= v@.take(i + 1));
        }
        i = i + 1;
    }
    proof {
        assert(v@.take(n as int) =~= v@);
    }
    r
}

/// Byte-for-byte equality of two vectors.
#[verifier::loop_isolation(false)]
pub fn bytes_eq(a: &Vec<u8>, b: &Vec<u8>) -> (r: bool)
    ensures
        r == (a@ == b@),
{
    if a.len() != b.len() {
        return false;
    }
    let n = a.len();
    let mut i: usize = 0;
    while i < n
        invariant
            i <= n,
            forall|j: int| 0 <= j < i ==> a@[j] == b@[j],
        decreases n - i,
    {
        if a[i] != b[i] {
            return false;
        }
        i = i + 1;
    }
    proof {
        assert(a@ =~= b@);
    }
    true
}

/// Read two bytes as a little-endian integer.
pub fn read_u16(data: &Vec<u8>, pos: usize) -> (r: Option<(u16, usize)>)
    requires
        pos <= data@.len(),
    ensures
        match r {
            Some((x, p2)) => {
                &&& pos <= p2 <= data@.len()
                &&& dec_u16(data@.skip(pos as int)) == Some((x, data@.skip(p2 as int)))
            },
            None => dec_u16(data@.skip(pos as int)) is None,
        },
{
    if data.len() - pos >= 2 {
        let b0 = data[pos];
        let b1 = data[pos + 1];
        let x = (b0 as u16) | ((b1 as u16) << 8);
        proof {
            assert(data@.skip(pos as int)[0] == data@[pos as int]);
            assert(data@.skip(pos as int)[1] == data@[pos as int + 1]);
            assert(data@.skip(pos as int).skip(2) =~= data@.skip(pos as int + 2));
        }
        Some((x, pos + 2))
    } else {
        None
    }
}

/// Read four bytes as a little-endian integer.
pub fn read_u32(data: &Vec<u8>, pos: usize) -> (r: Option<(u32, usize)>)
    requires
        pos <= data@.len(),
    ensures
        match r {
            Some((x, p2)) => {
                &&& pos <= p2 <= data@.len()
                &&& dec_u32(data@.skip(pos as int)) == Some((x, data@.skip(p2 as int)))
            },
            None => dec_u32(data@.skip(pos as int)) is None,
        },
{
    if data.len() - pos >= 4 {
        let b0 = data[pos];
        let b1 = data[pos + 1];
        let b2 = data[pos + 2];
        let b3 = data[pos + 3];
        let x = (b0 as u32) | ((b1 as u32) << 8) | ((b2 as u32) << 16) | ((b3 as u32) << 24);
        proof {
            assert(data@.skip(pos as int)[0] == data@[pos as int]);
            assert(data@.skip(pos as int)[1] == data@[pos as int + 1]);
            assert(data@.skip(pos as int)[2] == data@[pos as int + 2]);
            assert(data@.skip(pos as int)[3] == data@[pos as int + 3]);
            assert(data@.skip(pos as int).skip(4) =~= data@.skip(pos as int + 4));
        }
        Some((x, pos + 4))
    } else {
        None
    }
}

/// Read eight bytes as a little-endian integer.
pub fn read_u64(data: &Vec<u8>, pos: usize) -> (r: Option<(u64, usize)>)
    requires
        pos <= data@.len(),
    ensures
        match r {
            Some((x, p2)) => {
                &&& pos <= p2 <= data@.len()
                &&& dec_u64(data@.skip(pos as int)) == Some((x, data@.skip(p2 as int)))
            },
            None => dec_u64(data@.skip(pos as int)) is None,
        },
{
    match read_u32(data, pos) {
        Some((lo, p1)) => match read_u32(data, p1) {
            Some((hi, p2)) => Some(((lo as u64) | ((hi as u64) << 32), p2)),
            None => None,
        },
        None => None,
    }
}

/// Read sixteen bytes as a little-endian integer.
pub fn read_u128(data: &Vec<u8>, pos: usize) -> (r: Option<(u128, usize)>)
    requires
        pos <= data@.len(),
    ensures
        match r {
            Some((x, p2)) => {
                &&& pos <= p2 <= data@.len()
                &&& dec_u128(data@.skip(pos as int)) == Some((x, data@.skip(p2 as int)))
            },
            None => dec_u128(data@.skip(pos as int)) is None,
        },
{
    match read_u64(data, pos) {
        Some((lo, p1)) => match read_u64(data, p1) {
            Some((hi, p2)) => Some(((lo as u128) | ((hi as u128) << 64), p2)),
            None => None,
        },
        None => None,
    }
}

/// Read a length-prefixed byte field.
#[verifier::loop_isolation(false)]
pub fn read_bytes(data: &Vec<u8>, pos: usize) -> (r: Option<(Vec<u8>, usize)>)
    requires
        pos <= data@.len(),
    ensures
        match r {
            Some((b, p2)) => {
                &&& pos <= p2 <= data@.len()
                &&& dec_bytes(data@.skip(pos as int)) == Some((b@, data@.skip(p2 as int)))
            },
            None => dec_bytes(data@.skip(pos as int)) is None,
        },
{
    match read_u32(data, pos) {
        Some((n, p1)) => {
            let n = n as usize;
            if data.len() - p1 >= n {
                let mut b: Vec<u8> = Vec::new();
                let mut i: usize = 0;
                while i < n
                    invariant
                        i <= n,
                        p1 + n <= data@.len(),
                        b@ == data@.subrange(p1 as int, p1 + i),
                    decreases n - i,
                {
                    b.push(data[p1 + i]);
                    proof {
                        assert(b@ =~= data@.subrange(p1 as int, p1 + i + 1));
                    }
                    i = i + 1;
                }
                proof {
                    assert(b@ =~= data@.skip(p1 as int).take(n as int));
                    assert(data@.skip(p1 as int).skip(n as int) =~= data@.skip(p1 + n));
                }
                Some((b, p1 + n))
            } else {
                proof {
                    assert(data@.skip(p1 as int).len() == data@.len() - p1);
                }
                None
            }
        },
        None => None,
    }
}

} // verus!
