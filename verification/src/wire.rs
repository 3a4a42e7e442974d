//! Byte-level wire format: the self-describing binary serialization that
//! frames every packet. Values are markers followed by big-endian data, with
//! the shortest representation chosen when writing; readers accept every
//! representation of the families they expect.
use vstd::prelude::*;

verus! {

// ===== big-endian recombination =====

pub open spec fn spec_be2(b1: u8, b0: u8) -> u64 {
    ((b1 as u64) << 8) | (b0 as u64)
}

pub open spec fn spec_be4(b3: u8, b2: u8, b1: u8, b0: u8) -> u64 {
    ((b3 as u64) << 24) | ((b2 as u64) << 16) | ((b1 as u64) << 8) | (b0 as u64)
}

pub open spec fn spec_be8(b7: u8, b6: u8, b5: u8, b4: u8, b3: u8, b2: u8, b1: u8, b0: u8) -> u64 {
    ((b7 as u64) << 56) | ((b6 as u64) << 48) | ((b5 as u64) << 40) | ((b4 as u64) << 32) | ((
    b3 as u64) << 24) | ((b2 as u64) << 16) | ((b1 as u64) << 8) | (b0 as u64)
}

/// The big-endian bytes of the low 16 bits of `n`.
pub open spec fn be2_bytes(n: u64) -> Seq<u8> {
    seq![((n >> 8) & 0xff) as u8, (n & 0xff) as u8]
}

pub open spec fn be4_bytes(n: u64) -> Seq<u8> {
    seq![
        ((n >> 24) & 0xff) as u8,
        ((n >> 16) & 0xff) as u8,
        ((n >> 8) & 0xff) as u8,
        (n & 0xff) as u8,
    ]
}

pub open spec fn be8_bytes(n: u64) -> Seq<u8> {
    seq![
        ((n >> 56) & 0xff) as u8,
        ((n >> 48) & 0xff) as u8,
        ((n >> 40) & 0xff) as u8,
        ((n >> 32) & 0xff) as u8,
        ((n >> 24) & 0xff) as u8,
        ((n >> 16) & 0xff) as u8,
        ((n >> 8) & 0xff) as u8,
        (n & 0xff) as u8,
    ]
}

pub proof fn lemma_recombine2(n: u64)
    requires
        n <= 0xffff,
    ensures
        spec_be2(be2_bytes(n)[0], be2_bytes(n)[1]) == n,
{
    assert(((((n >> 8) & 0xff) as u8 as u64) << 8) | ((n & 0xff) as u8 as u64) == n)
        by (bit_vector)
        requires
            n <= 0xffff,
    ;
}

pub proof fn lemma_recombine4(n: u64)
    requires
        n <= 0xffffffff,
    ensures
        spec_be4(be4_bytes(n)[0], be4_bytes(n)[1], be4_bytes(n)[2], be4_bytes(n)[3]) == n,
{
    assert(((((n >> 24) & 0xff) as u8 as u64) << 24) | ((((n >> 16) & 0xff) as u8 as u64) << 16) | (
    (((n >> 8) & 0xff) as u8 as u64) << 8) | ((n & 0xff) as u8 as u64) == n)
        by (bit_vector)
        requires
            n <= 0xffffffff,
    ;
}

pub proof fn lemma_recombine8(n: u64)
    ensures
        spec_be8(
            be8_bytes(n)[0],
            be8_bytes(n)[1],
            be8_bytes(n)[2],
            be8_bytes(n)[3],
            be8_bytes(n)[4],
            be8_bytes(n)[5],
            be8_bytes(n)[6],
            be8_bytes(n)[7],
        ) == n,
{
    assert(((((n >> 56) & 0xff) as u8 as u64) << 56) | ((((n >> 48) & 0xff) as u8 as u64) << 48) | (
    (((n >> 40) & 0xff) as u8 as u64) << 40) | ((((n >> 32) & 0xff) as u8 as u64) << 32) | ((((n
        >> 24) & 0xff) as u8 as u64) << 24) | ((((n >> 16) & 0xff) as u8 as u64) << 16) | ((((n
        >> 8) & 0xff) as u8 as u64) << 8) | ((n & 0xff) as u8 as u64) == n) by (bit_vector);
}

pub proof fn lemma_be2_bound(b1: u8, b0: u8)
    ensures
        spec_be2(b1, b0) <= 0xffff,
{
    let r = spec_be2(b1, b0);
    assert(((b1 as u64) << 8) | (b0 as u64) <= 0xffff) by (bit_vector);
}

pub proof fn lemma_be4_bound(b3: u8, b2: u8, b1: u8, b0: u8)
    ensures
        spec_be4(b3, b2, b1, b0) <= 0xffffffff,
{
    assert(((b3 as u64) << 24) | ((b2 as u64) << 16) | ((b1 as u64) << 8) | (b0 as u64)
        <= 0xffffffff) by (bit_vector);
}

// ===== sequence helpers =====

pub proof fn lemma_skip_skip(s: Seq<u8>, i: int, k: int)
    requires
        0 <= i,
        0 <= k,
        i + k <= s.len(),
    ensures
        s.skip(i).skip(k) == s.skip(i + k),
{
    assert(s.skip(i).skip(k) =~= s.skip(i + k));
}

pub proof fn lemma_skip_subrange(s: Seq<u8>, i: int, a: int, b: int)
    requires
        0 <= i,
        0 <= a <= b,
        i + b <= s.len(),
    ensures
        s.skip(i).subrange(a, b) == s.subrange(i + a, i + b),
{
    assert(s.skip(i).subrange(a, b) =~= s.subrange(i + a, i + b));
}

/// Copies `s[a..b]` into a fresh vector.
pub fn copy_range(s: &[u8], a: usize, b: usize) -> (r: Vec<u8>)
    requires
        a <= b <= s@.len(),
    ensures
        r@ == s@.subrange(a as int, b as int),
{
    let mut v: Vec<u8> = Vec::new();
    let mut k: usize = a;
    while k < b
        invariant
            a <= k <= b <= s@.len(),
            v@ == s@.subrange(a as int, k as int),
        decreases b - k,
    {
        v.push(s[k]);
        k = k + 1;
        proof {
            assert(s@.subrange(a as int, k as int) =~= s@.subrange(a as int, k - 1)
                + seq![s@[k - 1]]);
        }
    }
    v
}

// ===== unsigned integers =====

/// Shortest encoding of an unsigned integer.
pub open spec fn enc_uint(n: u64) -> Seq<u8> {
    if n < 0x80 {
        seq![n as u8]
    } else if n <= 0xff {
        seq![0xccu8, n as u8]
    } else if n <= 0xffff {
        seq![0xcdu8] + be2_bytes(n)
    } else if n <= 0xffffffff {
        seq![0xceu8] + be4_bytes(n)
    } else {
        seq![0xcfu8] + be8_bytes(n)
    }
}

/// Reads an unsigned integer in any width of the unsigned family.
pub open spec fn spec_parse_uint(s: Seq<u8>) -> Option<(u64, Seq<u8>)> {
    if s.len() < 1 {
        None
    } else {
        let m = s[0];
        if m < 0x80 {
            Some(((m as u64), s.skip(1)))
        } else if m == 0xcc {
            if s.len() >= 2 {
                Some((s[1] as u64, s.skip(2)))
            } else {
                None
            }
        } else if m == 0xcd {
            if s.len() >= 3 {
                Some((spec_be2(s[1], s[2]), s.skip(3)))
            } else {
                None
            }
        } else if m == 0xce {
            if s.len() >= 5 {
                Some((spec_be4(s[1], s[2], s[3], s[4]), s.skip(5)))
            } else {
                None
            }
        } else if m == 0xcf {
            if s.len() >= 9 {
                Some((spec_be8(s[1], s[2], s[3], s[4], s[5], s[6], s[7], s[8]), s.skip(9)))
            } else {
                None
            }
        } else {
            None
        }
    }
}

/// Appends the shortest encoding of `n` to `out`.
pub fn write_uint(out: &mut Vec<u8>, n: u64)
    ensures
        final(out)@ == old(out)@ + enc_uint(n),
{
    if n < 0x80 {
        out.push(n as u8);
    } else if n <= 0xff {
        out.push(0xcc);
        out.push(n as u8);
    } else if n <= 0xffff {
        out.push(0xcd);
        out.push(((n >> 8) & 0xff) as u8);
        out.push((n & 0xff) as u8);
    } else if n <= 0xffffffff {
        out.push(0xce);
        out.push(((n >> 24) & 0xff) as u8);
        out.push(((n >> 16) & 0xff) as u8);
        out.push(((n >> 8) & 0xff) as u8);
        out.push((n & 0xff) as u8);
    } else {
        out.push(0xcf);
        out.push(((n >> 56) & 0xff) as u8);
        out.push(((n >> 48) & 0xff) as u8);
        out.push(((n >> 40) & 0xff) as u8);
        out.push(((n >> 32) & 0xff) as u8);
        out.push(((n >> 24) & 0xff) as u8);
        out.push(((n >> 16) & 0xff) as u8);
        out.push(((n >> 8) & 0xff) as u8);
        out.push((n & 0xff) as u8);
    }
    proof {
        assert(out@ =~= old(out)@ + enc_uint(n));
    }
}

/// Reads an unsigned integer at position `i`; returns the value and the
/// position just past it.
pub fn parse_uint(s: &[u8], i: usize) -> (r: Option<(u64, usize)>)
    requires
        i <= s@.len(),
    ensures
        match r {
            None => spec_parse_uint(s@.skip(i as int)) is None,
            Some((v, j)) => i < j <= s@.len() && spec_parse_uint(s@.skip(i as int)) == Some(
                (v, s@.skip(j as int)),
            ),
        },
{
    let n = s.len();
    let ghost t = s@.skip(i as int);
    if i >= n {
        return None;
    }
    let m = s[i];
    assert(t[0] == m);
    if m < 0x80 {
        proof {
            lemma_skip_skip(s@, i as int, 1);
        }
        Some((m as u64, i + 1))
    } else if m == 0xcc {
        if n - i >= 2 {
            proof {
                lemma_skip_skip(s@, i as int, 2);
            }
            assert(t[1] == s@[i + 1]);
            Some((s[i + 1] as u64, i + 2))
        } else {
            None
        }
    } else if m == 0xcd {
        if n - i >= 3 {
            proof {
                lemma_skip_skip(s@, i as int, 3);
            }
            assert(t[1] == s@[i + 1] && t[2] == s@[i + 2]);
            let v = be2(s[i + 1], s[i + 2]);
            Some((v, i + 3))
        } else {
            None
        }
    } else if m == 0xce {
        if n - i >= 5 {
            proof {
                lemma_skip_skip(s@, i as int, 5);
            }
            assert(t[1] == s@[i + 1] && t[2] == s@[i + 2] && t[3] == s@[i + 3] && t[4] == s@[i
                + 4]);
            let v = be4(s[i + 1], s[i + 2], s[i + 3], s[i + 4]);
            Some((v, i + 5))
        } else {
            None
        }
    } else if m == 0xcf {
        if n - i >= 9 {
            proof {
                lemma_skip_skip(s@, i as int, 9);
            }
            assert(forall|k: int| 0 <= k < 9 ==> t[k] == s@[i + k]);
            let v = be8(
                s[i + 1],
                s[i + 2],
                s[i + 3],
                s[i + 4],
                s[i + 5],
                s[i + 6],
                s[i + 7],
                s[i + 8],
            );
            Some((v, i + 9))
        } else {
            None
        }
    } else {
        None
    }
}

pub fn be2(b1: u8, b0: u8) -> (r: u64)
    ensures
        r == spec_be2(b1, b0),
        r <= 0xffff,
{
    proof {
        lemma_be2_bound(b1, b0);
    }
    ((b1 as u64) << 8) | (b0 as u64)
}

pub fn be4(b3: u8, b2: u8, b1: u8, b0: u8) -> (r: u64)
    ensures
        r == spec_be4(b3, b2, b1, b0),
        r <= 0xffffffff,
{
    proof {
        lemma_be4_bound(b3, b2, b1, b0);
    }
    ((b3 as u64) << 24) | ((b2 as u64) << 16) | ((b1 as u64) << 8) | (b0 as u64)
}

pub fn be8(b7: u8, b6: u8, b5: u8, b4: u8, b3: u8, b2: u8, b1: u8, b0: u8) -> (r: u64)
    ensures
        r == spec_be8(b7, b6, b5, b4, b3, b2, b1, b0),
{
    ((b7 as u64) << 56) | ((b6 as u64) << 48) | ((b5 as u64) << 40) | ((b4 as u64) << 32) | ((
    b3 as u64) << 24) | ((b2 as u64) << 16) | ((b1 as u64) << 8) | (b0 as u64)
}

/// Reading the shortest encoding of `n` gives back `n` and leaves `rest`.
pub proof fn lemma_parse_uint_enc(n: u64, rest: Seq<u8>)
    ensures
        spec_parse_uint(enc_uint(n) + rest) == Some((n, rest)),
{
    let e = enc_uint(n);
    let s = e + rest;
    assert(forall|k: int| 0 <= k < e.len() ==> s[k] == e[k]);
    if n < 0x80 {
        assert(s.skip(1) =~= rest);
        assert((n as u8) as u64 == n);
    } else if n <= 0xff {
        assert(s.skip(2) =~= rest);
        assert((n as u8) as u64 == n);
    } else if n <= 0xffff {
        assert(s.skip(3) =~= rest);
        lemma_recombine2(n);
    } else if n <= 0xffffffff {
        assert(s.skip(5) =~= rest);
        lemma_recombine4(n);
    } else {
        assert(s.skip(9) =~= rest);
        lemma_recombine8(n);
    }
}

// ===== strings (raw bytes) =====

/// The body and what follows it, once a length-prefixed header of `hdr` bytes
/// announcing `len` body bytes has been read.
pub open spec fn spec_take_body(s: Seq<u8>, hdr: int, len: int) -> Option<(Seq<u8>, Seq<u8>)> {
    if s.len() >= hdr + len {
        Some((s.subrange(hdr, hdr + len), s.skip(hdr + len)))
    } else {
        None
    }
}

/// Shortest header announcing a string of `len` bytes.
pub open spec fn enc_strhdr(len: u64) -> Seq<u8> {
    if len <= 31 {
        seq![(0xa0 + len) as u8]
    } else if len <= 0xff {
        seq![0xd9u8, len as u8]
    } else if len <= 0xffff {
        seq![0xdau8] + be2_bytes(len)
    } else {
        seq![0xdbu8] + be4_bytes(len)
    }
}

/// A string value: header plus raw bytes.
pub open spec fn enc_str(b: Seq<u8>) -> Seq<u8> {
    enc_strhdr(b.len() as u64) + b
}

/// Reads a string in any width of the string family; yields its raw bytes.
pub open spec fn spec_parse_str(s: Seq<u8>) -> Option<(Seq<u8>, Seq<u8>)> {
    if s.len() < 1 {
        None
    } else {
        let m = s[0];
        if 0xa0 <= m && m <= 0xbf {
            spec_take_body(s, 1, m as int - 0xa0)
        } else if m == 0xd9 {
            if s.len() >= 2 {
                spec_take_body(s, 2, s[1] as int)
            } else {
                None
            }
        } else if m == 0xda {
            if s.len() >= 3 {
                spec_take_body(s, 3, spec_be2(s[1], s[2]) as int)
            } else {
                None
            }
        } else if m == 0xdb {
            if s.len() >= 5 {
                spec_take_body(s, 5, spec_be4(s[1], s[2], s[3], s[4]) as int)
            } else {
                None
            }
        } else {
            None
        }
    }
}

// ===== binary blobs =====

/// Shortest header announcing a binary blob of `len` bytes.
pub open spec fn enc_binhdr(len: u64) -> Seq<u8> {
    if len <= 0xff {
        seq![0xc4u8, len as u8]
    } else if len <= 0xffff {
        seq![0xc5u8] + be2_bytes(len)
    } else {
        seq![0xc6u8] + be4_bytes(len)
    }
}

/// A binary value: header plus raw bytes.
pub open spec fn enc_bin(b: Seq<u8>) -> Seq<u8> {
    enc_binhdr(b.len() as u64) + b
}

/// Reads a binary blob in any width of the binary family.
pub open spec fn spec_parse_bin(s: Seq<u8>) -> Option<(Seq<u8>, Seq<u8>)> {
    if s.len() < 1 {
        None
    } else {
        let m = s[0];
        if m == 0xc4 {
            if s.len() >= 2 {
                spec_take_body(s, 2, s[1] as int)
            } else {
                None
            }
        } else if m == 0xc5 {
            if s.len() >= 3 {
                spec_take_body(s, 3, spec_be2(s[1], s[2]) as int)
            } else {
                None
            }
        } else if m == 0xc6 {
            if s.len() >= 5 {
                spec_take_body(s, 5, spec_be4(s[1], s[2], s[3], s[4]) as int)
            } else {
                None
            }
        } else {
            None
        }
    }
}

// ===== array and map headers =====

/// Shortest header announcing an array of `n` elements.
pub open spec fn enc_arrhdr(n: u64) -> Seq<u8> {
    if n <= 15 {
        seq![(0x90 + n) as u8]
    } else if n <= 0xffff {
        seq![0xdcu8] + be2_bytes(n)
    } else {
        seq![0xddu8] + be4_bytes(n)
    }
}

/// Shortest header announcing a map of `n` key-value pairs.
pub open spec fn enc_maphdr(n: u64) -> Seq<u8> {
    if n <= 15 {
        seq![(0x80 + n) as u8]
    } else if n <= 0xffff {
        seq![0xdeu8] + be2_bytes(n)
    } else {
        seq![0xdfu8] + be4_bytes(n)
    }
}

/// Reads an array header in any width; yields the element count.
pub open spec fn spec_parse_arrhdr(s: Seq<u8>) -> Option<(u64, Seq<u8>)> {
    if s.len() < 1 {
        None
    } else {
        let m = s[0];
        if 0x90 <= m && m <= 0x9f {
            Some(((m - 0x90) as u64, s.skip(1)))
        } else if m == 0xdc {
            if s.len() >= 3 {
                Some((spec_be2(s[1], s[2]), s.skip(3)))
            } else {
                None
            }
        } else if m == 0xdd {
            if s.len() >= 5 {
                Some((spec_be4(s[1], s[2], s[3], s[4]), s.skip(5)))
            } else {
                None
            }
        } else {
            None
        }
    }
}

/// Appends all of `b` to `out`.
pub fn push_all(out: &mut Vec<u8>, b: &[u8])
    ensures
        final(out)@ == old(out)@ + b@,
{
    let mut k: usize = 0;
    while k < b.len()
        invariant
            k <= b@.len(),
            out@ == old(out)@ + b@.subrange(0, k as int),
        decreases b@.len() - k,
    {
        out.push(b[k]);
        k = k + 1;
        proof {
            assert(b@.subrange(0, k as int) =~= b@.subrange(0, k - 1) + seq![b@[k - 1]]);
        }
    }
    proof {
        assert(b@.subrange(0, b@.len() as int) =~= b@);
    }
}

/// Appends a string value (header plus bytes) to `out`.
pub fn write_strbytes(out: &mut Vec<u8>, b: &[u8])
    requires
        b@.len() <= 0xffffffff,
    ensures
        final(out)@ == old(out)@ + enc_str(b@),
{
    let len = b.len() as u64;
    if len <= 31 {
        out.push(0xa0 + len as u8);
    } else if len <= 0xff {
        out.push(0xd9);
        out.push(len as u8);
    } else if len <= 0xffff {
        out.push(0xda);
        out.push(((len >> 8) & 0xff) as u8);
        out.push((len & 0xff) as u8);
    } else {
        out.push(0xdb);
        out.push(((len >> 24) & 0xff) as u8);
        out.push(((len >> 16) & 0xff) as u8);
        out.push(((len >> 8) & 0xff) as u8);
        out.push((len & 0xff) as u8);
    }
    proof {
        assert(out@ =~= old(out)@ + enc_strhdr(b@.len() as u64));
    }
    push_all(out, b);
    proof {
        assert(out@ =~= old(out)@ + enc_str(b@));
    }
}

/// Appends a binary value (header plus bytes) to `out`.
pub fn write_binbytes(out: &mut Vec<u8>, b: &[u8])
    requires
        b@.len() <= 0xffffffff,
    ensures
        final(out)@ == old(out)@ + enc_bin(b@),
{
    let len = b.len() as u64;
    if len <= 0xff {
        out.push(0xc4);
        out.push(len as u8);
    } else if len <= 0xffff {
        out.push(0xc5);
        out.push(((len >> 8) & 0xff) as u8);
        out.push((len & 0xff) as u8);
    } else {
        out.push(0xc6);
        out.push(((len >> 24) & 0xff) as u8);
        out.push(((len >> 16) & 0xff) as u8);
        out.push(((len >> 8) & 0xff) as u8);
        out.push((len & 0xff) as u8);
    }
    proof {
        assert(out@ =~= old(out)@ + enc_binhdr(b@.len() as u64));
    }
    push_all(out, b);
    proof {
        assert(out@ =~= old(out)@ + enc_bin(b@));
    }
}

/// Appends an array header announcing `n` elements to `out`.
pub fn write_arrhdr(out: &mut Vec<u8>, n: u64)
    requires
        n <= 0xffffffff,
    ensures
        final(out)@ == old(out)@ + enc_arrhdr(n),
{
    if n <= 15 {
        out.push(0x90 + n as u8);
    } else if n <= 0xffff {
        out.push(0xdc);
        out.push(((n >> 8) & 0xff) as u8);
        out.push((n & 0xff) as u8);
    } else {
        out.push(0xdd);
        out.push(((n >> 24) & 0xff) as u8);
        out.push(((n >> 16) & 0xff) as u8);
        out.push(((n >> 8) & 0xff) as u8);
        out.push((n & 0xff) as u8);
    }
    proof {
        assert(out@ =~= old(out)@ + enc_arrhdr(n));
    }
}

/// Appends a map header announcing `n` pairs to `out`.
pub fn write_maphdr(out: &mut Vec<u8>, n: u64)
    requires
        n <= 0xffffffff,
    ensures
        final(out)@ == old(out)@ + enc_maphdr(n),
{
    if n <= 15 {
        out.push(0x80 + n as u8);
    } else if n <= 0xffff {
        out.push(0xde);
        out.push(((n >> 8) & 0xff) as u8);
        out.push((n & 0xff) as u8);
    } else {
        out.push(0xdf);
        out.push(((n >> 24) & 0xff) as u8);
        out.push(((n >> 16) & 0xff) as u8);
        out.push(((n >> 8) & 0xff) as u8);
        out.push((n & 0xff) as u8);
    }
    proof {
        assert(out@ =~= old(out)@ + enc_maphdr(n));
    }
}

/// Reads a string value at position `i`; yields its raw bytes.
pub fn parse_str(s: &[u8], i: usize) -> (r: Option<(Vec<u8>, usize)>)
    requires
        i <= s@.len(),
    ensures
        match r {
            None => spec_parse_str(s@.skip(i as int)) is None,
            Some((v, j)) => i < j <= s@.len() && spec_parse_str(s@.skip(i as int)) == Some(
                (v@, s@.skip(j as int)),
            ),
        },
{
    let n = s.len();
    let ghost t = s@.skip(i as int);
    if i >= n {
        return None;
    }
    let m = s[i];
    assert(t[0] == m);
    let (len, hdr): (u64, usize) = if 0xa0 <= m && m <= 0xbf {
        ((m - 0xa0) as u64, 1)
    } else if m == 0xd9 {
        if n - i >= 2 {
            assert(t[1] == s@[i + 1]);
            (s[i + 1] as u64, 2)
        } else {
            return None;
        }
    } else if m == 0xda {
        if n - i >= 3 {
            assert(t[1] == s@[i + 1] && t[2] == s@[i + 2]);
            (be2(s[i + 1], s[i + 2]), 3)
        } else {
            return None;
        }
    } else if m == 0xdb {
        if n - i >= 5 {
            assert(t[1] == s@[i + 1] && t[2] == s@[i + 2] && t[3] == s@[i + 3] && t[4] == s@[i
                + 4]);
            (be4(s[i + 1], s[i + 2], s[i + 3], s[i + 4]), 5)
        } else {
            return None;
        }
    } else {
        return None;
    };
    if ((n - i - hdr) as u64) < len {
        return None;
    }
    let blen = len as usize;
    let j = i + hdr + blen;
    let v = copy_range(s, i + hdr, j);
    proof {
        lemma_skip_subrange(s@, i as int, hdr as int, hdr + blen);
        lemma_skip_skip(s@, i as int, (hdr + blen) as int);
    }
    Some((v, j))
}

/// Reads a binary value at position `i`; yields its raw bytes.
pub fn parse_bin(s: &[u8], i: usize) -> (r: Option<(Vec<u8>, usize)>)
    requires
        i <= s@.len(),
    ensures
        match r {
            None => spec_parse_bin(s@.skip(i as int)) is None,
            Some((v, j)) => i < j <= s@.len() && spec_parse_bin(s@.skip(i as int)) == Some(
                (v@, s@.skip(j as int)),
            ),
        },
{
    let n = s.len();
    let ghost t = s@.skip(i as int);
    if i >= n {
        return None;
    }
    let m = s[i];
    assert(t[0] == m);
    let (len, hdr): (u64, usize) = if m == 0xc4 {
        if n - i >= 2 {
            assert(t[1] == s@[i + 1]);
            (s[i + 1] as u64, 2)
        } else {
            return None;
        }
    } else if m == 0xc5 {
        if n - i >= 3 {
            assert(t[1] == s@[i + 1] && t[2] == s@[i + 2]);
            (be2(s[i + 1], s[i + 2]), 3)
        } else {
            return None;
        }
    } else if m == 0xc6 {
        if n - i >= 5 {
            assert(t[1] == s@[i + 1] && t[2] == s@[i + 2] && t[3] == s@[i + 3] && t[4] == s@[i
                + 4]);
            (be4(s[i + 1], s[i + 2], s[i + 3], s[i + 4]), 5)
        } else {
            return None;
        }
    } else {
        return None;
    };
    if ((n - i - hdr) as u64) < len {
        return None;
    }
    let blen = len as usize;
    let j = i + hdr + blen;
    let v = copy_range(s, i + hdr, j);
    proof {
        lemma_skip_subrange(s@, i as int, hdr as int, hdr + blen);
        lemma_skip_skip(s@, i as int, (hdr + blen) as int);
    }
    Some((v, j))
}

/// Reads an array header at position `i`; yields the element count.
pub fn parse_arrhdr(s: &[u8], i: usize) -> (r: Option<(u64, usize)>)
    requires
        i <= s@.len(),
    ensures
        match r {
            None => spec_parse_arrhdr(s@.skip(i as int)) is None,
            Some((v, j)) => i < j <= s@.len() && v <= 0xffffffff && spec_parse_arrhdr(
                s@.skip(i as int),
            ) == Some((v, s@.skip(j as int))),
        },
{
    let n = s.len();
    let ghost t = s@.skip(i as int);
    if i >= n {
        return None;
    }
    let m = s[i];
    assert(t[0] == m);
    if 0x90 <= m && m <= 0x9f {
        proof {
            lemma_skip_skip(s@, i as int, 1);
        }
        Some(((m - 0x90) as u64, i + 1))
    } else if m == 0xdc {
        if n - i >= 3 {
            proof {
                lemma_skip_skip(s@, i as int, 3);
            }
            assert(t[1] == s@[i + 1] && t[2] == s@[i + 2]);
            Some((be2(s[i + 1], s[i + 2]), i + 3))
        } else {
            None
        }
    } else if m == 0xdd {
        if n - i >= 5 {
            proof {
                lemma_skip_skip(s@, i as int, 5);
            }
            assert(t[1] == s@[i + 1] && t[2] == s@[i + 2] && t[3] == s@[i + 3] && t[4] == s@[i
                + 4]);
            Some((be4(s[i + 1], s[i + 2], s[i + 3], s[i + 4]), i + 5))
        } else {
            None
        }
    } else {
        None
    }
}

/// Reads a map header at position `i`; yields the pair count.
pub fn parse_maphdr(s: &[u8], i: usize) -> (r: Option<(u64, usize)>)
    requires
        i <= s@.len(),
    ensures
        match r {
            None => spec_parse_maphdr(s@.skip(i as int)) is None,
            Some((v, j)) => i < j <= s@.len() && v <= 0xffffffff && spec_parse_maphdr(
                s@.skip(i as int),
            ) == Some((v, s@.skip(j as int))),
        },
{
    let n = s.len();
    let ghost t = s@.skip(i as int);
    if i >= n {
        return None;
    }
    let m = s[i];
    assert(t[0] == m);
    if 0x80 <= m && m <= 0x8f {
        proof {
            lemma_skip_skip(s@, i as int, 1);
        }
        Some(((m - 0x80) as u64, i + 1))
    } else if m == 0xde {
        if n - i >= 3 {
            proof {
                lemma_skip_skip(s@, i as int, 3);
            }
            assert(t[1] == s@[i + 1] && t[2] == s@[i + 2]);
            Some((be2(s[i + 1], s[i + 2]), i + 3))
        } else {
            None
        }
    } else if m == 0xdf {
        if n - i >= 5 {
            proof {
                lemma_skip_skip(s@, i as int, 5);
            }
            assert(t[1] == s@[i + 1] && t[2] == s@[i + 2] && t[3] == s@[i + 3] && t[4] == s@[i
                + 4]);
            Some((be4(s[i + 1], s[i + 2], s[i + 3], s[i + 4]), i + 5))
        } else {
            None
        }
    } else {
        None
    }
}

// ===== skipping whole values =====

/// Bytes following the marker for fixed-width values; `None` for markers that
/// are length-prefixed or containers, and for the one invalid marker.
pub open spec fn fixed_extra(m: u8) -> Option<int> {
    if m < 0x80 {
        Some(0)
    } else if m >= 0xe0 {
        Some(0)
    } else if m == 0xc0 || m == 0xc2 || m == 0xc3 {
        Some(0)
    } else if m == 0xcc || m == 0xd0 {
        Some(1)
    } else if m == 0xcd || m == 0xd1 {
        Some(2)
    } else if m == 0xce || m == 0xd2 || m == 0xca {
        Some(4)
    } else if m == 0xcf || m == 0xd3 || m == 0xcb {
        Some(8)
    } else if m == 0xd4 {
        Some(2)
    } else if m == 0xd5 {
        Some(3)
    } else if m == 0xd6 {
        Some(5)
    } else if m == 0xd7 {
        Some(9)
    } else if m == 0xd8 {
        Some(17)
    } else {
        None
    }
}

pub open spec fn is_arr_marker(m: u8) -> bool {
    (0x90 <= m && m <= 0x9f) || m == 0xdc || m == 0xdd
}

pub open spec fn is_map_marker(m: u8) -> bool {
    (0x80 <= m && m <= 0x8f) || m == 0xde || m == 0xdf
}

pub open spec fn is_str_marker(m: u8) -> bool {
    (0xa0 <= m && m <= 0xbf) || m == 0xd9 || m == 0xda || m == 0xdb
}

pub open spec fn is_bin_marker(m: u8) -> bool {
    m == 0xc4 || m == 0xc5 || m == 0xc6
}

/// Consumes one complete value of any shape; yields what follows it.
pub open spec fn spec_skip_value(s: Seq<u8>) -> Option<Seq<u8>>
    decreases s.len(), 0int, 0int,
{
    if s.len() < 1 {
        None
    } else {
        let m = s[0];
        if is_arr_marker(m) {
            match spec_parse_arrhdr(s) {
                None => None,
                Some((n, r)) => if r.len() < s.len() {
                    spec_skip_values(r, n as nat)
                } else {
                    None
                },
            }
        } else if is_map_marker(m) {
            match spec_parse_maphdr(s) {
                None => None,
                Some((n, r)) => if r.len() < s.len() {
                    spec_skip_values(r, 2 * (n as nat))
                } else {
                    None
                },
            }
        } else if is_str_marker(m) {
            match spec_parse_str(s) {
                None => None,
                Some((b, r)) => Some(r),
            }
        } else if is_bin_marker(m) {
            match spec_parse_bin(s) {
                None => None,
                Some((b, r)) => Some(r),
            }
        } else if m == 0xc7 {
            if s.len() >= 2 && s.len() >= 3 + s[1] as int {
                Some(s.skip(3 + s[1] as int))
            } else {
                None
            }
        } else if m == 0xc8 {
            if s.len() >= 3 && s.len() >= 4 + spec_be2(s[1], s[2]) as int {
                Some(s.skip(4 + spec_be2(s[1], s[2]) as int))
            } else {
                None
            }
        } else if m == 0xc9 {
            if s.len() >= 5 && s.len() >= 6 + spec_be4(s[1], s[2], s[3], s[4]) as int {
                Some(s.skip(6 + spec_be4(s[1], s[2], s[3], s[4]) as int))
            } else {
                None
            }
        } else {
            match fixed_extra(m) {
                None => None,
                Some(k) => if s.len() >= 1 + k {
                    Some(s.skip(1 + k))
                } else {
                    None
                },
            }
        }
    }
}

/// Consumes `n` consecutive complete values.
pub open spec fn spec_skip_values(s: Seq<u8>, n: nat) -> Option<Seq<u8>>
    decreases s.len(), 1int, n,
{
    if n == 0 {
        Some(s)
    } else {
        match spec_skip_value(s) {
            None => None,
            Some(r) => if r.len() < s.len() {
                spec_skip_values(r, (n - 1) as nat)
            } else {
                None
            },
        }
    }
}

/// Skips one complete value at position `i`; yields the position after it.
pub fn skip_value(s: &[u8], i: usize) -> (r: Option<usize>)
    requires
        i <= s@.len(),
    ensures
        match r {
            None => spec_skip_value(s@.skip(i as int)) is None,
            Some(j) => i < j <= s@.len() && spec_skip_value(s@.skip(i as int)) == Some(
                s@.skip(j as int),
            ),
        },
    decreases s@.len() - i, 0int,
{
    let n = s.len();
    let ghost t = s@.skip(i as int);
    if i >= n {
        return None;
    }
    let m = s[i];
    assert(t[0] == m);
    if (0x90 <= m && m <= 0x9f) || m == 0xdc || m == 0xdd {
        match parse_arrhdr(s, i) {
            None => None,
            Some((cnt, j)) => skip_values(s, j, cnt),
        }
    } else if (0x80 <= m && m <= 0x8f) || m == 0xde || m == 0xdf {
        match parse_maphdr(s, i) {
            None => None,
            Some((cnt, j)) => skip_values(s, j, 2 * cnt),
        }
    } else if (0xa0 <= m && m <= 0xbf) || m == 0xd9 || m == 0xda || m == 0xdb {
        match parse_str(s, i) {
            None => None,
            Some((_b, j)) => Some(j),
        }
    } else if m == 0xc4 || m == 0xc5 || m == 0xc6 {
        match parse_bin(s, i) {
            None => None,
            Some((_b, j)) => Some(j),
        }
    } else if m == 0xc7 {
        if n - i >= 2 {
            assert(t[1] == s@[i + 1]);
            let len = s[i + 1] as usize;
            if n - i >= 3 && n - i - 3 >= len {
                proof {
                    lemma_skip_skip(s@, i as int, 3 + len);
                }
                Some(i + 3 + len)
            } else {
                None
            }
        } else {
            None
        }
    } else if m == 0xc8 {
        if n - i >= 3 {
            assert(t[1] == s@[i + 1] && t[2] == s@[i + 2]);
            let len = be2(s[i + 1], s[i + 2]);
            if ((n - i) as u64) >= 4 && ((n - i - 4) as u64) >= len {
                let j = i + 4 + (len as usize);
                proof {
                    lemma_skip_skip(s@, i as int, j - i);
                }
                Some(j)
            } else {
                None
            }
        } else {
            None
        }
    } else if m == 0xc9 {
        if n - i >= 5 {
            assert(t[1] == s@[i + 1] && t[2] == s@[i + 2] && t[3] == s@[i + 3] && t[4] == s@[i
                + 4]);
            let len = be4(s[i + 1], s[i + 2], s[i + 3], s[i + 4]);
            if ((n - i) as u64) >= 6 && ((n - i - 6) as u64) >= len {
                let j = i + 6 + (len as usize);
                proof {
                    lemma_skip_skip(s@, i as int, j - i);
                }
                Some(j)
            } else {
                None
            }
        } else {
            None
        }
    } else {
        let extra: usize = if m < 0x80 || m >= 0xe0 || m == 0xc0 || m == 0xc2 || m == 0xc3 {
            0
        } else if m == 0xcc || m == 0xd0 {
            1
        } else if m == 0xcd || m == 0xd1 {
            2
        } else if m == 0xce || m == 0xd2 || m == 0xca {
            4
        } else if m == 0xcf || m == 0xd3 || m == 0xcb {
            8
        } else if m == 0xd4 {
            2
        } else if m == 0xd5 {
            3
        } else if m == 0xd6 {
            5
        } else if m == 0xd7 {
            9
        } else if m == 0xd8 {
            17
        } else {
            return None;
        };
        if n - i >= 1 && n - i - 1 >= extra {
            proof {
                lemma_skip_skip(s@, i as int, 1 + extra);
            }
            Some(i + 1 + extra)
        } else {
            None
        }
    }
}

/// Skips `n` consecutive complete values starting at position `i`.
pub fn skip_values(s: &[u8], i: usize, n: u64) -> (r: Option<usize>)
    requires
        i <= s@.len(),
    ensures
        match r {
            None => spec_skip_values(s@.skip(i as int), n as nat) is None,
            Some(j) => i <= j <= s@.len() && spec_skip_values(s@.skip(i as int), n as nat) == Some(
                s@.skip(j as int),
            ),
        },
    decreases s@.len() - i, 1int,
{
    let mut cur: usize = i;
    let mut k: u64 = n;
    while k > 0
        invariant
            i <= cur <= s@.len(),
            k <= n,
            spec_skip_values(s@.skip(i as int), n as nat) == spec_skip_values(
                s@.skip(cur as int),
                k as nat,
            ),
        decreases k,
    {
        match skip_value(s, cur) {
            None => {
                return None;
            },
            Some(j) => {
                proof {
                    assert(s@.skip(j as int).len() < s@.skip(cur as int).len());
                }
                cur = j;
                k = k - 1;
            },
        }
    }
    Some(cur)
}

/// Reading the shortest encoding of a string gives back its bytes.
#[verifier::rlimit(30)]
pub proof fn lemma_parse_str_enc(b: Seq<u8>, rest: Seq<u8>)
    requires
        b.len() <= 0xffffffff,
    ensures
        spec_parse_str(enc_str(b) + rest) == Some((b, rest)),
{
    let len = b.len() as u64;
    let h = enc_strhdr(len);
    let s = enc_str(b) + rest;
    assert(s =~= h + (b + rest));
    assert(forall|k: int| 0 <= k < h.len() ==> s[k] == h[k]);
    let hl = h.len() as int;
    if len <= 31 {
        assert(s[0] == (0xa0 + len) as u8);
    } else if len <= 0xff {
    } else if len <= 0xffff {
        lemma_recombine2(len);
    } else {
        lemma_recombine4(len);
    }
    assert(s.subrange(hl, hl + b.len() as int) =~= b);
    assert(s.skip(hl + b.len() as int) =~= rest);
}

/// Reading the shortest encoding of a binary blob gives back its bytes.
#[verifier::rlimit(30)]
pub proof fn lemma_parse_bin_enc(b: Seq<u8>, rest: Seq<u8>)
    requires
        b.len() <= 0xffffffff,
    ensures
        spec_parse_bin(enc_bin(b) + rest) == Some((b, rest)),
{
    let len = b.len() as u64;
    let h = enc_binhdr(len);
    let s = enc_bin(b) + rest;
    assert(s =~= h + (b + rest));
    assert(forall|k: int| 0 <= k < h.len() ==> s[k] == h[k]);
    let hl = h.len() as int;
    if len <= 0xff {
    } else if len <= 0xffff {
        lemma_recombine2(len);
    } else {
        lemma_recombine4(len);
    }
    assert(s.subrange(hl, hl + b.len() as int) =~= b);
    assert(s.skip(hl + b.len() as int) =~= rest);
}

/// Reading the shortest array header gives back the element count.
#[verifier::rlimit(30)]
pub proof fn lemma_parse_arrhdr_enc(n: u64, rest: Seq<u8>)
    requires
        n <= 0xffffffff,
    ensures
        spec_parse_arrhdr(enc_arrhdr(n) + rest) == Some((n, rest)),
{
    let h = enc_arrhdr(n);
    let s = h + rest;
    assert(forall|k: int| 0 <= k < h.len() ==> s[k] == h[k]);
    if n <= 15 {
        assert(s[0] == (0x90 + n) as u8);
    } else if n <= 0xffff {
        lemma_recombine2(n);
    } else {
        lemma_recombine4(n);
    }
    assert(s.skip(h.len() as int) =~= rest);
}

/// Reading the shortest map header gives back the pair count.
#[verifier::rlimit(30)]
pub proof fn lemma_parse_maphdr_enc(n: u64, rest: Seq<u8>)
    requires
        n <= 0xffffffff,
    ensures
        spec_parse_maphdr(enc_maphdr(n) + rest) == Some((n, rest)),
{
    let h = enc_maphdr(n);
    let s = h + rest;
    assert(forall|k: int| 0 <= k < h.len() ==> s[k] == h[k]);
    if n <= 15 {
        assert(s[0] == (0x80 + n) as u8);
    } else if n <= 0xffff {
        lemma_recombine2(n);
    } else {
        lemma_recombine4(n);
    }
    assert(s.skip(h.len() as int) =~= rest);
}

/// Reads a map header in any width; yields the pair count.
pub open spec fn spec_parse_maphdr(s: Seq<u8>) -> Option<(u64, Seq<u8>)> {
    if s.len() < 1 {
        None
    } else {
        let m = s[0];
        if 0x80 <= m && m <= 0x8f {
            Some(((m - 0x80) as u64, s.skip(1)))
        } else if m == 0xde {
            if s.len() >= 3 {
                Some((spec_be2(s[1], s[2]), s.skip(3)))
            } else {
                None
            }
        } else if m == 0xdf {
            if s.len() >= 5 {
                Some((spec_be4(s[1], s[2], s[3], s[4]), s.skip(5)))
            } else {
                None
            }
        } else {
            None
        }
    }
}

} // verus!
