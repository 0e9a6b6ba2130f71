//! The binary form of a filter.
//!
//! All integers are little-endian:
//!
//! `serial: u32 | signature_len: u32 | signature | seed: u64 |
//! segment_length: u32 | segment_count: u32 | fingerprint_count: u32 |
//! fingerprints: u32 each`
//!
//! The signing bytes of a filter are its binary form with an empty signature.

use crate::digest::{sha256, sha256_digest};
use crate::error::Error;
use crate::filter::{Filter, FilterView};
use crate::layout::Layout;
use vstd::prelude::*;
use vstd::slice::slice_subrange;

verus! {

/// The four bytes of `x`, lowest first.
pub open spec fn le32(x: u32) -> Seq<u8> {
    seq![
        (x % 256) as u8,
        (x / 256 % 256) as u8,
        (x / 65536 % 256) as u8,
        (x / 16777216) as u8,
    ]
}

/// The number whose four bytes, lowest first, are the first four of `s`.
pub open spec fn from_le32(s: Seq<u8>) -> u32 {
    (s[0] + 256 * s[1] + 65536 * s[2] + 16777216 * s[3]) as u32
}

/// The eight bytes of `x`, lowest first.
pub open spec fn le64(x: u64) -> Seq<u8> {
    le32((x % 0x1_0000_0000) as u32) + le32((x / 0x1_0000_0000) as u32)
}

/// The number whose eight bytes, lowest first, are the first eight of `s`.
pub open spec fn from_le64(s: Seq<u8>) -> u64 {
    (from_le32(s.subrange(0, 4)) + 0x1_0000_0000 * from_le32(s.subrange(4, 8))) as u64
}

/// The 32-bit number at offset `at` of `b`.
pub open spec fn u32_at(b: Seq<u8>, at: int) -> u32 {
    from_le32(b.subrange(at, at + 4))
}

/// The 64-bit number at offset `at` of `b`.
pub open spec fn u64_at(b: Seq<u8>, at: int) -> u64 {
    from_le64(b.subrange(at, at + 8))
}

/// The bytes of a sequence of 32-bit numbers.
pub open spec fn words(v: Seq<u32>) -> Seq<u8>
    decreases v.len(),
{
    if v.len() == 0 {
        Seq::empty()
    } else {
        words(v.drop_last()) + le32(v.last())
    }
}

/// The `count` 32-bit numbers of `b` from offset `at` on.
pub open spec fn read_words(b: Seq<u8>, at: int, count: nat) -> Seq<u32> {
    Seq::new(count, |i: int| u32_at(b, at + 4 * i))
}

/// The serial number and the signature with its length.
pub open spec fn header(serial: u32, signature: Seq<u8>) -> Seq<u8> {
    le32(serial) + le32(signature.len() as u32) + signature
}

/// The seed, the layout and the fingerprints with their number.
pub open spec fn body(f: FilterView) -> Seq<u8> {
    le64(f.seed) + le32(f.layout.segment_length) + le32(f.layout.segment_count) + le32(
        f.fingerprints.len() as u32,
    ) + words(f.fingerprints)
}

/// The binary form of a filter.
pub open spec fn encode(f: FilterView) -> Seq<u8> {
    header(f.serial, f.signature) + body(f)
}

/// The bytes that are hashed and signed: the binary form of the filter with an
/// empty signature.
pub open spec fn signing_bytes(f: FilterView) -> Seq<u8> {
    header(f.serial, Seq::empty()) + body(f)
}

/// The filter that `b` is the binary form of, if it is one: `None` where `b` is
/// too short for its own lengths, longer than they say, or where the layout
/// and the number of fingerprints disagree.
pub open spec fn decode(b: Seq<u8>) -> Option<FilterView> {
    if b.len() < 8 {
        None
    } else {
        let signature_len = u32_at(b, 4) as int;
        let m = 8 + signature_len;
        if b.len() < m + 20 {
            None
        } else {
            let layout = Layout { segment_length: u32_at(b, m + 8), segment_count: u32_at(b, m + 12) };
            let count = u32_at(b, m + 16);
            if !layout.wf() || count != layout.slots() || b.len() != m + 20 + 4 * count {
                None
            } else {
                Some(
                    FilterView {
                        serial: u32_at(b, 0),
                        signature: b.subrange(8, m),
                        seed: u64_at(b, m),
                        layout,
                        fingerprints: read_words(b, m + 20, count as nat),
                    },
                )
            }
        }
    }
}

/// The four bytes of a number give the number back.
pub proof fn lemma_le32(x: u32)
    ensures
        le32(x).len() == 4,
        from_le32(le32(x)) == x,
{
}

/// The number of four bytes has those four bytes.
pub proof fn lemma_from_le32(s: Seq<u8>)
    requires
        s.len() == 4,
    ensures
        le32(from_le32(s)) == s,
{
    assert(le32(from_le32(s)) =~= s);
}

/// The eight bytes of a number give the number back.
pub proof fn lemma_le64(x: u64)
    ensures
        le64(x).len() == 8,
        from_le64(le64(x)) == x,
{
    let low = (x % 0x1_0000_0000) as u32;
    let high = (x / 0x1_0000_0000) as u32;
    lemma_le32(low);
    lemma_le32(high);
    assert(le64(x).subrange(0, 4) =~= le32(low));
    assert(le64(x).subrange(4, 8) =~= le32(high));
}

/// The number of eight bytes has those eight bytes.
pub proof fn lemma_from_le64(s: Seq<u8>)
    requires
        s.len() == 8,
    ensures
        le64(from_le64(s)) == s,
{
    let a = s.subrange(0, 4);
    let b = s.subrange(4, 8);
    lemma_from_le32(a);
    lemma_from_le32(b);
    let x = from_le64(s);
    assert((x % 0x1_0000_0000) as u32 == from_le32(a));
    assert((x / 0x1_0000_0000) as u32 == from_le32(b));
    assert(a + b =~= s);
}

/// Every number takes four bytes.
pub proof fn lemma_words_len(v: Seq<u32>)
    ensures
        words(v).len() == 4 * v.len(),
    decreases v.len(),
{
    if v.len() > 0 {
        lemma_words_len(v.drop_last());
    }
}

/// Reading back the bytes of a sequence of numbers gives the numbers.
pub proof fn lemma_read_words(prefix: Seq<u8>, v: Seq<u32>, suffix: Seq<u8>)
    ensures
        read_words(prefix + words(v) + suffix, prefix.len() as int, v.len()) == v,
    decreases v.len(),
{
    let b = prefix + words(v) + suffix;
    lemma_words_len(v);
    assert forall|i: int| 0 <= i < v.len() implies u32_at(b, prefix.len() + 4 * i) == v[i] by {
        lemma_word_at(prefix, v, suffix, i);
    }
    assert(read_words(b, prefix.len() as int, v.len()) =~= v);
}

/// Number `i` is read back from its place among the bytes.
pub proof fn lemma_word_at(prefix: Seq<u8>, v: Seq<u32>, suffix: Seq<u8>, i: int)
    requires
        0 <= i < v.len(),
    ensures
        u32_at(prefix + words(v) + suffix, prefix.len() + 4 * i) == v[i],
    decreases v.len(),
{
    let b = prefix + words(v) + suffix;
    let front = v.drop_last();
    lemma_words_len(v);
    lemma_words_len(front);
    lemma_le32(v.last());
    if i == v.len() - 1 {
        assert(b.subrange(prefix.len() + 4 * i, prefix.len() + 4 * i + 4) =~= le32(v.last()));
    } else {
        lemma_word_at(prefix, front, le32(v.last()) + suffix, i);
        assert(prefix + words(front) + (le32(v.last()) + suffix) =~= b);
    }
}

/// The bytes of the numbers read from `b` are the bytes of `b` they were read
/// from.
pub proof fn lemma_words_of_read(b: Seq<u8>, at: int, count: nat)
    requires
        0 <= at,
        at + 4 * count <= b.len(),
    ensures
        words(read_words(b, at, count)) == b.subrange(at, at + 4 * count),
    decreases count,
{
    let v = read_words(b, at, count);
    if count == 0 {
        assert(words(v) =~= b.subrange(at, at));
    } else {
        lemma_words_of_read(b, at, (count - 1) as nat);
        assert(v.drop_last() =~= read_words(b, at, (count - 1) as nat));
        lemma_from_le32(b.subrange(at + 4 * (count - 1), at + 4 * (count - 1) + 4));
        assert(words(v) =~= b.subrange(at, at + 4 * count));
    }
}

/// Round trip: the binary form of a well-formed filter decodes to that filter.
pub proof fn lemma_decode_encode(f: FilterView)
    requires
        f.wf(),
    ensures
        decode(encode(f)) == Some(f),
{
    let b = encode(f);
    let n = f.signature.len() as int;
    let m = 8 + n;
    lemma_le32(f.serial);
    lemma_le32(n as u32);
    lemma_le64(f.seed);
    lemma_le32(f.layout.segment_length);
    lemma_le32(f.layout.segment_count);
    lemma_le32(f.fingerprints.len() as u32);
    lemma_words_len(f.fingerprints);
    assert(b.subrange(0, 4) =~= le32(f.serial));
    assert(b.subrange(4, 8) =~= le32(n as u32));
    assert(b.subrange(8, m) =~= f.signature);
    assert(b.subrange(m, m + 8) =~= le64(f.seed));
    assert(b.subrange(m + 8, m + 12) =~= le32(f.layout.segment_length));
    assert(b.subrange(m + 12, m + 16) =~= le32(f.layout.segment_count));
    assert(b.subrange(m + 16, m + 20) =~= le32(f.fingerprints.len() as u32));
    let prefix = b.subrange(0, m + 20);
    assert(prefix + words(f.fingerprints) + Seq::<u8>::empty() =~= b);
    lemma_read_words(prefix, f.fingerprints, Seq::<u8>::empty());
}

/// What decodes to a filter is the binary form of that filter, which is well
/// formed.
pub proof fn lemma_encode_decode(b: Seq<u8>)
    requires
        decode(b).is_some(),
    ensures
        decode(b).unwrap().wf(),
        encode(decode(b).unwrap()) == b,
{
    let f = decode(b).unwrap();
    let n = u32_at(b, 4) as int;
    let m = 8 + n;
    let count = u32_at(b, m + 16);
    lemma_from_le32(b.subrange(0, 4));
    lemma_from_le32(b.subrange(4, 8));
    lemma_from_le64(b.subrange(m, m + 8));
    lemma_from_le32(b.subrange(m + 8, m + 12));
    lemma_from_le32(b.subrange(m + 12, m + 16));
    lemma_from_le32(b.subrange(m + 16, m + 20));
    lemma_words_of_read(b, m + 20, count as nat);
    assert(f.signature.len() == n);
    assert(f.fingerprints.len() == count);
    assert(encode(f) =~= b);
}

/// Filters with the same signing bytes differ in nothing but the signature.
pub proof fn lemma_signing_bytes_injective(f: FilterView, g: FilterView)
    requires
        f.wf(),
        g.wf(),
        signing_bytes(f) == signing_bytes(g),
    ensures
        f.serial == g.serial,
        f.seed == g.seed,
        f.layout == g.layout,
        f.fingerprints == g.fingerprints,
{
    let bare_f = FilterView { signature: Seq::empty(), ..f };
    let bare_g = FilterView { signature: Seq::empty(), ..g };
    assert(encode(bare_f) == signing_bytes(f));
    assert(encode(bare_g) == signing_bytes(g));
    lemma_decode_encode(bare_f);
    lemma_decode_encode(bare_g);
}

/// The four bytes of `x`, lowest first.
pub fn u32_bytes(x: u32) -> (r: Vec<u8>)
    ensures
        r@ == le32(x),
{
    let mut out: Vec<u8> = Vec::with_capacity(4);
    out.push((x % 256) as u8);
    out.push((x / 256 % 256) as u8);
    out.push((x / 65536 % 256) as u8);
    out.push((x / 16777216) as u8);
    proof {
        assert(out@ =~= le32(x));
    }
    out
}

/// The 32-bit number at offset `at` of `b`.
pub fn read_u32(b: &[u8], at: usize) -> (r: u32)
    requires
        at + 4 <= b.len(),
    ensures
        r == u32_at(b@, at as int),
{
    let r: u32 = (b[at] as u32) + 256 * (b[at + 1] as u32) + 65536 * (b[at + 2] as u32) + 16777216
        * (b[at + 3] as u32);
    r
}

/// The 64-bit number at offset `at` of `b`.
pub fn read_u64(b: &[u8], at: usize) -> (r: u64)
    requires
        at + 8 <= b.len(),
    ensures
        r == u64_at(b@, at as int),
{
    let low: u32 = read_u32(b, at);
    let high: u32 = read_u32(b, at + 4);
    proof {
        let s = b@.subrange(at as int, at + 8);
        assert(s.subrange(0, 4) =~= b@.subrange(at as int, at + 4));
        assert(s.subrange(4, 8) =~= b@.subrange(at + 4, at + 8));
    }
    low as u64 + 0x1_0000_0000 * (high as u64)
}

/// Appends `bytes` to `out`.
pub fn append(out: &mut Vec<u8>, bytes: &[u8])
    ensures
        final(out)@ == old(out)@ + bytes@,
{
    let ghost start = out@;
    let mut i: usize = 0;
    while i < bytes.len()
        invariant
            i <= bytes.len(),
            out@ == start + bytes@.take(i as int),
        decreases bytes.len() - i,
    {
        out.push(bytes[i]);
        i += 1;
        proof {
            assert(out@ =~= start + bytes@.take(i as int));
        }
    }
    proof {
        assert(bytes@.take(i as int) =~= bytes@);
    }
}

/// Appends the four bytes of `x` to `out`.
pub fn append_u32(out: &mut Vec<u8>, x: u32)
    ensures
        final(out)@ == old(out)@ + le32(x),
{
    let bytes: Vec<u8> = u32_bytes(x);
    append(out, bytes.as_slice());
}

impl Filter {
    /// Appends the seed, the layout and the fingerprints.
    fn write_body(&self, out: &mut Vec<u8>)
        requires
            self.wf(),
        ensures
            final(out)@ == old(out)@ + body(self@),
    {
        let ghost start = out@;
        append_u32(out, (self.seed % 0x1_0000_0000) as u32);
        append_u32(out, (self.seed / 0x1_0000_0000) as u32);
        append_u32(out, self.layout.segment_length);
        append_u32(out, self.layout.segment_count);
        append_u32(out, self.fingerprints.len() as u32);
        let ghost fixed = out@;
        proof {
            assert(fixed =~= start + (le64(self.seed) + le32(self.layout.segment_length) + le32(
                self.layout.segment_count,
            ) + le32(self.fingerprints.len() as u32)));
        }
        let mut i: usize = 0;
        while i < self.fingerprints.len()
            invariant
                i <= self.fingerprints.len(),
                out@ == fixed + words(self.fingerprints@.take(i as int)),
            decreases self.fingerprints.len() - i,
        {
            proof {
                assert(self.fingerprints@.take(i + 1).drop_last() =~= self.fingerprints@.take(
                    i as int,
                ));
            }
            let ghost before = out@;
            append_u32(out, self.fingerprints[i]);
            i += 1;
            proof {
                assert(out@ =~= fixed + words(self.fingerprints@.take(i as int)));
            }
        }
        proof {
            assert(self.fingerprints@.take(i as int) =~= self.fingerprints@);
            assert(out@ =~= start + body(self@));
        }
    }

    /// The binary form of the filter.
    pub fn to_bytes(&self) -> (r: Vec<u8>)
        requires
            self.wf(),
        ensures
            r@ == encode(self@),
    {
        let mut out: Vec<u8> = Vec::new();
        append_u32(&mut out, self.serial);
        append_u32(&mut out, self.signature.len() as u32);
        append(&mut out, self.signature.as_slice());
        proof {
            assert(out@ =~= header(self.serial, self.signature@));
        }
        self.write_body(&mut out);
        out
    }

    /// The bytes that are hashed and signed.
    pub fn signing_bytes(&self) -> (r: Vec<u8>)
        requires
            self.wf(),
        ensures
            r@ == signing_bytes(self@),
    {
        let mut out: Vec<u8> = Vec::new();
        append_u32(&mut out, self.serial);
        append_u32(&mut out, 0);
        proof {
            assert(out@ =~= header(self.serial, Seq::empty()));
        }
        self.write_body(&mut out);
        out
    }

    /// The content hash: the SHA-256 digest of the signing bytes.
    pub fn hash(&self) -> (r: Vec<u8>)
        requires
            self.wf(),
        ensures
            r@ == sha256(signing_bytes(self@)),
            r@.len() == crate::digest::DIGEST_LENGTH,
    {
        let bytes: Vec<u8> = self.signing_bytes();
        sha256_digest(bytes.as_slice())
    }

    /// Reads a filter from its binary form.
    ///
    /// Fails with `MalformedInput` where the bytes are too few for the lengths
    /// they state, where bytes are left over, and where the layout and the
    /// number of fingerprints disagree.
    pub fn from_bytes(bytes: &[u8]) -> (r: Result<Filter, Error>)
        ensures
            match r {
                Ok(f) => decode(bytes@) == Some(f@) && f.wf() && encode(f@) == bytes@,
                Err(e) => e == Error::MalformedInput && decode(bytes@).is_none(),
            },
    {
        if bytes.len() < 8 {
            return Err(Error::MalformedInput);
        }
        let serial: u32 = read_u32(bytes, 0);
        let signature_len: u32 = read_u32(bytes, 4);
        let total: u128 = bytes.len() as u128;
        if total < 28 + signature_len as u128 {
            return Err(Error::MalformedInput);
        }
        let m: usize = 8 + signature_len as usize;
        let seed: u64 = read_u64(bytes, m);
        let layout = Layout {
            segment_length: read_u32(bytes, m + 8),
            segment_count: read_u32(bytes, m + 12),
        };
        let count: u32 = read_u32(bytes, m + 16);
        if !layout.is_wf() {
            return Err(Error::MalformedInput);
        }
        if count != layout.slot_count() {
            return Err(Error::MalformedInput);
        }
        if total != 28 + signature_len as u128 + 4 * (count as u128) {
            return Err(Error::MalformedInput);
        }
        let signature: Vec<u8> = crate::identity::copy_bytes(slice_subrange(bytes, 8, m));
        let mut fingerprints: Vec<u32> = Vec::with_capacity(count as usize);
        let mut i: usize = 0;
        while i < count as usize
            invariant
                i <= count,
                bytes.len() == m + 20 + 4 * count,
                fingerprints@ == read_words(bytes@, m + 20, i as nat),
            decreases count - i,
        {
            let x: u32 = read_u32(bytes, m + 20 + 4 * i);
            fingerprints.push(x);
            i += 1;
            proof {
                assert(fingerprints@ =~= read_words(bytes@, m + 20, i as nat));
            }
        }
        let f = Filter { serial, signature, seed, layout, fingerprints };
        proof {
            assert(decode(bytes@) == Some(f@));
            lemma_encode_decode(bytes@);
        }
        Ok(f)
    }

    /// Reads an unsigned filter from its signing bytes.
    ///
    /// Fails with `MalformedInput` where [`Filter::from_bytes`] does, and where
    /// the bytes hold a signature.
    pub fn from_signing_bytes(bytes: &[u8]) -> (r: Result<Filter, Error>)
        ensures
            match r {
                Ok(f) => decode(bytes@) == Some(f@) && f.wf() && f.signature@.len() == 0
                    && signing_bytes(f@) == bytes@,
                Err(e) => e == Error::MalformedInput && (decode(bytes@).is_none() || decode(
                    bytes@,
                ).unwrap().signature.len() > 0),
            },
    {
        match Filter::from_bytes(bytes) {
            Ok(f) => {
                if f.signature.len() == 0 {
                    proof {
                        assert(f.signature@ =~= Seq::empty());
                    }
                    Ok(f)
                } else {
                    Err(Error::MalformedInput)
                }
            },
            Err(e) => Err(Error::MalformedInput),
        }
    }

    /// Stamps the signature of the signing step into the filter.
    ///
    /// The serial number is that of the manifest that the signature comes
    /// with: where it is not the filter's own, the filter is left as it was and
    /// the call fails with `SchemaMismatch`. A signature too long for its
    /// length prefix fails with `MalformedInput`. In no case do the signing
    /// bytes change.
    pub fn stamp_signature(&mut self, signature: Vec<u8>, serial: u32) -> (r: Result<(), Error>)
        requires
            old(self).wf(),
        ensures
            final(self).wf(),
            signing_bytes(final(self)@) == signing_bytes(old(self)@),
            match r {
                Ok(_) => {
                    &&& serial == old(self).serial
                    &&& signature@.len() <= u32::MAX
                    &&& final(self)@ == (FilterView { signature: signature@, ..old(self)@ })
                },
                Err(e) => final(self)@ == old(self)@ && if serial != old(self).serial {
                    e == Error::SchemaMismatch
                } else {
                    e == Error::MalformedInput && signature@.len() > u32::MAX
                },
            },
    {
        if serial != self.serial {
            return Err(Error::SchemaMismatch);
        }
        if signature.len() > u32::MAX as usize {
            return Err(Error::MalformedInput);
        }
        self.signature = signature;
        Ok(())
    }
}

} // verus!
