//! The fixed 124-byte wire header, in network byte order: version (2),
//! flags (2), from (4), to (4), nonce (8), payload length (8), digest (32),
//! signature (64).
use vstd::prelude::*;

use crate::message::Digest;
use crate::ordering::NodeId;

verus! {

pub const HEADER_LENGTH: usize = 124;

pub const SIGNATURE_LENGTH: usize = 64;

pub struct Header {
    pub version: u16,
    pub flags: u16,
    pub from: NodeId,
    pub to: NodeId,
    pub nonce: u64,
    pub length: u64,
    pub digest: Digest,
    pub signature: Vec<u8>,
}

pub struct HeaderModel {
    pub version: u16,
    pub flags: u16,
    pub from: u32,
    pub to: u32,
    pub nonce: u64,
    pub length: u64,
    pub digest: Digest,
    pub signature: Seq<u8>,
}

impl View for Header {
    type V = HeaderModel;

    open spec fn view(&self) -> HeaderModel {
        HeaderModel {
            version: self.version,
            flags: self.flags,
            from: self.from.id,
            to: self.to.id,
            nonce: self.nonce,
            length: self.length,
            digest: self.digest,
            signature: self.signature@,
        }
    }
}

/// Why a header could not be read.
#[derive(Clone, Copy, Debug, PartialEq, Eq, Structural)]
pub enum HeaderError {
    TooShort,
}

pub open spec fn u16_be(v: u16) -> Seq<u8> {
    seq![(v >> 8u16) as u8, v as u8]
}

pub open spec fn u32_be(v: u32) -> Seq<u8> {
    seq![(v >> 24u32) as u8, (v >> 16u32) as u8, (v >> 8u32) as u8, v as u8]
}

pub open spec fn u64_be(v: u64) -> Seq<u8> {
    seq![
        (v >> 56u64) as u8,
        (v >> 48u64) as u8,
        (v >> 40u64) as u8,
        (v >> 32u64) as u8,
        (v >> 24u64) as u8,
        (v >> 16u64) as u8,
        (v >> 8u64) as u8,
        v as u8,
    ]
}

pub open spec fn be_u16(s: Seq<u8>) -> u16 {
    ((s[0] as u16) << 8u16) | (s[1] as u16)
}

pub open spec fn be_u32(s: Seq<u8>) -> u32 {
    ((s[0] as u32) << 24u32) | ((s[1] as u32) << 16u32) | ((s[2] as u32) << 8u32) | (s[3] as u32)
}

pub open spec fn be_u64(s: Seq<u8>) -> u64 {
    ((s[0] as u64) << 56u64) | ((s[1] as u64) << 48u64) | ((s[2] as u64) << 40u64) | ((s[3] as u64)
        << 32u64) | ((s[4] as u64) << 24u64) | ((s[5] as u64) << 16u64) | ((s[6] as u64) << 8u64)
        | (s[7] as u64)
}

pub open spec fn digest_bytes(d: Digest) -> Seq<u8> {
    u64_be(d.w0) + u64_be(d.w1) + u64_be(d.w2) + u64_be(d.w3)
}

/// The bytes of a header on the wire.
pub open spec fn encode_spec(h: HeaderModel) -> Seq<u8> {
    u16_be(h.version) + u16_be(h.flags) + u32_be(h.from) + u32_be(h.to) + u64_be(h.nonce) + u64_be(
        h.length,
    ) + digest_bytes(h.digest) + h.signature
}

/// The header that the first 124 bytes of `b` hold.
pub open spec fn decode_spec(b: Seq<u8>) -> HeaderModel {
    HeaderModel {
        version: be_u16(b.subrange(0, 2)),
        flags: be_u16(b.subrange(2, 4)),
        from: be_u32(b.subrange(4, 8)),
        to: be_u32(b.subrange(8, 12)),
        nonce: be_u64(b.subrange(12, 20)),
        length: be_u64(b.subrange(20, 28)),
        digest: Digest {
            w0: be_u64(b.subrange(28, 36)),
            w1: be_u64(b.subrange(36, 44)),
            w2: be_u64(b.subrange(44, 52)),
            w3: be_u64(b.subrange(52, 60)),
        },
        signature: b.subrange(60, 124),
    }
}

pub(crate) proof fn lemma_u16(v: u16)
    ensures
        be_u16(u16_be(v)) == v,
{
    assert((((v >> 8u16) as u8 as u16) << 8u16) | (v as u8 as u16) == v) by (bit_vector);
}

pub(crate) proof fn lemma_u32(v: u32)
    ensures
        be_u32(u32_be(v)) == v,
{
    assert((((v >> 24u32) as u8 as u32) << 24u32) | (((v >> 16u32) as u8 as u32) << 16u32) | (((v
        >> 8u32) as u8 as u32) << 8u32) | (v as u8 as u32) == v) by (bit_vector);
}

pub(crate) proof fn lemma_u64(v: u64)
    ensures
        be_u64(u64_be(v)) == v,
{
    assert((((v >> 56u64) as u8 as u64) << 56u64) | (((v >> 48u64) as u8 as u64) << 48u64) | (((v
        >> 40u64) as u8 as u64) << 40u64) | (((v >> 32u64) as u8 as u64) << 32u64) | (((v
        >> 24u64) as u8 as u64) << 24u64) | (((v >> 16u64) as u8 as u64) << 16u64) | (((v
        >> 8u64) as u8 as u64) << 8u64) | (v as u8 as u64) == v) by (bit_vector);
}

/// Reading back the bytes of a header gives the same header.
pub proof fn lemma_header_round_trip(h: HeaderModel)
    requires
        h.signature.len() == SIGNATURE_LENGTH,
    ensures
        encode_spec(h).len() == HEADER_LENGTH,
        decode_spec(encode_spec(h)) == h,
{
    let b = encode_spec(h);
    lemma_u16(h.version);
    lemma_u16(h.flags);
    lemma_u32(h.from);
    lemma_u32(h.to);
    lemma_u64(h.nonce);
    lemma_u64(h.length);
    lemma_u64(h.digest.w0);
    lemma_u64(h.digest.w1);
    lemma_u64(h.digest.w2);
    lemma_u64(h.digest.w3);
    assert(b.subrange(0, 2) =~= u16_be(h.version));
    assert(b.subrange(2, 4) =~= u16_be(h.flags));
    assert(b.subrange(4, 8) =~= u32_be(h.from));
    assert(b.subrange(8, 12) =~= u32_be(h.to));
    assert(b.subrange(12, 20) =~= u64_be(h.nonce));
    assert(b.subrange(20, 28) =~= u64_be(h.length));
    assert(b.subrange(28, 36) =~= u64_be(h.digest.w0));
    assert(b.subrange(36, 44) =~= u64_be(h.digest.w1));
    assert(b.subrange(44, 52) =~= u64_be(h.digest.w2));
    assert(b.subrange(52, 60) =~= u64_be(h.digest.w3));
    assert(b.subrange(60, 124) =~= h.signature);
}

pub(crate) fn push_u16(out: &mut Vec<u8>, v: u16)
    ensures
        final(out)@ == old(out)@ + u16_be(v),
{
    out.push((v >> 8u16) as u8);
    out.push(v as u8);
    assert(final(out)@ =~= old(out)@ + u16_be(v));
}

pub(crate) fn push_u32(out: &mut Vec<u8>, v: u32)
    ensures
        final(out)@ == old(out)@ + u32_be(v),
{
    out.push((v >> 24u32) as u8);
    out.push((v >> 16u32) as u8);
    out.push((v >> 8u32) as u8);
    out.push(v as u8);
    assert(final(out)@ =~= old(out)@ + u32_be(v));
}

pub(crate) fn push_u64(out: &mut Vec<u8>, v: u64)
    ensures
        final(out)@ == old(out)@ + u64_be(v),
{
    out.push((v >> 56u64) as u8);
    out.push((v >> 48u64) as u8);
    out.push((v >> 40u64) as u8);
    out.push((v >> 32u64) as u8);
    out.push((v >> 24u64) as u8);
    out.push((v >> 16u64) as u8);
    out.push((v >> 8u64) as u8);
    out.push(v as u8);
    assert(final(out)@ =~= old(out)@ + u64_be(v));
}

pub(crate) fn get_u16(b: &Vec<u8>, at: usize) -> (r: u16)
    requires
        at + 2 <= b@.len(),
    ensures
        r == be_u16(b@.subrange(at as int, at + 2)),
{
    let _n = b.len();
    ((b[at] as u16) << 8u16) | (b[at + 1] as u16)
}

pub(crate) fn get_u32(b: &Vec<u8>, at: usize) -> (r: u32)
    requires
        at + 4 <= b@.len(),
    ensures
        r == be_u32(b@.subrange(at as int, at + 4)),
{
    let _n = b.len();
    ((b[at] as u32) << 24u32) | ((b[at + 1] as u32) << 16u32) | ((b[at + 2] as u32) << 8u32) | (b[at
        + 3] as u32)
}

pub(crate) fn get_u64(b: &Vec<u8>, at: usize) -> (r: u64)
    requires
        at + 8 <= b@.len(),
    ensures
        r == be_u64(b@.subrange(at as int, at + 8)),
{
    let _n = b.len();
    ((b[at] as u64) << 56u64) | ((b[at + 1] as u64) << 48u64) | ((b[at + 2] as u64) << 40u64) | ((b[at
        + 3] as u64) << 32u64) | ((b[at + 4] as u64) << 24u64) | ((b[at + 5] as u64) << 16u64) | ((b[at
        + 6] as u64) << 8u64) | (b[at + 7] as u64)
}

impl Header {
    /// The 124 bytes of this header.
    pub fn serialize(&self) -> (r: Vec<u8>)
        requires
            self.signature@.len() == SIGNATURE_LENGTH,
        ensures
            r@ == encode_spec(self@),
            r@.len() == HEADER_LENGTH,
    {
        let mut out: Vec<u8> = Vec::new();
        push_u16(&mut out, self.version);
        push_u16(&mut out, self.flags);
        push_u32(&mut out, self.from.id);
        push_u32(&mut out, self.to.id);
        push_u64(&mut out, self.nonce);
        push_u64(&mut out, self.length);
        push_u64(&mut out, self.digest.w0);
        push_u64(&mut out, self.digest.w1);
        push_u64(&mut out, self.digest.w2);
        push_u64(&mut out, self.digest.w3);
        let mut i: usize = 0;
        let ghost pre = out@;
        while i < self.signature.len()
            invariant
                i <= self.signature@.len(),
                out@ == pre + self.signature@.subrange(0, i as int),
            decreases self.signature.len() - i,
        {
            out.push(self.signature[i]);
            proof {
                assert(self.signature@.subrange(0, i + 1) =~= self.signature@.subrange(0, i as int).push(self.signature@[i as int]));
            }
            i += 1;
        }
        proof {
            assert(self.signature@.subrange(0, i as int) =~= self.signature@);
            assert(out@ =~= encode_spec(self@));
        }
        out
    }

    /// Reads a header from the first 124 bytes of `b`.
    pub fn deserialize(b: &Vec<u8>) -> (r: Result<Header, HeaderError>)
        ensures
            r is Err <==> b@.len() < HEADER_LENGTH,
            r matches Ok(h) ==> h@ == decode_spec(b@),
    {
        if b.len() < HEADER_LENGTH {
            return Err(HeaderError::TooShort);
        }
        let mut signature: Vec<u8> = Vec::new();
        let mut i: usize = 60;
        while i < HEADER_LENGTH
            invariant
                60 <= i <= HEADER_LENGTH,
                b@.len() >= HEADER_LENGTH,
                signature@ == b@.subrange(60, i as int),
            decreases HEADER_LENGTH - i,
        {
            signature.push(b[i]);
            proof {
                assert(b@.subrange(60, i + 1) =~= b@.subrange(60, i as int).push(b@[i as int]));
            }
            i += 1;
        }
        Ok(Header {
            version: get_u16(b, 0),
            flags: get_u16(b, 2),
            from: NodeId { id: get_u32(b, 4) },
            to: NodeId { id: get_u32(b, 8) },
            nonce: get_u64(b, 12),
            length: get_u64(b, 20),
            digest: Digest {
                w0: get_u64(b, 28),
                w1: get_u64(b, 36),
                w2: get_u64(b, 44),
                w3: get_u64(b, 52),
            },
            signature,
        })
    }
}

} // verus!
