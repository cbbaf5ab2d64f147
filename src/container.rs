//! The versioned bytecode container: a little-endian 32-bit format version
//! followed by the encoded chunk. This module writes and checks the version
//! stamp; the chunk body is carried as bytes.

use vstd::prelude::*;
use crate::bytecode::BYTECODE_VERSION;

verus! {

/// Why a container was refused.
#[derive(Debug, Clone, Copy, PartialEq, Eq, Structural)]
pub enum ContainerError {
    /// Fewer bytes than the version field needs.
    Truncated { len: usize },
    /// A version other than the supported one.
    UnsupportedVersion { found: u32, expected: u32 },
}

/// The number that four bytes encode, least significant first.
pub open spec fn u32_le(b: Seq<u8>) -> nat
    recommends
        b.len() >= 4,
{
    b[0] as nat + 256 * (b[1] as nat) + 65536 * (b[2] as nat) + 16777216 * (b[3] as nat)
}

/// The four bytes that encode `v`, least significant first.
pub open spec fn le_bytes(v: u32) -> Seq<u8> {
    seq![
        (v % 256) as u8,
        ((v / 256) % 256) as u8,
        ((v / 65536) % 256) as u8,
        ((v / 16777216) % 256) as u8,
    ]
}

/// A container holding `body` under the supported version.
pub open spec fn sealed(body: Seq<u8>) -> Seq<u8> {
    le_bytes(BYTECODE_VERSION) + body
}

/// What opening `bytes` gives: the body after the version field, or why
/// the container is refused.
pub open spec fn opened(bytes: Seq<u8>) -> Result<Seq<u8>, ContainerError> {
    if bytes.len() < 4 {
        Err(ContainerError::Truncated { len: bytes.len() as usize })
    } else if u32_le(bytes) != BYTECODE_VERSION as nat {
        Err(
            ContainerError::UnsupportedVersion {
                found: u32_le(bytes) as u32,
                expected: BYTECODE_VERSION,
            },
        )
    } else {
        Ok(bytes.subrange(4, bytes.len() as int))
    }
}

pub proof fn lemma_le_bytes(v: u32)
    ensures
        le_bytes(v).len() == 4,
        u32_le(le_bytes(v)) == v as nat,
{
    let b0 = v % 256;
    let b1 = (v / 256) % 256;
    let b2 = (v / 65536) % 256;
    let b3 = (v / 16777216) % 256;
    assert(v as nat == b0 + 256 * b1 + 65536 * b2 + 16777216 * b3) by (nonlinear_arith)
        requires
            b0 == v % 256,
            b1 == (v / 256) % 256,
            b2 == (v / 65536) % 256,
            b3 == (v / 16777216) % 256,
            v < 0x1_0000_0000,
    ;
}

/// Writes `v` as four bytes, least significant first.
fn push_u32_le(out: &mut Vec<u8>, v: u32)
    ensures
        final(out)@ == old(out)@ + le_bytes(v),
{
    out.push((v % 256) as u8);
    out.push(((v / 256) % 256) as u8);
    out.push(((v / 65536) % 256) as u8);
    out.push(((v / 16777216) % 256) as u8);
    assert(final(out)@ =~= old(out)@ + le_bytes(v));
}

/// Stamps an encoded chunk with the supported version.
pub fn seal_container(body: &[u8]) -> (r: Vec<u8>)
    ensures
        r@ == sealed(body@),
{
    let mut out: Vec<u8> = Vec::new();
    push_u32_le(&mut out, BYTECODE_VERSION);
    let mut i: usize = 0;
    while i < body.len()
        invariant
            i <= body@.len(),
            out@ == le_bytes(BYTECODE_VERSION) + body@.subrange(0, i as int),
        decreases body@.len() - i,
    {
        out.push(body[i]);
        assert(body@.subrange(0, i + 1) =~= body@.subrange(0, i as int).push(body@[i as int]));
        i = i + 1;
    }
    assert(body@.subrange(0, i as int) =~= body@);
    out
}

/// Checks the version stamp of a container and returns the encoded chunk
/// that follows it.
pub fn open_container(bytes: &[u8]) -> (r: Result<Vec<u8>, ContainerError>)
    ensures
        match r {
            Ok(body) => opened(bytes@) == Ok::<Seq<u8>, ContainerError>(body@),
            Err(e) => opened(bytes@) == Err::<Seq<u8>, ContainerError>(e),
        },
{
    let n = bytes.len();
    if n < 4 {
        return Err(ContainerError::Truncated { len: n });
    }
    let version: u32 = bytes[0] as u32 + 256 * (bytes[1] as u32) + 65536 * (bytes[2] as u32)
        + 16777216 * (bytes[3] as u32);
    if version != BYTECODE_VERSION {
        return Err(ContainerError::UnsupportedVersion { found: version, expected: BYTECODE_VERSION });
    }
    let mut body: Vec<u8> = Vec::new();
    let mut i: usize = 4;
    while i < n
        invariant
            n == bytes@.len(),
            4 <= i <= n,
            body@ == bytes@.subrange(4, i as int),
        decreases n - i,
    {
        body.push(bytes[i]);
        assert(bytes@.subrange(4, i + 1) =~= bytes@.subrange(4, i as int).push(bytes@[i as int]));
        i = i + 1;
    }
    Ok(body)
}

/// Opening a sealed container gives back the encoded chunk that was sealed.
pub proof fn lemma_open_sealed(body: Seq<u8>)
    ensures
        opened(sealed(body)) == Ok::<Seq<u8>, ContainerError>(body),
{
    lemma_le_bytes(BYTECODE_VERSION);
    let b = sealed(body);
    assert(b.subrange(0, 4) =~= le_bytes(BYTECODE_VERSION));
    assert(b.subrange(4, b.len() as int) =~= body);
}

} // verus!
