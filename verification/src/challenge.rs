//! The verifier's challenge: a byte string of fixed width that binds the
//! branches of a proof together, combined by bitwise XOR.

use vstd::prelude::*;
use crate::bytes::{append_bytes, copy_range, same_bytes};
use crate::serialization::SerializationError;

verus! {

/// Number of bytes of a challenge.
pub const SOUNDNESS_BYTES: usize = 24;

/// The bytewise XOR of two byte strings, over the length of the first.
pub open spec fn spec_xor(a: Seq<u8>, b: Seq<u8>) -> Seq<u8> {
    Seq::new(a.len(), |i: int| a[i] ^ b[i])
}

/// A challenge of the Sigma protocol.
#[derive(Clone, Debug, PartialEq, Eq)]
pub struct Challenge {
    bytes: Vec<u8>,
}

impl View for Challenge {
    type V = Seq<u8>;

    closed spec fn view(&self) -> Seq<u8> {
        self.bytes@
    }
}

impl Challenge {
    /// The challenge has its fixed width.
    pub open spec fn wf(&self) -> bool {
        self@.len() == 24
    }

    /// The challenge that the bytes hold; `None` unless there are exactly
    /// `SOUNDNESS_BYTES` of them.
    pub fn from_bytes(bytes: &Vec<u8>) -> (r: Option<Challenge>)
        ensures
            r is Some <==> bytes@.len() == 24,
            r matches Some(c) ==> c@ == bytes@ && c.wf(),
    {
        if bytes.len() != SOUNDNESS_BYTES {
            return None;
        }
        let out = copy_range(bytes, 0, SOUNDNESS_BYTES);
        assert(out@ =~= bytes@);
        Some(Challenge { bytes: out })
    }

    /// The challenge's bytes.
    pub fn to_bytes(&self) -> (r: Vec<u8>)
        ensures
            r@ == self@,
    {
        let out = copy_range(&self.bytes, 0, self.bytes.len());
        assert(out@ =~= self@);
        out
    }

    /// A copy of the challenge.
    pub fn copy(&self) -> (r: Challenge)
        ensures
            r@ == self@,
    {
        Challenge { bytes: self.to_bytes() }
    }

    /// Whether the two challenges are the same bytes.
    pub fn same(&self, other: &Challenge) -> (r: bool)
        ensures
            r == (self@ == other@),
    {
        same_bytes(&self.bytes, &other.bytes)
    }

    /// The bitwise XOR of the two challenges.
    pub fn xor(self, other: Challenge) -> (r: Challenge)
        requires
            self.wf(),
            other.wf(),
        ensures
            r.wf(),
            r@ == spec_xor(self@, other@),
    {
        let mut out: Vec<u8> = Vec::new();
        let mut i: usize = 0;
        while i < SOUNDNESS_BYTES
            invariant
                i <= 24,
                self.bytes@.len() == 24,
                other.bytes@.len() == 24,
                out@ == Seq::new(i as nat, |j: int| self.bytes@[j] ^ other.bytes@[j]),
            decreases 24 - i,
        {
            out.push(self.bytes[i] ^ other.bytes[i]);
            i += 1;
            assert(out@ =~= Seq::new(i as nat, |j: int| self.bytes@[j] ^ other.bytes@[j]));
        }
        Challenge { bytes: out }
    }

    /// Appends the challenge's bytes to `w`, with no length before them.
    pub fn sigma_serialize(&self, w: &mut Vec<u8>)
        ensures
            final(w)@ == old(w)@ + self@,
    {
        append_bytes(w, &self.bytes);
    }

    /// Reads a challenge from `bytes` at `pos` and gives it with the position
    /// behind it.
    pub fn sigma_parse(bytes: &Vec<u8>, pos: usize) -> (r: Result<
        (Challenge, usize),
        SerializationError,
    >)
        requires
            pos <= bytes.len(),
        ensures
            bytes.len() - pos < 24 ==> r == Err::<(Challenge, usize), _>(
                SerializationError::UnexpectedEof,
            ),
            bytes.len() - pos >= 24 ==> (r matches Ok((c, next)) && c.wf() && next == pos + 24
                && c@ == bytes@.subrange(pos as int, pos + 24)),
    {
        if bytes.len() - pos < SOUNDNESS_BYTES {
            return Err(SerializationError::UnexpectedEof);
        }
        Ok((Challenge { bytes: copy_range(bytes, pos, SOUNDNESS_BYTES) }, pos + SOUNDNESS_BYTES))
    }
}

/// XOR with the same value twice gives the first value back.
pub proof fn lemma_xor_cancels(a: Seq<u8>, b: Seq<u8>)
    requires
        a.len() == b.len(),
    ensures
        spec_xor(spec_xor(a, b), b) == a,
        spec_xor(a, spec_xor(a, b)) == b,
        spec_xor(a, b) == spec_xor(b, a),
{
    assert forall|i: int| 0 <= i < a.len() implies (a[i] ^ b[i]) ^ b[i] == a[i] && a[i] ^ (a[i]
        ^ b[i]) == b[i] && a[i] ^ b[i] == b[i] ^ a[i] by {
        let x = a[i];
        let y = b[i];
        assert((x ^ y) ^ y == x && x ^ (x ^ y) == y && x ^ y == y ^ x) by (bit_vector);
    }
    assert(spec_xor(spec_xor(a, b), b) =~= a);
    assert(spec_xor(a, spec_xor(a, b)) =~= b);
    assert(spec_xor(a, b) =~= spec_xor(b, a));
}

} // verus!
