//! The proposition tree: statements of knowledge of a discrete logarithm,
//! combined by AND and OR.

use vstd::prelude::*;
use crate::dlog_group::{EcPoint, identity_bytes, spec_parse_point};
use crate::serialization::SerializationError;

verus! {

/// The statement that the prover knows the discrete logarithm of `h`.
#[derive(Clone, Debug, PartialEq, Eq)]
pub struct ProveDlog {
    /// The public key.
    pub h: EcPoint,
}

/// The statement that the prover knows the exponent of a Diffie-Hellman
/// tuple. It is declared; nothing encodes or proves it yet.
#[derive(Clone, Debug, PartialEq, Eq)]
pub struct ProveDhTuple {
    pub g: EcPoint,
    pub h: EcPoint,
    pub u: EcPoint,
    pub v: EcPoint,
}

/// A leaf of the proposition tree.
#[derive(Clone, Debug, PartialEq, Eq)]
pub enum SigmaProofOfKnowledgeTree {
    ProveDhTuple(ProveDhTuple),
    ProveDlog(ProveDlog),
}

/// An inner node of the proposition tree. The order of the children is part
/// of the proposition: it fixes the layout of the proof bytes.
#[derive(Debug, PartialEq, Eq)]
pub enum SigmaConjecture {
    /// All of the children hold.
    Cand { items: Vec<SigmaBoolean> },
    /// At least one of the children holds.
    Cor { items: Vec<SigmaBoolean> },
}

/// A proposition that a Sigma protocol can prove.
#[derive(Debug, PartialEq, Eq)]
pub enum SigmaBoolean {
    /// A proposition that is true or false without any proof.
    TrivialProp(bool),
    /// A statement of knowledge.
    ProofOfKnowledge(SigmaProofOfKnowledgeTree),
    /// An AND or OR of propositions.
    SigmaConjecture(SigmaConjecture),
}

impl SigmaBoolean {
    /// Every conjecture in the tree has at least two children, and every
    /// group element in it is one.
    pub open spec fn wf(&self) -> bool
        decreases self,
    {
        match self {
            SigmaBoolean::TrivialProp(_) => true,
            SigmaBoolean::ProofOfKnowledge(SigmaProofOfKnowledgeTree::ProveDlog(dl)) => dl.h.wf(),
            SigmaBoolean::ProofOfKnowledge(SigmaProofOfKnowledgeTree::ProveDhTuple(t)) => {
                t.g.wf() && t.h.wf() && t.u.wf() && t.v.wf()
            },
            SigmaBoolean::SigmaConjecture(SigmaConjecture::Cand { items }) => {
                &&& items@.len() >= 2
                &&& forall|i: int| #![trigger items@[i]] 0 <= i < items@.len() ==> items@[i].wf()
            },
            SigmaBoolean::SigmaConjecture(SigmaConjecture::Cor { items }) => {
                &&& items@.len() >= 2
                &&& forall|i: int| #![trigger items@[i]] 0 <= i < items@.len() ==> items@[i].wf()
            },
        }
    }
}

/// Opcode of a trivial proposition that is false.
pub const OP_TRIVIAL_PROP_FALSE: u8 = 0xD2;

/// Opcode of a trivial proposition that is true.
pub const OP_TRIVIAL_PROP_TRUE: u8 = 0xD3;

/// Opcode of `ProveDlog`.
pub const OP_PROVE_DLOG: u8 = 0xCD;

/// Opcode of `ProveDhTuple`.
pub const OP_PROVE_DIFFIE_HELLMAN_TUPLE: u8 = 0xCE;

/// Opcode of an AND of propositions.
pub const OP_SIGMA_AND: u8 = 0xEA;

/// Opcode of an OR of propositions.
pub const OP_SIGMA_OR: u8 = 0xEB;

/// The content of a proposition that has a wire format.
pub enum PropModel {
    TrivialProp(bool),
    ProveDlog(Seq<u8>),
}

/// The bytes of a proposition: its opcode, then its payload. A trivial
/// proposition has no payload; `ProveDlog` has its group element.
pub open spec fn prop_bytes(m: PropModel) -> Seq<u8> {
    match m {
        PropModel::TrivialProp(b) => seq![
            if b {
                0xD3u8
            } else {
                0xD2u8
            },
        ],
        PropModel::ProveDlog(h) => seq![0xCDu8] + h,
    }
}

/// What reading a proposition from `bytes` at `pos` gives: its content and
/// the position behind it, or why there is none. Meant for
/// `0 <= pos <= bytes.len()`.
pub open spec fn spec_parse_prop(bytes: Seq<u8>, pos: int) -> Result<
    (PropModel, int),
    SerializationError,
> {
    if bytes.len() - pos < 1 {
        Err(SerializationError::UnexpectedEof)
    } else if bytes[pos] == 0xD2 {
        Ok((PropModel::TrivialProp(false), pos + 1))
    } else if bytes[pos] == 0xD3 {
        Ok((PropModel::TrivialProp(true), pos + 1))
    } else if bytes[pos] == 0xCD {
        if bytes.len() - pos < 34 {
            Err(SerializationError::UnexpectedEof)
        } else {
            match spec_parse_point(bytes, pos + 1) {
                Some(h) => Ok((PropModel::ProveDlog(h), pos + 34)),
                None => Err(SerializationError::DecodingError),
            }
        }
    } else if bytes[pos] == 0xCE || bytes[pos] == 0xEA || bytes[pos] == 0xEB {
        Err(SerializationError::NotSupported)
    } else {
        Err(SerializationError::InvalidOpCode(bytes[pos]))
    }
}

impl ProveDlog {
    /// The statement about the public key `h`.
    pub fn new(h: EcPoint) -> (r: ProveDlog)
        ensures
            r.h == h,
    {
        ProveDlog { h }
    }

    /// Appends the public key's wire form to `w`.
    pub fn sigma_serialize(&self, w: &mut Vec<u8>)
        ensures
            final(w)@ == old(w)@ + self.h@,
    {
        self.h.sigma_serialize(w);
    }

    /// Reads the public key from `bytes` at `pos`.
    pub fn sigma_parse(bytes: &Vec<u8>, pos: usize) -> (r: Result<
        (ProveDlog, usize),
        SerializationError,
    >)
        requires
            pos <= bytes.len(),
        ensures
            bytes.len() - pos < 33 ==> (r matches Err(e) && e == SerializationError::UnexpectedEof),
            bytes.len() - pos >= 33 ==> match spec_parse_point(bytes@, pos as int) {
                Some(e) => r matches Ok((p, next)) && p.h@ == e && p.h.wf() && next == pos + 33,
                None => r matches Err(e) && e == SerializationError::DecodingError,
            },
    {
        match EcPoint::sigma_parse(bytes, pos) {
            Ok((p, next)) => Ok((ProveDlog::new(p), next)),
            Err(e) => Err(e),
        }
    }
}

impl SigmaBoolean {
    /// The proposition's content, where it has a wire format: a trivial
    /// proposition or `ProveDlog`.
    pub open spec fn model(self) -> Option<PropModel> {
        match self {
            SigmaBoolean::TrivialProp(b) => Some(PropModel::TrivialProp(b)),
            SigmaBoolean::ProofOfKnowledge(SigmaProofOfKnowledgeTree::ProveDlog(dl)) => Some(
                PropModel::ProveDlog(dl.h@),
            ),
            _ => None,
        }
    }

    /// The opcode that stands for the node's kind.
    pub open spec fn spec_op_code(self) -> u8 {
        match self {
            SigmaBoolean::TrivialProp(b) => if b {
                0xD3u8
            } else {
                0xD2u8
            },
            SigmaBoolean::ProofOfKnowledge(SigmaProofOfKnowledgeTree::ProveDlog(_)) => 0xCDu8,
            SigmaBoolean::ProofOfKnowledge(SigmaProofOfKnowledgeTree::ProveDhTuple(_)) => 0xCEu8,
            SigmaBoolean::SigmaConjecture(SigmaConjecture::Cand { .. }) => 0xEAu8,
            SigmaBoolean::SigmaConjecture(SigmaConjecture::Cor { .. }) => 0xEBu8,
        }
    }

    /// The opcode that stands for the node's kind.
    pub fn op_code(&self) -> (r: u8)
        ensures
            r == self.spec_op_code(),
    {
        match self {
            SigmaBoolean::TrivialProp(b) => if *b {
                OP_TRIVIAL_PROP_TRUE
            } else {
                OP_TRIVIAL_PROP_FALSE
            },
            SigmaBoolean::ProofOfKnowledge(SigmaProofOfKnowledgeTree::ProveDlog(_)) => OP_PROVE_DLOG,
            SigmaBoolean::ProofOfKnowledge(SigmaProofOfKnowledgeTree::ProveDhTuple(_)) => {
                OP_PROVE_DIFFIE_HELLMAN_TUPLE
            },
            SigmaBoolean::SigmaConjecture(SigmaConjecture::Cand { .. }) => OP_SIGMA_AND,
            SigmaBoolean::SigmaConjecture(SigmaConjecture::Cor { .. }) => OP_SIGMA_OR,
        }
    }

    /// Appends the proposition to `w`: its opcode, then its payload. A
    /// Diffie-Hellman tuple and a conjecture have no wire format: for them
    /// nothing is written and the call fails.
    pub fn sigma_serialize(&self, w: &mut Vec<u8>) -> (r: Result<(), SerializationError>)
        ensures
            match self.model() {
                Some(m) => r is Ok && final(w)@ == old(w)@ + prop_bytes(m),
                None => (r matches Err(e) && e == SerializationError::NotSupported) && final(w)@
                    == old(w)@,
            },
    {
        let ghost start = w@;
        match self {
            SigmaBoolean::ProofOfKnowledge(SigmaProofOfKnowledgeTree::ProveDhTuple(_)) => Err(
                SerializationError::NotSupported,
            ),
            SigmaBoolean::ProofOfKnowledge(SigmaProofOfKnowledgeTree::ProveDlog(v)) => {
                w.push(self.op_code());
                v.sigma_serialize(w);
                assert(w@ =~= start + prop_bytes(self.model().unwrap()));
                Ok(())
            },
            SigmaBoolean::SigmaConjecture(_) => Err(SerializationError::NotSupported),
            SigmaBoolean::TrivialProp(_) => {
                w.push(self.op_code());
                assert(w@ =~= start + prop_bytes(self.model().unwrap()));
                Ok(())
            },
        }
    }

    /// Reads a proposition from `bytes` at `pos` and gives it with the
    /// position behind it. The opcode alone decides what is read. The
    /// opcodes of a Diffie-Hellman tuple and of a conjecture are known and
    /// not supported; any other opcode is invalid.
    pub fn sigma_parse(bytes: &Vec<u8>, pos: usize) -> (r: Result<
        (SigmaBoolean, usize),
        SerializationError,
    >)
        requires
            pos <= bytes.len(),
        ensures
            match spec_parse_prop(bytes@, pos as int) {
                Ok((m, end)) => r matches Ok((p, e)) && p.model() == Some(m) && p.wf() && e == end,
                Err(x) => r matches Err(y) && y == x,
            },
    {
        if bytes.len() - pos < 1 {
            return Err(SerializationError::UnexpectedEof);
        }
        let op_code: u8 = bytes[pos];
        if op_code == OP_TRIVIAL_PROP_FALSE {
            Ok((SigmaBoolean::TrivialProp(false), pos + 1))
        } else if op_code == OP_TRIVIAL_PROP_TRUE {
            Ok((SigmaBoolean::TrivialProp(true), pos + 1))
        } else if op_code == OP_PROVE_DLOG {
            match ProveDlog::sigma_parse(bytes, pos + 1) {
                Ok((dl, next)) => Ok(
                    (SigmaBoolean::ProofOfKnowledge(SigmaProofOfKnowledgeTree::ProveDlog(dl)), next),
                ),
                Err(e) => Err(e),
            }
        } else if op_code == OP_PROVE_DIFFIE_HELLMAN_TUPLE || op_code == OP_SIGMA_AND || op_code
            == OP_SIGMA_OR {
            Err(SerializationError::NotSupported)
        } else {
            Err(SerializationError::InvalidOpCode(op_code))
        }
    }
}

/// A proposition that has a wire format, written and read back, is the same
/// proposition.
pub proof fn lemma_prop_round_trip(p: SigmaBoolean, before: Seq<u8>, after: Seq<u8>)
    requires
        p.wf(),
        p.model() is Some,
    ensures
        spec_parse_prop(before + prop_bytes(p.model().unwrap()) + after, before.len() as int)
            == Ok::<(PropModel, int), SerializationError>(
            (p.model().unwrap(), (before.len() + prop_bytes(p.model().unwrap()).len()) as int),
        ),
{
    let m = p.model().unwrap();
    let all = before + prop_bytes(m) + after;
    let pos = before.len() as int;
    assert(all[pos] == prop_bytes(m)[0]);
    match m {
        PropModel::TrivialProp(b) => {},
        PropModel::ProveDlog(h) => {
            assert(h.len() == 33) by {
                assert(identity_bytes().len() == 33);
            }
            assert(all.subrange(pos + 1, pos + 1 + 33) =~= h);
            if h[0] == 0 {
                assert(h =~= identity_bytes());
            }
        },
    }
}

} // verus!
