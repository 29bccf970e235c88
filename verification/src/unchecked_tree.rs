//! The verifier's side of a proof: the tree that reading proof bytes along a
//! proposition gives, with a challenge at every node and a response at every
//! leaf, before any of it has been checked.

use vstd::prelude::*;
use crate::challenge::Challenge;
use crate::dlog_group::{EcPoint, Scalar};
use crate::sigma_boolean::ProveDlog;

verus! {

/// The prover's first message for a discrete logarithm: the commitment.
#[derive(Clone, Debug, PartialEq, Eq)]
pub struct FirstDlogProverMessage {
    pub a: EcPoint,
}

/// The prover's second message for a discrete logarithm: the response.
#[derive(Clone, Debug, PartialEq, Eq)]
pub struct SecondDlogProverMessage {
    pub z: Scalar,
}

/// A Schnorr proof as read from the wire. The commitment is never read: a
/// verifier computes it from the challenge and the response.
#[derive(Clone, Debug, PartialEq, Eq)]
pub struct UncheckedSchnorr {
    pub proposition: ProveDlog,
    pub commitment_opt: Option<FirstDlogProverMessage>,
    pub challenge: Challenge,
    pub second_message: SecondDlogProverMessage,
}

/// A leaf of the unchecked tree.
#[derive(Clone, Debug, PartialEq, Eq)]
pub enum UncheckedLeaf {
    UncheckedSchnorr(UncheckedSchnorr),
}

/// An inner node of the unchecked tree.
#[derive(Debug, PartialEq, Eq)]
pub enum UncheckedConjecture {
    /// AND: every child has the node's challenge.
    CandUnchecked { challenge: Challenge, children: Vec<UncheckedSigmaTree> },
    /// OR: the children's challenges XOR to the node's challenge.
    CorUnchecked { challenge: Challenge, children: Vec<UncheckedSigmaTree> },
}

/// A node of the unchecked tree.
#[derive(Debug, PartialEq, Eq)]
pub enum UncheckedSigmaTree {
    UncheckedLeaf(UncheckedLeaf),
    UncheckedConjecture(UncheckedConjecture),
}

/// What a verifier has after reading a proof.
#[derive(Debug, PartialEq, Eq)]
pub enum UncheckedTree {
    /// No proof was given.
    NoProof,
    /// The tree that the proof bytes gave.
    UncheckedSigmaTree(UncheckedSigmaTree),
}

/// A serialized proof.
#[derive(Clone, Debug, PartialEq, Eq)]
pub enum ProofBytes {
    /// No proof.
    Empty,
    /// The challenges and responses of a proof tree, in the order that its
    /// proposition fixes.
    Bytes(Vec<u8>),
}

impl View for ProofBytes {
    type V = Option<Seq<u8>>;

    open spec fn view(&self) -> Option<Seq<u8>> {
        match self {
            ProofBytes::Empty => None,
            ProofBytes::Bytes(b) => Some(b@),
        }
    }
}

impl ProofBytes {
    /// The proof that the bytes stand for: no bytes stand for no proof.
    pub fn from_bytes(bytes: Vec<u8>) -> (r: ProofBytes)
        ensures
            r@ == if bytes@.len() == 0 {
                None
            } else {
                Some(bytes@)
            },
    {
        if bytes.len() == 0 {
            ProofBytes::Empty
        } else {
            ProofBytes::Bytes(bytes)
        }
    }

    /// The bytes that stand for the proof: none for no proof.
    pub fn to_bytes(self) -> (r: Vec<u8>)
        ensures
            r@ == match self@ {
                None => Seq::<u8>::empty(),
                Some(b) => b,
            },
    {
        match self {
            ProofBytes::Empty => Vec::new(),
            ProofBytes::Bytes(b) => b,
        }
    }
}

/// The mathematical content of a node of the unchecked tree: byte strings
/// and sequences in place of buffers.
pub enum SigNode {
    Schnorr { proposition: Seq<u8>, commitment: Option<Seq<u8>>, challenge: Seq<u8>, z: Seq<u8> },
    Cand { challenge: Seq<u8>, children: Seq<SigNode> },
    Cor { challenge: Seq<u8>, children: Seq<SigNode> },
}

impl SigNode {
    /// The node's challenge.
    pub open spec fn challenge(self) -> Seq<u8> {
        match self {
            SigNode::Schnorr { challenge, .. } => challenge,
            SigNode::Cand { challenge, .. } => challenge,
            SigNode::Cor { challenge, .. } => challenge,
        }
    }
}

/// The contents of a sequence of nodes, one for one.
pub open spec fn tree_views(v: Seq<UncheckedSigmaTree>) -> Seq<SigNode>
    decreases v,
{
    Seq::new(
        v.len(),
        |i: int|
            if 0 <= i < v.len() {
                v[i].view()
            } else {
                arbitrary()
            },
    )
}

impl View for UncheckedSigmaTree {
    type V = SigNode;

    open spec fn view(&self) -> SigNode
        decreases self,
    {
        match self {
            UncheckedSigmaTree::UncheckedLeaf(UncheckedLeaf::UncheckedSchnorr(us)) => {
                SigNode::Schnorr {
                    proposition: us.proposition.h@,
                    commitment: match us.commitment_opt {
                        Some(m) => Some(m.a@),
                        None => None,
                    },
                    challenge: us.challenge@,
                    z: us.second_message.z@,
                }
            },
            UncheckedSigmaTree::UncheckedConjecture(
                UncheckedConjecture::CandUnchecked { challenge, children },
            ) => SigNode::Cand { challenge: challenge@, children: tree_views(children@) },
            UncheckedSigmaTree::UncheckedConjecture(
                UncheckedConjecture::CorUnchecked { challenge, children },
            ) => SigNode::Cor { challenge: challenge@, children: tree_views(children@) },
        }
    }
}

impl View for UncheckedTree {
    type V = Option<SigNode>;

    open spec fn view(&self) -> Option<SigNode> {
        match self {
            UncheckedTree::NoProof => None,
            UncheckedTree::UncheckedSigmaTree(t) => Some(t@),
        }
    }
}

impl UncheckedSigmaTree {
    /// A copy of the node's challenge.
    pub fn challenge(&self) -> (r: Challenge)
        ensures
            r@ == self@.challenge(),
    {
        match self {
            UncheckedSigmaTree::UncheckedLeaf(UncheckedLeaf::UncheckedSchnorr(us)) => {
                us.challenge.copy()
            },
            UncheckedSigmaTree::UncheckedConjecture(
                UncheckedConjecture::CandUnchecked { challenge, children: _ },
            ) => challenge.copy(),
            UncheckedSigmaTree::UncheckedConjecture(
                UncheckedConjecture::CorUnchecked { challenge, children: _ },
            ) => challenge.copy(),
        }
    }
}

} // verus!
