//! The proof codec: a proof tree written as bytes, and bytes read back into
//! a proof tree along a proposition.
//!
//! The bytes carry no tags and no lengths. A node's challenge is written
//! only where the reader cannot know it: the children of an AND have their
//! parent's challenge and write none; the children of an OR write theirs,
//! but for the last, whose challenge is the XOR of the parent's with all the
//! others'.

use vstd::prelude::*;
use crate::bytes::{append_bytes, copy_range};
use crate::challenge::{Challenge, spec_xor};
use crate::dlog_group::{SCALAR_SIZE, Scalar, reduced};
use crate::serialization::SerializationError;
use crate::sigma_boolean::{ProveDlog, SigmaBoolean, SigmaConjecture, SigmaProofOfKnowledgeTree};
use crate::unchecked_tree::{
    ProofBytes, SecondDlogProverMessage, SigNode, UncheckedConjecture, UncheckedLeaf,
    UncheckedSchnorr, UncheckedSigmaTree, UncheckedTree, tree_views,
};

verus! {

/// Why proof bytes could not be read along a proposition.
#[derive(Clone, Copy, Debug, PartialEq, Eq, Structural)]
pub enum SigParsingError {
    /// The bytes ended before a response did.
    IoError,
    /// A challenge could not be read.
    SerializationError(SerializationError),
    /// The proposition holds a statement that cannot be proved yet.
    NotSupported,
    /// The proposition holds what no proof is read for: a trivial
    /// proposition, or a conjecture of fewer than two children.
    InvariantViolation,
}

/// Where a node's challenge comes from when a proof is read.
#[derive(Debug, PartialEq, Eq)]
pub enum ChallengeSource {
    /// The parent is an AND: the node has the parent's challenge.
    Inherit(Challenge),
    /// The node is the last child of an OR: its challenge is the XOR of the
    /// parent's with those of the children before it.
    DeriveFromSiblings(Challenge),
    /// The challenge stands in the bytes.
    ReadFromStream,
}

impl ChallengeSource {
    /// The challenge that the source hands down, if it does.
    pub open spec fn given(self) -> Option<Seq<u8>> {
        match self {
            ChallengeSource::Inherit(c) => Some(c@),
            ChallengeSource::DeriveFromSiblings(c) => Some(c@),
            ChallengeSource::ReadFromStream => None,
        }
    }

    /// A challenge handed down has its fixed width.
    pub open spec fn wf(self) -> bool {
        self.given() matches Some(c) ==> c.len() == 24
    }
}

/// The bytes of a node: its challenge first where `write_challenge` says so,
/// then the response of a leaf or the bytes of an inner node's children.
pub open spec fn sig_bytes(node: SigNode, write_challenge: bool) -> Seq<u8>
    decreases node, 0int,
{
    let head = if write_challenge {
        node.challenge()
    } else {
        Seq::<u8>::empty()
    };
    head + match node {
        SigNode::Schnorr { z, .. } => z,
        SigNode::Cand { children, .. } => children_bytes(children, children.len() as int, false),
        SigNode::Cor { children, .. } => if children.len() == 0 {
            Seq::<u8>::empty()
        } else {
            children_bytes(children, children.len() - 1, true) + sig_bytes(children.last(), false)
        },
    }
}

/// The bytes of the first `n` of the children, in order, each with or
/// without its challenge.
pub open spec fn children_bytes(children: Seq<SigNode>, n: int, write_challenge: bool) -> Seq<u8>
    decreases children, n,
{
    if n <= 0 || n > children.len() {
        Seq::<u8>::empty()
    } else {
        children_bytes(children, n - 1, write_challenge) + sig_bytes(
            children[n - 1],
            write_challenge,
        )
    }
}

/// `acc` combined by XOR with the challenge of each of the nodes, in order.
pub open spec fn xor_challenges(acc: Seq<u8>, nodes: Seq<SigNode>) -> Seq<u8>
    decreases nodes.len(),
{
    if nodes.len() == 0 {
        acc
    } else {
        spec_xor(xor_challenges(acc, nodes.drop_last()), nodes.last().challenge())
    }
}

/// What reading a node of `prop` from `bytes` at `pos` gives: the node and
/// the position behind it, or the first failure on the way. With `given` the
/// node has that challenge; without, its challenge is read first. A
/// conjecture of fewer than two children is no proposition and fails as a
/// trivial proposition does.
pub open spec fn parse_node(prop: SigmaBoolean, bytes: Seq<u8>, pos: int, given: Option<Seq<u8>>)
    -> Result<(SigNode, int), SigParsingError>
    decreases prop, 0int,
{
    if given is None && bytes.len() - pos < 24 {
        Err(SigParsingError::SerializationError(SerializationError::UnexpectedEof))
    } else {
        let challenge = match given {
            Some(c) => c,
            None => bytes.subrange(pos, pos + 24),
        };
        let at = if given is None {
            pos + 24
        } else {
            pos
        };
        match prop {
            SigmaBoolean::TrivialProp(_) => Err(SigParsingError::InvariantViolation),
            SigmaBoolean::ProofOfKnowledge(SigmaProofOfKnowledgeTree::ProveDhTuple(_)) => Err(
                SigParsingError::NotSupported,
            ),
            SigmaBoolean::ProofOfKnowledge(SigmaProofOfKnowledgeTree::ProveDlog(dl)) => {
                if bytes.len() - at < 32 {
                    Err(SigParsingError::IoError)
                } else {
                    Ok(
                        (
                            SigNode::Schnorr {
                                proposition: dl.h@,
                                commitment: None,
                                challenge,
                                z: reduced(bytes.subrange(at, at + 32)),
                            },
                            at + 32,
                        ),
                    )
                }
            },
            SigmaBoolean::SigmaConjecture(SigmaConjecture::Cand { items }) => {
                if items@.len() < 2 {
                    Err(SigParsingError::InvariantViolation)
                } else {
                    match parse_children(items@, items@.len() as int, bytes, at, Some(challenge)) {
                        Ok((children, end)) => Ok((SigNode::Cand { challenge, children }, end)),
                        Err(e) => Err(e),
                    }
                }
            },
            SigmaBoolean::SigmaConjecture(SigmaConjecture::Cor { items }) => {
                if items@.len() < 2 {
                    Err(SigParsingError::InvariantViolation)
                } else {
                    match parse_children(items@, items@.len() - 1, bytes, at, None) {
                        Err(e) => Err(e),
                        Ok((first, mid)) => {
                            let derived = xor_challenges(challenge, first);
                            match parse_node(items@.last(), bytes, mid, Some(derived)) {
                                Ok((last, end)) => Ok(
                                    (SigNode::Cor { challenge, children: first.push(last) }, end),
                                ),
                                Err(e) => Err(e),
                            }
                        },
                    }
                }
            },
        }
    }
}

/// What reading the first `n` of `items` gives, one behind the other from
/// `pos`, each with the challenge `given` or with its own.
pub open spec fn parse_children(
    items: Seq<SigmaBoolean>,
    n: int,
    bytes: Seq<u8>,
    pos: int,
    given: Option<Seq<u8>>,
) -> Result<(Seq<SigNode>, int), SigParsingError>
    decreases items, n,
{
    if n <= 0 || n > items.len() {
        Ok((Seq::empty(), pos))
    } else {
        match parse_children(items, n - 1, bytes, pos, given) {
            Err(e) => Err(e),
            Ok((before, at)) => match parse_node(items[n - 1], bytes, at, given) {
                Err(e) => Err(e),
                Ok((node, end)) => Ok((before.push(node), end)),
            },
        }
    }
}

/// The proof bytes of a tree: none for no proof, else the root with its
/// challenge and all below it.
pub open spec fn spec_serialize_sig(tree: UncheckedTree) -> Option<Seq<u8>> {
    match tree {
        UncheckedTree::NoProof => None,
        UncheckedTree::UncheckedSigmaTree(t) => Some(sig_bytes(t@, true)),
    }
}

/// Writes the challenges and responses of a proof tree. Propositions and
/// commitments are not written.
pub fn serialize_sig(tree: UncheckedTree) -> (r: ProofBytes)
    ensures
        match spec_serialize_sig(tree) {
            None => r == ProofBytes::Empty,
            Some(b) => r matches ProofBytes::Bytes(data) && data@ == b,
        },
{
    match tree {
        UncheckedTree::NoProof => ProofBytes::Empty,
        UncheckedTree::UncheckedSigmaTree(ust) => {
            let mut data: Vec<u8> = Vec::new();
            sig_write_bytes(&ust, &mut data, true);
            assert(data@ =~= sig_bytes(ust@, true));
            ProofBytes::Bytes(data)
        },
    }
}

/// Appends the bytes of `node` to `w`: its challenge where
/// `write_challenges` says so, then its response or its children. The
/// children of an AND write no challenge, those of an OR all but the last.
#[verifier::loop_isolation(false)]
pub fn sig_write_bytes(node: &UncheckedSigmaTree, w: &mut Vec<u8>, write_challenges: bool)
    ensures
        final(w)@ == old(w)@ + sig_bytes(node@, write_challenges),
    decreases node,
{
    let ghost start = w@;
    if write_challenges {
        node.challenge().sigma_serialize(w);
    }
    let ghost head = w@;
    match node {
        UncheckedSigmaTree::UncheckedLeaf(UncheckedLeaf::UncheckedSchnorr(us)) => {
            let z = us.second_message.z.to_bytes();
            append_bytes(w, &z);
            assert(w@ =~= start + sig_bytes(node@, write_challenges));
        },
        UncheckedSigmaTree::UncheckedConjecture(
            UncheckedConjecture::CandUnchecked { challenge: _, children },
        ) => {
            let ghost views = tree_views(children@);
            let mut i: usize = 0;
            while i < children.len()
                invariant
                    i <= children.len(),
                    w@ == head + children_bytes(views, i as int, false),
                decreases children.len() - i,
            {
                sig_write_bytes(&children[i], w, false);
                i += 1;
                assert(w@ =~= head + children_bytes(views, i as int, false));
            }
            assert(w@ =~= start + sig_bytes(node@, write_challenges));
        },
        UncheckedSigmaTree::UncheckedConjecture(
            UncheckedConjecture::CorUnchecked { challenge: _, children },
        ) => {
            let ghost views = tree_views(children@);
            if children.len() > 0 {
                let n: usize = children.len() - 1;
                let mut i: usize = 0;
                while i < n
                    invariant
                        i <= n,
                        w@ == head + children_bytes(views, i as int, true),
                    decreases n - i,
                {
                    sig_write_bytes(&children[i], w, true);
                    i += 1;
                    assert(w@ =~= head + children_bytes(views, i as int, true));
                }
                sig_write_bytes(&children[n], w, false);
                assert(views.last() == children@[n as int]@);
            }
            assert(w@ =~= start + sig_bytes(node@, write_challenges));
        },
    }
}

/// What reading a proof along `exp` gives: nothing for no proof, else the
/// tree that the bytes hold from their start. Bytes behind the tree are not
/// looked at.
pub open spec fn spec_parse_sig(exp: SigmaBoolean, sig: ProofBytes)
    -> Result<Option<SigNode>, SigParsingError>
{
    match sig {
        ProofBytes::Empty => Ok(None),
        ProofBytes::Bytes(b) => match parse_node(exp, b@, 0, None) {
            Ok((node, _)) => Ok(Some(node)),
            Err(e) => Err(e),
        },
    }
}

/// Once a child has failed, reading more children fails in the same way.
pub proof fn lemma_children_error_stays(
    items: Seq<SigmaBoolean>,
    k: int,
    n: int,
    bytes: Seq<u8>,
    pos: int,
    given: Option<Seq<u8>>,
)
    requires
        0 <= k <= n <= items.len(),
        parse_children(items, k, bytes, pos, given) is Err,
    ensures
        parse_children(items, n, bytes, pos, given) == parse_children(items, k, bytes, pos, given),
    decreases n - k,
{
    if k < n {
        lemma_children_error_stays(items, k, n - 1, bytes, pos, given);
    }
}

/// Reads a proof along the proposition `exp`: the challenges that the bytes
/// hold and those that follow from them, and the response of every leaf.
pub fn parse_sig_compute_challenges(exp: &SigmaBoolean, sig: ProofBytes) -> (r: Result<
    UncheckedTree,
    SigParsingError,
>)
    ensures
        sig is Empty ==> r matches Ok(UncheckedTree::NoProof),
        match spec_parse_sig(*exp, sig) {
            Ok(v) => r matches Ok(t) && t@ == v,
            Err(e) => r matches Err(x) && x == e,
        },
{
    match sig {
        ProofBytes::Empty => Ok(UncheckedTree::NoProof),
        ProofBytes::Bytes(proof_bytes) => {
            match parse_sig_compute_challnges_reader(
                exp,
                &proof_bytes,
                0,
                ChallengeSource::ReadFromStream,
            ) {
                Ok((tree, _)) => Ok(UncheckedTree::UncheckedSigmaTree(tree)),
                Err(e) => Err(e),
            }
        },
    }
}

/// What a verifier does first with a proposition and the bytes of a proof:
/// no bytes are no proof, any others are read along the proposition.
pub fn verify(proposition: &SigmaBoolean, proof_bytes: Vec<u8>) -> (r: Result<
    UncheckedTree,
    SigParsingError,
>)
    ensures
        proof_bytes@.len() == 0 ==> r matches Ok(UncheckedTree::NoProof),
        proof_bytes@.len() > 0 ==> match parse_node(*proposition, proof_bytes@, 0, None) {
            Ok((node, _)) => r matches Ok(t) && t@ == Some(node),
            Err(e) => r matches Err(x) && x == e,
        },
{
    parse_sig_compute_challenges(proposition, ProofBytes::from_bytes(proof_bytes))
}

/// Reads the node of `exp` that stands in `bytes` at `pos`, and gives it
/// with the position behind it. The proposition alone says how many bytes
/// are read: a challenge unless `source` hands one down, then a response for
/// a leaf, or the children for an inner node. The children of an AND get the
/// node's challenge. Those of an OR read theirs, but for the last, which
/// gets the XOR of the node's challenge with all of theirs.
#[verifier::loop_isolation(false)]
pub fn parse_sig_compute_challnges_reader(
    exp: &SigmaBoolean,
    bytes: &Vec<u8>,
    pos: usize,
    source: ChallengeSource,
) -> (r: Result<(UncheckedSigmaTree, usize), SigParsingError>)
    requires
        pos <= bytes.len(),
        source.wf(),
    ensures
        match parse_node(*exp, bytes@, pos as int, source.given()) {
            Ok((node, end)) => r matches Ok((t, e)) && t@ == node && e == end && pos <= e
                && e <= bytes.len() && node.challenge().len() == 24,
            Err(err) => r matches Err(x) && x == err,
        },
    decreases exp,
{
    let (challenge, at) = match source {
        ChallengeSource::Inherit(c) => (c, pos),
        ChallengeSource::DeriveFromSiblings(c) => (c, pos),
        ChallengeSource::ReadFromStream => match Challenge::sigma_parse(bytes, pos) {
            Ok((c, next)) => (c, next),
            Err(e) => {
                return Err(SigParsingError::SerializationError(e));
            },
        },
    };
    match exp {
        SigmaBoolean::TrivialProp(_) => Err(SigParsingError::InvariantViolation),
        SigmaBoolean::ProofOfKnowledge(SigmaProofOfKnowledgeTree::ProveDhTuple(_)) => Err(
            SigParsingError::NotSupported,
        ),
        SigmaBoolean::ProofOfKnowledge(SigmaProofOfKnowledgeTree::ProveDlog(dl)) => {
            if bytes.len() - at < SCALAR_SIZE {
                return Err(SigParsingError::IoError);
            }
            let buf = copy_range(bytes, at, SCALAR_SIZE);
            match Scalar::from_bytes(&buf) {
                Some(z) => Ok(
                    (
                        UncheckedSigmaTree::UncheckedLeaf(
                            UncheckedLeaf::UncheckedSchnorr(
                                UncheckedSchnorr {
                                    proposition: ProveDlog { h: dl.h.copy() },
                                    commitment_opt: None,
                                    challenge,
                                    second_message: SecondDlogProverMessage { z },
                                },
                            ),
                        ),
                        at + SCALAR_SIZE,
                    ),
                ),
                None => Err(SigParsingError::IoError),
            }
        },
        SigmaBoolean::SigmaConjecture(SigmaConjecture::Cand { items }) => {
            if items.len() < 2 {
                return Err(SigParsingError::InvariantViolation);
            }
            let mut children: Vec<UncheckedSigmaTree> = Vec::new();
            let mut p: usize = at;
            let mut i: usize = 0;
            assert(tree_views(children@) =~= Seq::<SigNode>::empty());
            while i < items.len()
                invariant
                    i <= items.len(),
                    at <= p <= bytes.len(),
                    challenge.wf(),
                    parse_children(items@, i as int, bytes@, at as int, Some(challenge@)) == Ok::<
                        (Seq<SigNode>, int),
                        SigParsingError,
                    >((tree_views(children@), p as int)),
                decreases items.len() - i,
            {
                let ghost before = children@;
                match parse_sig_compute_challnges_reader(
                    &items[i],
                    bytes,
                    p,
                    ChallengeSource::Inherit(challenge.copy()),
                ) {
                    Ok((child, next)) => {
                        children.push(child);
                        p = next;
                    },
                    Err(e) => {
                        proof {
                            lemma_children_error_stays(
                                items@,
                                i + 1,
                                items@.len() as int,
                                bytes@,
                                at as int,
                                Some(challenge@),
                            );
                        }
                        return Err(e);
                    },
                }
                i += 1;
                assert(tree_views(children@) =~= tree_views(before).push(children@.last()@));
            }
            Ok(
                (
                    UncheckedSigmaTree::UncheckedConjecture(
                        UncheckedConjecture::CandUnchecked { challenge, children },
                    ),
                    p,
                ),
            )
        },
        SigmaBoolean::SigmaConjecture(SigmaConjecture::Cor { items }) => {
            if items.len() < 2 {
                return Err(SigParsingError::InvariantViolation);
            }
            let n: usize = items.len() - 1;
            let mut children: Vec<UncheckedSigmaTree> = Vec::new();
            let mut derived = challenge.copy();
            let mut p: usize = at;
            let mut i: usize = 0;
            assert(tree_views(children@) =~= Seq::<SigNode>::empty());
            while i < n
                invariant
                    i <= n,
                    at <= p <= bytes.len(),
                    derived.wf(),
                    derived@ == xor_challenges(challenge@, tree_views(children@)),
                    parse_children(items@, i as int, bytes@, at as int, None) == Ok::<
                        (Seq<SigNode>, int),
                        SigParsingError,
                    >((tree_views(children@), p as int)),
                decreases n - i,
            {
                let ghost before = children@;
                match parse_sig_compute_challnges_reader(
                    &items[i],
                    bytes,
                    p,
                    ChallengeSource::ReadFromStream,
                ) {
                    Ok((child, next)) => {
                        derived = derived.xor(child.challenge());
                        children.push(child);
                        p = next;
                    },
                    Err(e) => {
                        proof {
                            lemma_children_error_stays(
                                items@,
                                i + 1,
                                n as int,
                                bytes@,
                                at as int,
                                None,
                            );
                        }
                        return Err(e);
                    },
                }
                i += 1;
                assert(tree_views(children@) =~= tree_views(before).push(children@.last()@));
                assert(tree_views(children@).drop_last() =~= tree_views(before));
            }
            let ghost first = children@;
            match parse_sig_compute_challnges_reader(
                &items[n],
                bytes,
                p,
                ChallengeSource::DeriveFromSiblings(derived),
            ) {
                Ok((last, end)) => {
                    children.push(last);
                    assert(tree_views(children@) =~= tree_views(first).push(children@.last()@));
                    Ok(
                        (
                            UncheckedSigmaTree::UncheckedConjecture(
                                UncheckedConjecture::CorUnchecked { challenge, children },
                            ),
                            end,
                        ),
                    )
                },
                Err(e) => Err(e),
            }
        },
    }
}

} // verus!
