//! What holds of the proof codec: a proof tree that fits its proposition,
//! written and read back, is the same tree; and which propositions and
//! which bytes give a tree at all.

use vstd::prelude::*;
use crate::challenge::{lemma_xor_cancels, spec_xor};
use crate::dlog_group::{is_scalar_encoding, lemma_reduced_canonical, lemma_reduced_is_canonical};
use crate::serialization::SerializationError;
use crate::sig_serializer::{
    SigParsingError, children_bytes, parse_children, parse_node, sig_bytes, spec_parse_sig,
    spec_serialize_sig, xor_challenges,
};
use crate::sigma_boolean::{SigmaBoolean, SigmaConjecture, SigmaProofOfKnowledgeTree};
use crate::unchecked_tree::{ProofBytes, SigNode, UncheckedTree};

verus! {

/// `node` is a proof tree of the proposition `prop`: it has the same shape,
/// a leaf has the proposition's public key, no commitment and a canonical
/// response, every challenge has its width, the children of an AND have
/// their parent's challenge, and the last child of an OR has the XOR of its
/// parent's challenge with those of the children before it.
pub open spec fn conforms(node: SigNode, prop: SigmaBoolean) -> bool
    decreases prop,
{
    match prop {
        SigmaBoolean::TrivialProp(_) => false,
        SigmaBoolean::ProofOfKnowledge(SigmaProofOfKnowledgeTree::ProveDhTuple(_)) => false,
        SigmaBoolean::ProofOfKnowledge(SigmaProofOfKnowledgeTree::ProveDlog(dl)) => match node {
            SigNode::Schnorr { proposition, commitment, challenge, z } => {
                &&& proposition == dl.h@
                &&& commitment is None
                &&& challenge.len() == 24
                &&& is_scalar_encoding(z)
            },
            _ => false,
        },
        SigmaBoolean::SigmaConjecture(SigmaConjecture::Cand { items }) => match node {
            SigNode::Cand { challenge, children } => {
                &&& challenge.len() == 24
                &&& children.len() == items@.len()
                &&& forall|i: int|
                    #![trigger items@[i]]
                    #![trigger children[i]]
                    0 <= i < items@.len() ==> conforms(children[i], items@[i])
                &&& forall|i: int|
                    0 <= i < children.len() ==> (#[trigger] children[i]).challenge() == challenge
            },
            _ => false,
        },
        SigmaBoolean::SigmaConjecture(SigmaConjecture::Cor { items }) => match node {
            SigNode::Cor { challenge, children } => {
                &&& challenge.len() == 24
                &&& children.len() == items@.len()
                &&& forall|i: int|
                    #![trigger items@[i]]
                    #![trigger children[i]]
                    0 <= i < items@.len() ==> conforms(children[i], items@[i])
                &&& children.len() > 0 ==> children.last().challenge() == xor_challenges(
                    challenge,
                    children.drop_last(),
                )
            },
            _ => false,
        },
    }
}

/// Where `bytes` hold `a` and then `b` from `pos` on, they hold `a` at `pos`
/// and `b` behind it.
pub proof fn lemma_subrange_parts(bytes: Seq<u8>, pos: int, a: Seq<u8>, b: Seq<u8>)
    requires
        0 <= pos,
        pos + a.len() + b.len() <= bytes.len(),
        bytes.subrange(pos, pos + a.len() + b.len()) == a + b,
    ensures
        bytes.subrange(pos, pos + a.len()) == a,
        bytes.subrange(pos + a.len(), pos + a.len() + b.len()) == b,
{
    let whole = bytes.subrange(pos, pos + a.len() + b.len());
    assert forall|i: int| 0 <= i < a.len() implies bytes[pos + i] == a[i] by {
        assert(whole[i] == (a + b)[i]);
    }
    assert forall|i: int| 0 <= i < b.len() implies bytes[pos + a.len() + i] == b[i] by {
        assert(whole[a.len() + i] == (a + b)[a.len() + i]);
    }
    assert(bytes.subrange(pos, pos + a.len()) =~= a);
    assert(bytes.subrange(pos + a.len(), pos + a.len() + b.len()) =~= b);
}

/// A proof tree of a proposition, written and read back along that
/// proposition, is the same tree, and the reader stops where the writer
/// did. The reader is handed the challenge exactly where the writer left
/// it out.
pub proof fn lemma_sig_round_trip(
    prop: SigmaBoolean,
    node: SigNode,
    write_challenge: bool,
    bytes: Seq<u8>,
    pos: int,
)
    requires
        prop.wf(),
        conforms(node, prop),
        0 <= pos,
        pos + sig_bytes(node, write_challenge).len() <= bytes.len(),
        bytes.subrange(pos, pos + sig_bytes(node, write_challenge).len()) == sig_bytes(
            node,
            write_challenge,
        ),
    ensures
        parse_node(
            prop,
            bytes,
            pos,
            if write_challenge {
                None
            } else {
                Some(node.challenge())
            },
        ) == Ok::<(SigNode, int), SigParsingError>(
            (node, pos + sig_bytes(node, write_challenge).len()),
        ),
    decreases prop, 0int,
{
    let head = if write_challenge {
        node.challenge()
    } else {
        Seq::<u8>::empty()
    };
    let at = pos + head.len();
    match prop {
        SigmaBoolean::ProofOfKnowledge(SigmaProofOfKnowledgeTree::ProveDlog(dl)) => {
            let z = node->Schnorr_z;
            assert(sig_bytes(node, write_challenge) == head + z);
            lemma_subrange_parts(bytes, pos, head, z);
            lemma_reduced_canonical(z);
        },
        SigmaBoolean::SigmaConjecture(SigmaConjecture::Cand { items }) => {
            let children = node->Cand_children;
            let body = children_bytes(children, children.len() as int, false);
            assert(sig_bytes(node, write_challenge) == head + body);
            lemma_subrange_parts(bytes, pos, head, body);
            lemma_children_round_trip(
                items@,
                children,
                children.len() as int,
                false,
                node.challenge(),
                bytes,
                at,
            );
            assert(children.subrange(0, children.len() as int) =~= children);
        },
        SigmaBoolean::SigmaConjecture(SigmaConjecture::Cor { items }) => {
            let children = node->Cor_children;
            let n = children.len() - 1;
            let first = children_bytes(children, n, true);
            let last = sig_bytes(children.last(), false);
            assert(sig_bytes(node, write_challenge) == head + (first + last));
            lemma_subrange_parts(bytes, pos, head, first + last);
            lemma_subrange_parts(bytes, at, first, last);
            lemma_children_round_trip(items@, children, n, true, node.challenge(), bytes, at);
            assert(children.subrange(0, n) =~= children.drop_last());
            assert(conforms(children[n], items@[n]));
            assert(items@[n].wf());
            lemma_sig_round_trip(items@.last(), children.last(), false, bytes, at + first.len());
            assert(children.drop_last().push(children.last()) =~= children);
        },
        _ => {},
    }
}

/// The children of a node, written one behind the other and read back, are
/// the same children.
pub proof fn lemma_children_round_trip(
    items: Seq<SigmaBoolean>,
    children: Seq<SigNode>,
    n: int,
    write_challenge: bool,
    challenge: Seq<u8>,
    bytes: Seq<u8>,
    pos: int,
)
    requires
        0 <= n <= items.len(),
        items.len() == children.len(),
        forall|i: int| 0 <= i < items.len() ==> (#[trigger] items[i]).wf(),
        forall|i: int| 0 <= i < items.len() ==> #[trigger] conforms(children[i], items[i]),
        !write_challenge ==> forall|i: int|
            0 <= i < children.len() ==> (#[trigger] children[i]).challenge() == challenge,
        0 <= pos,
        pos + children_bytes(children, n, write_challenge).len() <= bytes.len(),
        bytes.subrange(pos, pos + children_bytes(children, n, write_challenge).len())
            == children_bytes(children, n, write_challenge),
    ensures
        parse_children(
            items,
            n,
            bytes,
            pos,
            if write_challenge {
                None
            } else {
                Some(challenge)
            },
        ) == Ok::<(Seq<SigNode>, int), SigParsingError>(
            (children.subrange(0, n), pos + children_bytes(children, n, write_challenge).len()),
        ),
    decreases items, n,
{
    if n == 0 {
        assert(children.subrange(0, 0) =~= Seq::<SigNode>::empty());
    } else {
        let before = children_bytes(children, n - 1, write_challenge);
        let this = sig_bytes(children[n - 1], write_challenge);
        assert(children_bytes(children, n, write_challenge) == before + this);
        lemma_subrange_parts(bytes, pos, before, this);
        lemma_children_round_trip(items, children, n - 1, write_challenge, challenge, bytes, pos);
        assert(conforms(children[n - 1], items[n - 1]));
        assert(items[n - 1].wf());
        lemma_sig_round_trip(
            items[n - 1],
            children[n - 1],
            write_challenge,
            bytes,
            pos + before.len(),
        );
        assert(children.subrange(0, n - 1).push(children[n - 1]) =~= children.subrange(0, n));
    }
}

/// A proof of a proposition, serialized and parsed along that proposition,
/// is the same proof.
pub proof fn lemma_proof_round_trip(prop: SigmaBoolean, tree: UncheckedTree, sig: ProofBytes)
    requires
        prop.wf(),
        tree@ matches Some(node) ==> conforms(node, prop),
        match spec_serialize_sig(tree) {
            None => sig is Empty,
            Some(b) => sig matches ProofBytes::Bytes(data) && data@ == b,
        },
    ensures
        spec_parse_sig(prop, sig) == Ok::<Option<SigNode>, SigParsingError>(tree@),
{
    match tree {
        UncheckedTree::NoProof => {},
        UncheckedTree::UncheckedSigmaTree(t) => {
            let b = sig_bytes(t@, true);
            assert(b.subrange(0, b.len() as int) =~= b);
            lemma_sig_round_trip(prop, t@, true, b, 0);
        },
    }
}

/// The leaf of a proof tree for the public key `pk`, with challenge `c` and
/// response `z`.
pub open spec fn schnorr_leaf(pk: Seq<u8>, c: Seq<u8>, z: Seq<u8>) -> SigNode {
    SigNode::Schnorr { proposition: pk, commitment: None, challenge: c, z }
}

/// `prop` is the statement of knowledge of the discrete logarithm of `pk`.
pub open spec fn is_dlog_of(prop: SigmaBoolean, pk: Seq<u8>) -> bool {
    prop matches SigmaBoolean::ProofOfKnowledge(SigmaProofOfKnowledgeTree::ProveDlog(dl)) && dl.h@
        == pk
}

/// An AND of two leaves under the challenge `c` is written as `c`, then the
/// two responses: the challenge stands there once. Read back along the
/// proposition, both leaves have the challenge `c`.
pub proof fn lemma_cand_two_leaves(
    prop: SigmaBoolean,
    pk1: Seq<u8>,
    pk2: Seq<u8>,
    c: Seq<u8>,
    z1: Seq<u8>,
    z2: Seq<u8>,
)
    requires
        prop.wf(),
        prop matches SigmaBoolean::SigmaConjecture(SigmaConjecture::Cand { items })
            && items@.len() == 2 && is_dlog_of(items@[0], pk1) && is_dlog_of(items@[1], pk2),
        c.len() == 24,
        is_scalar_encoding(z1),
        is_scalar_encoding(z2),
    ensures
        ({
            let node = SigNode::Cand {
                challenge: c,
                children: seq![schnorr_leaf(pk1, c, z1), schnorr_leaf(pk2, c, z2)],
            };
            &&& sig_bytes(node, true) == c + z1 + z2
            &&& parse_node(prop, c + z1 + z2, 0, None) == Ok::<(SigNode, int), SigParsingError>(
                (node, 88),
            )
        }),
{
    let children = seq![schnorr_leaf(pk1, c, z1), schnorr_leaf(pk2, c, z2)];
    let node = SigNode::Cand { challenge: c, children };
    let bytes = c + z1 + z2;
    reveal_with_fuel(children_bytes, 3);
    assert(sig_bytes(children[0], false) =~= z1);
    assert(sig_bytes(children[1], false) =~= z2);
    assert(children_bytes(children, 2, false) =~= z1 + z2);
    assert(sig_bytes(node, true) =~= bytes);
    let items = prop->SigmaConjecture_0->Cand_items;
    assert(conforms(children[0], items@[0]));
    assert(conforms(children[1], items@[1]));
    assert(conforms(node, prop));
    assert(bytes.subrange(0, bytes.len() as int) =~= bytes);
    lemma_sig_round_trip(prop, node, true, bytes, 0);
}

/// An OR of two leaves under the challenge `c`, the first with the challenge
/// `c1`, is written as `c`, `c1` and the two responses: the second leaf's
/// challenge is not written. Read back along the proposition, the second
/// leaf has the challenge `c xor c1`, so that the two leaves' challenges XOR
/// to `c`, and `c` with both of them to zero.
pub proof fn lemma_cor_two_leaves(
    prop: SigmaBoolean,
    pk1: Seq<u8>,
    pk2: Seq<u8>,
    c: Seq<u8>,
    c1: Seq<u8>,
    z1: Seq<u8>,
    z2: Seq<u8>,
)
    requires
        prop.wf(),
        prop matches SigmaBoolean::SigmaConjecture(SigmaConjecture::Cor { items })
            && items@.len() == 2 && is_dlog_of(items@[0], pk1) && is_dlog_of(items@[1], pk2),
        c.len() == 24,
        c1.len() == 24,
        is_scalar_encoding(z1),
        is_scalar_encoding(z2),
    ensures
        ({
            let c2 = spec_xor(c, c1);
            let node = SigNode::Cor {
                challenge: c,
                children: seq![schnorr_leaf(pk1, c1, z1), schnorr_leaf(pk2, c2, z2)],
            };
            &&& sig_bytes(node, true) == c + c1 + z1 + z2
            &&& parse_node(prop, c + c1 + z1 + z2, 0, None) == Ok::<
                (SigNode, int),
                SigParsingError,
            >((node, 112))
            &&& spec_xor(c1, c2) == c
            &&& spec_xor(spec_xor(c, c1), c2) == Seq::new(24, |i: int| 0u8)
        }),
{
    let c2 = spec_xor(c, c1);
    let children = seq![schnorr_leaf(pk1, c1, z1), schnorr_leaf(pk2, c2, z2)];
    let node = SigNode::Cor { challenge: c, children };
    let bytes = c + c1 + z1 + z2;
    reveal_with_fuel(children_bytes, 3);
    reveal_with_fuel(xor_challenges, 3);
    assert(sig_bytes(children[0], true) =~= c1 + z1);
    assert(sig_bytes(children[1], false) =~= z2);
    assert(children_bytes(children, 1, true) =~= c1 + z1);
    assert(sig_bytes(node, true) =~= bytes);
    assert(children.drop_last() =~= seq![schnorr_leaf(pk1, c1, z1)]);
    assert(children.drop_last().drop_last() =~= Seq::<SigNode>::empty());
    assert(xor_challenges(c, children.drop_last()) == c2);
    let items = prop->SigmaConjecture_0->Cor_items;
    assert(conforms(children[0], items@[0]));
    assert(conforms(children[1], items@[1]));
    assert(conforms(node, prop));
    assert(bytes.subrange(0, bytes.len() as int) =~= bytes);
    lemma_sig_round_trip(prop, node, true, bytes, 0);
    lemma_xor_cancels(c, c1);
    lemma_xor_cancels(c1, c);
    lemma_xor_self(c2);
}

/// A value XORed with itself is zero.
pub proof fn lemma_xor_self(a: Seq<u8>)
    ensures
        spec_xor(a, a) == Seq::new(a.len(), |i: int| 0u8),
{
    assert forall|i: int| 0 <= i < a.len() implies a[i] ^ a[i] == 0u8 by {
        let x = a[i];
        assert(x ^ x == 0u8) by (bit_vector);
    }
    assert(spec_xor(a, a) =~= Seq::new(a.len(), |i: int| 0u8));
}

/// A node that was read has the challenge that it was handed.
pub proof fn lemma_given_challenge_is_kept(
    prop: SigmaBoolean,
    bytes: Seq<u8>,
    pos: int,
    c: Seq<u8>,
)
    ensures
        parse_node(prop, bytes, pos, Some(c)) matches Ok((node, _)) ==> node.challenge() == c,
{
}

/// In every OR node that was read, the challenges of all the children XOR
/// to the node's challenge: the node's challenge combined with all of
/// theirs is zero.
pub proof fn lemma_cor_challenges_cancel(
    prop: SigmaBoolean,
    bytes: Seq<u8>,
    pos: int,
    given: Option<Seq<u8>>,
)
    requires
        prop.wf(),
        prop is SigmaConjecture,
        prop->SigmaConjecture_0 is Cor,
    ensures
        parse_node(prop, bytes, pos, given) matches Ok((node, _)) ==> node matches SigNode::Cor {
            challenge,
            children,
        } && children.len() > 0 && xor_challenges(challenge, children) == Seq::new(
            challenge.len(),
            |i: int| 0u8,
        ) && children.last().challenge() == xor_challenges(challenge, children.drop_last()),
{
    if parse_node(prop, bytes, pos, given) is Ok {
        let node = parse_node(prop, bytes, pos, given)->Ok_0.0;
        let items = prop->SigmaConjecture_0->Cor_items;
        let challenge = node.challenge();
        let at = if given is None {
            pos + 24
        } else {
            pos
        };
        let first = parse_children(items@, items@.len() - 1, bytes, at, None)->Ok_0.0;
        let mid = parse_children(items@, items@.len() - 1, bytes, at, None)->Ok_0.1;
        let derived = xor_challenges(challenge, first);
        lemma_given_challenge_is_kept(items@.last(), bytes, mid, derived);
        let last = parse_node(items@.last(), bytes, mid, Some(derived))->Ok_0.0;
        let children = first.push(last);
        assert(children.drop_last() =~= first);
        lemma_xor_width(challenge, first);
        lemma_xor_self(derived);
    }
}

/// Combining challenges keeps the width of the first.
pub proof fn lemma_xor_width(acc: Seq<u8>, nodes: Seq<SigNode>)
    ensures
        xor_challenges(acc, nodes).len() == acc.len(),
    decreases nodes.len(),
{
    if nodes.len() > 0 {
        lemma_xor_width(acc, nodes.drop_last());
    }
}

/// A trivial proposition stands somewhere in `prop`.
pub open spec fn has_trivial(prop: SigmaBoolean) -> bool
    decreases prop,
{
    match prop {
        SigmaBoolean::TrivialProp(_) => true,
        SigmaBoolean::ProofOfKnowledge(_) => false,
        SigmaBoolean::SigmaConjecture(SigmaConjecture::Cand { items }) => exists|i: int|
            #![trigger items@[i]]
            0 <= i < items@.len() && has_trivial(items@[i]),
        SigmaBoolean::SigmaConjecture(SigmaConjecture::Cor { items }) => exists|i: int|
            #![trigger items@[i]]
            0 <= i < items@.len() && has_trivial(items@[i]),
    }
}

/// A Diffie-Hellman tuple stands somewhere in `prop`.
pub open spec fn has_dh_tuple(prop: SigmaBoolean) -> bool
    decreases prop,
{
    match prop {
        SigmaBoolean::TrivialProp(_) => false,
        SigmaBoolean::ProofOfKnowledge(SigmaProofOfKnowledgeTree::ProveDhTuple(_)) => true,
        SigmaBoolean::ProofOfKnowledge(SigmaProofOfKnowledgeTree::ProveDlog(_)) => false,
        SigmaBoolean::SigmaConjecture(SigmaConjecture::Cand { items }) => exists|i: int|
            #![trigger items@[i]]
            0 <= i < items@.len() && has_dh_tuple(items@[i]),
        SigmaBoolean::SigmaConjecture(SigmaConjecture::Cor { items }) => exists|i: int|
            #![trigger items@[i]]
            0 <= i < items@.len() && has_dh_tuple(items@[i]),
    }
}

/// The number of bytes of a proof of `prop`: 24 for each challenge that is
/// written, 32 for each response. A node that cannot be proved counts for
/// its challenge alone.
pub open spec fn proof_len(prop: SigmaBoolean, with_challenge: bool) -> int
    decreases prop, 0int,
{
    (if with_challenge {
        24int
    } else {
        0int
    }) + match prop {
        SigmaBoolean::TrivialProp(_) => 0,
        SigmaBoolean::ProofOfKnowledge(SigmaProofOfKnowledgeTree::ProveDhTuple(_)) => 0,
        SigmaBoolean::ProofOfKnowledge(SigmaProofOfKnowledgeTree::ProveDlog(_)) => 32,
        SigmaBoolean::SigmaConjecture(SigmaConjecture::Cand { items }) => children_len(
            items@,
            items@.len() as int,
            false,
        ),
        SigmaBoolean::SigmaConjecture(SigmaConjecture::Cor { items }) => if items@.len() == 0 {
            0
        } else {
            children_len(items@, items@.len() - 1, true) + proof_len(items@.last(), false)
        },
    }
}

/// The number of bytes of the proofs of the first `n` of `items`.
pub open spec fn children_len(items: Seq<SigmaBoolean>, n: int, with_challenge: bool) -> int
    decreases items, n,
{
    if n <= 0 || n > items.len() {
        0
    } else {
        children_len(items, n - 1, with_challenge) + proof_len(items[n - 1], with_challenge)
    }
}

/// The failure is a short read: the bytes ended before a challenge or a
/// response did.
pub open spec fn is_short_read(e: SigParsingError) -> bool {
    e == SigParsingError::IoError || e == SigParsingError::SerializationError(
        SerializationError::UnexpectedEof,
    )
}

/// What the outcome of reading a node says of the proposition and of the
/// bytes. A tree comes only of a proposition without trivial propositions
/// and Diffie-Hellman tuples, and takes exactly the proof's length. A short
/// read comes only where fewer bytes are left than that length. The two
/// other failures come only of a proposition that holds their cause.
pub open spec fn outcome_is_justified(
    prop: SigmaBoolean,
    bytes: Seq<u8>,
    pos: int,
    with_challenge: bool,
    outcome: Result<(SigNode, int), SigParsingError>,
) -> bool {
    match outcome {
        Ok((_, end)) => !has_trivial(prop) && !has_dh_tuple(prop) && end == pos + proof_len(
            prop,
            with_challenge,
        ) && end <= bytes.len(),
        Err(e) => match e {
            SigParsingError::IoError => bytes.len() - pos < proof_len(prop, with_challenge),
            SigParsingError::SerializationError(s) => s == SerializationError::UnexpectedEof
                && bytes.len() - pos < proof_len(prop, with_challenge),
            SigParsingError::InvariantViolation => has_trivial(prop),
            SigParsingError::NotSupported => has_dh_tuple(prop),
        },
    }
}

/// The outcome of reading a node is justified, whatever the proposition and
/// the bytes.
pub proof fn lemma_parse_outcome(
    prop: SigmaBoolean,
    bytes: Seq<u8>,
    pos: int,
    given: Option<Seq<u8>>,
)
    requires
        prop.wf(),
        0 <= pos <= bytes.len(),
    ensures
        outcome_is_justified(prop, bytes, pos, given is None, parse_node(prop, bytes, pos, given)),
        proof_len(prop, given is None) >= 0,
    decreases prop, 0int,
{
    let with_challenge = given is None;
    let at = if given is None {
        pos + 24
    } else {
        pos
    };
    match prop {
        SigmaBoolean::SigmaConjecture(SigmaConjecture::Cand { items }) => {
            let n = items@.len() as int;
            if given is None && bytes.len() - pos < 24 {
                lemma_children_outcome(items@, n, bytes, pos, Some(Seq::<u8>::empty()));
            } else {
                let challenge = match given {
                    Some(c) => c,
                    None => bytes.subrange(pos, pos + 24),
                };
                lemma_children_outcome(items@, n, bytes, at, Some(challenge));
            }
        },
        SigmaBoolean::SigmaConjecture(SigmaConjecture::Cor { items }) => {
            let n = items@.len() - 1;
            assert(items@[n].wf());
            if given is None && bytes.len() - pos < 24 {
                lemma_children_outcome(items@, n, bytes, pos, None);
                lemma_parse_outcome(items@.last(), bytes, pos, Some(Seq::<u8>::empty()));
            } else {
                let challenge = match given {
                    Some(c) => c,
                    None => bytes.subrange(pos, pos + 24),
                };
                lemma_children_outcome(items@, n, bytes, at, None);
                match parse_children(items@, n, bytes, at, None) {
                    Ok((first, mid)) => {
                        let derived = xor_challenges(challenge, first);
                        lemma_parse_outcome(items@.last(), bytes, mid, Some(derived));
                        if has_trivial(prop) {
                            let i = choose|i: int|
                                #![trigger items@[i]]
                                0 <= i < items@.len() && has_trivial(items@[i]);
                            assert(i == n || i < n);
                        }
                        if has_dh_tuple(prop) {
                            let i = choose|i: int|
                                #![trigger items@[i]]
                                0 <= i < items@.len() && has_dh_tuple(items@[i]);
                            assert(i == n || i < n);
                        }
                    },
                    Err(e) => {
                        lemma_parse_outcome(items@.last(), bytes, pos, Some(Seq::<u8>::empty()));
                    },
                }
            }
        },
        _ => {},
    }
}

/// What the outcome of reading the first `n` children says of their
/// propositions and of the bytes.
pub open spec fn children_outcome_is_justified(
    items: Seq<SigmaBoolean>,
    n: int,
    bytes: Seq<u8>,
    pos: int,
    with_challenge: bool,
    outcome: Result<(Seq<SigNode>, int), SigParsingError>,
) -> bool {
    match outcome {
        Ok((nodes, end)) => {
            &&& nodes.len() == n
            &&& forall|i: int|
                #![trigger items[i]]
                0 <= i < n ==> !has_trivial(items[i]) && !has_dh_tuple(items[i])
            &&& end == pos + children_len(items, n, with_challenge)
            &&& end <= bytes.len()
        },
        Err(e) => match e {
            SigParsingError::IoError => bytes.len() - pos < children_len(items, n, with_challenge),
            SigParsingError::SerializationError(s) => s == SerializationError::UnexpectedEof
                && bytes.len() - pos < children_len(items, n, with_challenge),
            SigParsingError::InvariantViolation => exists|i: int|
                #![trigger items[i]]
                0 <= i < n && has_trivial(items[i]),
            SigParsingError::NotSupported => exists|i: int|
                #![trigger items[i]]
                0 <= i < n && has_dh_tuple(items[i]),
        },
    }
}

/// The outcome of reading the first `n` children is justified.
pub proof fn lemma_children_outcome(
    items: Seq<SigmaBoolean>,
    n: int,
    bytes: Seq<u8>,
    pos: int,
    given: Option<Seq<u8>>,
)
    requires
        forall|i: int| #![trigger items[i]] 0 <= i < items.len() ==> items[i].wf(),
        0 <= n <= items.len(),
        0 <= pos <= bytes.len(),
    ensures
        children_outcome_is_justified(
            items,
            n,
            bytes,
            pos,
            given is None,
            parse_children(items, n, bytes, pos, given),
        ),
        children_len(items, n, given is None) >= 0,
    decreases items, n,
{
    if n > 0 {
        lemma_children_outcome(items, n - 1, bytes, pos, given);
        assert(items[n - 1].wf());
        match parse_children(items, n - 1, bytes, pos, given) {
            Ok((before, at)) => {
                lemma_parse_outcome(items[n - 1], bytes, at, given);
            },
            Err(e) => {
                lemma_parse_outcome(items[n - 1], bytes, pos, given);
            },
        }
    }
}

/// Reading a node gives a tree exactly where the proposition holds no
/// trivial proposition and no Diffie-Hellman tuple and the bytes are as
/// many as its proof has. With fewer bytes, such a proposition gives a short
/// read: a truncated proof is never read as a proof.
pub proof fn lemma_parse_succeeds_iff(
    prop: SigmaBoolean,
    bytes: Seq<u8>,
    pos: int,
    given: Option<Seq<u8>>,
)
    requires
        prop.wf(),
        0 <= pos <= bytes.len(),
    ensures
        parse_node(prop, bytes, pos, given) is Ok <==> !has_trivial(prop) && !has_dh_tuple(prop)
            && bytes.len() - pos >= proof_len(prop, given is None),
        !has_trivial(prop) && !has_dh_tuple(prop) && bytes.len() - pos < proof_len(
            prop,
            given is None,
        ) ==> (parse_node(prop, bytes, pos, given) matches Err(e) && is_short_read(e)),
{
    lemma_parse_outcome(prop, bytes, pos, given);
}

/// A proof with bytes missing at its end is not read as a proof: reading it
/// along its proposition fails with a short read.
pub proof fn lemma_truncated_proof_fails(prop: SigmaBoolean, node: SigNode, keep: int)
    requires
        prop.wf(),
        conforms(node, prop),
        0 <= keep < sig_bytes(node, true).len(),
    ensures
        parse_node(prop, sig_bytes(node, true).subrange(0, keep), 0, None) matches Err(e)
            && is_short_read(e),
{
    let whole = sig_bytes(node, true);
    assert(whole.subrange(0, whole.len() as int) =~= whole);
    lemma_sig_round_trip(prop, node, true, whole, 0);
    lemma_parse_outcome(prop, whole, 0, None);
    lemma_parse_outcome(prop, whole.subrange(0, keep), 0, None);
}

/// A proposition that holds a trivial proposition is never read into a
/// tree. Where it holds no Diffie-Hellman tuple and the bytes do not run
/// out, the failure is the invariant violation.
pub proof fn lemma_trivial_prop_never_parses(
    prop: SigmaBoolean,
    bytes: Seq<u8>,
    pos: int,
    given: Option<Seq<u8>>,
)
    requires
        prop.wf(),
        0 <= pos <= bytes.len(),
        has_trivial(prop),
    ensures
        parse_node(prop, bytes, pos, given) is Err,
        !has_dh_tuple(prop) && bytes.len() - pos >= proof_len(prop, given is None) ==> parse_node(
            prop,
            bytes,
            pos,
            given,
        ) == Err::<(SigNode, int), SigParsingError>(SigParsingError::InvariantViolation),
{
    lemma_parse_outcome(prop, bytes, pos, given);
}

/// A proposition that holds a Diffie-Hellman tuple is never read into a
/// tree. Where it holds no trivial proposition and the bytes do not run
/// out, the failure is that the tuple is not supported.
pub proof fn lemma_dh_tuple_never_parses(
    prop: SigmaBoolean,
    bytes: Seq<u8>,
    pos: int,
    given: Option<Seq<u8>>,
)
    requires
        prop.wf(),
        0 <= pos <= bytes.len(),
        has_dh_tuple(prop),
    ensures
        parse_node(prop, bytes, pos, given) is Err,
        !has_trivial(prop) && bytes.len() - pos >= proof_len(prop, given is None) ==> parse_node(
            prop,
            bytes,
            pos,
            given,
        ) == Err::<(SigNode, int), SigParsingError>(SigParsingError::NotSupported),
{
    lemma_parse_outcome(prop, bytes, pos, given);
}

/// What was read along a proposition is a proof tree of that proposition,
/// with the challenge that the reader was handed, if it was handed one. So
/// a tree that was read, written and read again is the same tree.
pub proof fn lemma_parsed_conforms(
    prop: SigmaBoolean,
    bytes: Seq<u8>,
    pos: int,
    given: Option<Seq<u8>>,
)
    requires
        prop.wf(),
        0 <= pos <= bytes.len(),
        given matches Some(c) ==> c.len() == 24,
    ensures
        parse_node(prop, bytes, pos, given) matches Ok((node, end)) ==> conforms(node, prop)
            && pos <= end <= bytes.len() && node.challenge().len() == 24 && (given matches Some(c)
            ==> node.challenge() == c),
    decreases prop, 0int,
{
    if parse_node(prop, bytes, pos, given) is Ok {
        let challenge = match given {
            Some(c) => c,
            None => bytes.subrange(pos, pos + 24),
        };
        let at = if given is None {
            pos + 24
        } else {
            pos
        };
        match prop {
            SigmaBoolean::ProofOfKnowledge(SigmaProofOfKnowledgeTree::ProveDlog(_)) => {
                lemma_reduced_is_canonical(bytes.subrange(at, at + 32));
            },
            SigmaBoolean::SigmaConjecture(SigmaConjecture::Cand { items }) => {
                lemma_children_conform(items@, items@.len() as int, bytes, at, Some(challenge));
            },
            SigmaBoolean::SigmaConjecture(SigmaConjecture::Cor { items }) => {
                let n = items@.len() - 1;
                lemma_children_conform(items@, n, bytes, at, None);
                let first = parse_children(items@, n, bytes, at, None)->Ok_0.0;
                let mid = parse_children(items@, n, bytes, at, None)->Ok_0.1;
                let derived = xor_challenges(challenge, first);
                lemma_xor_width(challenge, first);
                assert(items@[n].wf());
                lemma_parsed_conforms(items@.last(), bytes, mid, Some(derived));
                let last = parse_node(items@.last(), bytes, mid, Some(derived))->Ok_0.0;
                let children = first.push(last);
                assert(children.drop_last() =~= first);
                assert forall|i: int|
                    #![trigger items@[i]]
                    #![trigger children[i]]
                    0 <= i < items@.len() implies conforms(children[i], items@[i]) by {
                    if i < n {
                        assert(children[i] == first[i]);
                    }
                }
            },
            _ => {},
        }
    }
}

/// The children that were read are proof trees of their propositions.
pub proof fn lemma_children_conform(
    items: Seq<SigmaBoolean>,
    n: int,
    bytes: Seq<u8>,
    pos: int,
    given: Option<Seq<u8>>,
)
    requires
        forall|i: int| #![trigger items[i]] 0 <= i < items.len() ==> items[i].wf(),
        0 <= n <= items.len(),
        0 <= pos <= bytes.len(),
        given matches Some(c) ==> c.len() == 24,
    ensures
        parse_children(items, n, bytes, pos, given) matches Ok((nodes, end)) ==> {
            &&& nodes.len() == n
            &&& pos <= end <= bytes.len()
            &&& forall|i: int|
                #![trigger items[i]]
                #![trigger nodes[i]]
                0 <= i < n ==> conforms(nodes[i], items[i]) && (given matches Some(c)
                    ==> nodes[i].challenge() == c)
        },
    decreases items, n,
{
    if n > 0 && parse_children(items, n, bytes, pos, given) is Ok {
        lemma_children_conform(items, n - 1, bytes, pos, given);
        let before = parse_children(items, n - 1, bytes, pos, given)->Ok_0.0;
        let at = parse_children(items, n - 1, bytes, pos, given)->Ok_0.1;
        assert(items[n - 1].wf());
        lemma_parsed_conforms(items[n - 1], bytes, at, given);
        let node = parse_node(items[n - 1], bytes, at, given)->Ok_0.0;
        let nodes = before.push(node);
        assert forall|i: int|
            #![trigger items[i]]
            #![trigger nodes[i]]
            0 <= i < n implies conforms(nodes[i], items[i]) && (given matches Some(c)
            ==> nodes[i].challenge() == c) by {
            if i < n - 1 {
                assert(nodes[i] == before[i]);
            }
        }
    }
}

} // verus!
