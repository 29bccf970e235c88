use sigma_protocol::challenge::{Challenge, SOUNDNESS_BYTES};
use sigma_protocol::dlog_group::{generator, identity, EcPoint, Scalar};
use sigma_protocol::serialization::SerializationError;
use sigma_protocol::sig_serializer::{
    parse_sig_compute_challenges, parse_sig_compute_challnges_reader, serialize_sig,
    sig_write_bytes, verify, ChallengeSource, SigParsingError,
};
use sigma_protocol::sigma_boolean::{
    ProveDhTuple, ProveDlog, SigmaBoolean, SigmaConjecture, SigmaProofOfKnowledgeTree,
};
use sigma_protocol::unchecked_tree::{
    ProofBytes, SecondDlogProverMessage, UncheckedConjecture, UncheckedLeaf, UncheckedSchnorr,
    UncheckedSigmaTree, UncheckedTree,
};

fn challenge(fill: u8) -> Challenge {
    Challenge::from_bytes(&vec![fill; 24]).unwrap()
}

fn scalar(fill: u8) -> Scalar {
    Scalar::from_bytes(&vec![fill; 32]).unwrap()
}

fn key(n: u8) -> EcPoint {
    let mut p = generator();
    for _ in 0..n {
        p = p.mul(&generator());
    }
    p
}

fn dlog(pk: EcPoint) -> SigmaBoolean {
    SigmaBoolean::ProofOfKnowledge(SigmaProofOfKnowledgeTree::ProveDlog(ProveDlog::new(pk)))
}

fn dht() -> SigmaBoolean {
    SigmaBoolean::ProofOfKnowledge(SigmaProofOfKnowledgeTree::ProveDhTuple(ProveDhTuple {
        g: generator(),
        h: key(1),
        u: key(2),
        v: key(3),
    }))
}

fn cand(items: Vec<SigmaBoolean>) -> SigmaBoolean {
    SigmaBoolean::SigmaConjecture(SigmaConjecture::Cand { items })
}

fn cor(items: Vec<SigmaBoolean>) -> SigmaBoolean {
    SigmaBoolean::SigmaConjecture(SigmaConjecture::Cor { items })
}

fn leaf(pk: EcPoint, c: Challenge, z: Scalar) -> UncheckedSigmaTree {
    UncheckedSigmaTree::UncheckedLeaf(UncheckedLeaf::UncheckedSchnorr(UncheckedSchnorr {
        proposition: ProveDlog::new(pk),
        commitment_opt: None,
        challenge: c,
        second_message: SecondDlogProverMessage { z },
    }))
}

fn cand_node(c: Challenge, children: Vec<UncheckedSigmaTree>) -> UncheckedSigmaTree {
    UncheckedSigmaTree::UncheckedConjecture(UncheckedConjecture::CandUnchecked {
        challenge: c,
        children,
    })
}

fn cor_node(c: Challenge, children: Vec<UncheckedSigmaTree>) -> UncheckedSigmaTree {
    UncheckedSigmaTree::UncheckedConjecture(UncheckedConjecture::CorUnchecked {
        challenge: c,
        children,
    })
}

fn concat(parts: &[Vec<u8>]) -> Vec<u8> {
    let mut out = Vec::new();
    for p in parts {
        out.extend_from_slice(p);
    }
    out
}

fn bytes_of(p: ProofBytes) -> Vec<u8> {
    match p {
        ProofBytes::Bytes(b) => b,
        ProofBytes::Empty => panic!("no proof bytes"),
    }
}

#[test]
fn challenge_width() {
    assert_eq!(SOUNDNESS_BYTES, 24);
    assert_eq!(Challenge::from_bytes(&vec![1u8; 23]), None);
    assert_eq!(Challenge::from_bytes(&vec![1u8; 25]), None);
    assert_eq!(challenge(3).to_bytes(), vec![3u8; 24]);
}

#[test]
fn challenge_xor() {
    let a = challenge(0b1100);
    let b = challenge(0b1010);
    assert_eq!(a.copy().xor(b.copy()).to_bytes(), vec![0b0110u8; 24]);
    assert_eq!(a.copy().xor(b.copy()).xor(b), a);
    assert!(a.same(&a.copy()));
}

#[test]
fn challenge_serialize_and_parse() {
    let mut w = vec![1u8];
    challenge(7).sigma_serialize(&mut w);
    assert_eq!(w, concat(&[vec![1u8], vec![7u8; 24]]));
    assert_eq!(Challenge::sigma_parse(&w, 1), Ok((challenge(7), 25)));
    assert_eq!(Challenge::sigma_parse(&w, 2), Err(SerializationError::UnexpectedEof));
}

#[test]
fn no_proof_is_empty() {
    assert_eq!(serialize_sig(UncheckedTree::NoProof), ProofBytes::Empty);
}

#[test]
fn empty_parses_to_no_proof() {
    assert_eq!(parse_sig_compute_challenges(&dlog(key(0)), ProofBytes::Empty), Ok(UncheckedTree::NoProof));
    assert_eq!(
        parse_sig_compute_challenges(&SigmaBoolean::TrivialProp(true), ProofBytes::Empty),
        Ok(UncheckedTree::NoProof)
    );
    assert_eq!(parse_sig_compute_challenges(&dht(), ProofBytes::Empty), Ok(UncheckedTree::NoProof));
    assert_eq!(
        parse_sig_compute_challenges(&cor(vec![dlog(key(0)), dlog(key(1))]), ProofBytes::Empty),
        Ok(UncheckedTree::NoProof)
    );
}

#[test]
fn single_leaf() {
    let tree = leaf(key(0), challenge(9), scalar(4));
    let bytes = bytes_of(serialize_sig(UncheckedTree::UncheckedSigmaTree(tree)));
    assert_eq!(bytes, concat(&[vec![9u8; 24], vec![4u8; 32]]));
    assert_eq!(
        parse_sig_compute_challenges(&dlog(key(0)), ProofBytes::Bytes(bytes)),
        Ok(UncheckedTree::UncheckedSigmaTree(leaf(key(0), challenge(9), scalar(4))))
    );
}

#[test]
fn leaf_response_is_reduced() {
    let bytes = concat(&[vec![9u8; 24], vec![0xFFu8; 32]]);
    let expected = leaf(key(0), challenge(9), scalar(0xFF));
    assert_eq!(
        parse_sig_compute_challenges(&dlog(key(0)), ProofBytes::Bytes(bytes)),
        Ok(UncheckedTree::UncheckedSigmaTree(expected))
    );
    assert_ne!(scalar(0xFF).to_bytes(), vec![0xFFu8; 32]);
}

#[test]
fn cand_two_leaves() {
    let c = challenge(0x11);
    let tree = cand_node(
        c.copy(),
        vec![leaf(key(0), c.copy(), scalar(1)), leaf(key(1), c.copy(), scalar(2))],
    );
    let bytes = bytes_of(serialize_sig(UncheckedTree::UncheckedSigmaTree(tree)));
    assert_eq!(bytes, concat(&[vec![0x11u8; 24], vec![1u8; 32], vec![2u8; 32]]));
    let prop = cand(vec![dlog(key(0)), dlog(key(1))]);
    let parsed = parse_sig_compute_challenges(&prop, ProofBytes::Bytes(bytes)).unwrap();
    let expected = cand_node(
        c.copy(),
        vec![leaf(key(0), c.copy(), scalar(1)), leaf(key(1), c.copy(), scalar(2))],
    );
    assert_eq!(parsed, UncheckedTree::UncheckedSigmaTree(expected));
}

#[test]
fn cor_two_leaves() {
    let c = challenge(0xF0);
    let c1 = challenge(0x3C);
    let c2 = c.copy().xor(c1.copy());
    assert_eq!(c2.to_bytes(), vec![0xCCu8; 24]);
    let tree = cor_node(
        c.copy(),
        vec![leaf(key(0), c1.copy(), scalar(1)), leaf(key(1), c2.copy(), scalar(2))],
    );
    let bytes = bytes_of(serialize_sig(UncheckedTree::UncheckedSigmaTree(tree)));
    assert_eq!(bytes, concat(&[vec![0xF0u8; 24], vec![0x3Cu8; 24], vec![1u8; 32], vec![2u8; 32]]));
    let prop = cor(vec![dlog(key(0)), dlog(key(1))]);
    let parsed = parse_sig_compute_challenges(&prop, ProofBytes::Bytes(bytes)).unwrap();
    let expected = cor_node(
        c.copy(),
        vec![leaf(key(0), c1.copy(), scalar(1)), leaf(key(1), c2.copy(), scalar(2))],
    );
    assert_eq!(parsed, UncheckedTree::UncheckedSigmaTree(expected));
    assert_eq!(c1.copy().xor(c2.copy()), c);
    assert_eq!(c.copy().xor(c1).xor(c2), challenge(0));
}

#[test]
fn cor_three_leaves_derives_last_challenge() {
    let bytes = concat(&[
        vec![0x01u8; 24],
        vec![0x02u8; 24],
        vec![5u8; 32],
        vec![0x04u8; 24],
        vec![6u8; 32],
        vec![7u8; 32],
    ]);
    let prop = cor(vec![dlog(key(0)), dlog(key(1)), dlog(key(2))]);
    let parsed = parse_sig_compute_challenges(&prop, ProofBytes::Bytes(bytes.clone())).unwrap();
    let expected = cor_node(
        challenge(1),
        vec![
            leaf(key(0), challenge(2), scalar(5)),
            leaf(key(1), challenge(4), scalar(6)),
            leaf(key(2), challenge(7), scalar(7)),
        ],
    );
    assert_eq!(parsed, UncheckedTree::UncheckedSigmaTree(expected));
    assert_eq!(bytes_of(serialize_sig(parsed)), bytes);
}

#[test]
fn nested_tree_round_trip() {
    let c = challenge(0x55);
    let c1 = challenge(0x0F);
    let c2 = c.copy().xor(c1.copy());
    let tree = cand_node(
        c.copy(),
        vec![
            leaf(key(0), c.copy(), scalar(1)),
            cor_node(
                c.copy(),
                vec![leaf(key(1), c1.copy(), scalar(2)), leaf(key(2), c2.copy(), scalar(3))],
            ),
        ],
    );
    let prop = cand(vec![dlog(key(0)), cor(vec![dlog(key(1)), dlog(key(2))])]);
    let bytes = bytes_of(serialize_sig(UncheckedTree::UncheckedSigmaTree(tree)));
    assert_eq!(
        bytes,
        concat(&[vec![0x55u8; 24], vec![1u8; 32], vec![0x0Fu8; 24], vec![2u8; 32], vec![3u8; 32]])
    );
    let parsed = parse_sig_compute_challenges(&prop, ProofBytes::Bytes(bytes.clone())).unwrap();
    assert_eq!(bytes_of(serialize_sig(parsed)), bytes);
}

#[test]
fn commitment_is_none_after_parsing() {
    let bytes = concat(&[vec![9u8; 24], vec![4u8; 32]]);
    match parse_sig_compute_challenges(&dlog(key(0)), ProofBytes::Bytes(bytes)) {
        Ok(UncheckedTree::UncheckedSigmaTree(UncheckedSigmaTree::UncheckedLeaf(
            UncheckedLeaf::UncheckedSchnorr(us),
        ))) => assert_eq!(us.commitment_opt, None),
        other => panic!("unexpected {:?}", other),
    }
}

#[test]
fn truncated_response_fails() {
    let bytes = concat(&[vec![0x11u8; 24], vec![1u8; 32], vec![2u8; 31]]);
    let prop = cand(vec![dlog(key(0)), dlog(key(1))]);
    assert_eq!(
        parse_sig_compute_challenges(&prop, ProofBytes::Bytes(bytes)),
        Err(SigParsingError::IoError)
    );
    let missing = concat(&[vec![0x11u8; 24], vec![1u8; 32]]);
    assert_eq!(
        parse_sig_compute_challenges(&prop, ProofBytes::Bytes(missing)),
        Err(SigParsingError::IoError)
    );
}

#[test]
fn truncated_challenge_fails() {
    let prop = cor(vec![dlog(key(0)), dlog(key(1))]);
    assert_eq!(
        parse_sig_compute_challenges(&prop, ProofBytes::Bytes(vec![1u8; 23])),
        Err(SigParsingError::SerializationError(SerializationError::UnexpectedEof))
    );
    assert_eq!(
        parse_sig_compute_challenges(&prop, ProofBytes::Bytes(vec![1u8; 30])),
        Err(SigParsingError::SerializationError(SerializationError::UnexpectedEof))
    );
    assert_eq!(
        parse_sig_compute_challenges(&prop, ProofBytes::Bytes(Vec::new())),
        Err(SigParsingError::SerializationError(SerializationError::UnexpectedEof))
    );
}

#[test]
fn trailing_bytes_are_ignored() {
    let bytes = concat(&[vec![9u8; 24], vec![4u8; 32], vec![0xEEu8; 3]]);
    assert_eq!(
        parse_sig_compute_challenges(&dlog(key(0)), ProofBytes::Bytes(bytes)),
        Ok(UncheckedTree::UncheckedSigmaTree(leaf(key(0), challenge(9), scalar(4))))
    );
}

#[test]
fn trivial_prop_is_an_invariant_violation() {
    let bytes = vec![1u8; 200];
    assert_eq!(
        parse_sig_compute_challenges(&SigmaBoolean::TrivialProp(true), ProofBytes::Bytes(bytes.clone())),
        Err(SigParsingError::InvariantViolation)
    );
    let prop = cand(vec![dlog(key(0)), SigmaBoolean::TrivialProp(false)]);
    assert_eq!(
        parse_sig_compute_challenges(&prop, ProofBytes::Bytes(bytes.clone())),
        Err(SigParsingError::InvariantViolation)
    );
    let prop = cor(vec![dlog(key(0)), SigmaBoolean::TrivialProp(false)]);
    assert_eq!(
        parse_sig_compute_challenges(&prop, ProofBytes::Bytes(bytes)),
        Err(SigParsingError::InvariantViolation)
    );
}

#[test]
fn dh_tuple_is_not_supported() {
    let bytes = vec![1u8; 200];
    assert_eq!(
        parse_sig_compute_challenges(&dht(), ProofBytes::Bytes(bytes.clone())),
        Err(SigParsingError::NotSupported)
    );
    let prop = cor(vec![dht(), dlog(key(0))]);
    assert_eq!(
        parse_sig_compute_challenges(&prop, ProofBytes::Bytes(bytes.clone())),
        Err(SigParsingError::NotSupported)
    );
    let prop = cand(vec![dlog(key(0)), cand(vec![dlog(key(1)), dht()])]);
    assert_eq!(
        parse_sig_compute_challenges(&prop, ProofBytes::Bytes(bytes)),
        Err(SigParsingError::NotSupported)
    );
}

#[test]
fn first_failure_wins() {
    let prop = cand(vec![SigmaBoolean::TrivialProp(true), dht()]);
    assert_eq!(
        parse_sig_compute_challenges(&prop, ProofBytes::Bytes(vec![1u8; 100])),
        Err(SigParsingError::InvariantViolation)
    );
    assert_eq!(
        parse_sig_compute_challenges(&prop, ProofBytes::Bytes(vec![1u8; 10])),
        Err(SigParsingError::SerializationError(SerializationError::UnexpectedEof))
    );
}

#[test]
fn write_without_challenge() {
    let mut w = vec![0xABu8];
    sig_write_bytes(&leaf(key(0), challenge(9), scalar(4)), &mut w, false);
    assert_eq!(w, concat(&[vec![0xABu8], vec![4u8; 32]]));
}

#[test]
fn reader_with_inherited_challenge() {
    let bytes = concat(&[vec![0u8; 2], vec![4u8; 32], vec![1u8]]);
    let got = parse_sig_compute_challnges_reader(
        &dlog(key(0)),
        &bytes,
        2,
        ChallengeSource::Inherit(challenge(8)),
    );
    assert_eq!(got, Ok((leaf(key(0), challenge(8), scalar(4)), 34)));
    let got = parse_sig_compute_challnges_reader(
        &dlog(key(0)),
        &bytes,
        2,
        ChallengeSource::DeriveFromSiblings(challenge(6)),
    );
    assert_eq!(got, Ok((leaf(key(0), challenge(6), scalar(4)), 34)));
}

#[test]
fn node_challenge() {
    assert_eq!(leaf(identity(), challenge(9), scalar(4)).challenge(), challenge(9));
    assert_eq!(cand_node(challenge(3), Vec::new()).challenge(), challenge(3));
    assert_eq!(cor_node(challenge(5), Vec::new()).challenge(), challenge(5));
}

#[test]
fn conjecture_with_fewer_than_two_children_fails() {
    let bytes = vec![1u8; 200];
    for prop in [cand(Vec::new()), cor(Vec::new()), cand(vec![dlog(key(0))]), cor(vec![dlog(key(0))])] {
        assert_eq!(
            parse_sig_compute_challenges(&prop, ProofBytes::Bytes(bytes.clone())),
            Err(SigParsingError::InvariantViolation)
        );
    }
}

#[test]
fn parsed_tree_round_trips() {
    let mut bytes = Vec::new();
    for i in 0..150u8 {
        bytes.push(i.wrapping_mul(7).wrapping_add(3) & 0x7F);
    }
    let prop = cor(vec![cand(vec![dlog(key(0)), dlog(key(1))]), dlog(key(2))]);
    let parsed = parse_sig_compute_challenges(&prop, ProofBytes::Bytes(bytes.clone())).unwrap();
    let written = bytes_of(serialize_sig(parsed));
    assert_eq!(written, bytes[..24 + 24 + 32 + 32 + 32].to_vec());
}

#[test]
fn every_truncation_fails() {
    let c = challenge(0x55);
    let c1 = challenge(0x0F);
    let c2 = c.copy().xor(c1.copy());
    let tree = cor_node(
        c.copy(),
        vec![leaf(key(1), c1.copy(), scalar(2)), leaf(key(2), c2.copy(), scalar(3))],
    );
    let prop = cor(vec![dlog(key(1)), dlog(key(2))]);
    let bytes = bytes_of(serialize_sig(UncheckedTree::UncheckedSigmaTree(tree)));
    assert_eq!(bytes.len(), 112);
    for keep in 0..bytes.len() {
        let got = parse_sig_compute_challenges(&prop, ProofBytes::Bytes(bytes[..keep].to_vec()));
        assert!(
            got == Err(SigParsingError::IoError)
                || got == Err(SigParsingError::SerializationError(SerializationError::UnexpectedEof))
        );
    }
    assert!(parse_sig_compute_challenges(&prop, ProofBytes::Bytes(bytes)).is_ok());
}

#[test]
fn proof_bytes_at_the_boundary() {
    assert_eq!(ProofBytes::from_bytes(Vec::new()), ProofBytes::Empty);
    assert_eq!(ProofBytes::from_bytes(vec![1u8, 2]), ProofBytes::Bytes(vec![1u8, 2]));
    assert_eq!(ProofBytes::Empty.to_bytes(), Vec::<u8>::new());
    assert_eq!(ProofBytes::Bytes(vec![3u8]).to_bytes(), vec![3u8]);
}

#[test]
fn verify_reads_the_proof() {
    let bytes = concat(&[vec![9u8; 24], vec![4u8; 32]]);
    assert_eq!(
        verify(&dlog(key(0)), bytes),
        Ok(UncheckedTree::UncheckedSigmaTree(leaf(key(0), challenge(9), scalar(4))))
    );
    assert_eq!(verify(&dlog(key(0)), Vec::new()), Ok(UncheckedTree::NoProof));
    assert_eq!(verify(&dlog(key(0)), vec![1u8; 55]), Err(SigParsingError::IoError));
    assert_eq!(verify(&dht(), vec![1u8; 55]), Err(SigParsingError::NotSupported));
}
