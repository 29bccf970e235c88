use sigma_protocol::dlog_group::{generator, identity};
use sigma_protocol::serialization::SerializationError;
use sigma_protocol::sigma_boolean::{
    ProveDhTuple, ProveDlog, SigmaBoolean, SigmaConjecture, SigmaProofOfKnowledgeTree,
};
use sigma_protocol::val_def::{Expr, GlobalVars, SType, ValDef, ValId};

fn dlog() -> SigmaBoolean {
    SigmaBoolean::ProofOfKnowledge(SigmaProofOfKnowledgeTree::ProveDlog(ProveDlog::new(generator())))
}

fn dht() -> SigmaBoolean {
    SigmaBoolean::ProofOfKnowledge(SigmaProofOfKnowledgeTree::ProveDhTuple(ProveDhTuple {
        g: generator(),
        h: generator(),
        u: generator(),
        v: generator(),
    }))
}

#[test]
fn prove_dlog_round_trip() {
    let mut w = Vec::new();
    assert_eq!(dlog().sigma_serialize(&mut w), Ok(()));
    assert_eq!(w.len(), 34);
    assert_eq!(w[0], 0xCD);
    assert_eq!(&w[1..], &generator().sigma_serialize_bytes()[..]);
    assert_eq!(SigmaBoolean::sigma_parse(&w, 0), Ok((dlog(), 34)));
}

#[test]
fn prove_dlog_of_identity_round_trip() {
    let p = SigmaBoolean::ProofOfKnowledge(SigmaProofOfKnowledgeTree::ProveDlog(ProveDlog::new(
        identity(),
    )));
    let mut w = vec![1u8];
    assert_eq!(p.sigma_serialize(&mut w), Ok(()));
    assert_eq!(SigmaBoolean::sigma_parse(&w, 1), Ok((p, 35)));
}

#[test]
fn trivial_prop_round_trip() {
    let mut w = Vec::new();
    assert_eq!(SigmaBoolean::TrivialProp(false).sigma_serialize(&mut w), Ok(()));
    assert_eq!(SigmaBoolean::TrivialProp(true).sigma_serialize(&mut w), Ok(()));
    assert_eq!(w, vec![0xD2u8, 0xD3]);
    assert_eq!(SigmaBoolean::sigma_parse(&w, 0), Ok((SigmaBoolean::TrivialProp(false), 1)));
    assert_eq!(SigmaBoolean::sigma_parse(&w, 1), Ok((SigmaBoolean::TrivialProp(true), 2)));
}

#[test]
fn dh_tuple_does_not_serialize() {
    let mut w = vec![5u8];
    assert_eq!(dht().sigma_serialize(&mut w), Err(SerializationError::NotSupported));
    assert_eq!(w, vec![5u8]);
}

#[test]
fn conjecture_does_not_serialize() {
    let mut w = Vec::new();
    let and = SigmaBoolean::SigmaConjecture(SigmaConjecture::Cand { items: vec![dlog(), dlog()] });
    let or = SigmaBoolean::SigmaConjecture(SigmaConjecture::Cor { items: vec![dlog(), dlog()] });
    assert_eq!(and.sigma_serialize(&mut w), Err(SerializationError::NotSupported));
    assert_eq!(or.sigma_serialize(&mut w), Err(SerializationError::NotSupported));
    assert!(w.is_empty());
}

#[test]
fn unsupported_opcodes_do_not_parse() {
    for op in [0xCEu8, 0xEA, 0xEB] {
        let bytes = vec![op; 40];
        assert_eq!(SigmaBoolean::sigma_parse(&bytes, 0), Err(SerializationError::NotSupported));
    }
}

#[test]
fn unknown_opcode_is_invalid() {
    assert_eq!(SigmaBoolean::sigma_parse(&vec![0x01u8; 40], 0), Err(SerializationError::InvalidOpCode(1)));
    assert_eq!(SigmaBoolean::sigma_parse(&vec![0xCCu8; 40], 3), Err(SerializationError::InvalidOpCode(0xCC)));
}

#[test]
fn short_proposition_bytes() {
    assert_eq!(SigmaBoolean::sigma_parse(&Vec::new(), 0), Err(SerializationError::UnexpectedEof));
    assert_eq!(SigmaBoolean::sigma_parse(&vec![0xCDu8; 33], 0), Err(SerializationError::UnexpectedEof));
}

#[test]
fn prove_dlog_with_invalid_point() {
    let mut bytes = vec![0xFFu8; 34];
    bytes[0] = 0xCD;
    bytes[1] = 0x03;
    assert_eq!(SigmaBoolean::sigma_parse(&bytes, 0), Err(SerializationError::DecodingError));
}

#[test]
fn op_codes() {
    assert_eq!(dlog().op_code(), 0xCD);
    assert_eq!(dht().op_code(), 0xCE);
    assert_eq!(SigmaBoolean::TrivialProp(false).op_code(), 0xD2);
    assert_eq!(SigmaBoolean::TrivialProp(true).op_code(), 0xD3);
}

#[test]
fn prove_dlog_payload() {
    let dl = ProveDlog::new(generator());
    let mut w = Vec::new();
    dl.sigma_serialize(&mut w);
    assert_eq!(w, generator().sigma_serialize_bytes());
    assert_eq!(ProveDlog::sigma_parse(&w, 0), Ok((dl, 33)));
}

#[test]
fn val_def_type_is_type_of_rhs() {
    let v = ValDef { id: ValId(1), rhs: Box::new(Expr::GlobalVars(GlobalVars::Height)) };
    assert_eq!(v.tpe(), SType::SInt);
    let outer = ValDef { id: ValId(2), rhs: Box::new(Expr::ValDef(v)) };
    assert_eq!(outer.tpe(), SType::SInt);
    let used = ValDef {
        id: ValId(3),
        rhs: Box::new(Expr::ValUse { val_id: ValId(1), tpe: SType::SColl(Box::new(SType::SByte)) }),
    };
    assert_eq!(used.tpe(), SType::SColl(Box::new(SType::SByte)));
}

#[test]
fn global_vars_types() {
    assert_eq!(GlobalVars::Inputs.tpe(), SType::SColl(Box::new(SType::SBox)));
    assert_eq!(GlobalVars::Outputs.tpe(), SType::SColl(Box::new(SType::SBox)));
    assert_eq!(GlobalVars::SelfBox.tpe(), SType::SBox);
    assert_eq!(GlobalVars::MinerPubKey.tpe(), SType::SColl(Box::new(SType::SByte)));
    assert_eq!(Expr::GlobalVars(GlobalVars::Height).tpe(), SType::SInt);
}

fn context() -> sigma_protocol::global_vars::Context {
    sigma_protocol::global_vars::Context {
        height: 77,
        self_box: sigma_protocol::global_vars::IrBoxId(5),
        outputs: vec![sigma_protocol::global_vars::IrBoxId(1), sigma_protocol::global_vars::IrBoxId(2)],
        inputs: vec![sigma_protocol::global_vars::IrBoxId(5), sigma_protocol::global_vars::IrBoxId(9)],
        pre_header: sigma_protocol::global_vars::PreHeader { miner_pk: generator() },
    }
}

#[test]
fn eval_height() {
    let ctx = context();
    assert_eq!(GlobalVars::Height.eval(&ctx), Ok(sigma_protocol::global_vars::Value::Int(ctx.height as i32)));
    let mut high = context();
    high.height = u32::MAX;
    assert_eq!(GlobalVars::Height.eval(&high), Ok(sigma_protocol::global_vars::Value::Int(-1)));
    high.height = 0x8000_0000;
    assert_eq!(GlobalVars::Height.eval(&high), Ok(sigma_protocol::global_vars::Value::Int(i32::MIN)));
}

#[test]
fn eval_self_box() {
    let ctx = context();
    assert_eq!(GlobalVars::SelfBox.eval(&ctx), Ok(sigma_protocol::global_vars::Value::CBox(ctx.self_box)));
}

#[test]
fn eval_outputs() {
    let ctx = context();
    assert_eq!(
        GlobalVars::Outputs.eval(&ctx),
        Ok(sigma_protocol::global_vars::Value::BoxColl(ctx.outputs.clone()))
    );
}

#[test]
fn eval_inputs() {
    let ctx = context();
    assert_eq!(
        GlobalVars::Inputs.eval(&ctx),
        Ok(sigma_protocol::global_vars::Value::BoxColl(ctx.inputs.clone()))
    );
}

#[test]
fn eval_miner_pub_key() {
    let ctx = context();
    assert_eq!(
        GlobalVars::MinerPubKey.eval(&ctx),
        Ok(sigma_protocol::global_vars::Value::ByteColl(generator().sigma_serialize_bytes()))
    );
}
