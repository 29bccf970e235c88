//! The values that a script reads from its context.

use vstd::prelude::*;
use crate::dlog_group::EcPoint;
use crate::val_def::GlobalVars;

verus! {

/// The identifier of a box.
#[derive(Clone, Copy, Debug, PartialEq, Eq, Structural)]
pub struct IrBoxId(pub u64);

/// What a block header says before the block is mined.
#[derive(Debug, PartialEq, Eq)]
pub struct PreHeader {
    /// The public key of the miner.
    pub miner_pk: EcPoint,
}

/// The context in which a script runs.
#[derive(Debug, PartialEq, Eq)]
pub struct Context {
    /// The height of the block.
    pub height: u32,
    /// The box whose script runs.
    pub self_box: IrBoxId,
    /// The boxes that the transaction creates.
    pub outputs: Vec<IrBoxId>,
    /// The boxes that the transaction spends.
    pub inputs: Vec<IrBoxId>,
    /// The header of the block to be.
    pub pre_header: PreHeader,
}

/// A value that an expression evaluates to.
#[derive(Debug, PartialEq, Eq)]
pub enum Value {
    Int(i32),
    CBox(IrBoxId),
    BoxColl(Vec<IrBoxId>),
    ByteColl(Vec<u8>),
}

/// Why an expression has no value.
#[derive(Clone, Copy, Debug, PartialEq, Eq, Structural)]
pub enum EvalError {
    /// The context lacks what the expression reads.
    NotFound,
}

/// The content of a value.
pub enum ValueModel {
    Int(int),
    CBox(IrBoxId),
    BoxColl(Seq<IrBoxId>),
    ByteColl(Seq<u8>),
}

impl View for Value {
    type V = ValueModel;

    open spec fn view(&self) -> ValueModel {
        match self {
            Value::Int(i) => ValueModel::Int(*i as int),
            Value::CBox(b) => ValueModel::CBox(*b),
            Value::BoxColl(v) => ValueModel::BoxColl(v@),
            Value::ByteColl(v) => ValueModel::ByteColl(v@),
        }
    }
}

/// The height as a signed number of the same 32 bits.
pub open spec fn height_as_int(height: u32) -> int {
    if height < 0x8000_0000 {
        height as int
    } else {
        height as int - 0x1_0000_0000
    }
}

/// The value of a global variable in a context.
pub open spec fn spec_eval(var: GlobalVars, ctx: Context) -> ValueModel {
    match var {
        GlobalVars::Height => ValueModel::Int(height_as_int(ctx.height)),
        GlobalVars::SelfBox => ValueModel::CBox(ctx.self_box),
        GlobalVars::Outputs => ValueModel::BoxColl(ctx.outputs@),
        GlobalVars::Inputs => ValueModel::BoxColl(ctx.inputs@),
        GlobalVars::MinerPubKey => ValueModel::ByteColl(ctx.pre_header.miner_pk@),
    }
}

/// A copy of a list of box identifiers.
pub fn copy_boxes(src: &Vec<IrBoxId>) -> (out: Vec<IrBoxId>)
    ensures
        out@ == src@,
{
    let mut out: Vec<IrBoxId> = Vec::new();
    let mut i: usize = 0;
    while i < src.len()
        invariant
            i <= src.len(),
            out@ == src@.subrange(0, i as int),
        decreases src.len() - i,
    {
        out.push(src[i]);
        i += 1;
        assert(out@ =~= src@.subrange(0, i as int));
    }
    assert(src@.subrange(0, src.len() as int) =~= src@);
    out
}

/// The 32 bits of `height`, read as a signed number.
fn height_to_i32(height: u32) -> (r: i32)
    ensures
        r as int == height_as_int(height),
{
    if height < 0x8000_0000 {
        height as i32
    } else {
        let low: u32 = height - 0x8000_0000;
        (low as i32) + i32::MIN
    }
}

impl GlobalVars {
    /// The value of the variable in the context `ctx`: the height, the box
    /// itself, the outputs, the inputs, or the wire form of the miner's
    /// public key. Every variable has a value in every context.
    pub fn eval(&self, ctx: &Context) -> (r: Result<Value, EvalError>)
        ensures
            r matches Ok(v) && v@ == spec_eval(*self, *ctx),
    {
        match self {
            GlobalVars::Height => Ok(Value::Int(height_to_i32(ctx.height))),
            GlobalVars::SelfBox => Ok(Value::CBox(ctx.self_box)),
            GlobalVars::Outputs => Ok(Value::BoxColl(copy_boxes(&ctx.outputs))),
            GlobalVars::Inputs => Ok(Value::BoxColl(copy_boxes(&ctx.inputs))),
            GlobalVars::MinerPubKey => Ok(
                Value::ByteColl(ctx.pre_header.miner_pk.sigma_serialize_bytes()),
            ),
        }
    }
}

} // verus!
