//! Let-bound expressions of the intermediate representation: `val x = rhs`.

use vstd::prelude::*;

verus! {

/// A type of the intermediate representation.
#[derive(Debug, PartialEq, Eq)]
pub enum SType {
    SBoolean,
    SByte,
    SInt,
    SLong,
    SGroupElement,
    SSigmaProp,
    SBox,
    /// A collection of values of one type.
    SColl(Box<SType>),
}

impl SType {
    /// A copy of the type.
    pub fn copy(&self) -> (r: SType)
        ensures
            r == *self,
        decreases self,
    {
        match self {
            SType::SBoolean => SType::SBoolean,
            SType::SByte => SType::SByte,
            SType::SInt => SType::SInt,
            SType::SLong => SType::SLong,
            SType::SGroupElement => SType::SGroupElement,
            SType::SSigmaProp => SType::SSigmaProp,
            SType::SBox => SType::SBox,
            SType::SColl(elem) => SType::SColl(Box::new(elem.copy())),
        }
    }
}

/// A value that the context of a script gives.
#[derive(Clone, Copy, Debug, PartialEq, Eq)]
pub enum GlobalVars {
    /// The boxes that the transaction spends.
    Inputs,
    /// The boxes that the transaction creates.
    Outputs,
    /// The height of the block.
    Height,
    /// The box whose script runs.
    SelfBox,
    /// The public key of the block's miner.
    MinerPubKey,
}

impl GlobalVars {
    /// The type of the value.
    pub open spec fn spec_tpe(self) -> SType {
        match self {
            GlobalVars::Inputs => SType::SColl(Box::new(SType::SBox)),
            GlobalVars::Outputs => SType::SColl(Box::new(SType::SBox)),
            GlobalVars::Height => SType::SInt,
            GlobalVars::SelfBox => SType::SBox,
            GlobalVars::MinerPubKey => SType::SColl(Box::new(SType::SByte)),
        }
    }

    /// The type of the value.
    pub fn tpe(&self) -> (r: SType)
        ensures
            r == self.spec_tpe(),
    {
        match self {
            GlobalVars::Inputs => SType::SColl(Box::new(SType::SBox)),
            GlobalVars::Outputs => SType::SColl(Box::new(SType::SBox)),
            GlobalVars::Height => SType::SInt,
            GlobalVars::SelfBox => SType::SBox,
            GlobalVars::MinerPubKey => SType::SColl(Box::new(SType::SByte)),
        }
    }
}

/// Variable id.
#[derive(Clone, Copy, Debug, PartialEq, Eq, Hash, Structural)]
pub struct ValId(pub u32);

/// An expression of the intermediate representation.
#[derive(Debug, PartialEq, Eq)]
pub enum Expr {
    /// A value of the context.
    GlobalVars(GlobalVars),
    /// A let-bound expression.
    ValDef(ValDef),
    /// The use of a variable of the given type.
    ValUse { val_id: ValId, tpe: SType },
}

/// A let-bound expression `val x = rhs`. A tree holds such nodes after its
/// common subexpressions have been bound to variables.
#[derive(Debug, PartialEq, Eq)]
pub struct ValDef {
    /// Variable id.
    pub id: ValId,
    /// The expression bound to the variable.
    pub rhs: Box<Expr>,
}

impl Expr {
    /// The type of the expression: that of the value for a value of the
    /// context, that of the bound expression for a binding, the declared
    /// one for a variable.
    pub open spec fn spec_tpe(self) -> SType
        decreases self,
    {
        match self {
            Expr::GlobalVars(v) => v.spec_tpe(),
            Expr::ValDef(d) => d.rhs.spec_tpe(),
            Expr::ValUse { tpe, .. } => tpe,
        }
    }

    /// The type of the expression.
    pub fn tpe(&self) -> (r: SType)
        ensures
            r == self.spec_tpe(),
        decreases self,
    {
        match self {
            Expr::GlobalVars(v) => v.tpe(),
            Expr::ValDef(d) => d.rhs.tpe(),
            Expr::ValUse { val_id: _, tpe } => tpe.copy(),
        }
    }
}

impl ValDef {
    /// The type of the binding: the type of the expression it binds.
    pub fn tpe(&self) -> (r: SType)
        ensures
            r == self.rhs.spec_tpe(),
    {
        self.rhs.tpe()
    }
}

} // verus!
