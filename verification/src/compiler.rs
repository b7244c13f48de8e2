//! The code that the graph-reduction machine runs: instructions,
//! super-combinators and assemblies.
use vstd::prelude::*;

verus! {

/// One instruction of the graph-reduction machine. Floating-point literals are
/// carried as the bits of their IEEE-754 binary64 representation.
#[derive(Clone, Copy, Debug, PartialEq, Eq)]
pub enum Instruction {
    Add,
    Sub,
    Multiply,
    Divide,
    Remainder,
    IntEQ,
    IntLT,
    IntLE,
    IntGT,
    IntGE,
    DoubleAdd,
    DoubleSub,
    DoubleMultiply,
    DoubleDivide,
    DoubleRemainder,
    DoubleEQ,
    DoubleLT,
    DoubleLE,
    DoubleGT,
    DoubleGE,
    IntToDouble,
    DoubleToInt,
    Push(usize),
    PushGlobal(usize),
    PushInt(i64),
    PushFloat(u64),
    PushChar(char),
    Mkap,
    Eval,
    Unwind,
    Update(usize),
    Pop(usize),
    Slide(usize),
    Split(usize),
    Pack(u16, u16),
    CaseJump(usize),
    Jump(usize),
    JumpFalse(usize),
    PushDictionary(usize),
    PushDictionaryMember(usize),
}

/// A top-level function without free variables.
#[derive(Debug)]
pub struct SuperCombinator {
    pub arity: usize,
    pub name: String,
    pub assembly_id: usize,
    pub instructions: Vec<Instruction>,
}

/// A compiled module: its super-combinators and, for each instance, the
/// dictionary of global indices of its methods.
#[derive(Debug)]
pub struct Assembly {
    pub superCombinators: Vec<SuperCombinator>,
    pub instance_dictionaries: Vec<Vec<usize>>,
}

} // verus!
