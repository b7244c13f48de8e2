//! The graph-reduction machine: shared heap nodes, frames of instruction
//! pointer and operand stack, and the step function that runs them.
//!
//! Floating-point arithmetic is not done here. An instruction that needs it
//! suspends the machine with a request; whoever drives the machine computes the
//! answer and hands it back with `Machine::resume`.
use crate::compiler::{Assembly, Instruction, SuperCombinator};
use crate::module::seq_view;
use std::rc::Rc;
use vstd::prelude::*;

verus! {

/// Model of a heap node.
pub enum Value {
    Application(Box<Value>, Box<Value>),
    Int(i64),
    Float(u64),
    Char(char),
    Combinator(usize, usize),
    Indirection(Box<Value>),
    Constructor(u16, Seq<Value>),
    Dictionary(Seq<usize>),
}

/// What a heap node holds. A floating-point number is held as the bits of its
/// IEEE-754 binary64 representation; a combinator as the index of its assembly
/// and its index in that assembly.
#[derive(Debug)]
pub enum Node_ {
    Application(Node, Node),
    Int(i64),
    Float(u64),
    Char(char),
    Combinator(usize, usize),
    Indirection(Node),
    Constructor(u16, Vec<Node>),
    Dictionary(Vec<usize>),
}

/// A shared, immutable heap node.
#[derive(Debug)]
pub struct Node {
    pub node: Rc<Node_>,
}

/// The value that a node denotes.
pub open spec fn node_value(n: Node) -> Value
    decreases n,
{
    match *n.node {
        Node_::Application(func, arg) => Value::Application(
            Box::new(node_value(func)),
            Box::new(node_value(arg)),
        ),
        Node_::Int(i) => Value::Int(i),
        Node_::Float(f) => Value::Float(f),
        Node_::Char(c) => Value::Char(c),
        Node_::Combinator(a, i) => Value::Combinator(a, i),
        Node_::Indirection(inner) => Value::Indirection(Box::new(node_value(inner))),
        Node_::Constructor(tag, fields) => Value::Constructor(
            tag,
            Seq::new(
                fields@.len(),
                |i: int|
                    if 0 <= i < fields@.len() {
                        node_value(fields@[i])
                    } else {
                        Value::Int(0)
                    },
            ),
        ),
        Node_::Dictionary(d) => Value::Dictionary(d@),
    }
}

impl View for Node {
    type V = Value;

    open spec fn view(&self) -> Value {
        node_value(*self)
    }
}

/// `Rc::clone`: another handle to the same node, so the node it denotes is the same.
#[verifier::external_body]
fn share(node: &Rc<Node_>) -> (res: Rc<Node_>)
    ensures
        res == *node,
{
    Rc::clone(node)
}

impl Node {
    pub fn new(n: Node_) -> (res: Node)
        ensures
            *res.node == n,
    {
        Node { node: Rc::new(n) }
    }

    pub fn borrow(&self) -> (res: &Node_)
        ensures
            *res == *self.node,
    {
        &*self.node
    }

    /// A constructor node.
    pub fn constructor(tag: u16, fields: Vec<Node>) -> (res: Node)
        ensures
            res@ == Value::Constructor(tag, seq_view(fields@)),
    {
        let res = Node::new(Node_::Constructor(tag, fields));
        proof {
            assert(res@->Constructor_1 =~= seq_view(fields@));
        }
        res
    }

    /// The node that stands for a truth value: constructor 0 for true, 1 for false.
    pub fn truth(b: bool) -> (res: Node)
        ensures
            res@ == truth(b),
    {
        let tag: u16 = if b {
            0
        } else {
            1
        };
        let res = Node::constructor(tag, Vec::new());
        proof {
            assert(seq_view(Seq::<Node>::empty()) =~= Seq::<Value>::empty());
        }
        res
    }
}

impl Clone for Node {
    fn clone(&self) -> (res: Node)
        ensures
            res == *self,
    {
        Node { node: share(&self.node) }
    }
}

/// What went wrong when the machine could not execute an instruction.
#[derive(Clone, Copy, Debug, PartialEq, Eq)]
pub enum VMError {
    /// An instruction found a node of another kind than the one it expects.
    KindMismatch,
    /// An instruction needs more operands than the stack holds.
    StackUnderflow,
    /// An index into the stack, the globals, a dictionary or the assemblies is out of range.
    OutOfRange,
    /// Division by zero, or a quotient that does not fit.
    Arithmetic,
    /// The frame of a super-combinator ended with other than exactly one value.
    FrameResult,
    /// The answer handed to a suspended machine is not of the kind that was asked for.
    Answer,
    /// The super-combinator `main` takes arguments.
    MainArity,
}

/// A binary operation on two floating-point numbers.
#[derive(Clone, Copy, Debug, PartialEq, Eq)]
pub enum FloatOp {
    Add,
    Sub,
    Multiply,
    Divide,
    Remainder,
    EQ,
    LT,
    LE,
    GT,
    GE,
}

/// The floating-point work that a suspended machine asks for. Floating-point
/// numbers are given as bits; in `Binary` the first operand is the left one.
#[derive(Clone, Copy, Debug, PartialEq, Eq)]
pub enum FloatRequest {
    Binary(FloatOp, u64, u64),
    FromInt(i64),
    ToInt(u64),
}

/// The answer to a `FloatRequest`.
#[derive(Clone, Copy, Debug, PartialEq, Eq)]
pub enum FloatAnswer {
    Double(u64),
    Truth(bool),
    Int(i64),
}

/// How the machine stands after a step.
#[derive(Clone, Copy, Debug, PartialEq, Eq)]
pub enum Status {
    /// More instructions remain.
    Running,
    /// The instruction pointer passed the last instruction of the entry frame.
    Finished,
    /// The machine waits for the answer to a floating-point request.
    Suspended(FloatRequest),
    /// An instruction could not be executed; the machine is as it was before it.
    Failed(VMError),
}

/// The instruction sequence that a frame runs.
#[derive(Clone, Copy, Debug, PartialEq, Eq)]
pub enum Code {
    /// The code that the machine was loaded with.
    Entry,
    /// The single instruction `Unwind`: the frame of an `Eval`.
    Unwind,
    /// The instructions of a super-combinator, by assembly and index.
    Global(usize, usize),
}

/// A frame: an operand stack, the code it runs, the instruction pointer, and
/// the assembly whose dictionaries it uses.
#[derive(Debug)]
pub struct Frame {
    pub stack: Vec<Node>,
    pub code: Code,
    pub ip: usize,
    pub assembly_id: usize,
}

pub struct FrameModel {
    pub stack: Seq<Value>,
    pub code: Code,
    pub ip: usize,
    pub assembly_id: usize,
}

impl View for Frame {
    type V = FrameModel;

    open spec fn view(&self) -> FrameModel {
        FrameModel {
            stack: seq_view(self.stack@),
            code: self.code,
            ip: self.ip,
            assembly_id: self.assembly_id,
        }
    }
}

/// The state of a run: the frames, innermost last, the entry code, and the
/// floating-point request that is waiting for its answer, if any.
#[derive(Debug)]
pub struct Machine {
    pub frames: Vec<Frame>,
    pub entry: Vec<Instruction>,
    pub pending: Option<FloatRequest>,
}

pub struct MachineModel {
    pub frames: Seq<FrameModel>,
    pub entry: Seq<Instruction>,
    pub pending: Option<FloatRequest>,
}

impl View for Machine {
    type V = MachineModel;

    open spec fn view(&self) -> MachineModel {
        MachineModel { frames: seq_view(self.frames@), entry: self.entry@, pending: self.pending }
    }
}

/// The loaded assemblies and the table of globals: for each global index the
/// assembly and the super-combinator's index in it.
#[derive(Debug)]
pub struct VM {
    pub assembly: Vec<Assembly>,
    pub globals: Vec<(usize, usize)>,
}

/// What executing one instruction does to the frame that holds it.
pub enum Outcome {
    /// The frame goes on as given.
    Next(FrameModel),
    /// The frame becomes the first, and the second is entered above it.
    Call(FrameModel, FrameModel),
    /// The frame becomes as given and the machine waits for an answer.
    Suspend(FrameModel, FloatRequest),
    /// The instruction cannot be executed.
    Fail(VMError),
}

pub open spec fn truth(b: bool) -> Value {
    Value::Constructor(
        if b {
            0u16
        } else {
            1u16
        },
        Seq::empty(),
    )
}

/// The result of an integer instruction on the operands `l` (popped first) and `r`.
pub open spec fn int_op_spec(ins: Instruction, l: i64, r: i64) -> Option<Result<Value, VMError>> {
    match ins {
        Instruction::Add => Some(Ok(Value::Int(l.wrapping_add(r)))),
        Instruction::Sub => Some(Ok(Value::Int(l.wrapping_sub(r)))),
        Instruction::Multiply => Some(Ok(Value::Int(l.wrapping_mul(r)))),
        Instruction::Divide => Some(
            match l.checked_div(r) {
                Some(q) => Ok(Value::Int(q)),
                None => Err(VMError::Arithmetic),
            },
        ),
        Instruction::Remainder => Some(
            match l.checked_rem(r) {
                Some(q) => Ok(Value::Int(q)),
                None => Err(VMError::Arithmetic),
            },
        ),
        Instruction::IntEQ => Some(Ok(truth(l == r))),
        Instruction::IntLT => Some(Ok(truth(l < r))),
        Instruction::IntLE => Some(Ok(truth(l <= r))),
        Instruction::IntGT => Some(Ok(truth(l > r))),
        Instruction::IntGE => Some(Ok(truth(l >= r))),
        _ => None,
    }
}

/// The floating-point operation that an instruction asks for, if it is one.
pub open spec fn float_op_spec(ins: Instruction) -> Option<FloatOp> {
    match ins {
        Instruction::DoubleAdd => Some(FloatOp::Add),
        Instruction::DoubleSub => Some(FloatOp::Sub),
        Instruction::DoubleMultiply => Some(FloatOp::Multiply),
        Instruction::DoubleDivide => Some(FloatOp::Divide),
        Instruction::DoubleRemainder => Some(FloatOp::Remainder),
        Instruction::DoubleEQ => Some(FloatOp::EQ),
        Instruction::DoubleLT => Some(FloatOp::LT),
        Instruction::DoubleLE => Some(FloatOp::LE),
        Instruction::DoubleGT => Some(FloatOp::GT),
        Instruction::DoubleGE => Some(FloatOp::GE),
        _ => None,
    }
}

impl FrameModel {
    /// The frame with another stack, at the next instruction.
    pub open spec fn advance(self, stack: Seq<Value>) -> FrameModel {
        FrameModel { stack, ip: (self.ip + 1) as usize, ..self }
    }

    /// The frame with another stack, at the same instruction.
    pub open spec fn stay(self, stack: Seq<Value>) -> FrameModel {
        FrameModel { stack, ..self }
    }

    /// The frame with another stack, at the instruction `ip`.
    pub open spec fn jump(self, stack: Seq<Value>, ip: usize) -> FrameModel {
        FrameModel { stack, ip, ..self }
    }
}

/// The argument of an application node.
pub open spec fn argument_of(v: Value) -> Value {
    match v {
        Value::Application(_, arg) => *arg,
        _ => v,
    }
}

impl VM {
    /// The super-combinator `(a, i)` exists.
    pub open spec fn has_combinator(&self, a: usize, i: usize) -> bool {
        a < self.assembly@.len() && i < self.assembly@[a as int].superCombinators@.len()
    }

    pub open spec fn arity_of(&self, a: usize, i: usize) -> usize {
        self.assembly@[a as int].superCombinators@[i as int].arity
    }

    /// The node that stands for the global `gi`, if there is such a global.
    pub open spec fn global_spec(&self, gi: usize) -> Option<Value> {
        if gi < self.globals@.len() {
            Some(Value::Combinator(self.globals@[gi as int].0, self.globals@[gi as int].1))
        } else {
            None
        }
    }

    /// The instructions that a machine's frame runs, if its code exists.
    pub open spec fn code_spec(&self, entry: Seq<Instruction>, code: Code) -> Option<
        Seq<Instruction>,
    > {
        match code {
            Code::Entry => Some(entry),
            Code::Unwind => Some(seq![Instruction::Unwind]),
            Code::Global(a, i) => if self.has_combinator(a, i) {
                Some(self.assembly@[a as int].superCombinators@[i as int].instructions@)
            } else {
                None
            },
        }
    }

    /// `Unwind` on the frame `f`, whose stack is not empty.
    pub open spec fn unwind_spec(&self, f: FrameModel) -> Outcome {
        let n = f.stack.len() as int;
        match f.stack.last() {
            Value::Application(func, _) => Outcome::Next(f.stay(f.stack.push(*func))),
            Value::Indirection(node) => Outcome::Next(f.stay(f.stack.update(n - 1, *node))),
            Value::Combinator(a, i) => {
                if !self.has_combinator(a, i) {
                    Outcome::Fail(VMError::OutOfRange)
                } else {
                    let arity = self.arity_of(a, i) as int;
                    if n - 1 < arity {
                        Outcome::Next(f.advance(f.stack.take(1)))
                    } else if exists|j: int|
                        n - 1 - arity <= j < n - 1 && !(#[trigger] f.stack[j] is Application) {
                        Outcome::Fail(VMError::KindMismatch)
                    } else {
                        Outcome::Call(
                            f.stay(
                                Seq::new(
                                    n as nat,
                                    |j: int|
                                        if n - 1 - arity <= j < n - 1 {
                                            argument_of(f.stack[j])
                                        } else {
                                            f.stack[j]
                                        },
                                ),
                            ),
                            FrameModel {
                                stack: Seq::new(
                                    arity as nat,
                                    |k: int| argument_of(f.stack[n - 2 - k]),
                                ),
                                code: Code::Global(a, i),
                                ip: 0,
                                assembly_id: self.assembly@[a as int].superCombinators@[i as int].assembly_id,
                            },
                        )
                    }
                }
            },
            _ => Outcome::Next(f.advance(f.stack)),
        }
    }

    /// What the instruction `ins` does to the frame `f` that holds it.
    pub open spec fn instruction_spec(&self, f: FrameModel, ins: Instruction) -> Outcome {
        let s = f.stack;
        let n = s.len() as int;
        if int_op_spec(ins, 0, 0) is Some {
            if n < 2 {
                Outcome::Fail(VMError::StackUnderflow)
            } else {
                match (s[n - 1], s[n - 2]) {
                    (Value::Int(l), Value::Int(r)) => match int_op_spec(ins, l, r).unwrap() {
                        Ok(v) => Outcome::Next(f.advance(s.take(n - 2).push(v))),
                        Err(e) => Outcome::Fail(e),
                    },
                    _ => Outcome::Fail(VMError::KindMismatch),
                }
            }
        } else if float_op_spec(ins) is Some {
            if n < 2 {
                Outcome::Fail(VMError::StackUnderflow)
            } else {
                match (s[n - 1], s[n - 2]) {
                    (Value::Float(l), Value::Float(r)) => Outcome::Suspend(
                        f.advance(s.take(n - 2)),
                        FloatRequest::Binary(float_op_spec(ins).unwrap(), l, r),
                    ),
                    _ => Outcome::Fail(VMError::KindMismatch),
                }
            }
        } else {
            match ins {
                Instruction::IntToDouble => if n < 1 {
                    Outcome::Fail(VMError::StackUnderflow)
                } else {
                    match s[n - 1] {
                        Value::Int(i) => Outcome::Suspend(
                            f.advance(s.take(n - 1)),
                            FloatRequest::FromInt(i),
                        ),
                        _ => Outcome::Fail(VMError::KindMismatch),
                    }
                },
                Instruction::DoubleToInt => if n < 1 {
                    Outcome::Fail(VMError::StackUnderflow)
                } else {
                    match s[n - 1] {
                        Value::Float(d) => Outcome::Suspend(
                            f.advance(s.take(n - 1)),
                            FloatRequest::ToInt(d),
                        ),
                        _ => Outcome::Fail(VMError::KindMismatch),
                    }
                },
                Instruction::PushInt(i) => Outcome::Next(f.advance(s.push(Value::Int(i)))),
                Instruction::PushFloat(d) => Outcome::Next(f.advance(s.push(Value::Float(d)))),
                Instruction::PushChar(c) => Outcome::Next(f.advance(s.push(Value::Char(c)))),
                Instruction::Push(index) => if index < n {
                    Outcome::Next(f.advance(s.push(s[index as int])))
                } else {
                    Outcome::Fail(VMError::OutOfRange)
                },
                Instruction::PushGlobal(gi) => match self.global_spec(gi) {
                    Some(v) => Outcome::Next(f.advance(s.push(v))),
                    None => Outcome::Fail(VMError::OutOfRange),
                },
                Instruction::Mkap => if n < 2 {
                    Outcome::Fail(VMError::StackUnderflow)
                } else {
                    Outcome::Next(
                        f.advance(
                            s.take(n - 2).push(
                                Value::Application(Box::new(s[n - 1]), Box::new(s[n - 2])),
                            ),
                        ),
                    )
                },
                Instruction::Eval => if n < 1 {
                    Outcome::Fail(VMError::StackUnderflow)
                } else {
                    Outcome::Call(
                        f.stay(s.take(n - 1)),
                        FrameModel {
                            stack: seq![s[n - 1]],
                            code: Code::Unwind,
                            ip: 0,
                            assembly_id: f.assembly_id,
                        },
                    )
                },
                Instruction::Pop(num) => if n < num {
                    Outcome::Fail(VMError::StackUnderflow)
                } else {
                    Outcome::Next(f.advance(s.take(n - num)))
                },
                Instruction::Update(index) => if index < n {
                    Outcome::Next(
                        f.advance(s.update(index as int, Value::Indirection(Box::new(s[n - 1])))),
                    )
                } else {
                    Outcome::Fail(VMError::OutOfRange)
                },
                Instruction::Unwind => if n < 1 {
                    Outcome::Fail(VMError::StackUnderflow)
                } else {
                    self.unwind_spec(f)
                },
                Instruction::Slide(size) => if n < size + 1 {
                    Outcome::Fail(VMError::StackUnderflow)
                } else {
                    Outcome::Next(f.advance(s.take(n - 1 - size).push(s[n - 1])))
                },
                Instruction::Split(_) => if n < 1 {
                    Outcome::Fail(VMError::StackUnderflow)
                } else {
                    match s[n - 1] {
                        Value::Constructor(_, fields) => Outcome::Next(
                            f.advance(s.take(n - 1) + fields.reverse()),
                        ),
                        _ => Outcome::Fail(VMError::KindMismatch),
                    }
                },
                Instruction::Pack(tag, arity) => if n < arity {
                    Outcome::Fail(VMError::StackUnderflow)
                } else {
                    Outcome::Next(
                        f.advance(
                            s.take(n - arity).push(
                                Value::Constructor(
                                    tag,
                                    Seq::new(arity as nat, |k: int| s[n - 1 - k]),
                                ),
                            ),
                        ),
                    )
                },
                Instruction::JumpFalse(address) => if n < 1 {
                    Outcome::Fail(VMError::StackUnderflow)
                } else {
                    match s[n - 1] {
                        Value::Constructor(tag, _) if tag == 1 => Outcome::Next(
                            f.jump(s.take(n - 1), address),
                        ),
                        _ => Outcome::Next(f.advance(s.take(n - 1))),
                    }
                },
                Instruction::CaseJump(jump_tag) => if n < 1 {
                    Outcome::Fail(VMError::StackUnderflow)
                } else {
                    match s[n - 1] {
                        Value::Constructor(tag, _) => if jump_tag == tag as usize {
                            if f.ip + 2 > usize::MAX {
                                Outcome::Fail(VMError::OutOfRange)
                            } else {
                                Outcome::Next(f.jump(s, (f.ip + 2) as usize))
                            }
                        } else {
                            Outcome::Next(f.advance(s.take(n - 1)))
                        },
                        _ => Outcome::Fail(VMError::KindMismatch),
                    }
                },
                Instruction::Jump(to) => Outcome::Next(f.jump(s, to)),
                Instruction::PushDictionary(index) => if f.assembly_id < self.assembly@.len()
                    && index < self.assembly@[f.assembly_id as int].instance_dictionaries@.len() {
                    Outcome::Next(
                        f.advance(
                            s.push(
                                Value::Dictionary(
                                    self.assembly@[f.assembly_id as int].instance_dictionaries@[index as int]@,
                                ),
                            ),
                        ),
                    )
                } else {
                    Outcome::Fail(VMError::OutOfRange)
                },
                Instruction::PushDictionaryMember(index) => if n < 1 {
                    Outcome::Fail(VMError::StackUnderflow)
                } else {
                    match s[0] {
                        Value::Dictionary(dict) => if index < dict.len() {
                            match self.global_spec(dict[index as int]) {
                                Some(v) => Outcome::Next(f.advance(s.push(v))),
                                None => Outcome::Fail(VMError::OutOfRange),
                            }
                        } else {
                            Outcome::Fail(VMError::OutOfRange)
                        },
                        _ => Outcome::Fail(VMError::KindMismatch),
                    }
                },
                _ => Outcome::Fail(VMError::KindMismatch),
            }
        }
    }

    /// What the end of the innermost frame `child` does to the frame `parent`
    /// that entered it: after an `Eval` the parent gets the child's top and
    /// goes on; after a call the parent's spine is replaced by the child's one
    /// value and the parent unwinds again.
    pub open spec fn return_spec(&self, parent: FrameModel, child: FrameModel) -> Result<
        FrameModel,
        VMError,
    > {
        match child.code {
            Code::Entry => Err(VMError::FrameResult),
            Code::Unwind => if child.stack.len() < 1 {
                Err(VMError::StackUnderflow)
            } else if parent.ip >= usize::MAX {
                Err(VMError::OutOfRange)
            } else {
                Ok(parent.advance(parent.stack.push(child.stack.last())))
            },
            Code::Global(a, i) => if !self.has_combinator(a, i) {
                Err(VMError::OutOfRange)
            } else if child.stack.len() != 1 {
                Err(VMError::FrameResult)
            } else if parent.stack.len() < self.arity_of(a, i) + 1 {
                Err(VMError::StackUnderflow)
            } else {
                Ok(
                    parent.stay(
                        parent.stack.take(parent.stack.len() - self.arity_of(a, i) - 1).push(
                            child.stack[0],
                        ),
                    ),
                )
            },
        }
    }

    /// One step of the machine: the next state and how it stands.
    pub open spec fn step_spec(&self, m: MachineModel) -> (MachineModel, Status) {
        let n = m.frames.len() as int;
        if m.pending is Some {
            (m, Status::Suspended(m.pending.unwrap()))
        } else if n == 0 {
            (m, Status::Finished)
        } else {
            let f = m.frames[n - 1];
            match self.code_spec(m.entry, f.code) {
                None => (m, Status::Failed(VMError::OutOfRange)),
                Some(code) => if f.ip >= code.len() {
                    if n == 1 {
                        (m, Status::Finished)
                    } else {
                        match self.return_spec(m.frames[n - 2], f) {
                            Ok(p) => (
                                MachineModel { frames: m.frames.take(n - 2).push(p), ..m },
                                Status::Running,
                            ),
                            Err(e) => (m, Status::Failed(e)),
                        }
                    }
                } else {
                    match self.instruction_spec(f, code[f.ip as int]) {
                        Outcome::Next(g) => (
                            MachineModel { frames: m.frames.take(n - 1).push(g), ..m },
                            Status::Running,
                        ),
                        Outcome::Call(g, h) => (
                            MachineModel { frames: m.frames.take(n - 1).push(g).push(h), ..m },
                            Status::Running,
                        ),
                        Outcome::Suspend(g, request) => (
                            MachineModel {
                                frames: m.frames.take(n - 1).push(g),
                                pending: Some(request),
                                ..m
                            },
                            Status::Suspended(request),
                        ),
                        Outcome::Fail(e) => (m, Status::Failed(e)),
                    }
                },
            }
        }
    }

    /// At most `limit` steps of the machine, ending with the first that does
    /// not leave it running.
    pub open spec fn run_spec(&self, m: MachineModel, limit: nat) -> (MachineModel, Status)
        decreases limit,
    {
        if limit == 0 {
            (m, Status::Running)
        } else {
            let (next, status) = self.step_spec(m);
            if status is Running {
                self.run_spec(next, (limit - 1) as nat)
            } else {
                (next, status)
            }
        }
    }
}

/// What `Machine::resume` pushes for the answer to a request, or none where
/// the answer is not of the kind asked for.
pub open spec fn answer_spec(request: FloatRequest, answer: FloatAnswer) -> Option<Value> {
    match (request, answer) {
        (FloatRequest::Binary(op, _, _), FloatAnswer::Double(d)) => if op is Add || op is Sub
            || op is Multiply || op is Divide || op is Remainder {
            Some(Value::Float(d))
        } else {
            None
        },
        (FloatRequest::Binary(op, _, _), FloatAnswer::Truth(b)) => if op is EQ || op is LT
            || op is LE || op is GT || op is GE {
            Some(truth(b))
        } else {
            None
        },
        (FloatRequest::FromInt(_), FloatAnswer::Double(d)) => Some(Value::Float(d)),
        (FloatRequest::ToInt(_), FloatAnswer::Int(i)) => Some(Value::Int(i)),
        _ => None,
    }
}

/// What executing one instruction did to the frame that holds it.
pub enum Effect {
    Next,
    Call(Frame),
    Suspend(FloatRequest),
    Fail(VMError),
}

/// `effect`, with the frame's state after the instruction, is what `outcome` says.
pub open spec fn effect_spec(
    outcome: Outcome,
    before: FrameModel,
    after: FrameModel,
    effect: Effect,
) -> bool {
    match outcome {
        Outcome::Next(g) => effect is Next && after == g,
        Outcome::Call(g, h) => effect is Call && effect->Call_0@ == h && after == g,
        Outcome::Suspend(g, r) => effect == Effect::Suspend(r) && after == g,
        Outcome::Fail(e) => effect == Effect::Fail(e) && after == before,
    }
}

fn push_node(stack: &mut Vec<Node>, node: Node)
    ensures
        seq_view(final(stack)@) == seq_view(old(stack)@).push(node@),
        final(stack)@ == old(stack)@.push(node),
{
    stack.push(node);
    proof {
        assert(seq_view(stack@) =~= seq_view(old(stack)@).push(node@));
    }
}

/// Shortens the stack to its `len` lowest nodes.
fn keep(stack: &mut Vec<Node>, len: usize)
    requires
        len <= old(stack)@.len(),
    ensures
        seq_view(final(stack)@) == seq_view(old(stack)@).take(len as int),
        final(stack)@ == old(stack)@.take(len as int),
{
    stack.truncate(len);
    proof {
        assert(stack@ =~= old(stack)@.take(len as int));
        assert(seq_view(stack@) =~= seq_view(old(stack)@).take(len as int));
    }
}

fn put(stack: &mut Vec<Node>, index: usize, node: Node)
    requires
        index < old(stack)@.len(),
    ensures
        seq_view(final(stack)@) == seq_view(old(stack)@).update(index as int, node@),
        final(stack)@ == old(stack)@.update(index as int, node),
{
    stack[index] = node;
    proof {
        assert(seq_view(stack@) =~= seq_view(old(stack)@).update(index as int, node@));
    }
}

fn int_of(node: &Node) -> (res: Option<i64>)
    ensures
        match res {
            Some(i) => node@ == Value::Int(i),
            None => !(node@ is Int),
        },
{
    match node.borrow() {
        Node_::Int(i) => Some(*i),
        _ => None,
    }
}

fn float_of(node: &Node) -> (res: Option<u64>)
    ensures
        match res {
            Some(d) => node@ == Value::Float(d),
            None => !(node@ is Float),
        },
{
    match node.borrow() {
        Node_::Float(d) => Some(*d),
        _ => None,
    }
}

/// The tag of a constructor node.
fn tag_of(node: &Node) -> (res: Option<u16>)
    ensures
        match res {
            Some(tag) => node@ is Constructor && node@->Constructor_0 == tag,
            None => !(node@ is Constructor),
        },
{
    match node.borrow() {
        Node_::Constructor(tag, _) => Some(*tag),
        _ => None,
    }
}

/// The argument of an application node.
fn argument(node: &Node) -> (res: Option<Node>)
    ensures
        match res {
            Some(arg) => node@ is Application && arg@ == argument_of(node@),
            None => !(node@ is Application),
        },
{
    match node.borrow() {
        Node_::Application(_, arg) => Some(arg.clone()),
        _ => None,
    }
}

fn int_op(ins: Instruction, l: i64, r: i64) -> (res: Option<Result<Node, VMError>>)
    ensures
        match int_op_spec(ins, l, r) {
            Some(Ok(v)) => res is Some && res.unwrap() is Ok && res.unwrap().unwrap()@ == v,
            Some(Err(e)) => res == Some(Err::<Node, VMError>(e)),
            None => res is None,
        },
        int_op_spec(ins, l, r) is Some <==> int_op_spec(ins, 0, 0) is Some,
{
    match ins {
        Instruction::Add => Some(Ok(Node::new(Node_::Int(l.wrapping_add(r))))),
        Instruction::Sub => Some(Ok(Node::new(Node_::Int(l.wrapping_sub(r))))),
        Instruction::Multiply => Some(Ok(Node::new(Node_::Int(l.wrapping_mul(r))))),
        Instruction::Divide => match l.checked_div(r) {
            Some(q) => Some(Ok(Node::new(Node_::Int(q)))),
            None => Some(Err(VMError::Arithmetic)),
        },
        Instruction::Remainder => match l.checked_rem(r) {
            Some(q) => Some(Ok(Node::new(Node_::Int(q)))),
            None => Some(Err(VMError::Arithmetic)),
        },
        Instruction::IntEQ => Some(Ok(Node::truth(l == r))),
        Instruction::IntLT => Some(Ok(Node::truth(l < r))),
        Instruction::IntLE => Some(Ok(Node::truth(l <= r))),
        Instruction::IntGT => Some(Ok(Node::truth(l > r))),
        Instruction::IntGE => Some(Ok(Node::truth(l >= r))),
        _ => None,
    }
}

fn float_op(ins: Instruction) -> (res: Option<FloatOp>)
    ensures
        res == float_op_spec(ins),
{
    match ins {
        Instruction::DoubleAdd => Some(FloatOp::Add),
        Instruction::DoubleSub => Some(FloatOp::Sub),
        Instruction::DoubleMultiply => Some(FloatOp::Multiply),
        Instruction::DoubleDivide => Some(FloatOp::Divide),
        Instruction::DoubleRemainder => Some(FloatOp::Remainder),
        Instruction::DoubleEQ => Some(FloatOp::EQ),
        Instruction::DoubleLT => Some(FloatOp::LT),
        Instruction::DoubleLE => Some(FloatOp::LE),
        Instruction::DoubleGT => Some(FloatOp::GT),
        Instruction::DoubleGE => Some(FloatOp::GE),
        _ => None,
    }
}

impl VM {
    /// The node of the global `gi`.
    fn global(&self, gi: usize) -> (res: Option<Node>)
        ensures
            match self.global_spec(gi) {
                Some(v) => res is Some && res.unwrap()@ == v,
                None => res is None,
            },
    {
        if gi < self.globals.len() {
            let (a, i) = self.globals[gi];
            Some(Node::new(Node_::Combinator(a, i)))
        } else {
            None
        }
    }

    fn combinator_exists(&self, a: usize, i: usize) -> (res: bool)
        ensures
            res == self.has_combinator(a, i),
    {
        a < self.assembly.len() && i < self.assembly[a].superCombinators.len()
    }

    /// The integer and floating-point instructions on two operands.
    fn binary(&self, frame: &mut Frame, ins: Instruction) -> (e: Effect)
        requires
            int_op_spec(ins, 0, 0) is Some || float_op_spec(ins) is Some,
            old(frame).ip < usize::MAX,
        ensures
            effect_spec(self.instruction_spec(old(frame)@, ins), old(frame)@, final(frame)@, e),
    {
        let n = frame.stack.len();
        if n < 2 {
            return Effect::Fail(VMError::StackUnderflow);
        }
        match float_op(ins) {
            Some(op) => {
                proof {
                    assert(int_op_spec(ins, 0, 0) is None);
                }
                match (float_of(&frame.stack[n - 1]), float_of(&frame.stack[n - 2])) {
                    (Some(l), Some(r)) => {
                        keep(&mut frame.stack, n - 2);
                        frame.ip = frame.ip + 1;
                        Effect::Suspend(FloatRequest::Binary(op, l, r))
                    },
                    _ => Effect::Fail(VMError::KindMismatch),
                }
            },
            None => {
                match (int_of(&frame.stack[n - 1]), int_of(&frame.stack[n - 2])) {
                    (Some(l), Some(r)) => {
                        match int_op(ins, l, r) {
                            Some(Ok(v)) => {
                                keep(&mut frame.stack, n - 2);
                                push_node(&mut frame.stack, v);
                                frame.ip = frame.ip + 1;
                                Effect::Next
                            },
                            Some(Err(e)) => Effect::Fail(e),
                            None => Effect::Fail(VMError::KindMismatch),
                        }
                    },
                    _ => Effect::Fail(VMError::KindMismatch),
                }
            },
        }
    }

    /// `Unwind`: descend the spine, follow an indirection, enter a saturated
    /// combinator, or leave a node in weak head normal form.
    fn unwind(&self, frame: &mut Frame) -> (e: Effect)
        requires
            old(frame).stack@.len() >= 1,
            old(frame).ip < usize::MAX,
        ensures
            effect_spec(self.unwind_spec(old(frame)@), old(frame)@, final(frame)@, e),
    {
        let n = frame.stack.len();
        let top = frame.stack[n - 1].clone();
        match top.borrow() {
            Node_::Application(func, _) => {
                push_node(&mut frame.stack, func.clone());
                Effect::Next
            },
            Node_::Indirection(node) => {
                put(&mut frame.stack, n - 1, node.clone());
                Effect::Next
            },
            Node_::Combinator(a, i) => {
                let a = *a;
                let i = *i;
                if !self.combinator_exists(a, i) {
                    return Effect::Fail(VMError::OutOfRange);
                }
                let arity = self.assembly[a].superCombinators[i].arity;
                let assembly_id = self.assembly[a].superCombinators[i].assembly_id;
                if n - 1 < arity {
                    keep(&mut frame.stack, 1);
                    frame.ip = frame.ip + 1;
                    return Effect::Next;
                }
                let first = n - 1 - arity;
                let mut j = first;
                while j < n - 1
                    invariant
                        first <= j <= n - 1,
                        n == frame.stack@.len(),
                        *frame == *old(frame),
                        first == n - 1 - arity,
                        old(frame)@.stack.last() == Value::Combinator(a, i),
                        self.has_combinator(a, i),
                        arity == self.arity_of(a, i),
                        forall|k: int| first <= k < j ==> (#[trigger] frame@.stack[k]) is Application,
                    decreases n - 1 - j,
                {
                    if argument(&frame.stack[j]).is_none() {
                        assert(!(old(frame)@.stack[j as int] is Application));
                        return Effect::Fail(VMError::KindMismatch);
                    }
                    j += 1;
                }
                let mut stack: Vec<Node> = Vec::new();
                let mut k: usize = 0;
                while k < arity
                    invariant
                        k <= arity,
                        first == n - 1 - arity,
                        n == frame.stack@.len(),
                        *frame == *old(frame),
                        stack@.len() == k,
                        forall|q: int| first <= q < n - 1 ==> (#[trigger] frame@.stack[q]) is Application,
                        forall|q: int|
                            0 <= q < k ==> (#[trigger] stack@[q])@ == argument_of(
                                frame@.stack[n - 2 - q],
                            ),
                    decreases arity - k,
                {
                    match argument(&frame.stack[n - 2 - k]) {
                        Some(arg) => stack.push(arg),
                        None => {
                            assert(frame@.stack[n - 2 - k] is Application);
                        },
                    }
                    k += 1;
                }
                j = first;
                while j < n - 1
                    invariant
                        first <= j <= n - 1,
                        n == frame.stack@.len(),
                        n == old(frame).stack@.len(),
                        frame.code == old(frame).code,
                        frame.ip == old(frame).ip,
                        frame.assembly_id == old(frame).assembly_id,
                        forall|q: int|
                            0 <= q < n ==> (#[trigger] frame.stack@[q])@ == (if first <= q < j {
                                argument_of(old(frame)@.stack[q])
                            } else {
                                old(frame)@.stack[q]
                            }),
                    decreases n - 1 - j,
                {
                    match argument(&frame.stack[j]) {
                        Some(arg) => {
                            frame.stack[j] = arg;
                        },
                        None => {},
                    }
                    j += 1;
                }
                let entered = Frame { stack, code: Code::Global(a, i), ip: 0, assembly_id };
                proof {
                    let spec = self.unwind_spec(old(frame)@);
                    assert(old(frame)@.stack.last() == top@);
                    assert(spec is Call);
                    assert(entered@.stack =~= spec->Call_1.stack);
                    assert(frame@.stack =~= spec->Call_0.stack);
                }
                Effect::Call(entered)
            },
            _ => {
                frame.ip = frame.ip + 1;
                Effect::Next
            },
        }
    }
}

fn copy_indices(v: &Vec<usize>) -> (res: Vec<usize>)
    ensures
        res@ == v@,
{
    let mut out: Vec<usize> = Vec::new();
    let mut i: usize = 0;
    while i < v.len()
        invariant
            i <= v.len(),
            out@ == v@.take(i as int),
        decreases v.len() - i,
    {
        out.push(v[i]);
        proof {
            assert(out@ =~= v@.take(i + 1));
        }
        i += 1;
    }
    proof {
        assert(v@.take(v@.len() as int) =~= v@);
    }
    out
}

/// The entry `index` of a dictionary node.
fn dictionary_entry(node: &Node, index: usize) -> (res: Result<usize, VMError>)
    ensures
        match node@ {
            Value::Dictionary(dict) => if index < dict.len() {
                res == Ok::<usize, VMError>(dict[index as int])
            } else {
                res == Err::<usize, VMError>(VMError::OutOfRange)
            },
            _ => res == Err::<usize, VMError>(VMError::KindMismatch),
        },
{
    match node.borrow() {
        Node_::Dictionary(dict) => if index < dict.len() {
            Ok(dict[index])
        } else {
            Err(VMError::OutOfRange)
        },
        _ => Err(VMError::KindMismatch),
    }
}

/// Pushes the fields of the constructor node `node`, the last one first, so
/// that the first field comes to lie on top.
fn push_fields(stack: &mut Vec<Node>, node: &Node)
    requires
        node@ is Constructor,
    ensures
        seq_view(final(stack)@) == seq_view(old(stack)@) + node@->Constructor_1.reverse(),
{
    match node.borrow() {
        Node_::Constructor(_, fields) => {
            let n = fields.len();
            let mut i: usize = 0;
            while i < n
                invariant
                    i <= n,
                    n == fields@.len(),
                    node@ is Constructor,
                    node@->Constructor_1.len() == fields@.len(),
                    forall|k: int|
                        0 <= k < fields@.len() ==> node@->Constructor_1[k] == (#[trigger] fields@[k])@,
                    seq_view(stack@) == seq_view(old(stack)@) + node@->Constructor_1.reverse().take(
                        i as int,
                    ),
                decreases n - i,
            {
                push_node(stack, fields[n - 1 - i].clone());
                proof {
                    assert(seq_view(stack@) =~= seq_view(old(stack)@)
                        + node@->Constructor_1.reverse().take(i + 1));
                }
                i += 1;
            }
            proof {
                assert(node@->Constructor_1.reverse().take(n as int)
                    =~= node@->Constructor_1.reverse());
            }
        },
        _ => {},
    }
}

impl VM {
    /// Executes the instruction `ins` of the frame `frame`.
    fn instruction(&self, frame: &mut Frame, ins: Instruction) -> (e: Effect)
        requires
            old(frame).ip < usize::MAX,
        ensures
            effect_spec(self.instruction_spec(old(frame)@, ins), old(frame)@, final(frame)@, e),
    {
        let n = frame.stack.len();
        match ins {
            Instruction::Add
            | Instruction::Sub
            | Instruction::Multiply
            | Instruction::Divide
            | Instruction::Remainder
            | Instruction::IntEQ
            | Instruction::IntLT
            | Instruction::IntLE
            | Instruction::IntGT
            | Instruction::IntGE
            | Instruction::DoubleAdd
            | Instruction::DoubleSub
            | Instruction::DoubleMultiply
            | Instruction::DoubleDivide
            | Instruction::DoubleRemainder
            | Instruction::DoubleEQ
            | Instruction::DoubleLT
            | Instruction::DoubleLE
            | Instruction::DoubleGT
            | Instruction::DoubleGE => self.binary(frame, ins),
            Instruction::IntToDouble => {
                if n < 1 {
                    return Effect::Fail(VMError::StackUnderflow);
                }
                match int_of(&frame.stack[n - 1]) {
                    Some(i) => {
                        keep(&mut frame.stack, n - 1);
                        frame.ip = frame.ip + 1;
                        Effect::Suspend(FloatRequest::FromInt(i))
                    },
                    None => Effect::Fail(VMError::KindMismatch),
                }
            },
            Instruction::DoubleToInt => {
                if n < 1 {
                    return Effect::Fail(VMError::StackUnderflow);
                }
                match float_of(&frame.stack[n - 1]) {
                    Some(d) => {
                        keep(&mut frame.stack, n - 1);
                        frame.ip = frame.ip + 1;
                        Effect::Suspend(FloatRequest::ToInt(d))
                    },
                    None => Effect::Fail(VMError::KindMismatch),
                }
            },
            Instruction::PushInt(i) => {
                push_node(&mut frame.stack, Node::new(Node_::Int(i)));
                frame.ip = frame.ip + 1;
                Effect::Next
            },
            Instruction::PushFloat(d) => {
                push_node(&mut frame.stack, Node::new(Node_::Float(d)));
                frame.ip = frame.ip + 1;
                Effect::Next
            },
            Instruction::PushChar(c) => {
                push_node(&mut frame.stack, Node::new(Node_::Char(c)));
                frame.ip = frame.ip + 1;
                Effect::Next
            },
            Instruction::Push(index) => {
                if index < n {
                    let x = frame.stack[index].clone();
                    push_node(&mut frame.stack, x);
                    frame.ip = frame.ip + 1;
                    Effect::Next
                } else {
                    Effect::Fail(VMError::OutOfRange)
                }
            },
            Instruction::PushGlobal(gi) => match self.global(gi) {
                Some(node) => {
                    push_node(&mut frame.stack, node);
                    frame.ip = frame.ip + 1;
                    Effect::Next
                },
                None => Effect::Fail(VMError::OutOfRange),
            },
            Instruction::Mkap => {
                if n < 2 {
                    return Effect::Fail(VMError::StackUnderflow);
                }
                let func = frame.stack[n - 1].clone();
                let arg = frame.stack[n - 2].clone();
                keep(&mut frame.stack, n - 2);
                push_node(&mut frame.stack, Node::new(Node_::Application(func, arg)));
                frame.ip = frame.ip + 1;
                Effect::Next
            },
            Instruction::Eval => {
                if n < 1 {
                    return Effect::Fail(VMError::StackUnderflow);
                }
                let top = frame.stack[n - 1].clone();
                keep(&mut frame.stack, n - 1);
                let mut stack: Vec<Node> = Vec::new();
                stack.push(top);
                let entered = Frame {
                    stack,
                    code: Code::Unwind,
                    ip: 0,
                    assembly_id: frame.assembly_id,
                };
                proof {
                    assert(entered@.stack =~= seq![old(frame)@.stack[n - 1]]);
                }
                Effect::Call(entered)
            },
            Instruction::Pop(num) => {
                if n < num {
                    return Effect::Fail(VMError::StackUnderflow);
                }
                keep(&mut frame.stack, n - num);
                frame.ip = frame.ip + 1;
                Effect::Next
            },
            Instruction::Update(index) => {
                if index < n {
                    let top = frame.stack[n - 1].clone();
                    put(&mut frame.stack, index, Node::new(Node_::Indirection(top)));
                    frame.ip = frame.ip + 1;
                    Effect::Next
                } else {
                    Effect::Fail(VMError::OutOfRange)
                }
            },
            Instruction::Unwind => {
                if n < 1 {
                    return Effect::Fail(VMError::StackUnderflow);
                }
                self.unwind(frame)
            },
            Instruction::Slide(size) => {
                if n < 1 || n - 1 < size {
                    return Effect::Fail(VMError::StackUnderflow);
                }
                let top = frame.stack[n - 1].clone();
                keep(&mut frame.stack, n - 1 - size);
                push_node(&mut frame.stack, top);
                frame.ip = frame.ip + 1;
                Effect::Next
            },
            Instruction::Split(_) => {
                if n < 1 {
                    return Effect::Fail(VMError::StackUnderflow);
                }
                let top = frame.stack[n - 1].clone();
                match tag_of(&top) {
                    Some(_) => {
                        keep(&mut frame.stack, n - 1);
                        push_fields(&mut frame.stack, &top);
                        frame.ip = frame.ip + 1;
                        Effect::Next
                    },
                    None => Effect::Fail(VMError::KindMismatch),
                }
            },
            Instruction::Pack(tag, arity) => {
                let arity = arity as usize;
                if n < arity {
                    return Effect::Fail(VMError::StackUnderflow);
                }
                let mut fields: Vec<Node> = Vec::new();
                let mut k: usize = 0;
                while k < arity
                    invariant
                        k <= arity <= n,
                        n == frame.stack@.len(),
                        *frame == *old(frame),
                        fields@.len() == k,
                        forall|q: int|
                            0 <= q < k ==> (#[trigger] fields@[q])@ == frame@.stack[n - 1 - q],
                    decreases arity - k,
                {
                    fields.push(frame.stack[n - 1 - k].clone());
                    k += 1;
                }
                let node = Node::constructor(tag, fields);
                proof {
                    assert(node@->Constructor_1 =~= Seq::new(
                        arity as nat,
                        |k: int| old(frame)@.stack[n - 1 - k],
                    ));
                }
                keep(&mut frame.stack, n - arity);
                push_node(&mut frame.stack, node);
                frame.ip = frame.ip + 1;
                Effect::Next
            },
            Instruction::JumpFalse(address) => {
                if n < 1 {
                    return Effect::Fail(VMError::StackUnderflow);
                }
                let tag = tag_of(&frame.stack[n - 1]);
                keep(&mut frame.stack, n - 1);
                match tag {
                    Some(1) => {
                        frame.ip = address;
                    },
                    _ => {
                        frame.ip = frame.ip + 1;
                    },
                }
                Effect::Next
            },
            Instruction::CaseJump(jump_tag) => {
                if n < 1 {
                    return Effect::Fail(VMError::StackUnderflow);
                }
                match tag_of(&frame.stack[n - 1]) {
                    Some(tag) => {
                        if jump_tag == tag as usize {
                            if frame.ip >= usize::MAX - 1 {
                                return Effect::Fail(VMError::OutOfRange);
                            }
                            frame.ip = frame.ip + 2;
                            proof {
                                assert(frame@.stack =~= old(frame)@.stack);
                            }
                            Effect::Next
                        } else {
                            keep(&mut frame.stack, n - 1);
                            frame.ip = frame.ip + 1;
                            Effect::Next
                        }
                    },
                    None => Effect::Fail(VMError::KindMismatch),
                }
            },
            Instruction::Jump(to) => {
                frame.ip = to;
                Effect::Next
            },
            Instruction::PushDictionary(index) => {
                if frame.assembly_id < self.assembly.len() && index
                    < self.assembly[frame.assembly_id].instance_dictionaries.len() {
                    let dict = copy_indices(
                        &self.assembly[frame.assembly_id].instance_dictionaries[index],
                    );
                    push_node(&mut frame.stack, Node::new(Node_::Dictionary(dict)));
                    frame.ip = frame.ip + 1;
                    Effect::Next
                } else {
                    Effect::Fail(VMError::OutOfRange)
                }
            },
            Instruction::PushDictionaryMember(index) => {
                if n < 1 {
                    return Effect::Fail(VMError::StackUnderflow);
                }
                match dictionary_entry(&frame.stack[0], index) {
                    Ok(gi) => match self.global(gi) {
                        Some(node) => {
                            push_node(&mut frame.stack, node);
                            frame.ip = frame.ip + 1;
                            Effect::Next
                        },
                        None => Effect::Fail(VMError::OutOfRange),
                    },
                    Err(e) => Effect::Fail(e),
                }
            },
        }
    }
}

impl Machine {
    /// A machine that runs `code` in the assembly `assembly_id`, on an empty stack.
    pub fn new(code: Vec<Instruction>, assembly_id: usize) -> (res: Machine)
        ensures
            res@ == (MachineModel {
                frames: seq![
                    FrameModel { stack: Seq::empty(), code: Code::Entry, ip: 0, assembly_id },
                ],
                entry: code@,
                pending: None,
            }),
    {
        let mut frames: Vec<Frame> = Vec::new();
        let frame = Frame { stack: Vec::new(), code: Code::Entry, ip: 0, assembly_id };
        proof {
            assert(frame@.stack =~= Seq::<Value>::empty());
        }
        frames.push(frame);
        let res = Machine { frames, entry: code, pending: None };
        proof {
            assert(res@.frames =~= seq![
                FrameModel { stack: Seq::empty(), code: Code::Entry, ip: 0, assembly_id },
            ]);
        }
        res
    }

    /// Hands the answer to the pending floating-point request to the machine:
    /// the node that stands for it is pushed on the innermost frame's stack.
    /// Without a pending request, or with an answer of another kind than the
    /// one asked for, the machine stays as it is.
    pub fn resume(&mut self, answer: FloatAnswer) -> (res: Result<(), VMError>)
        ensures
            resume_spec(old(self)@, answer) is Some ==> res is Ok && final(self)@ == resume_spec(
                old(self)@,
                answer,
            ).unwrap(),
            resume_spec(old(self)@, answer) is None ==> res == Err::<(), VMError>(VMError::Answer)
                && final(self)@ == old(self)@,
    {
        let request = match self.pending {
            Some(request) => request,
            None => {
                return Err(VMError::Answer);
            },
        };
        let node = match (request, answer) {
            (FloatRequest::Binary(op, _, _), FloatAnswer::Double(d)) => match op {
                FloatOp::Add
                | FloatOp::Sub
                | FloatOp::Multiply
                | FloatOp::Divide
                | FloatOp::Remainder => Node::new(Node_::Float(d)),
                _ => {
                    return Err(VMError::Answer);
                },
            },
            (FloatRequest::Binary(op, _, _), FloatAnswer::Truth(b)) => match op {
                FloatOp::EQ | FloatOp::LT | FloatOp::LE | FloatOp::GT | FloatOp::GE => Node::truth(
                    b,
                ),
                _ => {
                    return Err(VMError::Answer);
                },
            },
            (FloatRequest::FromInt(_), FloatAnswer::Double(d)) => Node::new(Node_::Float(d)),
            (FloatRequest::ToInt(_), FloatAnswer::Int(i)) => Node::new(Node_::Int(i)),
            _ => {
                return Err(VMError::Answer);
            },
        };
        let n = self.frames.len();
        if n == 0 {
            return Err(VMError::Answer);
        }
        let mut frame = self.frames.pop().unwrap();
        push_node(&mut frame.stack, node);
        self.frames.push(frame);
        self.pending = None;
        proof {
            assert(self@.frames =~= resume_spec(old(self)@, answer).unwrap().frames);
        }
        Ok(())
    }

    /// The node on top of the entry frame's stack, where that stack holds
    /// exactly one node and no other frame is left.
    pub fn result(&self) -> (res: Option<Node>)
        ensures
            match res {
                Some(node) => self@.frames.len() == 1 && self@.frames[0].stack == seq![node@],
                None => !(self@.frames.len() == 1 && self@.frames[0].stack.len() == 1),
            },
    {
        if self.frames.len() == 1 && self.frames[0].stack.len() == 1 {
            let node = self.frames[0].stack[0].clone();
            proof {
                assert(self@.frames[0].stack =~= seq![node@]);
            }
            Some(node)
        } else {
            None
        }
    }
}

/// The machine after the answer to its pending request has been pushed, or
/// none where there is no request, no frame, or the answer is of another kind.
pub open spec fn resume_spec(m: MachineModel, answer: FloatAnswer) -> Option<MachineModel> {
    if m.pending is Some && m.frames.len() > 0 && answer_spec(m.pending.unwrap(), answer) is Some {
        let f = m.frames.last();
        Some(
            MachineModel {
                frames: m.frames.drop_last().push(
                    f.stay(f.stack.push(answer_spec(m.pending.unwrap(), answer).unwrap())),
                ),
                pending: None,
                ..m
            },
        )
    } else {
        None
    }
}

impl VM {
    /// A machine without assemblies.
    pub fn new() -> (res: VM)
        ensures
            res.assembly@.len() == 0,
            res.globals@.len() == 0,
    {
        VM { assembly: Vec::new(), globals: Vec::new() }
    }

    /// Adds an assembly: it gets the next assembly index, and each of its
    /// super-combinators, in order, the next global index.
    pub fn add_assembly(&mut self, assembly: Assembly)
        ensures
            final(self).assembly@ == old(self).assembly@.push(assembly),
            final(self).globals@ == old(self).globals@ + Seq::new(
                assembly.superCombinators@.len(),
                |i: int| (old(self).assembly@.len() as usize, i as usize),
            ),
    {
        let assembly_index = self.assembly.len();
        let count = assembly.superCombinators.len();
        self.assembly.push(assembly);
        let mut index: usize = 0;
        while index < count
            invariant
                index <= count,
                self.assembly@ == old(self).assembly@.push(assembly),
                assembly_index == old(self).assembly@.len(),
                self.globals@ == old(self).globals@ + Seq::new(
                    index as nat,
                    |i: int| (assembly_index, i as usize),
                ),
            decreases count - index,
        {
            self.globals.push((assembly_index, index));
            proof {
                assert(self.globals@ =~= old(self).globals@ + Seq::new(
                    (index + 1) as nat,
                    |i: int| (assembly_index, i as usize),
                ));
            }
            index += 1;
        }
    }

    /// The instruction at the frame's instruction pointer: none where the
    /// pointer has passed the last instruction.
    fn fetch(&self, entry: &Vec<Instruction>, frame: &Frame) -> (res: Result<
        Option<Instruction>,
        VMError,
    >)
        ensures
            match self.code_spec(entry@, frame.code) {
                None => res == Err::<Option<Instruction>, VMError>(VMError::OutOfRange),
                Some(code) => if frame.ip >= code.len() {
                    res == Ok::<Option<Instruction>, VMError>(None)
                } else {
                    res == Ok::<Option<Instruction>, VMError>(Some(code[frame.ip as int]))
                },
            },
            res is Ok && res.unwrap() is Some ==> frame.ip < usize::MAX,
    {
        match frame.code {
            Code::Entry => if frame.ip < entry.len() {
                Ok(Some(entry[frame.ip]))
            } else {
                Ok(None)
            },
            Code::Unwind => if frame.ip == 0 {
                Ok(Some(Instruction::Unwind))
            } else {
                Ok(None)
            },
            Code::Global(a, i) => if self.combinator_exists(a, i) {
                let code = &self.assembly[a].superCombinators[i].instructions;
                if frame.ip < code.len() {
                    Ok(Some(code[frame.ip]))
                } else {
                    Ok(None)
                }
            } else {
                Err(VMError::OutOfRange)
            },
        }
    }

    /// Hands the result of the frame `child`, which has ended, to `parent`.
    fn leave(&self, parent: &mut Frame, child: &Frame) -> (res: Result<(), VMError>)
        ensures
            match self.return_spec(old(parent)@, child@) {
                Ok(p) => res is Ok && final(parent)@ == p,
                Err(e) => res == Err::<(), VMError>(e) && final(parent)@ == old(parent)@,
            },
    {
        match child.code {
            Code::Entry => Err(VMError::FrameResult),
            Code::Unwind => {
                let n = child.stack.len();
                if n < 1 {
                    return Err(VMError::StackUnderflow);
                }
                if parent.ip == usize::MAX {
                    return Err(VMError::OutOfRange);
                }
                push_node(&mut parent.stack, child.stack[n - 1].clone());
                parent.ip = parent.ip + 1;
                Ok(())
            },
            Code::Global(a, i) => {
                if !self.combinator_exists(a, i) {
                    return Err(VMError::OutOfRange);
                }
                if child.stack.len() != 1 {
                    return Err(VMError::FrameResult);
                }
                let arity = self.assembly[a].superCombinators[i].arity;
                let n = parent.stack.len();
                if n <= arity {
                    return Err(VMError::StackUnderflow);
                }
                keep(&mut parent.stack, n - arity - 1);
                push_node(&mut parent.stack, child.stack[0].clone());
                Ok(())
            },
        }
    }

    /// One step of the machine.
    pub fn step(&self, m: &mut Machine) -> (status: Status)
        ensures
            (final(m)@, status) == self.step_spec(old(m)@),
    {
        match m.pending {
            Some(request) => {
                return Status::Suspended(request);
            },
            None => {},
        }
        let n = m.frames.len();
        if n == 0 {
            return Status::Finished;
        }
        let mut frame = m.frames.pop().unwrap();
        let fetched = self.fetch(&m.entry, &frame);
        match fetched {
            Err(e) => {
                m.frames.push(frame);
                proof {
                    assert(m@.frames =~= old(m)@.frames);
                }
                Status::Failed(e)
            },
            Ok(None) => {
                if n == 1 {
                    m.frames.push(frame);
                    proof {
                        assert(m@.frames =~= old(m)@.frames);
                    }
                    Status::Finished
                } else {
                    let mut parent = m.frames.pop().unwrap();
                    match self.leave(&mut parent, &frame) {
                        Ok(()) => {
                            m.frames.push(parent);
                            proof {
                                assert(m@.frames =~= old(m)@.frames.take(n - 2).push(parent@));
                            }
                            Status::Running
                        },
                        Err(e) => {
                            m.frames.push(parent);
                            m.frames.push(frame);
                            proof {
                                assert(m@.frames =~= old(m)@.frames);
                            }
                            Status::Failed(e)
                        },
                    }
                }
            },
            Ok(Some(ins)) => {
                match self.instruction(&mut frame, ins) {
                    Effect::Next => {
                        m.frames.push(frame);
                        proof {
                            assert(m@.frames =~= old(m)@.frames.take(n - 1).push(frame@));
                        }
                        Status::Running
                    },
                    Effect::Call(entered) => {
                        m.frames.push(frame);
                        m.frames.push(entered);
                        proof {
                            assert(m@.frames =~= old(m)@.frames.take(n - 1).push(frame@).push(
                                entered@,
                            ));
                        }
                        Status::Running
                    },
                    Effect::Suspend(request) => {
                        m.frames.push(frame);
                        m.pending = Some(request);
                        proof {
                            assert(m@.frames =~= old(m)@.frames.take(n - 1).push(frame@));
                        }
                        Status::Suspended(request)
                    },
                    Effect::Fail(e) => {
                        m.frames.push(frame);
                        proof {
                            assert(m@.frames =~= old(m)@.frames);
                        }
                        Status::Failed(e)
                    },
                }
            },
        }
    }

    /// Runs the machine for at most `limit` steps, until it no longer stands
    /// at `Running`.
    pub fn execute(&self, m: &mut Machine, limit: u64) -> (status: Status)
        ensures
            (final(m)@, status) == self.run_spec(old(m)@, limit as nat),
    {
        let mut left = limit;
        while left > 0
            invariant
                self.run_spec(old(m)@, limit as nat) == self.run_spec(m@, left as nat),
            decreases left,
        {
            let status = self.step(m);
            match status {
                Status::Running => {},
                _ => {
                    return status;
                },
            }
            left -= 1;
        }
        Status::Running
    }
}

/// How an evaluation stands.
#[derive(Debug)]
pub enum Evaluation {
    /// The run finished and left exactly this one node.
    Value(Node),
    /// The machine waits for the answer to a floating-point request.
    Suspended(FloatRequest),
    /// The step limit was reached before the run finished.
    Unfinished,
    /// An instruction could not be executed, or the run finished with other
    /// than exactly one node.
    Failed(VMError),
}

impl Machine {
    /// A machine that runs `code` and then forces the node on top of the
    /// stack, in the assembly `assembly_id`, on an empty stack.
    pub fn load(code: &Vec<Instruction>, assembly_id: usize) -> (res: Machine)
        ensures
            res@ == (MachineModel {
                frames: seq![
                    FrameModel { stack: Seq::empty(), code: Code::Entry, ip: 0, assembly_id },
                ],
                entry: code@.push(Instruction::Eval),
                pending: None,
            }),
    {
        let mut entry: Vec<Instruction> = Vec::new();
        let mut i: usize = 0;
        while i < code.len()
            invariant
                i <= code.len(),
                entry@ == code@.take(i as int),
            decreases code.len() - i,
        {
            entry.push(code[i]);
            proof {
                assert(entry@ =~= code@.take(i + 1));
            }
            i += 1;
        }
        proof {
            assert(code@.take(code@.len() as int) =~= code@);
        }
        entry.push(Instruction::Eval);
        Machine::new(entry, assembly_id)
    }
}

/// What a run that ended in the state `m` with the status `status` amounts to.
pub open spec fn evaluation_spec(m: MachineModel, status: Status, e: Evaluation) -> bool {
    match status {
        Status::Running => e is Unfinished,
        Status::Suspended(request) => e == Evaluation::Suspended(request),
        Status::Failed(error) => e == Evaluation::Failed(error),
        Status::Finished => if m.frames.len() == 1 && m.frames[0].stack.len() == 1 {
            e is Value && e->Value_0@ == m.frames[0].stack[0]
        } else {
            e == Evaluation::Failed(VMError::FrameResult)
        },
    }
}

impl VM {
    /// Runs the machine for at most `limit` steps and says how the evaluation
    /// stands: a finished run must have left exactly one node.
    pub fn evaluate(&self, m: &mut Machine, limit: u64) -> (e: Evaluation)
        ensures
            final(m)@ == self.run_spec(old(m)@, limit as nat).0,
            evaluation_spec(final(m)@, self.run_spec(old(m)@, limit as nat).1, e),
    {
        match self.execute(m, limit) {
            Status::Running => Evaluation::Unfinished,
            Status::Suspended(request) => Evaluation::Suspended(request),
            Status::Failed(error) => Evaluation::Failed(error),
            Status::Finished => match m.result() {
                Some(node) => Evaluation::Value(node),
                None => Evaluation::Failed(VMError::FrameResult),
            },
        }
    }
}

/// The result of a program: a number, or a constructor with its fields. A
/// floating-point number is given as the bits of its binary64 representation.
#[derive(Debug, PartialEq)]
pub enum VMResult {
    IntResult(i64),
    DoubleResult(u64),
    ConstructorResult(u16, Vec<VMResult>),
}

pub enum ResultModel {
    IntResult(i64),
    DoubleResult(u64),
    ConstructorResult(u16, Seq<ResultModel>),
}

pub open spec fn result_model(r: VMResult) -> ResultModel
    decreases r,
{
    match r {
        VMResult::IntResult(i) => ResultModel::IntResult(i),
        VMResult::DoubleResult(d) => ResultModel::DoubleResult(d),
        VMResult::ConstructorResult(tag, fields) => ResultModel::ConstructorResult(
            tag,
            Seq::new(
                fields@.len(),
                |i: int|
                    if 0 <= i < fields@.len() {
                        result_model(fields@[i])
                    } else {
                        ResultModel::IntResult(0)
                    },
            ),
        ),
    }
}

impl View for VMResult {
    type V = ResultModel;

    open spec fn view(&self) -> ResultModel {
        result_model(*self)
    }
}

/// The result that a node tree stands for: integers, floating-point numbers
/// and constructors of such. Any other node anywhere in the tree gives none.
pub open spec fn extract_spec(v: Value) -> Option<ResultModel>
    decreases v,
{
    match v {
        Value::Int(i) => Some(ResultModel::IntResult(i)),
        Value::Float(d) => Some(ResultModel::DoubleResult(d)),
        Value::Constructor(tag, fields) => if forall|i: int|
            0 <= i < fields.len() ==> extract_spec(#[trigger] fields[i]) is Some {
            Some(
                ResultModel::ConstructorResult(
                    tag,
                    Seq::new(
                        fields.len(),
                        |i: int|
                            if 0 <= i < fields.len() {
                                extract_spec(fields[i]).unwrap()
                            } else {
                                ResultModel::IntResult(0)
                            },
                    ),
                ),
            )
        } else {
            None
        },
        _ => None,
    }
}

/// Extracts the result that the node tree `node` stands for.
pub fn extract_result(node: &Node) -> (res: Option<VMResult>)
    ensures
        match extract_spec(node@) {
            Some(r) => res is Some && res.unwrap()@ == r,
            None => res is None,
        },
    decreases node,
{
    match node.borrow() {
        Node_::Constructor(tag, fields) => {
            let mut result: Vec<VMResult> = Vec::new();
            let mut i: usize = 0;
            while i < fields.len()
                invariant
                    i <= fields.len(),
                    *node.node == Node_::Constructor(*tag, *fields),
                    result@.len() == i,
                    forall|k: int|
                        0 <= k < i ==> extract_spec((#[trigger] fields@[k])@) == Some(result@[k]@),
                decreases fields.len() - i,
            {
                match extract_result(&fields[i]) {
                    Some(x) => result.push(x),
                    None => {
                        proof {
                            assert(node@->Constructor_1[i as int] == fields@[i as int]@);
                        }
                        return None;
                    },
                }
                i += 1;
            }
            let res = VMResult::ConstructorResult(*tag, result);
            proof {
                let vf = node@->Constructor_1;
                assert forall|k: int| 0 <= k < vf.len() implies extract_spec(
                    #[trigger] vf[k],
                ) is Some by {
                    assert(vf[k] == fields@[k]@);
                }
                assert(res@->ConstructorResult_1 =~= extract_spec(
                    node@,
                ).unwrap()->ConstructorResult_1) by {
                    assert forall|k: int| 0 <= k < vf.len() implies res@->ConstructorResult_1[k]
                        == extract_spec(vf[k]).unwrap() by {
                        assert(vf[k] == fields@[k]@);
                    }
                }
            }
            Some(res)
        },
        Node_::Int(i) => Some(VMResult::IntResult(*i)),
        Node_::Float(d) => Some(VMResult::DoubleResult(*d)),
        _ => None,
    }
}

impl MachineModel {
    /// The machine stands at the instruction `ins` of its innermost frame.
    pub open spec fn stands_at(self, vm: &VM, ins: Instruction) -> bool {
        &&& self.pending is None
        &&& self.frames.len() >= 1
        &&& vm.code_spec(self.entry, self.frames.last().code) is Some
        &&& self.frames.last().ip < vm.code_spec(self.entry, self.frames.last().code).unwrap().len()
        &&& vm.code_spec(self.entry, self.frames.last().code).unwrap()[self.frames.last().ip as int]
            == ins
    }

    /// The machine with another stack in its innermost frame.
    pub open spec fn with_stack(self, stack: Seq<Value>) -> MachineModel {
        MachineModel {
            frames: self.frames.drop_last().push(self.frames.last().stay(stack)),
            ..self
        }
    }
}

/// The state in which the machine, run from `m` for at most `limit` steps, is
/// first down to `depth` frames; none where it fails, is suspended or finishes
/// before that, or needs more steps.
pub open spec fn returns_to(vm: &VM, m: MachineModel, depth: nat, limit: nat) -> Option<
    MachineModel,
>
    decreases limit,
{
    if m.frames.len() <= depth {
        Some(m)
    } else if limit == 0 {
        None
    } else {
        let (next, status) = vm.step_spec(m);
        if status is Running {
            returns_to(vm, next, depth, (limit - 1) as nat)
        } else {
            None
        }
    }
}

/// A node that needs no reduction: a number, a character, a constructor or a dictionary.
pub open spec fn is_value(v: Value) -> bool {
    v is Int || v is Float || v is Char || v is Constructor || v is Dictionary
}

/// What forcing can leave on top of the stack: a node that needs no
/// reduction, a combinator that needs arguments, or an application, which is
/// what remains of a spine with fewer arguments than its combinator needs.
/// An indirection is none of these.
pub open spec fn is_forced(vm: &VM, v: Value) -> bool {
    ||| is_value(v)
    ||| v is Application
    ||| v matches Value::Combinator(a, i) && vm.has_combinator(a, i) && vm.arity_of(a, i) > 0
}

/// The frame at the index `depth` is one that an `Eval` entered, and it is
/// sound: while it unwinds, every node beneath the top of its stack is an
/// application; while it waits for a combinator to return, every node beneath
/// that combinator's arguments is one; and once it has ended, its top is forced.
pub open spec fn unwinding(vm: &VM, m: MachineModel, depth: int) -> bool {
    let f = m.frames[depth];
    let n = f.stack.len() as int;
    &&& 0 <= depth < m.frames.len()
    &&& f.code == Code::Unwind
    &&& if m.frames.len() == depth + 1 {
        if f.ip == 0 {
            forall|j: int| 0 <= j < n - 1 ==> #[trigger] f.stack[j] is Application
        } else {
            n >= 1 && is_forced(vm, f.stack.last())
        }
    } else {
        &&& f.ip == 0
        &&& m.frames[depth + 1].code matches Code::Global(a, i)
        &&& vm.has_combinator(a, i)
        &&& forall|j: int|
            0 <= j < n - 1 - vm.arity_of(a, i) ==> #[trigger] f.stack[j] is Application
    }
}

/// A step keeps a frame that an `Eval` entered sound, as long as the frame stays.
proof fn lemma_step_keeps_unwinding(vm: &VM, m: MachineModel, depth: int)
    requires
        unwinding(vm, m, depth),
        vm.step_spec(m).1 is Running,
        vm.step_spec(m).0.frames.len() > depth,
    ensures
        unwinding(vm, vm.step_spec(m).0, depth),
{
    lemma_step_is_local(vm, m);
    let next = vm.step_spec(m).0;
    let n = m.frames.len() as int;
    let f = m.frames[depth];
    let g = next.frames[depth];
    let k = f.stack.len() as int;
    if n == depth + 1 {
        assert(vm.code_spec(m.entry, f.code) == Some(seq![Instruction::Unwind]));
        assert(f.ip == 0);
        assert(k >= 1);
        assert(vm.instruction_spec(f, Instruction::Unwind) == vm.unwind_spec(f));
        match f.stack.last() {
            Value::Application(func, _) => {
                assert(g == f.stay(f.stack.push(*func)));
                assert forall|j: int| 0 <= j < g.stack.len() - 1 implies #[trigger] g.stack[j]
                    is Application by {
                    if j < k - 1 {
                        assert(f.stack[j] is Application);
                    }
                }
            },
            Value::Indirection(node) => {
                assert(g == f.stay(f.stack.update(k - 1, *node)));
                assert forall|j: int| 0 <= j < g.stack.len() - 1 implies #[trigger] g.stack[j]
                    is Application by {
                    assert(f.stack[j] is Application);
                }
            },
            Value::Combinator(a, i) => {
                let arity = vm.arity_of(a, i) as int;
                if k - 1 < arity {
                    assert(g == f.advance(f.stack.take(1)));
                    assert(g.stack.last() == f.stack[0]);
                    if k > 1 {
                        assert(f.stack[0] is Application);
                    }
                } else {
                    assert(next.frames.len() == depth + 2);
                    assert(next.frames[depth + 1].code == Code::Global(a, i));
                    assert forall|j: int| 0 <= j < g.stack.len() - 1 - arity implies #[trigger] g.stack[j]
                        is Application by {
                        assert(f.stack[j] is Application);
                    }
                }
            },
            _ => {
                assert(g == f.advance(f.stack));
            },
        }
    } else if n == depth + 2 {
        if next.frames.len() == depth + 1 {
            let child = m.frames[n - 1];
            assert(vm.return_spec(f, child) is Ok);
            assert(g == vm.return_spec(f, child)->Ok_0);
            let (a, i) = (child.code->Global_0, child.code->Global_1);
            assert forall|j: int| 0 <= j < g.stack.len() - 1 implies #[trigger] g.stack[j]
                is Application by {
                assert(f.stack[j] is Application);
            }
        } else {
            assert(g == f);
            assert(next.frames[depth + 1].code == m.frames[depth + 1].code);
        }
    } else {
        assert(g == f);
        assert(next.frames[depth + 1].code == m.frames[depth + 1].code);
    }
}

/// A step that leaves the machine running touches the innermost frame, and at
/// its end the frame below it; it leaves every other frame, the code of each
/// frame that stays, and the entry code as they were.
pub proof fn lemma_step_is_local(vm: &VM, m: MachineModel)
    requires
        vm.step_spec(m).1 is Running,
    ensures
        ({
            let next = vm.step_spec(m).0;
            let n = m.frames.len();
            &&& n >= 1
            &&& next.pending is None
            &&& next.entry == m.entry
            &&& n - 1 <= next.frames.len() <= n + 1
            &&& next.frames.len() >= 1
            &&& forall|i: int| 0 <= i < n - 2 ==> next.frames[i] == m.frames[i]
            &&& next.frames.len() >= n ==> forall|i: int|
                0 <= i < n - 1 ==> next.frames[i] == m.frames[i]
            &&& forall|i: int|
                0 <= i < n && i < next.frames.len() ==> (#[trigger] next.frames[i]).code
                    == m.frames[i].code
        }),
{
    let n = m.frames.len() as int;
    let f = m.frames[n - 1];
    let code = vm.code_spec(m.entry, f.code).unwrap();
    if f.ip < code.len() {
        let outcome = vm.instruction_spec(f, code[f.ip as int]);
        match outcome {
            Outcome::Next(g) => {
                assert(g.code == f.code);
            },
            Outcome::Call(g, h) => {
                assert(g.code == f.code);
            },
            _ => {},
        }
    }
}

/// `Eval` replaces the top of the stack and leaves what lies beneath as it
/// was: when the frame that it enters has ended, the frame that holds the
/// `Eval` has as many nodes as before, the same ones below the top, and stands
/// at the next instruction; the frames below it are untouched. The new top is
/// forced, and so never an indirection.
pub proof fn lemma_eval_replaces_top(vm: &VM, m: MachineModel, limit: nat)
    requires
        m.stands_at(vm, Instruction::Eval),
        m.frames.last().stack.len() >= 1,
    ensures
        vm.step_spec(m).1 is Running,
        vm.step_spec(m).0.frames.len() == m.frames.len() + 1,
        returns_to(vm, vm.step_spec(m).0, m.frames.len(), limit) matches Some(end) ==> {
            &&& end.frames.len() == m.frames.len()
            &&& end.frames.drop_last() == m.frames.drop_last()
            &&& end.frames.last().stack.len() == m.frames.last().stack.len()
            &&& end.frames.last().stack.drop_last() == m.frames.last().stack.drop_last()
            &&& end.frames.last().ip == m.frames.last().ip + 1
            &&& end.frames.last().code == m.frames.last().code
            &&& end.frames.last().assembly_id == m.frames.last().assembly_id
            &&& end.pending is None
            &&& end.entry == m.entry
            &&& is_forced(vm, end.frames.last().stack.last())
        },
{
    let d = m.frames.len();
    let next = vm.step_spec(m).0;
    let f = m.frames.last();
    assert(next.frames[d as int].code == Code::Unwind);
    assert(next.frames[d - 1] == f.stay(f.stack.drop_last()));
    assert(next.frames[d as int].stack.len() == 1);
    assert(unwinding(vm, next, d as int));
    lemma_frame_returns(vm, next, d, limit);
    match returns_to(vm, next, d, limit) {
        Some(end) => {
            assert(end.frames.drop_last() =~= m.frames.drop_last());
            assert(end.frames.last().stack.drop_last() =~= f.stack.drop_last());
        },
        None => {},
    }
}

/// When the frame of an `Eval` at index `depth` has ended, the frame below it
/// has one node more, which is forced, and stands at the next instruction.
proof fn lemma_frame_returns(vm: &VM, m: MachineModel, depth: nat, limit: nat)
    requires
        depth >= 1,
        m.frames.len() > depth,
        m.frames[depth as int].code == Code::Unwind,
        m.pending is None,
        unwinding(vm, m, depth as int),
    ensures
        returns_to(vm, m, depth, limit) matches Some(end) ==> {
            &&& end.frames.len() == depth
            &&& end.pending is None
            &&& end.frames.take(depth - 1) == m.frames.take(depth - 1)
            &&& end.frames[depth - 1].stack.len() == m.frames[depth - 1].stack.len() + 1
            &&& end.frames[depth - 1].stack.drop_last() == m.frames[depth - 1].stack
            &&& end.frames[depth - 1].ip == m.frames[depth - 1].ip + 1
            &&& end.frames[depth - 1].code == m.frames[depth - 1].code
            &&& end.frames[depth - 1].assembly_id == m.frames[depth - 1].assembly_id
            &&& end.entry == m.entry
            &&& is_forced(vm, end.frames[depth - 1].stack.last())
        },
    decreases limit,
{
    if limit > 0 {
        let (next, status) = vm.step_spec(m);
        if status is Running {
            lemma_step_is_local(vm, m);
            let n = m.frames.len() as int;
            if next.frames.len() <= depth {
                assert(n == depth + 1);
                let child = m.frames[n - 1];
                let parent = m.frames[n - 2];
                assert(vm.return_spec(parent, child) is Ok);
                let v = child.stack.last();
                assert(vm.code_spec(m.entry, child.code) == Some(seq![Instruction::Unwind]));
                assert(child.ip >= 1);
                assert(is_forced(vm, v));
                assert(next.frames[depth - 1] == parent.advance(parent.stack.push(v)));
                assert(parent.stack.push(v).drop_last() =~= parent.stack);
                assert(next.frames.take(depth - 1) =~= m.frames.take(depth - 1));
                assert(returns_to(vm, next, depth, (limit - 1) as nat) == Some(next));
            } else {
                assert(next.frames[depth as int].code == m.frames[depth as int].code);
                assert(next.frames[depth - 1] == m.frames[depth - 1]);
                lemma_step_keeps_unwinding(vm, m, depth as int);
                lemma_frame_returns(vm, next, depth, (limit - 1) as nat);
                match returns_to(vm, next, depth, (limit - 1) as nat) {
                    Some(end) => {
                        assert(end.frames.take(depth - 1) =~= m.frames.take(depth - 1)) by {
                            assert(next.frames.take(depth - 1) =~= m.frames.take(depth - 1));
                        }
                    },
                    None => {},
                }
            }
        }
    }
}

/// The machine with the frames `base` and above them the frame in which the
/// node `v` is forced.
pub open spec fn forcing(
    base: Seq<FrameModel>,
    entry: Seq<Instruction>,
    assembly_id: usize,
    v: Value,
) -> MachineModel {
    MachineModel {
        frames: base.push(FrameModel { stack: seq![v], code: Code::Unwind, ip: 0, assembly_id }),
        entry,
        pending: None,
    }
}

/// Two machines that run and have the same frames from the index `depth` on.
pub open spec fn same_above(m1: MachineModel, m2: MachineModel, depth: nat) -> bool {
    &&& m1.entry == m2.entry
    &&& m1.pending is None
    &&& m2.pending is None
    &&& m1.frames.len() == m2.frames.len()
    &&& m1.frames.len() > depth
    &&& forall|i: int| depth <= i < m1.frames.len() ==> #[trigger] m1.frames[i] == m2.frames[i]
}

/// A step that keeps the frame at `depth` does not look beneath it.
proof fn lemma_step_looks_above(vm: &VM, m1: MachineModel, m2: MachineModel, depth: nat)
    requires
        same_above(m1, m2, depth),
        vm.step_spec(m1).1 is Running,
        vm.step_spec(m1).0.frames.len() > depth,
    ensures
        vm.step_spec(m2).1 is Running,
        same_above(vm.step_spec(m1).0, vm.step_spec(m2).0, depth),
{
    let n = m1.frames.len() as int;
    let f = m1.frames[n - 1];
    assert(m2.frames[n - 1] == f);
    let code = vm.code_spec(m1.entry, f.code).unwrap();
    if f.ip >= code.len() {
        assert(n - 2 >= depth);
        assert(m2.frames[n - 2] == m1.frames[n - 2]);
    }
    let next1 = vm.step_spec(m1).0;
    let next2 = vm.step_spec(m2).0;
    assert forall|i: int| depth <= i < next1.frames.len() implies #[trigger] next1.frames[i]
        == next2.frames[i] by {
        if i < n - 1 {
            assert(m1.frames[i] == m2.frames[i]);
        }
    }
}

/// The node that a forcing hands back does not depend on the frames beneath it.
proof fn lemma_forcing_looks_above(
    vm: &VM,
    m1: MachineModel,
    m2: MachineModel,
    depth: nat,
    limit: nat,
)
    requires
        depth >= 1,
        same_above(m1, m2, depth),
        m1.frames[depth as int].code == Code::Unwind,
        m2.frames[depth - 1].ip < usize::MAX,
        returns_to(vm, m1, depth, limit) is Some,
    ensures
        returns_to(vm, m2, depth, limit) matches Some(end) && end.frames.len() == depth
            && end.frames[depth - 1].stack.len() >= 1 && end.frames[depth - 1].stack.last()
            == returns_to(vm, m1, depth, limit)->Some_0.frames[depth - 1].stack.last(),
    decreases limit,
{
    if limit > 0 {
        let (next1, status1) = vm.step_spec(m1);
        let (next2, status2) = vm.step_spec(m2);
        lemma_step_is_local(vm, m1);
        let n = m1.frames.len() as int;
        if next1.frames.len() <= depth {
            let child = m1.frames[n - 1];
            assert(m2.frames[n - 1] == child);
            assert(vm.return_spec(m1.frames[n - 2], child) is Ok);
            assert(vm.return_spec(m2.frames[n - 2], child) is Ok);
            assert(returns_to(vm, next1, depth, (limit - 1) as nat) == Some(next1));
            assert(returns_to(vm, next2, depth, (limit - 1) as nat) == Some(next2));
        } else {
            lemma_step_looks_above(vm, m1, m2, depth);
            lemma_step_is_local(vm, m2);
            assert(next2.frames[depth - 1] == m2.frames[depth - 1]);
            lemma_forcing_looks_above(vm, next1, next2, depth, (limit - 1) as nat);
        }
    }
}

/// The run from `m` is the run that the forcing of the node `first` has
/// reached after `k` steps.
pub open spec fn reached(vm: &VM, m: MachineModel, depth: nat, first: Value, k: nat) -> bool {
    forall|l: nat| #[trigger]
        returns_to(vm, m, depth, l) == returns_to(
            vm,
            forcing(
                m.frames.take(depth as int),
                m.entry,
                m.frames[depth as int].assembly_id,
                first,
            ),
            depth,
            l + k,
        )
}

/// The node `first` lies at the bottom of the frame at `depth` wherever that
/// bottom can still be handed back.
pub open spec fn rests_on(vm: &VM, m: MachineModel, depth: nat, first: Value) -> bool {
    let f = m.frames[depth as int];
    if m.frames.len() == depth + 1 {
        if f.ip == 0 {
            f.stack.len() >= 1 && f.stack[0] == first
        } else {
            f.stack.len() >= 1 && (f.stack.last() is Application ==> f.stack.last() == first)
        }
    } else {
        m.frames[depth as int + 1].code matches Code::Global(a, i) && (f.stack.len() > vm.arity_of(a, i)
            + 1 ==> f.stack[0] == first)
    }
}

/// The frame at `depth` has just begun to force the one node that it holds.
pub open spec fn begins(m: MachineModel, depth: nat) -> bool {
    m.frames.len() == depth + 1 && m.frames[depth as int].ip == 0 && m.frames[depth as int].stack.len()
        == 1
}

/// A step keeps the bottom of the frame at `depth`, unless the frame begins anew.
proof fn lemma_step_keeps_bottom(vm: &VM, m: MachineModel, depth: nat, first: Value)
    requires
        unwinding(vm, m, depth as int),
        rests_on(vm, m, depth, first),
        vm.step_spec(m).1 is Running,
        vm.step_spec(m).0.frames.len() > depth,
        !begins(vm.step_spec(m).0, depth),
    ensures
        rests_on(vm, vm.step_spec(m).0, depth, first),
{
    lemma_step_is_local(vm, m);
    lemma_step_keeps_unwinding(vm, m, depth as int);
    let next = vm.step_spec(m).0;
    let n = m.frames.len() as int;
    let f = m.frames[depth as int];
    let g = next.frames[depth as int];
    let k = f.stack.len() as int;
    if n == depth + 1 {
        assert(vm.code_spec(m.entry, f.code) == Some(seq![Instruction::Unwind]));
        assert(f.ip == 0);
        assert(vm.instruction_spec(f, Instruction::Unwind) == vm.unwind_spec(f));
        match f.stack.last() {
            Value::Application(func, _) => {
                assert(g == f.stay(f.stack.push(*func)));
            },
            Value::Indirection(node) => {
                assert(g == f.stay(f.stack.update(k - 1, *node)));
            },
            Value::Combinator(a, i) => {
                let arity = vm.arity_of(a, i) as int;
                if k - 1 < arity {
                    assert(g == f.advance(f.stack.take(1)));
                    assert(g.stack.last() == f.stack[0]);
                } else {
                    assert(next.frames[depth as int + 1].code == Code::Global(a, i));
                }
            },
            _ => {
                assert(g == f.advance(f.stack));
            },
        }
    } else if n == depth + 2 {
        if next.frames.len() == depth + 1 {
            let child = m.frames[n - 1];
            assert(vm.return_spec(f, child) is Ok);
            assert(g == vm.return_spec(f, child)->Ok_0);
        } else {
            assert(g == f);
            assert(next.frames[depth as int + 1].code == m.frames[depth as int + 1].code);
        }
    } else {
        assert(g == f);
        assert(next.frames[depth as int + 1].code == m.frames[depth as int + 1].code);
    }
}

/// Where a forcing hands back an application, forcing that application
/// beneath the same frames ends in the same state.
proof fn lemma_forced_again(
    vm: &VM,
    m: MachineModel,
    depth: nat,
    limit: nat,
    first: Value,
    k: nat,
) -> (again: nat)
    requires
        depth >= 1,
        m.frames.len() > depth,
        m.pending is None,
        unwinding(vm, m, depth as int),
        reached(vm, m, depth, first, k),
        rests_on(vm, m, depth, first),
        returns_to(vm, m, depth, limit) is Some,
        returns_to(vm, m, depth, limit)->Some_0.frames[depth - 1].stack.last() is Application,
    ensures
        returns_to(
            vm,
            forcing(
                m.frames.take(depth as int),
                m.entry,
                m.frames[depth as int].assembly_id,
                returns_to(vm, m, depth, limit)->Some_0.frames[depth - 1].stack.last(),
            ),
            depth,
            again,
        ) == returns_to(vm, m, depth, limit),
    decreases limit,
{
    let (next, status) = vm.step_spec(m);
    let n = m.frames.len() as int;
    let f = m.frames[depth as int];
    let end = returns_to(vm, m, depth, limit)->Some_0;
    assert(limit > 0);
    assert(status is Running);
    assert(returns_to(vm, m, depth, limit) == returns_to(vm, next, depth, (limit - 1) as nat));
    lemma_step_is_local(vm, m);
    if next.frames.len() <= depth {
        let parent = m.frames[n - 2];
        assert(n == depth + 1);
        assert(vm.code_spec(m.entry, f.code) == Some(seq![Instruction::Unwind]));
        assert(vm.return_spec(parent, f) is Ok);
        assert(next.frames[depth - 1] == parent.advance(parent.stack.push(f.stack.last())));
        assert(end == next);
        assert(f.stack.last() == first);
        assert(returns_to(vm, m, depth, limit) == returns_to(
            vm,
            forcing(m.frames.take(depth as int), m.entry, f.assembly_id, first),
            depth,
            limit + k,
        ));
        limit + k
    } else {
        lemma_step_keeps_unwinding(vm, m, depth as int);
        let g = next.frames[depth as int];
        assert(next.frames.take(depth as int) =~= m.frames.take(depth as int)) by {
            assert forall|i: int| 0 <= i < depth implies next.frames[i] == m.frames[i] by {}
        }
        assert(g.assembly_id == f.assembly_id) by {
            lemma_step_keeps_frame(vm, m, depth);
        }
        if begins(next, depth) {
            let x = g.stack[0];
            assert(g.code == Code::Unwind);
            assert(g.stack =~= seq![x]);
            let start = forcing(next.frames.take(depth as int), next.entry, g.assembly_id, x);
            assert(start.frames =~= next.frames);
            assert(start == next);
            assert(reached(vm, next, depth, x, 0));
            lemma_forced_again(vm, next, depth, (limit - 1) as nat, x, 0)
        } else {
            lemma_step_keeps_bottom(vm, m, depth, first);
            let start = forcing(m.frames.take(depth as int), m.entry, f.assembly_id, first);
            assert forall|l: nat| #[trigger]
                returns_to(vm, next, depth, l) == returns_to(vm, start, depth, l + (k + 1)) by {
                assert(returns_to(vm, m, depth, l + 1) == returns_to(vm, next, depth, l));
                assert(returns_to(vm, m, depth, l + 1) == returns_to(vm, start, depth, l + 1 + k));
            }
            assert(reached(vm, next, depth, first, k + 1));
            lemma_forced_again(vm, next, depth, (limit - 1) as nat, first, k + 1)
        }
    }
}

/// A step that keeps the frame at `depth` keeps the assembly that it belongs to.
proof fn lemma_step_keeps_frame(vm: &VM, m: MachineModel, depth: nat)
    requires
        m.frames.len() > depth,
        vm.step_spec(m).1 is Running,
        vm.step_spec(m).0.frames.len() > depth,
    ensures
        vm.step_spec(m).0.frames[depth as int].assembly_id == m.frames[depth as int].assembly_id,
{
    lemma_step_is_local(vm, m);
    let n = m.frames.len() as int;
    let f = m.frames[n - 1];
    let next = vm.step_spec(m).0;
    let code = vm.code_spec(m.entry, f.code).unwrap();
    if f.ip >= code.len() {
        if depth == n - 2 {
            assert(next.frames[depth as int] == vm.return_spec(m.frames[n - 2], f)->Ok_0);
        }
    } else if depth == n - 1 {
        match vm.instruction_spec(f, code[f.ip as int]) {
            Outcome::Next(g) => {
                assert(next.frames[depth as int] == g);
                lemma_instruction_keeps_frame(vm, f, code[f.ip as int]);
            },
            Outcome::Call(g, h) => {
                assert(next.frames[depth as int] == g);
                lemma_instruction_keeps_frame(vm, f, code[f.ip as int]);
            },
            _ => {},
        }
    }
}

/// An instruction leaves the frame that holds it in its assembly.
proof fn lemma_instruction_keeps_frame(vm: &VM, f: FrameModel, ins: Instruction)
    ensures
        vm.instruction_spec(f, ins) matches Outcome::Next(g) ==> g.assembly_id == f.assembly_id,
        vm.instruction_spec(f, ins) matches Outcome::Call(g, _) ==> g.assembly_id == f.assembly_id,
{
}

/// Forcing an indirection is forcing the node it points to: `Unwind` on an
/// indirection replaces it by that node in one step, so the run from then on
/// is the run on that node.
pub proof fn lemma_indirection_is_transparent(vm: &VM, m: MachineModel, node: Value, limit: nat)
    requires
        m.stands_at(vm, Instruction::Unwind),
        m.frames.last().stack.len() >= 1,
        m.frames.last().stack.last() == Value::Indirection(Box::new(node)),
    ensures
        vm.step_spec(m) == (
            m.with_stack(
                m.frames.last().stack.update(m.frames.last().stack.len() - 1, node),
            ),
            Status::Running,
        ),
        vm.run_spec(m, limit + 1) == vm.run_spec(
            m.with_stack(
                m.frames.last().stack.update(m.frames.last().stack.len() - 1, node),
            ),
            limit,
        ),
{
    let n = m.frames.len() as int;
    let f = m.frames.last();
    let target = m.with_stack(f.stack.update(f.stack.len() - 1, node));
    assert(vm.step_spec(m).0.frames =~= target.frames);
}

/// After `Update(index)` the slot `index` holds an indirection to the node on
/// top of the stack, and nothing else has changed.
pub proof fn lemma_update_points_to_top(vm: &VM, f: FrameModel, index: usize)
    requires
        index < f.stack.len(),
    ensures
        vm.instruction_spec(f, Instruction::Update(index)) == Outcome::Next(
            f.advance(f.stack.update(index as int, Value::Indirection(Box::new(f.stack.last())))),
        ),
{
}

/// `Split` followed by `Pack` with the same tag and the number of fields
/// reconstructs the node: `Split` lays the first field on top, and `Pack`
/// takes the fields from the top down. What lies beneath stays.
pub proof fn lemma_split_pack_roundtrip(
    vm: &VM,
    f: FrameModel,
    tag: u16,
    fields: Seq<Value>,
    n: usize,
)
    requires
        f.stack.len() >= 1,
        f.stack.last() == Value::Constructor(tag, fields),
        fields.len() <= u16::MAX,
        f.ip + 2 <= usize::MAX,
    ensures
        vm.instruction_spec(f, Instruction::Split(n)) is Next,
        vm.instruction_spec(
            vm.instruction_spec(f, Instruction::Split(n))->Next_0,
            Instruction::Pack(tag, fields.len() as u16),
        ) == Outcome::Next(FrameModel { ip: (f.ip + 2) as usize, ..f }),
{
    let g = vm.instruction_spec(f, Instruction::Split(n))->Next_0;
    let k = fields.len() as int;
    let m = g.stack.len() as int;
    assert(g.stack == f.stack.drop_last() + fields.reverse());
    let packed = Seq::new(k as nat, |i: int| g.stack[m - 1 - i]);
    assert(packed =~= fields);
    assert(g.stack.take(m - k) =~= f.stack.drop_last());
    assert(f.stack.drop_last().push(Value::Constructor(tag, fields)) =~= f.stack);
}

/// A node that forcing leaves as it is: one that needs no reduction, or a
/// combinator that needs arguments.
pub open spec fn is_settled(vm: &VM, v: Value) -> bool {
    ||| is_value(v)
    ||| v matches Value::Combinator(a, i) && vm.has_combinator(a, i) && vm.arity_of(a, i) > 0
}

/// Forcing a settled node leaves the stack as it is: after the three steps of
/// `Eval` the frame stands at the next instruction with the same nodes. So a
/// second forcing of such a node gives what the first gave.
pub proof fn lemma_eval_of_settled(vm: &VM, m: MachineModel)
    requires
        m.stands_at(vm, Instruction::Eval),
        m.frames.last().stack.len() >= 1,
        m.frames.last().ip < usize::MAX,
        is_settled(vm, m.frames.last().stack.last()),
    ensures
        vm.run_spec(m, 3) == (
            MachineModel {
                frames: m.frames.drop_last().push(
                    m.frames.last().advance(m.frames.last().stack),
                ),
                ..m
            },
            Status::Running,
        ),
{
    let f = m.frames.last();
    let n = m.frames.len() as int;
    let (m1, s1) = vm.step_spec(m);
    assert(s1 is Running);
    let g = m1.frames.last();
    assert(g.stack =~= seq![f.stack.last()]);
    assert(g.code == Code::Unwind && g.ip == 0);
    assert(m1.frames[n - 1] == f.stay(f.stack.drop_last()));
    let (m2, s2) = vm.step_spec(m1);
    assert(s2 is Running);
    assert(m2.frames.len() == n + 1);
    assert(g.stack.take(1) =~= g.stack);
    assert(m2.frames.last() == g.advance(g.stack));
    assert(m2.frames[n - 1] == m1.frames[n - 1]);
    let (m3, s3) = vm.step_spec(m2);
    assert(s3 is Running);
    assert(f.stack.drop_last().push(f.stack.last()) =~= f.stack);
    assert(m3.frames =~= m.frames.drop_last().push(f.advance(f.stack)));
    assert(vm.run_spec(m3, 0) == (m3, Status::Running));
    assert(vm.run_spec(m2, 1) == (m3, Status::Running));
    assert(vm.run_spec(m1, 2) == (m3, Status::Running));
}

/// A second forcing gives what the first gave: where an `Eval` has handed a
/// node back and the next instruction is an `Eval` too, that one hands the
/// same node back, and leaves the stack and every frame beneath as they were.
pub proof fn lemma_second_forcing(vm: &VM, m: MachineModel, limit: nat) -> (again: nat)
    requires
        m.stands_at(vm, Instruction::Eval),
        m.frames.last().stack.len() >= 1,
        returns_to(vm, vm.step_spec(m).0, m.frames.len(), limit) is Some,
        returns_to(vm, vm.step_spec(m).0, m.frames.len(), limit)->Some_0.stands_at(
            vm,
            Instruction::Eval,
        ),
        returns_to(vm, vm.step_spec(m).0, m.frames.len(), limit)->Some_0.frames.last().ip
            < usize::MAX,
    ensures
        ({
            let end = returns_to(vm, vm.step_spec(m).0, m.frames.len(), limit)->Some_0;
            &&& vm.step_spec(end).1 is Running
            &&& returns_to(vm, vm.step_spec(end).0, m.frames.len(), again) == Some(
                MachineModel {
                    frames: end.frames.drop_last().push(
                        end.frames.last().advance(end.frames.last().stack),
                    ),
                    ..end
                },
            )
        }),
{
    let d = m.frames.len();
    let f = m.frames.last();
    let top = f.stack.last();
    let s1 = vm.step_spec(m).0;
    let end = returns_to(vm, s1, d, limit)->Some_0;
    lemma_eval_replaces_top(vm, m, limit);
    let g = end.frames.last();
    let v = g.stack.last();
    let t1 = vm.step_spec(end).0;
    let target = MachineModel { frames: end.frames.drop_last().push(g.advance(g.stack)), ..end };
    let unwind = FrameModel {
        stack: seq![v],
        code: Code::Unwind,
        ip: 0,
        assembly_id: g.assembly_id,
    };
    assert(vm.step_spec(end).1 is Running);
    assert(t1.frames.len() == d + 1);
    assert(t1.frames[d as int] == unwind);
    assert(t1.frames[d - 1] == g.stay(g.stack.drop_last()));
    assert(t1.entry == end.entry && t1.pending is None);
    assert(g.stack.drop_last().push(v) =~= g.stack);
    if v is Application {
        assert(s1.frames[d as int].stack =~= seq![top]);
        assert(unwinding(vm, s1, d as int));
        assert(s1.entry == m.entry && s1.pending is None);
        let start = forcing(s1.frames.take(d as int), s1.entry, f.assembly_id, top);
        assert(start.frames =~= s1.frames);
        assert(start == s1);
        assert(reached(vm, s1, d, top, 0));
        assert(rests_on(vm, s1, d, top));
        let again = lemma_forced_again(vm, s1, d, limit, top, 0);
        let w = forcing(s1.frames.take(d as int), s1.entry, f.assembly_id, v);
        assert(w.frames[d as int] == unwind);
        assert(same_above(w, t1, d));
        lemma_forcing_looks_above(vm, w, t1, d, again);
        assert(unwinding(vm, t1, d as int));
        lemma_frame_returns(vm, t1, d, again);
        let e2 = returns_to(vm, t1, d, again)->Some_0;
        assert(e2.frames[d - 1].stack =~= g.stack);
        assert(e2.frames[d - 1] == g.advance(g.stack));
        assert(e2.frames =~= target.frames) by {
            assert forall|i: int| 0 <= i < d - 1 implies e2.frames[i] == target.frames[i] by {
                assert(e2.frames.take(d - 1)[i] == t1.frames.take(d - 1)[i]);
            }
        }
        assert(e2 == target);
        again
    } else {
        let (t2, s2) = vm.step_spec(t1);
        assert(unwind.stack.take(1) =~= unwind.stack);
        assert(s2 is Running);
        assert(t2.frames.len() == d + 1);
        assert(t2.frames.last() == unwind.advance(unwind.stack));
        assert(t2.frames[d - 1] == t1.frames[d - 1]);
        let (t3, s3) = vm.step_spec(t2);
        assert(s3 is Running);
        assert(t3.frames =~= target.frames);
        assert(t3 == target);
        assert(returns_to(vm, t3, d, 0) == Some(t3));
        assert(returns_to(vm, t2, d, 1) == Some(t3));
        assert(returns_to(vm, t1, d, 2) == Some(t3));
        2
    }
}

/// The first index from `i` on of a super-combinator with the name `main`.
pub open spec fn main_in(combinators: Seq<SuperCombinator>, i: int) -> Option<int>
    decreases combinators.len() - i,
{
    if i < 0 || i >= combinators.len() {
        None
    } else if combinators[i].name@ == "main"@ {
        Some(i)
    } else {
        main_in(combinators, i + 1)
    }
}

impl VM {
    /// The first super-combinator with the name `main`, from the assembly
    /// `a` on: the index of its assembly and its index in it.
    pub open spec fn main_spec(&self, a: int) -> Option<(int, int)>
        decreases self.assembly@.len() - a,
    {
        if a < 0 || a >= self.assembly@.len() {
            None
        } else {
            match main_in(self.assembly@[a].superCombinators@, 0) {
                Some(i) => Some((a, i)),
                None => self.main_spec(a + 1),
            }
        }
    }

    /// The first super-combinator with the name `main`.
    pub fn find_main(&self) -> (res: Option<(usize, usize)>)
        ensures
            match res {
                Some((a, i)) => self.main_spec(0) == Some((a as int, i as int))
                    && self.has_combinator(a, i),
                None => self.main_spec(0) is None,
            },
    {
        let main = String::from_str("main");
        let mut a: usize = 0;
        while a < self.assembly.len()
            invariant
                a <= self.assembly@.len(),
                main@ == "main"@,
                self.main_spec(0) == self.main_spec(a as int),
            decreases self.assembly.len() - a,
        {
            let combinators = &self.assembly[a].superCombinators;
            let mut i: usize = 0;
            while i < combinators.len()
                invariant
                    i <= combinators@.len(),
                    a < self.assembly@.len(),
                    main@ == "main"@,
                    *combinators == self.assembly@[a as int].superCombinators,
                    self.main_spec(0) == self.main_spec(a as int),
                    main_in(combinators@, 0) == main_in(combinators@, i as int),
                decreases combinators.len() - i,
            {
                if combinators[i].name == main {
                    return Some((a, i));
                }
                i += 1;
            }
            a += 1;
        }
        None
    }

    /// The machine that evaluates the program: it runs the first
    /// super-combinator with the name `main`, which must take no argument,
    /// and then forces its result. None where there is no `main`.
    pub fn start_main(&self) -> (res: Result<Option<Machine>, VMError>)
        ensures
            match self.main_spec(0) {
                None => res is Ok && res->Ok_0 is None,
                Some((a, i)) => {
                    let main = self.assembly@[a].superCombinators@[i];
                    if main.arity == 0 {
                        res is Ok && res->Ok_0 is Some && res->Ok_0->Some_0@ == (MachineModel {
                            frames: seq![
                                FrameModel {
                                    stack: Seq::empty(),
                                    code: Code::Entry,
                                    ip: 0,
                                    assembly_id: main.assembly_id,
                                },
                            ],
                            entry: main.instructions@.push(Instruction::Eval),
                            pending: None,
                        })
                    } else {
                        res == Err::<Option<Machine>, VMError>(VMError::MainArity)
                    }
                },
            },
    {
        match self.find_main() {
            None => Ok(None),
            Some((a, i)) => {
                let main = &self.assembly[a].superCombinators[i];
                if main.arity == 0 {
                    Ok(Some(Machine::load(&main.instructions, main.assembly_id)))
                } else {
                    Err(VMError::MainArity)
                }
            },
        }
    }
}

} // verus!
