use haskell_compiler::compiler::Instruction::{
    Add, CaseJump, Divide, DoubleDivide, DoubleToInt, Eval, IntEQ, IntLT, IntToDouble, Jump,
    JumpFalse, Mkap, Multiply, Pack, Pop, Push, PushChar, PushDictionary, PushDictionaryMember,
    PushFloat, PushGlobal, PushInt, Remainder, Slide, Split, Sub, Unwind, Update,
};
use haskell_compiler::compiler::{Assembly, Instruction, SuperCombinator};
use haskell_compiler::vm::VMResult::{ConstructorResult, DoubleResult, IntResult};
use haskell_compiler::vm::{
    extract_result, Code, Evaluation, FloatAnswer, FloatOp, FloatRequest, Machine, Node, Node_,
    Status, VMError, VMResult, VM,
};

const LIMIT: u64 = 1_000_000;

fn combinator(name: &str, arity: usize, instructions: Vec<Instruction>) -> SuperCombinator {
    SuperCombinator { arity, name: name.to_string(), assembly_id: 0, instructions }
}

fn assembly(combinators: Vec<SuperCombinator>) -> Assembly {
    Assembly { superCombinators: combinators, instance_dictionaries: vec![] }
}

/// What the floating-point unit answers to a request.
fn answer(request: FloatRequest) -> FloatAnswer {
    match request {
        FloatRequest::Binary(op, l, r) => {
            let (l, r) = (f64::from_bits(l), f64::from_bits(r));
            match op {
                FloatOp::Add => FloatAnswer::Double((l + r).to_bits()),
                FloatOp::Sub => FloatAnswer::Double((l - r).to_bits()),
                FloatOp::Multiply => FloatAnswer::Double((l * r).to_bits()),
                FloatOp::Divide => FloatAnswer::Double((l / r).to_bits()),
                FloatOp::Remainder => FloatAnswer::Double((l % r).to_bits()),
                FloatOp::EQ => FloatAnswer::Truth(l == r),
                FloatOp::LT => FloatAnswer::Truth(l < r),
                FloatOp::LE => FloatAnswer::Truth(l <= r),
                FloatOp::GT => FloatAnswer::Truth(l > r),
                FloatOp::GE => FloatAnswer::Truth(l >= r),
            }
        }
        FloatRequest::FromInt(i) => FloatAnswer::Double((i as f64).to_bits()),
        FloatRequest::ToInt(d) => FloatAnswer::Int(f64::from_bits(d) as i64),
    }
}

/// Runs the code in the first assembly of the machine, answering its floating-point requests.
fn run(vm: &VM, code: &Vec<Instruction>) -> Option<VMResult> {
    let mut machine = Machine::load(code, 0);
    loop {
        match vm.evaluate(&mut machine, LIMIT) {
            Evaluation::Value(node) => return extract_result(&node),
            Evaluation::Suspended(request) => machine.resume(answer(request)).unwrap(),
            Evaluation::Unfinished => return None,
            Evaluation::Failed(_) => return None,
        }
    }
}

fn drive(vm: &VM, mut machine: Machine) -> Option<VMResult> {
    loop {
        match vm.evaluate(&mut machine, LIMIT) {
            Evaluation::Value(node) => return extract_result(&node),
            Evaluation::Suspended(request) => machine.resume(answer(request)).unwrap(),
            Evaluation::Unfinished => return None,
            Evaluation::Failed(_) => return None,
        }
    }
}

/// Runs the super-combinator `main` of the assembly.
fn run_main(assembly: Assembly) -> Option<VMResult> {
    let mut vm = VM::new();
    vm.add_assembly(assembly);
    drive(&vm, vm.start_main().unwrap()?)
}

/// `mult2 x = primIntMultiply x 2`
fn mult2() -> SuperCombinator {
    combinator("mult2", 1, vec![PushInt(2), Push(0), Eval, Multiply, Update(0), Pop(1), Unwind])
}

/// The code that leaves the list `[mult2 123, 0]` on the stack, where
/// `mult2` is the global 0, `:` has the tag 0 and `[]` the tag 1.
fn list_of_two() -> Vec<Instruction> {
    vec![
        Pack(1, 0),
        PushInt(0),
        Pack(0, 2),
        PushInt(123),
        PushGlobal(0),
        Mkap,
        Pack(0, 2),
    ]
}

#[test]
fn test_primitive() {
    // main = primIntAdd 10 5
    let main = combinator("main", 0, vec![PushInt(5), PushInt(10), Add, Update(0), Unwind]);
    assert_eq!(run_main(assembly(vec![main])), Some(IntResult(15)));
    // main = primIntSubtract 7 (primIntMultiply 2 3)
    let main = combinator(
        "main",
        0,
        vec![PushInt(3), PushInt(2), Multiply, PushInt(7), Sub, Update(0), Unwind],
    );
    assert_eq!(run_main(assembly(vec![main])), Some(IntResult(1)));
    // main = primIntDivide 10 (primIntRemainder 6 4)
    let main = combinator(
        "main",
        0,
        vec![PushInt(4), PushInt(6), Remainder, PushInt(10), Divide, Update(0), Unwind],
    );
    assert_eq!(run_main(assembly(vec![main])), Some(IntResult(5)));
    // main = primDoubleDivide 3. 2.
    let main = combinator(
        "main",
        0,
        vec![
            PushFloat(2.0f64.to_bits()),
            PushFloat(3.0f64.to_bits()),
            DoubleDivide,
            Update(0),
            Unwind,
        ],
    );
    assert_eq!(run_main(assembly(vec![main])), Some(DoubleResult(1.5f64.to_bits())));
    // data Bool = True | False
    // main = primIntLT 1 2
    let main = combinator("main", 0, vec![PushInt(2), PushInt(1), IntLT, Update(0), Unwind]);
    assert_eq!(run_main(assembly(vec![main])), Some(ConstructorResult(0, vec![])));
}

#[test]
fn test_function() {
    // mult2 x = primIntMultiply x 2
    //
    // main = mult2 10
    let main = combinator("main", 0, vec![PushInt(10), PushGlobal(0), Mkap, Update(0), Unwind]);
    assert_eq!(run_main(assembly(vec![mult2(), main])), Some(IntResult(20)));

    // mult2 x = primIntMultiply x 2
    //
    // add x y = primIntAdd y x
    //
    // main = add 3 (mult2 10)
    let add = combinator(
        "add",
        2,
        vec![Push(0), Eval, Push(1), Eval, Add, Update(0), Pop(2), Unwind],
    );
    let main = combinator(
        "main",
        0,
        vec![
            PushInt(10),
            PushGlobal(0),
            Mkap,
            PushInt(3),
            PushGlobal(1),
            Mkap,
            Mkap,
            Update(0),
            Unwind,
        ],
    );
    assert_eq!(run_main(assembly(vec![mult2(), add, main])), Some(IntResult(23)));
}

#[test]
fn test_case() {
    // mult2 x = primIntMultiply x 2
    //
    // main = case [mult2 123, 0] of
    //     : x xs -> x
    //     [] -> 10
    let mut code = list_of_two();
    code.extend(vec![
        Eval,        // 7: stack = [list]
        Push(0),     // 8
        CaseJump(0), // 9: `:` goes on at 11
        Jump(16),    // 10
        Split(2),    // 11: stack = [list, xs, x]
        Push(2),     // 12
        Eval,        // 13
        Slide(2),    // 14: stack = [list, x]
        Jump(22),    // 15
        Push(0),     // 16
        CaseJump(1), // 17: `[]` goes on at 19
        Jump(22),    // 18
        Split(0),    // 19
        PushInt(10), // 20
        Jump(22),    // 21
        Slide(1),    // 22: stack = [result]
        Update(0),
        Unwind,
    ]);
    let main = combinator("main", 0, code);
    assert_eq!(run_main(assembly(vec![mult2(), main])), Some(IntResult(246)));
}

#[test]
fn test_nested_case() {
    // mult2 x = primIntMultiply x 2
    //
    // main = case [mult2 123, 0] of
    //     : 246 xs -> primIntAdd 0 246
    //     [] -> 10
    let mut code = list_of_two();
    code.extend(vec![
        Eval,          // 7: stack = [list]
        Push(0),       // 8
        CaseJump(0),   // 9
        Jump(23),      // 10
        Split(2),      // 11: stack = [list, xs, x]
        Push(2),       // 12
        Eval,          // 13
        PushInt(246),  // 14
        IntEQ,         // 15
        JumpFalse(22), // 16
        PushInt(246),  // 17
        PushInt(0),    // 18
        Add,           // 19
        Slide(2),      // 20: stack = [list, 246]
        Jump(29),      // 21
        Pop(2),        // 22: the pattern failed; stack = [list]
        Push(0),       // 23
        CaseJump(1),   // 24
        Jump(29),      // 25
        Split(0),      // 26
        PushInt(10),   // 27
        Jump(29),      // 28
        Slide(1),      // 29
        Update(0),
        Unwind,
    ]);
    let main = combinator("main", 0, code);
    assert_eq!(run_main(assembly(vec![mult2(), main])), Some(IntResult(246)));
}

#[test]
fn test_nested_case2() {
    // mult2 x = primIntMultiply x 2
    //
    // main = case [mult2 123, 0] of
    //     : 246 [] -> primIntAdd 0 246
    //     : x xs -> 20
    //     [] -> 10
    let mut code = list_of_two();
    code.extend(vec![
        Eval,          // 7: stack = [list]
        Push(0),       // 8
        CaseJump(0),   // 9
        Jump(28),      // 10
        Split(2),      // 11: stack = [list, xs, x]
        Push(2),       // 12
        Eval,          // 13
        PushInt(246),  // 14
        IntEQ,         // 15
        JumpFalse(27), // 16
        Push(1),       // 17: xs
        Eval,          // 18
        CaseJump(1),   // 19: `[]` goes on at 21
        Jump(27),      // 20
        Split(0),      // 21
        PushInt(246),  // 22
        PushInt(0),    // 23
        Add,           // 24
        Slide(2),      // 25
        Jump(40),      // 26
        Pop(2),        // 27: the first alternative failed; stack = [list]
        Push(0),       // 28
        CaseJump(0),   // 29
        Jump(35),      // 30
        Split(2),      // 31
        PushInt(20),   // 32
        Slide(2),      // 33
        Jump(40),      // 34
        Push(0),       // 35
        CaseJump(1),   // 36
        Jump(40),      // 37
        Split(0),      // 38
        PushInt(10),   // 39
        Slide(1),      // 40
        Update(0),
        Unwind,
    ]);
    let main = combinator("main", 0, code);
    assert_eq!(run_main(assembly(vec![mult2(), main])), Some(IntResult(20)));
}

#[test]
fn test_data_types() {
    // data Bool = True | False
    //
    // test = False
    //
    // main = case test of
    //     False -> primIntAdd 0 0
    //     True -> primIntAdd 1 0
    let test = combinator("test", 0, vec![Pack(1, 0), Update(0), Unwind]);
    let main = combinator(
        "main",
        0,
        vec![
            PushGlobal(0), // 0
            Eval,          // 1
            Push(0),       // 2
            CaseJump(1),   // 3
            Jump(10),      // 4
            Split(0),      // 5
            PushInt(0),    // 6
            PushInt(0),    // 7
            Add,           // 8
            Jump(17),      // 9
            Push(0),       // 10
            CaseJump(0),   // 11
            Jump(17),      // 12
            Split(0),      // 13
            PushInt(0),    // 14
            PushInt(1),    // 15
            Add,           // 16
            Slide(1),      // 17
            Update(0),
            Unwind,
        ],
    );
    assert_eq!(run_main(assembly(vec![test, main])), Some(IntResult(0)));
}

/// `instance Test Int where test x = x`
fn test_int() -> SuperCombinator {
    combinator("#Inttest", 1, vec![Push(0), Eval, Update(0), Pop(1), Unwind])
}

/// `instance Test Bool where test x = case x of { True -> 1; False -> 0 }`
fn test_bool() -> SuperCombinator {
    combinator(
        "#Booltest",
        1,
        vec![
            Push(0),     // 0
            Eval,        // 1: stack = [x, x']
            Push(1),     // 2
            CaseJump(0), // 3: True
            Jump(9),     // 4
            Split(0),    // 5
            PushInt(1),  // 6
            Slide(1),    // 7: stack = [x, 1]
            Jump(11),    // 8
            Pop(1),      // 9: stack = [x]
            PushInt(0),  // 10
            Update(0),   // 11
            Pop(1),      // 12
            Unwind,      // 13
        ],
    )
}

#[test]
fn test_typeclasses_known_types() {
    // main = primIntSubtract (test (primIntAdd 5 0)) (test True)
    // With known types the methods of the instances are called directly.
    let main = combinator(
        "main",
        0,
        vec![
            Pack(0, 0),    // True
            PushGlobal(1), // #Booltest
            Mkap,
            Eval,
            PushInt(0),
            PushInt(5),
            Add,
            PushGlobal(0), // #Inttest
            Mkap,
            Eval,
            Sub,
            Update(0),
            Unwind,
        ],
    );
    assert_eq!(run_main(assembly(vec![test_int(), test_bool(), main])), Some(IntResult(4)));
}

#[test]
fn test_typeclasses_unknown() {
    // testAdd y = primIntAdd (test (primIntAdd 5 0)) (test y)
    //
    // main = testAdd True
    // `testAdd` takes the dictionary of `Test` for the type of `y` as its first argument.
    let test_add = combinator(
        "testAdd",
        2,
        vec![
            Push(1),                 // y; stack = [dict, y, y]
            PushDictionaryMember(0), // the method `test` of the dictionary at stack[0]
            Mkap,                    // test y
            Eval,
            PushInt(0),
            PushInt(5),
            Add,
            PushGlobal(0), // #Inttest
            Mkap,
            Eval,
            Add,
            Update(0),
            Pop(2),
            Unwind,
        ],
    );
    let main = combinator(
        "main",
        0,
        vec![Pack(0, 0), PushDictionary(0), PushGlobal(2), Mkap, Mkap, Update(0), Unwind],
    );
    let mut assembly = assembly(vec![test_int(), test_bool(), test_add, main]);
    assembly.instance_dictionaries = vec![vec![1], vec![0]];
    assert_eq!(run_main(assembly), Some(IntResult(6)));
}

#[test]
fn instance_super_class() {
    // class Eq a where (==) :: a -> a -> Bool
    // instance Eq Int, instance Eq a => Eq [a]
    // main = [1,2,3,4] == [1,2,3]
    //
    // `#[]==` takes the dictionary of `Eq a` and the two lists; it is the
    // global 1, `#Int==` the global 0, `&&` the global 2.
    let eq_int = combinator(
        "#Int==",
        2,
        vec![Push(1), Eval, Push(0), Eval, IntEQ, Update(0), Pop(2), Unwind],
    );
    let and = combinator(
        "&&",
        2,
        vec![
            Push(0),     // 0
            Eval,        // 1
            Push(2),     // 2
            CaseJump(0), // 3: True
            Jump(9),     // 4
            Split(0),    // 5
            Push(1),     // 6: y
            Eval,        // 7
            Jump(10),    // 8
            Pack(1, 0),  // 9: False
            Slide(1),    // 10
            Update(0),   // 11
            Pop(2),      // 12
            Unwind,      // 13
        ],
    );
    let eq_list = combinator(
        "#[]==",
        3,
        vec![
            Push(1),                 // 0: xs
            Eval,                    // 1: stack = [d, xs, ys, xs']
            Push(2),                 // 2: ys
            Eval,                    // 3: stack = [d, xs, ys, xs', ys']
            Push(3),                 // 4
            CaseJump(0),             // 5: xs is `:`
            Jump(33),                // 6
            Split(2),                // 7: stack = [d, xs, ys, xs', ys', xs2, x2]
            Push(4),                 // 8
            CaseJump(0),             // 9: ys is `:`
            Jump(30),                // 10
            Split(2),                // 11: stack = [.., xs2, x2, ys2, y2]
            Push(7),                 // 12: ys2
            Push(5),                 // 13: xs2
            Push(0),                 // 14: d
            PushGlobal(1),           // 15: #[]==
            Mkap,                    // 16
            Mkap,                    // 17
            Mkap,                    // 18: xs2 == ys2
            Push(8),                 // 19: y2
            Push(6),                 // 20: x2
            PushDictionaryMember(0), // 21: (==) of d
            Mkap,                    // 22
            Mkap,                    // 23: x2 == y2
            PushGlobal(2),           // 24: &&
            Mkap,                    // 25
            Mkap,                    // 26
            Eval,                    // 27
            Slide(6),                // 28: stack = [d, xs, ys, result]
            Jump(42),                // 29
            Pack(1, 0),              // 30: ys is `[]`: False
            Slide(4),                // 31
            Jump(42),                // 32
            Push(4),                 // 33: xs is `[]`
            CaseJump(0),             // 34: ys is `:`
            Jump(40),                // 35
            Pop(1),                  // 36
            Pack(1, 0),              // 37: False
            Slide(2),                // 38
            Jump(42),                // 39
            Pack(0, 0),              // 40: True
            Slide(2),                // 41
            Update(0),               // 42
            Pop(3),                  // 43
            Unwind,                  // 44
        ],
    );
    let list = |elements: &[i64]| {
        let mut code = vec![Pack(1, 0)];
        for x in elements.iter().rev() {
            code.push(PushInt(*x));
            code.push(Pack(0, 2));
        }
        code
    };
    let mut code = list(&[1, 2, 3]);
    code.extend(list(&[1, 2, 3, 4]));
    code.extend(vec![PushDictionary(0), PushGlobal(1), Mkap, Mkap, Mkap, Update(0), Unwind]);
    let main = combinator("main", 0, code);
    let mut assembly = assembly(vec![eq_int, eq_list, and, main]);
    assembly.instance_dictionaries = vec![vec![0]];
    assert_eq!(run_main(assembly), Some(ConstructorResult(1, vec![])));
}

#[test]
fn globals_run_over_all_assemblies() {
    let mut vm = VM::new();
    vm.add_assembly(assembly(vec![mult2()]));
    let mut second = assembly(vec![combinator(
        "main",
        0,
        vec![PushInt(4), PushGlobal(0), Mkap, Update(0), Unwind],
    )]);
    second.superCombinators[0].assembly_id = 1;
    vm.add_assembly(second);
    assert_eq!(vm.globals, vec![(0, 0), (1, 0)]);
    let code = vm.assembly[1].superCombinators[0].instructions.clone();
    assert_eq!(run(&vm, &code), Some(IntResult(8)));
}

#[test]
fn conversions_between_int_and_double() {
    let vm = VM::new();
    assert_eq!(
        run(&vm, &vec![PushInt(3), IntToDouble]),
        Some(DoubleResult(3.0f64.to_bits()))
    );
    assert_eq!(run(&vm, &vec![PushFloat(2.75f64.to_bits()), DoubleToInt]), Some(IntResult(2)));
}

#[test]
fn eval_replaces_only_the_top() {
    // Beneath the node that `Eval` forces lie two integers; they stay.
    let mut vm = VM::new();
    vm.add_assembly(assembly(vec![mult2()]));
    let mut machine =
        Machine::new(vec![PushInt(7), PushInt(8), PushInt(5), PushGlobal(0), Mkap, Eval], 0);
    assert_eq!(vm.execute(&mut machine, LIMIT), Status::Finished);
    let stack = &machine.frames[0].stack;
    assert_eq!(stack.len(), 3);
    assert_eq!(extract_result(&stack[0]), Some(IntResult(7)));
    assert_eq!(extract_result(&stack[1]), Some(IntResult(8)));
    assert_eq!(extract_result(&stack[2]), Some(IntResult(10)));
}

#[test]
fn update_leaves_an_indirection_that_forces_to_the_same_value() {
    let vm = VM::new();
    // stack = [1, 2]; Update(0) makes stack[0] an indirection to 2.
    let mut machine = Machine::new(vec![PushInt(1), PushInt(2), Update(0), Pop(1), Eval], 0);
    assert_eq!(vm.execute(&mut machine, 3), Status::Running);
    match machine.frames[0].stack[0].borrow() {
        Node_::Indirection(node) => assert_eq!(extract_result(node), Some(IntResult(2))),
        _ => panic!("expected an indirection"),
    }
    assert_eq!(vm.execute(&mut machine, LIMIT), Status::Finished);
    assert_eq!(extract_result(&machine.frames[0].stack[0]), Some(IntResult(2)));
}

#[test]
fn split_then_pack_reconstructs_the_node() {
    let vm = VM::new();
    // Constructor 3 [1, 2]: the fields are pushed last first.
    let build = vec![PushInt(2), PushInt(1), Pack(3, 2)];
    let node = Some(ConstructorResult(3, vec![IntResult(1), IntResult(2)]));
    assert_eq!(run(&vm, &build), node);
    let mut round = build.clone();
    round.extend(vec![Split(2), Pack(3, 2)]);
    assert_eq!(run(&vm, &round), node);
    // What lies beneath stays, and Split lays the first field on top.
    let mut machine = Machine::new(vec![PushInt(9), PushInt(2), PushInt(1), Pack(3, 2), Split(2)], 0);
    assert_eq!(vm.execute(&mut machine, LIMIT), Status::Finished);
    let stack: Vec<Option<VMResult>> =
        machine.frames[0].stack.iter().map(|n| extract_result(n)).collect();
    assert_eq!(stack, vec![Some(IntResult(9)), Some(IntResult(2)), Some(IntResult(1))]);
    let mut machine = Machine::new(
        vec![PushInt(9), PushInt(2), PushInt(1), Pack(3, 2), Split(2), Pack(3, 2)],
        0,
    );
    assert_eq!(vm.execute(&mut machine, LIMIT), Status::Finished);
    assert_eq!(machine.frames[0].stack.len(), 2);
    assert_eq!(extract_result(&machine.frames[0].stack[0]), Some(IntResult(9)));
    assert_eq!(extract_result(&machine.frames[0].stack[1]), node);
    // A constructor without fields and one with three.
    assert_eq!(
        run(&vm, &vec![Pack(1, 0), Split(0), Pack(1, 0)]),
        Some(ConstructorResult(1, vec![]))
    );
    assert_eq!(
        run(&vm, &vec![PushInt(3), PushInt(2), PushInt(1), Pack(0, 3), Split(3), Pack(0, 3)]),
        Some(ConstructorResult(0, vec![IntResult(1), IntResult(2), IntResult(3)]))
    );
}

#[test]
fn partial_application_is_a_value() {
    let add = combinator(
        "add",
        2,
        vec![Push(0), Eval, Push(1), Eval, Add, Update(0), Pop(2), Unwind],
    );
    let mut vm = VM::new();
    vm.add_assembly(assembly(vec![add]));
    let mut machine = Machine::load(&vec![PushInt(1), PushGlobal(0), Mkap], 0);
    match vm.evaluate(&mut machine, LIMIT) {
        Evaluation::Value(node) => {
            assert!(matches!(node.borrow(), Node_::Application(_, _)));
            assert_eq!(extract_result(&node), None);
        }
        _ => panic!("expected a value"),
    }
}

fn fails_with(code: Vec<Instruction>) -> VMError {
    let vm = VM::new();
    let mut machine = Machine::new(code.clone(), 0);
    match vm.execute(&mut machine, LIMIT) {
        Status::Failed(e) => e,
        other => panic!("expected a failure, got {:?}", other),
    }
}

#[test]
fn machine_errors() {
    assert_eq!(fails_with(vec![PushChar('a'), PushInt(1), Add]), VMError::KindMismatch);
    assert_eq!(fails_with(vec![PushInt(1), Split(0)]), VMError::KindMismatch);
    assert_eq!(fails_with(vec![PushInt(1), CaseJump(0)]), VMError::KindMismatch);
    assert_eq!(fails_with(vec![PushInt(1), Add]), VMError::StackUnderflow);
    assert_eq!(fails_with(vec![Mkap]), VMError::StackUnderflow);
    assert_eq!(fails_with(vec![Push(0)]), VMError::OutOfRange);
    assert_eq!(fails_with(vec![PushGlobal(0)]), VMError::OutOfRange);
    assert_eq!(fails_with(vec![PushDictionary(0)]), VMError::OutOfRange);
    assert_eq!(fails_with(vec![PushInt(0), PushInt(1), Divide]), VMError::Arithmetic);
    assert_eq!(fails_with(vec![PushInt(0), PushInt(1), Remainder]), VMError::Arithmetic);
    assert_eq!(
        fails_with(vec![PushInt(-1), PushInt(i64::MIN), Divide]),
        VMError::Arithmetic
    );
    assert_eq!(fails_with(vec![PushInt(1), PushDictionaryMember(0)]), VMError::KindMismatch);
}

#[test]
fn a_failed_step_leaves_the_machine_as_it_was() {
    let vm = VM::new();
    let mut machine = Machine::new(vec![PushInt(1), PushChar('a'), Add], 0);
    assert_eq!(vm.execute(&mut machine, 2), Status::Running);
    assert_eq!(vm.step(&mut machine), Status::Failed(VMError::KindMismatch));
    assert_eq!(machine.frames.len(), 1);
    assert_eq!(machine.frames[0].ip, 2);
    assert_eq!(machine.frames[0].stack.len(), 2);
}

#[test]
fn a_frame_that_leaves_two_values_fails() {
    let bad = combinator("bad", 0, vec![PushInt(1), PushInt(2)]);
    let mut vm = VM::new();
    vm.add_assembly(assembly(vec![bad]));
    let mut machine = Machine::load(&vec![PushGlobal(0)], 0);
    match vm.evaluate(&mut machine, LIMIT) {
        Evaluation::Failed(e) => assert_eq!(e, VMError::FrameResult),
        _ => panic!("expected a failure"),
    }
}

#[test]
fn arithmetic_wraps() {
    let vm = VM::new();
    assert_eq!(run(&vm, &vec![PushInt(1), PushInt(i64::MAX), Add]), Some(IntResult(i64::MIN)));
    assert_eq!(run(&vm, &vec![PushInt(-7), PushInt(2), Sub]), Some(IntResult(9)));
    assert_eq!(run(&vm, &vec![PushInt(2), PushInt(-7), Divide]), Some(IntResult(-3)));
    assert_eq!(run(&vm, &vec![PushInt(2), PushInt(-7), Remainder]), Some(IntResult(-1)));
}

#[test]
fn suspension_and_answers() {
    let vm = VM::new();
    let mut machine = Machine::new(
        vec![PushFloat(1.5f64.to_bits()), PushFloat(2.5f64.to_bits()), DoubleDivide],
        0,
    );
    let request = FloatRequest::Binary(FloatOp::Divide, 2.5f64.to_bits(), 1.5f64.to_bits());
    assert_eq!(vm.execute(&mut machine, LIMIT), Status::Suspended(request));
    // The machine waits until it is answered.
    assert_eq!(vm.step(&mut machine), Status::Suspended(request));
    // An answer of another kind is refused.
    assert_eq!(machine.resume(FloatAnswer::Truth(true)), Err(VMError::Answer));
    assert_eq!(machine.resume(FloatAnswer::Int(1)), Err(VMError::Answer));
    assert_eq!(machine.resume(FloatAnswer::Double(7)), Ok(()));
    assert_eq!(machine.resume(FloatAnswer::Double(7)), Err(VMError::Answer));
    assert_eq!(vm.execute(&mut machine, LIMIT), Status::Finished);
    assert_eq!(extract_result(&machine.result().unwrap()), Some(DoubleResult(7)));
}

#[test]
fn the_step_limit_stops_a_run_that_can_go_on() {
    // loop = loop
    let looping = combinator("loop", 0, vec![PushGlobal(0), Update(0), Unwind]);
    let mut vm = VM::new();
    vm.add_assembly(assembly(vec![looping]));
    let mut machine = Machine::load(&vec![PushGlobal(0)], 0);
    assert!(matches!(vm.evaluate(&mut machine, 1000), Evaluation::Unfinished));
    assert!(matches!(vm.evaluate(&mut machine, 1000), Evaluation::Unfinished));
    assert!(machine.frames.len() > 1);
    assert_eq!(machine.frames[0].code, Code::Entry);
}

#[test]
fn extraction() {
    let int = Node::new(Node_::Int(3));
    let ch = Node::new(Node_::Char('c'));
    assert_eq!(extract_result(&int), Some(IntResult(3)));
    assert_eq!(extract_result(&ch), None);
    let inside = Node::constructor(2, vec![int.clone(), Node::constructor(0, vec![])]);
    assert_eq!(
        extract_result(&inside),
        Some(ConstructorResult(2, vec![IntResult(3), ConstructorResult(0, vec![])]))
    );
    assert_eq!(extract_result(&Node::constructor(2, vec![int, ch])), None);
    assert_eq!(extract_result(&Node::truth(true)), Some(ConstructorResult(0, vec![])));
    assert_eq!(extract_result(&Node::truth(false)), Some(ConstructorResult(1, vec![])));
}

#[test]
fn a_run_starts_at_the_first_main() {
    let mut vm = VM::new();
    assert_eq!(vm.find_main(), None);
    assert!(vm.start_main().unwrap().is_none());
    vm.add_assembly(assembly(vec![mult2()]));
    assert!(vm.start_main().unwrap().is_none());
    let first = combinator("main", 0, vec![PushInt(1), Update(0), Unwind]);
    let second = combinator("main", 0, vec![PushInt(2), Update(0), Unwind]);
    let mut later = assembly(vec![combinator("other", 0, vec![]), first, second]);
    for sc in later.superCombinators.iter_mut() {
        sc.assembly_id = 1;
    }
    vm.add_assembly(later);
    assert_eq!(vm.find_main(), Some((1, 1)));
    let machine = vm.start_main().unwrap().unwrap();
    assert_eq!(machine.entry, vec![PushInt(1), Update(0), Unwind, Eval]);
    assert_eq!(machine.frames.len(), 1);
    assert_eq!(machine.frames[0].assembly_id, 1);
    assert_eq!(machine.frames[0].ip, 0);
    assert!(machine.frames[0].stack.is_empty());
    assert_eq!(drive(&vm, machine), Some(IntResult(1)));
}

#[test]
fn a_main_with_arguments_is_refused() {
    let mut vm = VM::new();
    vm.add_assembly(assembly(vec![combinator("main", 1, vec![Push(0), Update(0), Pop(1), Unwind])]));
    assert!(matches!(vm.start_main(), Err(VMError::MainArity)));
}

#[test]
fn forcing_twice_gives_what_forcing_once_gave() {
    let mut vm = VM::new();
    vm.add_assembly(assembly(vec![mult2()]));
    let once = vec![PushInt(7), PushInt(5), PushGlobal(0), Mkap, Eval];
    let mut twice = once.clone();
    twice.push(Eval);
    let stack_after = |code: Vec<Instruction>| {
        let mut machine = Machine::new(code, 0);
        assert_eq!(vm.execute(&mut machine, LIMIT), Status::Finished);
        machine.frames[0].stack.iter().map(|n| extract_result(n)).collect::<Vec<_>>()
    };
    assert_eq!(stack_after(once), vec![Some(IntResult(7)), Some(IntResult(10))]);
    assert_eq!(stack_after(twice), vec![Some(IntResult(7)), Some(IntResult(10))]);
}

#[test]
fn forcing_never_leaves_an_indirection() {
    let add = combinator(
        "add",
        2,
        vec![Push(0), Eval, Push(1), Eval, Add, Update(0), Pop(2), Unwind],
    );
    let mut vm = VM::new();
    vm.add_assembly(assembly(vec![add]));
    // An indirection to an integer is forced to the integer.
    let mut machine = Machine::new(vec![PushInt(1), PushInt(2), Update(0), Pop(1), Eval], 0);
    assert_eq!(vm.execute(&mut machine, LIMIT), Status::Finished);
    assert_eq!(machine.frames[0].stack.len(), 1);
    assert!(matches!(machine.frames[0].stack[0].borrow(), Node_::Int(2)));
    // A combinator that needs arguments stays, however often it is forced.
    for code in vec![vec![PushGlobal(0), Eval], vec![PushGlobal(0), Eval, Eval]] {
        let mut machine = Machine::new(code, 0);
        assert_eq!(vm.execute(&mut machine, LIMIT), Status::Finished);
        assert_eq!(machine.frames[0].stack.len(), 1);
        assert!(matches!(machine.frames[0].stack[0].borrow(), Node_::Combinator(0, 0)));
    }
    // An application with too few arguments comes back as the application.
    let mut machine = Machine::new(vec![PushInt(1), PushGlobal(0), Mkap, Eval], 0);
    assert_eq!(vm.execute(&mut machine, LIMIT), Status::Finished);
    assert_eq!(machine.frames[0].stack.len(), 1);
    assert!(matches!(machine.frames[0].stack[0].borrow(), Node_::Application(_, _)));
}

#[test]
fn a_second_forcing_gives_the_same_node() {
    let add = combinator(
        "add",
        2,
        vec![Push(0), Eval, Push(1), Eval, Add, Update(0), Pop(2), Unwind],
    );
    // `partial` is `add 4`: `add` with one argument less than it needs.
    let partial = combinator("partial", 0, vec![PushInt(4), PushGlobal(0), Mkap, Update(0), Unwind]);
    let mut vm = VM::new();
    vm.add_assembly(assembly(vec![add, partial]));
    let stack_after = |code: Vec<Instruction>| {
        let mut machine = Machine::new(code, 0);
        assert_eq!(vm.execute(&mut machine, LIMIT), Status::Finished);
        format!("{:?}", machine.frames[0].stack)
    };
    for start in vec![
        vec![PushInt(9), PushInt(1), PushGlobal(0), Mkap],
        vec![PushInt(9), PushGlobal(1)],
        vec![PushInt(9), PushInt(2), PushInt(3), PushGlobal(0), Mkap, Mkap],
        vec![PushInt(9), PushInt(3), PushGlobal(1), Mkap],
    ] {
        let mut once = start.clone();
        once.push(Eval);
        let mut twice = once.clone();
        twice.push(Eval);
        assert_eq!(stack_after(once), stack_after(twice));
    }
    // The last of them is `add 4 3`.
    let mut machine = Machine::new(vec![PushInt(3), PushGlobal(1), Mkap, Eval, Eval], 0);
    assert_eq!(vm.execute(&mut machine, LIMIT), Status::Finished);
    assert_eq!(extract_result(&machine.frames[0].stack[0]), Some(IntResult(7)));
}
