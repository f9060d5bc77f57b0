use stack_vm::error::VMError;
use stack_vm::types::Value;
use stack_vm::vm::{ArrayOperation, Instruction, VM};

fn show(stack: &Vec<Value>) -> String {
    format!("{:?}", stack)
}

fn push(n: i32) -> Instruction {
    Instruction::Push(Value::Number(n))
}

fn run(code: Vec<Instruction>) -> Result<VM, VMError> {
    let mut vm = VM::new();
    vm.execute(&code)?;
    Ok(vm)
}

fn stack_after(code: Vec<Instruction>) -> String {
    match run(code) {
        Ok(vm) => show(&vm.stack),
        Err(e) => panic!("unexpected {:?}", e),
    }
}

fn error_after(code: Vec<Instruction>) -> VMError {
    match run(code) {
        Ok(vm) => panic!("ran to {:?}", vm.stack),
        Err(e) => e,
    }
}

fn variable(vm: &VM, frame: usize, name: &str) -> String {
    match vm.env_stack[frame].get(name) {
        Some(value) => format!("{:?}", value),
        None => "unset".to_string(),
    }
}

#[test]
fn new_machine_is_empty() {
    let vm = VM::new();
    assert!(vm.stack.is_empty());
    assert_eq!(vm.ip, 0);
    assert_eq!(vm.env_stack.len(), 1);
    assert_eq!(vm.env_stack[0].len(), 0);
    assert_eq!(vm.max_stack_size, 4000);
    assert_eq!(vm.max_steps, u64::MAX);
}

#[test]
fn empty_program_changes_nothing() {
    let vm = run(vec![]).unwrap_or_else(|e| panic!("{:?}", e));
    assert!(vm.stack.is_empty());
    assert_eq!(vm.ip, 0);
    assert_eq!(vm.env_stack.len(), 1);
}

#[test]
fn push_and_pop() {
    assert_eq!(stack_after(vec![push(1), push(2)]), "[Number(1), Number(2)]");
    assert_eq!(stack_after(vec![push(1), push(2), Instruction::Pop]), "[Number(1)]");
    assert!(matches!(error_after(vec![Instruction::Pop]), VMError::StackUnderflow));
}

#[test]
fn binary_instructions_take_the_right_operand_first() {
    assert_eq!(stack_after(vec![push(7), push(2), Instruction::Add]), "[Number(9)]");
    assert_eq!(stack_after(vec![push(7), push(2), Instruction::Sub]), "[Number(5)]");
    assert_eq!(stack_after(vec![push(7), push(2), Instruction::Mul]), "[Number(14)]");
    assert_eq!(stack_after(vec![push(7), push(2), Instruction::Div]), "[Number(3)]");
    assert_eq!(stack_after(vec![push(7), push(2), Instruction::Greater]), "[Boolean(true)]");
    assert_eq!(stack_after(vec![push(7), push(2), Instruction::Less]), "[Boolean(false)]");
    assert_eq!(stack_after(vec![push(7), push(2), Instruction::Equal]), "[Boolean(false)]");
    assert_eq!(stack_after(vec![push(7), push(2), Instruction::NotEqual]), "[Boolean(true)]");
    assert_eq!(stack_after(vec![push(7), push(7), Instruction::Equal]), "[Boolean(true)]");
    assert_eq!(stack_after(vec![push(5), push(1), Instruction::Equal]), "[Boolean(false)]");
}

#[test]
fn binary_instructions_leave_the_rest_of_the_stack() {
    assert_eq!(
        stack_after(vec![push(100), push(7), push(2), Instruction::Sub]),
        "[Number(100), Number(5)]"
    );
}

#[test]
fn binary_instructions_need_two_operands() {
    assert!(matches!(error_after(vec![Instruction::Add]), VMError::StackUnderflow));
    assert!(matches!(error_after(vec![push(1), Instruction::Add]), VMError::StackUnderflow));
    assert!(matches!(error_after(vec![push(1), Instruction::Equal]), VMError::StackUnderflow));
}

#[test]
fn division_by_zero_stops_the_run() {
    assert!(matches!(
        error_after(vec![push(1), push(0), Instruction::Div, push(5)]),
        VMError::DivisionByZero
    ));
}

#[test]
fn type_errors_stop_the_run() {
    match error_after(vec![push(1), Instruction::Push(Value::Null), Instruction::Add]) {
        VMError::TypeError { message } => assert_eq!(message, "Cannot add number and null"),
        other => panic!("unexpected {:?}", other),
    }
    match error_after(vec![Instruction::Push(Value::Boolean(true)), push(1), Instruction::Less]) {
        VMError::TypeError { message } => {
            assert_eq!(message, "Cannot compare boolean and number with <")
        }
        other => panic!("unexpected {:?}", other),
    }
}

#[test]
fn jmp_goes_to_its_target() {
    let code = vec![Instruction::Jmp(2), push(1), push(2)];
    assert_eq!(stack_after(code), "[Number(2)]");
}

#[test]
fn jz_jumps_only_on_a_falsy_value() {
    let taken = vec![push(0), Instruction::Jz(3), push(1), push(2)];
    assert_eq!(stack_after(taken), "[Number(2)]");
    let not_taken = vec![push(1), Instruction::Jz(3), push(1), push(2)];
    assert_eq!(stack_after(not_taken), "[Number(1), Number(2)]");
    let negative = vec![push(-1), Instruction::Jz(3), push(1), push(2)];
    assert_eq!(stack_after(negative), "[Number(2)]");
    let null = vec![Instruction::Push(Value::Null), Instruction::Jz(3), push(1), push(2)];
    assert_eq!(stack_after(null), "[Number(2)]");
}

#[test]
fn jz_needs_a_value() {
    assert!(matches!(
        error_after(vec![Instruction::Jz(1), push(1)]),
        VMError::StackUnderflow
    ));
}

#[test]
fn jumps_out_of_the_program_are_rejected() {
    assert!(matches!(
        error_after(vec![push(1), Instruction::Jz(2)]),
        VMError::InvalidJump { target: 2, max: 2 }
    ));
    assert!(matches!(
        error_after(vec![Instruction::Jz(7)]),
        VMError::InvalidJump { target: 7, max: 1 }
    ));
    match error_after(vec![Instruction::Jmp(12)]) {
        VMError::ExecutionError { message, line, position } => {
            assert_eq!(message, "Jump target 12 out of bounds");
            assert_eq!(line, 0);
            assert_eq!(position, 0);
        }
        other => panic!("unexpected {:?}", other),
    }
    match error_after(vec![Instruction::Jmp(1)]) {
        VMError::ExecutionError { message, .. } => {
            assert_eq!(message, "Jump target 1 out of bounds")
        }
        other => panic!("unexpected {:?}", other),
    }
}

#[test]
fn label_does_nothing() {
    let code = vec![push(1), Instruction::Label("here".to_string()), push(2)];
    let vm = run(code).unwrap_or_else(|e| panic!("{:?}", e));
    assert_eq!(show(&vm.stack), "[Number(1), Number(2)]");
    assert_eq!(vm.ip, 3);
}

#[test]
fn store_and_load() {
    let code = vec![
        push(5),
        Instruction::Store("x".to_string()),
        Instruction::Load("x".to_string()),
        Instruction::Load("x".to_string()),
    ];
    let vm = run(code).unwrap_or_else(|e| panic!("{:?}", e));
    assert_eq!(show(&vm.stack), "[Number(5), Number(5)]");
    assert_eq!(variable(&vm, 0, "x"), "Number(5)");
    assert_eq!(vm.env_stack[0].len(), 1);
}

#[test]
fn store_overwrites() {
    let code = vec![
        push(5),
        Instruction::Store("x".to_string()),
        push(6),
        Instruction::Store("x".to_string()),
        Instruction::Load("x".to_string()),
    ];
    assert_eq!(stack_after(code), "[Number(6)]");
}

#[test]
fn store_needs_a_value() {
    assert!(matches!(
        error_after(vec![Instruction::Store("x".to_string())]),
        VMError::StackUnderflow
    ));
}

#[test]
fn load_of_an_unknown_name_fails() {
    match error_after(vec![Instruction::Load("nowhere".to_string())]) {
        VMError::UndefinedVariable { name } => assert_eq!(name, "nowhere"),
        other => panic!("unexpected {:?}", other),
    }
}

#[test]
fn load_finds_the_innermost_binding() {
    let code = vec![
        push(1),
        Instruction::Store("x".to_string()),
        push(2),
        Instruction::Store("y".to_string()),
        Instruction::BeginScope,
        push(10),
        Instruction::Store("x".to_string()),
        Instruction::Load("x".to_string()),
        Instruction::Load("y".to_string()),
        Instruction::EndScope,
        Instruction::Load("x".to_string()),
    ];
    let vm = run(code).unwrap_or_else(|e| panic!("{:?}", e));
    assert_eq!(show(&vm.stack), "[Number(10), Number(2), Number(1)]");
    assert_eq!(vm.env_stack.len(), 1);
    assert_eq!(variable(&vm, 0, "x"), "Number(1)");
}

#[test]
fn end_scope_without_begin_fails() {
    assert!(matches!(error_after(vec![Instruction::EndScope]), VMError::NoScopeToEnd));
    assert!(matches!(
        error_after(vec![Instruction::BeginScope, Instruction::EndScope, Instruction::EndScope]),
        VMError::NoScopeToEnd
    ));
}

#[test]
fn end_scope_never_removes_the_global_frame() {
    let mut vm = VM::new();
    let r = vm.execute(&vec![Instruction::EndScope]);
    assert!(matches!(r, Err(VMError::NoScopeToEnd)));
    assert_eq!(vm.env_stack.len(), 1);
}

#[test]
fn unclosed_scopes_are_reported_at_the_end() {
    match error_after(vec![Instruction::BeginScope, Instruction::BeginScope, push(1)]) {
        VMError::ExecutionError { message, line, position } => {
            assert_eq!(message, "Unclosed scopes at end of execution: 2");
            assert_eq!(line, 0);
            assert_eq!(position, 0);
        }
        other => panic!("unexpected {:?}", other),
    }
}

#[test]
fn stack_overflow_at_the_limit() {
    let mut vm = VM::new();
    vm.max_stack_size = 2;
    assert!(vm.execute(&vec![push(1), push(2)]).is_ok());
    let mut vm = VM::new();
    vm.max_stack_size = 2;
    assert!(matches!(vm.execute(&vec![push(1), push(2), push(3)]), Err(VMError::StackOverflow)));
    let mut vm = VM::new();
    vm.max_stack_size = 1;
    let code = vec![push(1), Instruction::Store("x".to_string()), push(2), Instruction::Load(
        "x".to_string(),
    )];
    assert!(matches!(vm.execute(&code), Err(VMError::StackOverflow)));
    let mut vm = VM::new();
    vm.max_stack_size = 0;
    assert!(matches!(vm.execute(&vec![Instruction::CreateArray]), Err(VMError::StackOverflow)));
}

#[test]
fn default_limit_is_four_thousand_values() {
    let mut code = Vec::new();
    for n in 0..4000 {
        code.push(push(n));
    }
    let mut vm = VM::new();
    assert!(vm.execute(&code).is_ok());
    assert_eq!(vm.stack.len(), 4000);
    code.push(push(4000));
    let mut vm = VM::new();
    assert!(matches!(vm.execute(&code), Err(VMError::StackOverflow)));
}

#[test]
fn step_limit_cuts_a_run_off() {
    let mut vm = VM::new();
    vm.max_steps = 1000;
    match vm.execute(&vec![Instruction::Jmp(0)]) {
        Err(VMError::ExecutionError { message, .. }) => assert_eq!(message, "Step limit exceeded"),
        other => panic!("unexpected {:?}", other),
    }
    let mut vm = VM::new();
    vm.max_steps = 2;
    assert!(vm.execute(&vec![push(1), push(2)]).is_ok());
    let mut vm = VM::new();
    vm.max_steps = 1;
    assert!(vm.execute(&vec![push(1), push(2)]).is_err());
}

#[test]
fn create_array_and_push() {
    let code = vec![
        Instruction::CreateArray,
        push(1),
        Instruction::ArrayOp(ArrayOperation::Push),
        push(2),
        Instruction::ArrayOp(ArrayOperation::Push),
    ];
    assert_eq!(stack_after(code), "[Array([Number(1), Number(2)])]");
}

#[test]
fn array_pop_leaves_the_array_and_the_item() {
    let code = vec![
        Instruction::CreateArray,
        push(1),
        Instruction::ArrayOp(ArrayOperation::Push),
        push(2),
        Instruction::ArrayOp(ArrayOperation::Push),
        Instruction::ArrayOp(ArrayOperation::Pop),
    ];
    assert_eq!(stack_after(code), "[Array([Number(1)]), Number(2)]");
    assert!(matches!(
        error_after(vec![Instruction::CreateArray, Instruction::ArrayOp(ArrayOperation::Pop)]),
        VMError::IndexError { index: 0, len: 0 }
    ));
}

#[test]
fn array_get_consumes_the_array() {
    let code = vec![
        push(99),
        Instruction::Push(Value::Array(vec![Value::Number(5), Value::Number(6)])),
        push(1),
        Instruction::ArrayOp(ArrayOperation::Get),
    ];
    assert_eq!(stack_after(code), "[Number(99), Number(6)]");
}

#[test]
fn array_get_out_of_bounds() {
    let array = || Instruction::Push(Value::Array(vec![
        Value::Number(1),
        Value::Number(2),
        Value::Number(3),
    ]));
    assert!(matches!(
        error_after(vec![array(), push(3), Instruction::ArrayOp(ArrayOperation::Get)]),
        VMError::IndexError { index: 3, len: 3 }
    ));
    assert!(matches!(
        error_after(vec![array(), push(-1), Instruction::ArrayOp(ArrayOperation::Get)]),
        VMError::IndexError { index: -1, len: 3 }
    ));
}

#[test]
fn array_put_leaves_the_changed_array() {
    let code = vec![
        Instruction::Push(Value::Array(vec![Value::Number(5), Value::Number(6)])),
        push(0),
        push(10),
        Instruction::ArrayOp(ArrayOperation::Put),
    ];
    assert_eq!(stack_after(code), "[Array([Number(10), Number(6)])]");
    let out = vec![
        Instruction::Push(Value::Array(vec![Value::Number(5), Value::Number(6)])),
        push(2),
        push(10),
        Instruction::ArrayOp(ArrayOperation::Put),
    ];
    assert!(matches!(error_after(out), VMError::IndexError { index: 2, len: 2 }));
}

#[test]
fn array_instructions_on_other_kinds() {
    assert!(matches!(
        error_after(vec![push(1), push(2), Instruction::ArrayOp(ArrayOperation::Push)]),
        VMError::NotAnArray
    ));
    assert!(matches!(
        error_after(vec![push(1), Instruction::ArrayOp(ArrayOperation::Pop)]),
        VMError::NotAnArray
    ));
    assert!(matches!(
        error_after(vec![push(1), push(0), Instruction::ArrayOp(ArrayOperation::Get)]),
        VMError::NotAnArray
    ));
    assert!(matches!(
        error_after(vec![push(1), push(0), push(2), Instruction::ArrayOp(ArrayOperation::Put)]),
        VMError::NotAnArray
    ));
    match error_after(vec![
        Instruction::CreateArray,
        Instruction::Push(Value::Null),
        Instruction::ArrayOp(ArrayOperation::Get),
    ]) {
        VMError::TypeError { message } => assert_eq!(message, "Invalid array access"),
        other => panic!("unexpected {:?}", other),
    }
    match error_after(vec![
        Instruction::CreateArray,
        Instruction::Push(Value::Boolean(true)),
        push(1),
        Instruction::ArrayOp(ArrayOperation::Put),
    ]) {
        VMError::TypeError { message } => assert_eq!(message, "Invalid array assignment"),
        other => panic!("unexpected {:?}", other),
    }
}

#[test]
fn array_instructions_need_their_operands() {
    for op in [ArrayOperation::Push, ArrayOperation::Pop, ArrayOperation::Get, ArrayOperation::Put]
    {
        assert!(matches!(error_after(vec![Instruction::ArrayOp(op)]), VMError::StackUnderflow));
    }
    assert!(matches!(
        error_after(vec![Instruction::CreateArray, Instruction::ArrayOp(ArrayOperation::Get)]),
        VMError::StackUnderflow
    ));
    assert!(matches!(
        error_after(vec![
            Instruction::CreateArray,
            push(0),
            Instruction::ArrayOp(ArrayOperation::Put)
        ]),
        VMError::StackUnderflow
    ));
}

#[test]
fn rebinding_makes_an_array_change_last() {
    let x = || "x".to_string();
    let code = vec![
        Instruction::CreateArray,
        push(1),
        Instruction::ArrayOp(ArrayOperation::Push),
        push(2),
        Instruction::ArrayOp(ArrayOperation::Push),
        push(3),
        Instruction::ArrayOp(ArrayOperation::Push),
        Instruction::Store(x()),
        Instruction::Load(x()),
        push(0),
        push(10),
        Instruction::ArrayOp(ArrayOperation::Put),
        Instruction::Store(x()),
        Instruction::Load(x()),
        push(0),
        Instruction::ArrayOp(ArrayOperation::Get),
        push(5),
        Instruction::Add,
    ];
    let vm = run(code).unwrap_or_else(|e| panic!("{:?}", e));
    assert_eq!(show(&vm.stack), "[Number(15)]");
    assert_eq!(variable(&vm, 0, "x"), "Array([Number(10), Number(2), Number(3)])");
}

#[test]
fn the_same_instructions_end_alike_on_a_fresh_machine() {
    let code = vec![
        push(3),
        Instruction::Store("a".to_string()),
        Instruction::Load("a".to_string()),
        push(4),
        Instruction::Mul,
        Instruction::CreateArray,
    ];
    let first = run(code.clone()).unwrap_or_else(|e| panic!("{:?}", e));
    let second = run(code).unwrap_or_else(|e| panic!("{:?}", e));
    assert_eq!(show(&first.stack), "[Number(12), Array([])]");
    assert_eq!(show(&first.stack), show(&second.stack));
    assert_eq!(first.ip, second.ip);
    assert_eq!(variable(&first, 0, "a"), variable(&second, 0, "a"));
    assert_eq!(first.env_stack.len(), second.env_stack.len());
}

#[test]
fn a_second_run_goes_on_from_the_instruction_pointer() {
    let mut vm = VM::new();
    assert!(vm.execute(&vec![push(1)]).is_ok());
    assert_eq!(vm.ip, 1);
    assert!(vm.execute(&vec![push(1), push(2)]).is_ok());
    assert_eq!(show(&vm.stack), "[Number(1), Number(2)]");
    assert_eq!(vm.ip, 2);
}
