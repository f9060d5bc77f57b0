use stack_vm::ast::ASTNode;
use stack_vm::error::VMError;
use stack_vm::parser::Parser;
use stack_vm::tokenizer::Tokenizer;
use stack_vm::vm::{run_instructions, VM};

fn parse(source: &str) -> Result<Vec<ASTNode>, VMError> {
    let tokenizer = Tokenizer::new(source.to_string());
    let mut probe = tokenizer.clone();
    probe.next_token()?;
    let mut parser = Parser::new(tokenizer);
    parser.parse_program()
}

fn run(source: &str) -> Result<VM, VMError> {
    let code = run_instructions(parse(source)?);
    let mut vm = VM::new();
    vm.execute(&code)?;
    Ok(vm)
}

fn stack_after(source: &str) -> String {
    match run(source) {
        Ok(vm) => format!("{:?}", vm.stack),
        Err(e) => panic!("unexpected {:?}", e),
    }
}

fn error_after(source: &str) -> VMError {
    match run(source) {
        Ok(vm) => panic!("ran to {:?}", vm.stack),
        Err(e) => e,
    }
}

fn variable(vm: &VM, name: &str) -> String {
    match vm.env_stack[0].get(name) {
        Some(value) => format!("{:?}", value),
        None => "unset".to_string(),
    }
}

#[test]
fn division_rounds_toward_zero() {
    assert_eq!(stack_after("(7 / 2)"), "[Number(3)]");
    assert_eq!(stack_after("((0 - 7) / 2)"), "[Number(-3)]");
    assert_eq!(stack_after("(7 / (0 - 2))"), "[Number(-3)]");
    assert_eq!(stack_after("((0 - 7) / (0 - 2))"), "[Number(3)]");
}

#[test]
fn division_by_zero_fails() {
    assert!(matches!(error_after("(7 / 0)"), VMError::DivisionByZero));
}

#[test]
fn comparators() {
    assert_eq!(stack_after("(3 > 2)"), "[Boolean(true)]");
    assert_eq!(stack_after("(2 > 3)"), "[Boolean(false)]");
    assert_eq!(stack_after("(2 < 3)"), "[Boolean(true)]");
    assert_eq!(stack_after("(5 == 1)"), "[Boolean(false)]");
    assert_eq!(stack_after("(5 == 5)"), "[Boolean(true)]");
    assert_eq!(stack_after("(5 != 1)"), "[Boolean(true)]");
    assert_eq!(stack_after("([1, 2] == [1, 2])"), "[Boolean(true)]");
}

#[test]
fn precedence_and_grouping() {
    assert_eq!(stack_after("(1 + 2 * 3)"), "[Number(7)]");
    assert_eq!(stack_after("((1 + 2) * 3)"), "[Number(9)]");
    assert_eq!(stack_after("(10 - 3 - 2)"), "[Number(5)]");
    assert_eq!(stack_after("(1 + 2 < 4)"), "[Boolean(true)]");
}

#[test]
fn a_variable_of_a_closed_scope_is_gone() {
    match error_after("x = 5 { y = 5 } y") {
        VMError::UndefinedVariable { name } => assert_eq!(name, "y"),
        other => panic!("unexpected {:?}", other),
    }
}

#[test]
fn a_store_in_a_scope_shadows() {
    let vm = run("x = 5 { x = 6 } x").unwrap_or_else(|e| panic!("{:?}", e));
    assert_eq!(format!("{:?}", vm.stack), "[Number(5)]");
    assert_eq!(variable(&vm, "x"), "Number(5)");
    assert_eq!(vm.env_stack.len(), 1);
    assert_eq!(stack_after("x = 5 { x = 6 x }"), "[Number(6)]");
    assert_eq!(stack_after("x = 5 { x }"), "[Number(5)]");
}

#[test]
fn a_loop_runs_until_its_test_fails() {
    let vm = run("i = 0 n = 0 while (i < 5) { i = i + 1 n = n + 1 } i")
        .unwrap_or_else(|e| panic!("{:?}", e));
    assert_eq!(variable(&vm, "i"), "Number(5)");
    assert_eq!(variable(&vm, "n"), "Number(5)");
    assert_eq!(format!("{:?}", vm.stack), "[Number(5)]");
}

#[test]
fn a_loop_with_one_statement_for_a_body() {
    let vm = run("i = 0 while (i < 3) i = i + 1 i").unwrap_or_else(|e| panic!("{:?}", e));
    assert_eq!(variable(&vm, "i"), "Number(3)");
}

#[test]
fn a_loop_at_the_end_jumps_out_of_the_program() {
    assert!(matches!(
        error_after("i = 0 while (i < 5) { i = i + 1 }"),
        VMError::InvalidJump { target: 11, max: 11 }
    ));
}

#[test]
fn conditionals_take_one_branch() {
    assert_eq!(stack_after("if (1) { x = 1 } else { x = 2 } x"), "[Number(1)]");
    assert_eq!(stack_after("if (0) { x = 1 } else { x = 2 } x"), "[Number(2)]");
    assert_eq!(stack_after("x = 0 if (2 > 1) { x = 1 } x"), "[Number(1)]");
    assert_eq!(stack_after("x = 0 if (2 < 1) { x = 1 } x"), "[Number(0)]");
}

#[test]
fn array_items_are_read_by_index() {
    assert_eq!(stack_after("x = [1, 2, 3] (x[0] + 5)"), "[Number(6)]");
    assert_eq!(stack_after("x = [1, 2, 3,] x[2]"), "[Number(3)]");
    assert!(matches!(
        error_after("x = [1, 2, 3] x[3]"),
        VMError::IndexError { index: 3, len: 3 }
    ));
}

#[test]
fn an_item_assignment_leaves_the_changed_array_on_the_stack() {
    let vm = run("x = [1, 2, 3] x[0] = 10 (x[0] + 5)").unwrap_or_else(|e| panic!("{:?}", e));
    assert_eq!(
        format!("{:?}", vm.stack),
        "[Array([Number(10), Number(2), Number(3)]), Number(6)]"
    );
    assert_eq!(variable(&vm, "x"), "Array([Number(1), Number(2), Number(3)])");
}

#[test]
fn the_stack_holds_one_value_for_each_expression_statement() {
    let vm = run("a = 1 (a + 1) b = [a] b[0] { c = 3 } if (a) { a = 2 } \"s\" a")
        .unwrap_or_else(|e| panic!("{:?}", e));
    assert_eq!(vm.stack.len(), 4);
    assert_eq!(
        format!("{:?}", vm.stack),
        "[Number(2), Number(1), Array([Number(115)]), Number(2)]"
    );
}

#[test]
fn text_literals_are_arrays_of_code_points() {
    assert_eq!(stack_after("\"ab\""), "[Array([Number(97), Number(98)])]");
    assert_eq!(stack_after("'a\\n'"), "[Array([Number(97), Number(10)])]");
}

#[test]
fn errors_of_the_tokenizer_and_the_parser_come_through() {
    assert!(matches!(error_after("x = 5 ; x"), VMError::TokenizationError { .. }));
    assert!(matches!(error_after("@"), VMError::TokenizationError { .. }));
    assert!(matches!(error_after("x = "), VMError::ParseError { .. }));
    assert!(matches!(error_after("3 > 2"), VMError::ParseError { .. }));
}

#[test]
fn the_empty_program_runs() {
    assert_eq!(stack_after(""), "[]");
    assert_eq!(stack_after("  \n\t "), "[]");
}
