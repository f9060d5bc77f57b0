use stack_vm::ast::ASTNode;
use stack_vm::error::VMError;
use stack_vm::tokenizer::Token;
use stack_vm::types::Value;
use stack_vm::vm::{compile, run_instructions, Instruction, VM};

fn show(code: &Vec<Instruction>) -> String {
    format!("{:?}", code)
}

fn number(n: i32) -> ASTNode {
    ASTNode::Number(n)
}

fn var(name: &str) -> ASTNode {
    ASTNode::VarRef(name.to_string())
}

fn binop(left: ASTNode, op: Token, right: ASTNode) -> ASTNode {
    ASTNode::BinOp { left: Box::new(left), op, right: Box::new(right) }
}

fn assign(name: &str, value: ASTNode) -> ASTNode {
    ASTNode::VarDecl(name.to_string(), Box::new(value))
}

fn count_up() -> ASTNode {
    ASTNode::While {
        condition: Box::new(binop(var("i"), Token::Less, number(5))),
        body: vec![assign("i", binop(var("i"), Token::Plus, number(1)))],
    }
}

fn jumps_are_below(code: &Vec<Instruction>, bound: usize) -> bool {
    code.iter().all(|instruction| match instruction {
        Instruction::Jmp(target) | Instruction::Jz(target) => *target < bound,
        _ => true,
    })
}

#[test]
fn literals_compile_to_one_push() {
    assert_eq!(show(&compile(number(7))), "[Push(Number(7))]");
    assert_eq!(
        show(&compile(ASTNode::String("hi".to_string()))),
        "[Push(Array([Number(104), Number(105)]))]"
    );
    assert_eq!(show(&compile(ASTNode::String(String::new()))), "[Push(Array([]))]");
}

#[test]
fn variables_compile_to_load_and_store() {
    assert_eq!(show(&compile(var("x"))), "[Load(\"x\")]");
    assert_eq!(show(&compile(assign("x", number(5)))), "[Push(Number(5)), Store(\"x\")]");
    assert_eq!(
        show(&compile(ASTNode::VarAssign("x".to_string(), Box::new(number(5))))),
        "[Push(Number(5)), Store(\"x\")]"
    );
}

#[test]
fn binary_operations_compile_left_right_operator() {
    let cases = [
        (Token::Plus, "Add"),
        (Token::Minus, "Sub"),
        (Token::Star, "Mul"),
        (Token::Slash, "Div"),
        (Token::Greater, "Greater"),
        (Token::Less, "Less"),
        (Token::Equal, "Equal"),
        (Token::NotEqual, "NotEqual"),
    ];
    for (op, name) in cases {
        assert_eq!(
            show(&compile(binop(number(1), op, number(2)))),
            format!("[Push(Number(1)), Push(Number(2)), {}]", name)
        );
    }
    let nested = binop(binop(number(1), Token::Plus, number(2)), Token::Star, number(3));
    assert_eq!(
        show(&compile(nested)),
        "[Push(Number(1)), Push(Number(2)), Add, Push(Number(3)), Mul]"
    );
}

#[test]
fn conditional_jumps_to_else_and_past_it() {
    let node = ASTNode::If {
        condition: Box::new(number(1)),
        if_block: vec![assign("x", number(2))],
        else_block: vec![assign("x", number(3))],
    };
    assert_eq!(
        show(&compile(node)),
        "[Push(Number(1)), Jz(5), Push(Number(2)), Store(\"x\"), Jmp(7), \
         Push(Number(3)), Store(\"x\")]"
    );
}

#[test]
fn conditional_without_else_still_jumps() {
    let node = ASTNode::If {
        condition: Box::new(number(1)),
        if_block: vec![assign("x", number(2))],
        else_block: vec![],
    };
    assert_eq!(
        show(&compile(node)),
        "[Push(Number(1)), Jz(5), Push(Number(2)), Store(\"x\"), Jmp(5)]"
    );
    let empty = ASTNode::If {
        condition: Box::new(number(1)),
        if_block: vec![],
        else_block: vec![],
    };
    assert_eq!(show(&compile(empty)), "[Push(Number(1)), Jz(3), Jmp(3)]");
}

#[test]
fn loop_jumps_back_to_its_test_and_past_its_end() {
    assert_eq!(
        show(&compile(count_up())),
        "[Load(\"i\"), Push(Number(5)), Less, Jz(9), Load(\"i\"), Push(Number(1)), Add, \
         Store(\"i\"), Jmp(0)]"
    );
}

#[test]
fn block_opens_and_closes_a_scope() {
    let node = ASTNode::Block(vec![assign("y", number(5)), var("y")]);
    assert_eq!(
        show(&compile(node)),
        "[BeginScope, Push(Number(5)), Store(\"y\"), Load(\"y\"), EndScope]"
    );
    assert_eq!(show(&compile(ASTNode::Block(vec![]))), "[BeginScope, EndScope]");
}

#[test]
fn array_literal_appends_each_element() {
    let node = ASTNode::Array(vec![number(1), number(2)]);
    assert_eq!(
        show(&compile(node)),
        "[CreateArray, Push(Number(1)), ArrayOp(Push), Push(Number(2)), ArrayOp(Push)]"
    );
    assert_eq!(show(&compile(ASTNode::Array(vec![]))), "[CreateArray]");
}

#[test]
fn array_index_and_assignment() {
    let index = ASTNode::ArrayIndex { array: Box::new(var("x")), index: Box::new(number(0)) };
    assert_eq!(show(&compile(index)), "[Load(\"x\"), Push(Number(0)), ArrayOp(Get)]");
    let put = ASTNode::ArrayAssign {
        array: Box::new(var("x")),
        index: Box::new(number(0)),
        value: Box::new(number(10)),
    };
    assert_eq!(
        show(&compile(put)),
        "[Load(\"x\"), Push(Number(0)), Push(Number(10)), ArrayOp(Put)]"
    );
}

#[test]
fn program_moves_jumps_by_what_stands_before() {
    let code = run_instructions(vec![assign("i", number(0)), count_up(), var("i")]);
    assert_eq!(
        show(&code),
        "[Push(Number(0)), Store(\"i\"), Load(\"i\"), Push(Number(5)), Less, Jz(11), \
         Load(\"i\"), Push(Number(1)), Add, Store(\"i\"), Jmp(2), Load(\"i\")]"
    );
    assert!(jumps_are_below(&code, code.len()));
}

#[test]
fn program_of_nothing_is_empty() {
    assert_eq!(show(&run_instructions(vec![])), "[]");
}

#[test]
fn nested_control_flow_has_targets_in_the_whole() {
    let inner = ASTNode::If {
        condition: Box::new(var("i")),
        if_block: vec![count_up()],
        else_block: vec![ASTNode::Block(vec![count_up()])],
    };
    let code = compile(ASTNode::Block(vec![inner]));
    assert_eq!(
        show(&code),
        "[BeginScope, Load(\"i\"), Jz(13), \
         Load(\"i\"), Push(Number(5)), Less, Jz(12), Load(\"i\"), Push(Number(1)), Add, \
         Store(\"i\"), Jmp(3), \
         Jmp(24), \
         BeginScope, Load(\"i\"), Push(Number(5)), Less, Jz(23), Load(\"i\"), Push(Number(1)), \
         Add, Store(\"i\"), Jmp(14), EndScope, \
         EndScope]"
    );
    assert!(jumps_are_below(&code, code.len()));
}

#[test]
fn jumps_of_compiled_programs_stay_inside() {
    let programs = vec![
        vec![count_up(), var("i")],
        vec![
            ASTNode::If {
                condition: Box::new(number(0)),
                if_block: vec![count_up()],
                else_block: vec![],
            },
            assign("z", number(1)),
        ],
        vec![ASTNode::Block(vec![count_up(), count_up()])],
        vec![ASTNode::Array(vec![count_up()]), number(1)],
    ];
    for nodes in programs {
        let code = run_instructions(nodes);
        assert!(jumps_are_below(&code, code.len()));
    }
}

#[test]
fn a_program_that_ends_in_a_loop_jumps_to_its_end() {
    let code = run_instructions(vec![assign("i", number(0)), count_up()]);
    assert!(jumps_are_below(&code, code.len() + 1));
    assert!(!jumps_are_below(&code, code.len()));
    let mut vm = VM::new();
    assert!(matches!(vm.execute(&code), Err(VMError::InvalidJump { target: 11, max: 11 })));
}

#[test]
fn compiled_division_runs_to_the_truncated_quotient() {
    let cases = [
        (7, 2, 3),
        (-7, 2, -3),
        (7, -2, -3),
        (-7, -2, 3),
        (1, 3, 0),
        (i32::MIN, 2, i32::MIN / 2),
    ];
    for (a, b, q) in cases {
        let code = compile(binop(number(a), Token::Slash, number(b)));
        let mut vm = VM::new();
        assert!(vm.execute(&code).is_ok());
        assert_eq!(format!("{:?}", vm.stack), format!("[Number({})]", q));
        assert_eq!(vm.ip, 3);
    }
    let code = compile(binop(number(5), Token::Slash, number(0)));
    let mut vm = VM::new();
    assert!(matches!(vm.execute(&code), Err(VMError::DivisionByZero)));
}

#[test]
fn text_literal_is_an_array_of_code_points() {
    let code = compile(ASTNode::String("a\u{e9}".to_string()));
    let mut vm = VM::new();
    assert!(vm.execute(&code).is_ok());
    assert_eq!(format!("{:?}", vm.stack), "[Array([Number(97), Number(233)])]");
    assert!(matches!(&vm.stack[0], Value::Array(items) if items.len() == 2));
}

struct Dice(u64);

impl Dice {
    fn roll(&mut self, sides: u64) -> u64 {
        self.0 = self.0.wrapping_mul(6364136223846793005).wrapping_add(1442695040888963407);
        (self.0 >> 33) % sides
    }
}

fn random_expression(dice: &mut Dice, depth: u32) -> ASTNode {
    match if depth == 0 { dice.roll(2) } else { dice.roll(5) } {
        0 => number(dice.roll(7) as i32),
        1 => var(["a", "b", "c"][dice.roll(3) as usize]),
        2 => {
            let op = match dice.roll(4) {
                0 => Token::Plus,
                1 => Token::Less,
                2 => Token::Equal,
                _ => Token::Minus,
            };
            binop(random_expression(dice, depth - 1), op, random_expression(dice, depth - 1))
        }
        3 => ASTNode::Array(vec![random_expression(dice, depth - 1)]),
        _ => ASTNode::ArrayIndex {
            array: Box::new(random_expression(dice, depth - 1)),
            index: Box::new(random_expression(dice, depth - 1)),
        },
    }
}

fn random_block(dice: &mut Dice, depth: u32) -> Vec<ASTNode> {
    let mut nodes = Vec::new();
    for _ in 0..dice.roll(3) {
        nodes.push(random_statement(dice, depth));
    }
    nodes
}

fn random_statement(dice: &mut Dice, depth: u32) -> ASTNode {
    match if depth == 0 { dice.roll(2) } else { dice.roll(6) } {
        0 => assign(["a", "b", "c"][dice.roll(3) as usize], random_expression(dice, 2)),
        1 => random_expression(dice, 2),
        2 | 3 => ASTNode::If {
            condition: Box::new(random_expression(dice, 2)),
            if_block: random_block(dice, depth - 1),
            else_block: random_block(dice, depth - 1),
        },
        4 => ASTNode::While {
            condition: Box::new(random_expression(dice, 2)),
            body: random_block(dice, depth - 1),
        },
        _ => ASTNode::Block(random_block(dice, depth - 1)),
    }
}

#[test]
fn random_nested_programs_never_jump_out() {
    let mut dice = Dice(2024);
    let mut ran_to_the_end = 0;
    for _ in 0..300 {
        let mut nodes = vec![assign("a", number(1)), assign("b", number(0))];
        for _ in 0..(1 + dice.roll(4)) {
            nodes.push(random_statement(&mut dice, 3));
        }
        nodes.push(assign("c", number(0)));
        let code = run_instructions(nodes);
        assert!(jumps_are_below(&code, code.len()));
        let mut vm = VM::new();
        vm.max_steps = 2000;
        match vm.execute(&code) {
            Ok(()) => ran_to_the_end += 1,
            Err(VMError::InvalidJump { .. }) => panic!("jump out of {:?}", code),
            Err(VMError::ExecutionError { message, .. }) => {
                assert!(!message.starts_with("Jump target"), "jump out of {:?}", code)
            }
            Err(_) => {}
        }
    }
    assert!(ran_to_the_end > 0);
}
