use stack_vm::ast::ASTNode;
use stack_vm::error::VMError;
use stack_vm::parser::Parser;
use stack_vm::tokenizer::{Token, Tokenizer};

fn parse(source: &str) -> Result<Vec<ASTNode>, VMError> {
    let tokenizer = Tokenizer::new(source.to_string());
    let mut probe = tokenizer.clone();
    probe.next_token()?;
    let mut parser = Parser::new(tokenizer);
    parser.parse_program()
}

fn tree(source: &str) -> String {
    match parse(source) {
        Ok(nodes) => format!("{:?}", nodes),
        Err(e) => panic!("unexpected {:?}", e),
    }
}

fn parse_error(source: &str) -> (String, usize, usize) {
    match parse(source) {
        Err(VMError::ParseError { src, message, span }) => {
            assert_eq!(src, source);
            (message, span.offset(), span.len())
        }
        other => panic!("unexpected {:?}", other),
    }
}

#[test]
fn new_parser_looks_at_the_first_token() {
    let parser = Parser::new(Tokenizer::new("  x = 1".to_string()));
    assert_eq!(parser.current_token, Token::Ident("x".to_string()));
    assert_eq!(parser.token_start, 0);
    assert_eq!(parser.tokenizer.position, 3);
    let parser = Parser::new(Tokenizer::new(String::new()));
    assert_eq!(parser.current_token, Token::EOF);
}

#[test]
fn empty_program() {
    assert_eq!(tree(""), "[]");
    assert_eq!(tree("\n\n"), "[]");
}

#[test]
fn literals_and_variables() {
    assert_eq!(tree("5"), "[Number(5)]");
    assert_eq!(tree("\"hi\""), "[String(\"hi\")]");
    assert_eq!(tree("x"), "[VarRef(\"x\")]");
    assert_eq!(tree("1 2 x"), "[Number(1), Number(2), VarRef(\"x\")]");
}

#[test]
fn operators_group_from_the_left_by_precedence() {
    assert_eq!(
        tree("1 + 2 * 3"),
        "[BinOp { left: Number(1), op: Plus, right: BinOp { left: Number(2), op: Star, \
         right: Number(3) } }]"
    );
    assert_eq!(
        tree("1 - 2 - 3"),
        "[BinOp { left: BinOp { left: Number(1), op: Minus, right: Number(2) }, op: Minus, \
         right: Number(3) }]"
    );
    assert_eq!(
        tree("8 / 4 / 2"),
        "[BinOp { left: BinOp { left: Number(8), op: Slash, right: Number(4) }, op: Slash, \
         right: Number(2) }]"
    );
    assert_eq!(
        tree("(1 + 2) * 3"),
        "[BinOp { left: BinOp { left: Number(1), op: Plus, right: Number(2) }, op: Star, \
         right: Number(3) }]"
    );
}

#[test]
fn comparisons_need_parentheses_in_a_statement() {
    assert_eq!(
        tree("(1 + 1 < 3)"),
        "[BinOp { left: BinOp { left: Number(1), op: Plus, right: Number(1) }, op: Less, \
         right: Number(3) }]"
    );
    assert_eq!(
        tree("(a == b != c)"),
        "[BinOp { left: BinOp { left: VarRef(\"a\"), op: Equal, right: VarRef(\"b\") }, \
         op: NotEqual, right: VarRef(\"c\") }]"
    );
    let (message, offset, len) = parse_error("3 > 2");
    assert_eq!(message, "Expected number, string, identifier, or '('");
    assert_eq!((offset, len), (1, 2));
}

#[test]
fn assignments() {
    assert_eq!(tree("x = 5"), "[VarDecl(\"x\", Number(5))]");
    assert_eq!(
        tree("x = y + 1"),
        "[VarDecl(\"x\", BinOp { left: VarRef(\"y\"), op: Plus, right: Number(1) })]"
    );
    assert_eq!(
        tree("x[0] = 10"),
        "[ArrayAssign { array: VarRef(\"x\"), index: Number(0), value: Number(10) }]"
    );
    assert_eq!(tree("x[i]"), "[ArrayIndex { array: VarRef(\"x\"), index: VarRef(\"i\") }]");
    assert_eq!(
        tree("y = x[0] + 5"),
        "[VarDecl(\"y\", BinOp { left: ArrayIndex { array: VarRef(\"x\"), index: Number(0) }, \
         op: Plus, right: Number(5) })]"
    );
}

#[test]
fn array_literals() {
    assert_eq!(tree("[]"), "[Array([])]");
    assert_eq!(tree("[1]"), "[Array([Number(1)])]");
    assert_eq!(tree("[1, 2, 3]"), "[Array([Number(1), Number(2), Number(3)])]");
    assert_eq!(tree("[1, 2,]"), "[Array([Number(1), Number(2)])]");
    assert_eq!(tree("[[1], x]"), "[Array([Array([Number(1)]), VarRef(\"x\")])]");
    let (message, offset, len) = parse_error("[1 2]");
    assert_eq!(message, "Expected closing bracket ']'");
    assert_eq!((offset, len), (2, 2));
    let (message, _, _) = parse_error("[1, 2");
    assert_eq!(message, "Expected closing bracket ']'");
    let (message, _, _) = parse_error("x[1");
    assert_eq!(message, "Expected closing bracket ']'");
}

#[test]
fn conditionals() {
    assert_eq!(
        tree("if (x) { y = 1 }"),
        "[If { condition: VarRef(\"x\"), if_block: [VarDecl(\"y\", Number(1))], else_block: [] }]"
    );
    assert_eq!(
        tree("if (x > 1) { } else { 2 3 }"),
        "[If { condition: BinOp { left: VarRef(\"x\"), op: Greater, right: Number(1) }, \
         if_block: [], else_block: [Number(2), Number(3)] }]"
    );
    let (message, _, _) = parse_error("if x { }");
    assert_eq!(message, "Expected: LParen, Got: Ident(\"x\")");
    let (message, _, _) = parse_error("if (x) y = 1");
    assert_eq!(message, "Expected: LBrace, Got: Ident(\"y\")");
}

#[test]
fn loops() {
    assert_eq!(
        tree("while (i < 5) { i = i + 1 }"),
        "[While { condition: BinOp { left: VarRef(\"i\"), op: Less, right: Number(5) }, \
         body: [VarDecl(\"i\", BinOp { left: VarRef(\"i\"), op: Plus, right: Number(1) })] }]"
    );
    assert_eq!(
        tree("while (1) x = 2"),
        "[While { condition: Number(1), body: [VarDecl(\"x\", Number(2))] }]"
    );
}

#[test]
fn blocks() {
    assert_eq!(tree("{ }"), "[Block([])]");
    assert_eq!(
        tree("{ x = 1 { y } }"),
        "[Block([VarDecl(\"x\", Number(1)), Block([VarRef(\"y\")])])]"
    );
    let (message, offset, len) = parse_error("{ x = 1");
    assert_eq!(message, "Expected number, string, identifier, or '('");
    assert_eq!((offset, len), (7, 0));
}

#[test]
fn mismatches_name_both_tokens() {
    let (message, offset, len) = parse_error("(1 + 2 x");
    assert_eq!(message, "Expected: RParen, Got: Ident(\"x\")");
    assert_eq!((offset, len), (6, 2));
    let (message, _, _) = parse_error("(1");
    assert_eq!(message, "Expected: RParen, Got: EOF");
    let (message, _, _) = parse_error("while (1 2");
    assert_eq!(message, "Expected: RParen, Got: Number(2)");
    let (message, _, _) = parse_error("if (1) { } else \"t\"");
    assert_eq!(message, "Expected: LBrace, Got: String(\"t\")");
}

#[test]
fn a_missing_operand_is_an_error() {
    let (message, offset, len) = parse_error("x = ");
    assert_eq!(message, "Expected number, string, identifier, or '('");
    assert_eq!((offset, len), (3, 1));
    let (message, _, _) = parse_error("1 +");
    assert_eq!(message, "Expected number, string, identifier, or '('");
    let (message, _, _) = parse_error(")");
    assert_eq!(message, "Expected number, string, identifier, or '('");
}

#[test]
fn tokenizer_errors_come_through_unchanged() {
    match parse("x = 1 ; y") {
        Err(VMError::TokenizationError { message, span, .. }) => {
            assert_eq!(message, "Unexpected character: ;");
            assert_eq!(span.offset(), 6);
        }
        other => panic!("unexpected {:?}", other),
    }
    match parse("\"open") {
        Err(VMError::TokenizationError { message, .. }) => {
            assert_eq!(message, "Unterminated string literal")
        }
        other => panic!("unexpected {:?}", other),
    }
}

#[test]
fn a_bad_character_after_a_bracket_is_reported_at_the_bracket() {
    let (message, offset, len) = parse_error("x[1] ;");
    assert_eq!(message, "Expected closing bracket ']'");
    assert_eq!((offset, len), (4, 1));
    let (message, _, _) = parse_error("[1] @");
    assert_eq!(message, "Expected closing bracket ']'");
    match parse("x[1 ;") {
        Err(VMError::TokenizationError { message, .. }) => {
            assert_eq!(message, "Unexpected character: ;")
        }
        other => panic!("unexpected {:?}", other),
    }
}

#[test]
fn parsing_stops_at_the_end_of_the_text() {
    let mut parser = Parser::new(Tokenizer::new("x = 1".to_string()));
    let nodes = parser.parse_program().unwrap();
    assert_eq!(nodes.len(), 1);
    assert_eq!(parser.current_token, Token::EOF);
    assert_eq!(parser.tokenizer.position, 5);
    let again = parser.parse_program().unwrap();
    assert!(again.is_empty());
}
