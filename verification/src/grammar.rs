//! The grammar of the language, as functions from a parser's state to what
//! it reads there.

use crate::ast::AstView;
use crate::error::ErrorView;
use crate::text::decimal;
use crate::tokenizer::{next_token_of, Cursor, TokenView};
use vstd::prelude::*;

verus! {

/// Where a parser stands: its tokenizer's cursor, the token it looks at,
/// and where the reading of that token began.
pub struct ParserState {
    pub cursor: Cursor,
    pub current: TokenView,
    pub token_start: nat,
}

/// What a parsing step gives, or the error it ends in, and where the parser
/// stands after it.
pub struct Parsed<T> {
    pub result: Result<T, ErrorView>,
    pub state: ParserState,
}

/// How much is left to read: the characters after the cursor, and the
/// token looked at unless it is the end of the text.
pub open spec fn remaining(input: Seq<char>, s: ParserState) -> nat {
    (if s.cursor.position <= input.len() {
        input.len() - s.cursor.position
    } else {
        0
    }) as nat + (if s.current is EOF {
        0nat
    } else {
        1nat
    })
}

/// A number in decimal notation, with a minus sign if it is negative.
pub open spec fn signed_decimal(n: int) -> Seq<char> {
    if n < 0 {
        "-"@ + decimal((-n) as nat)
    } else {
        decimal(n as nat)
    }
}

/// How an error message names a token.
pub open spec fn token_text(token: TokenView) -> Seq<char> {
    match token {
        TokenView::Number(n) => "Number("@ + signed_decimal(n as int) + ")"@,
        TokenView::Plus => "Plus"@,
        TokenView::Minus => "Minus"@,
        TokenView::Star => "Star"@,
        TokenView::Slash => "Slash"@,
        TokenView::LParen => "LParen"@,
        TokenView::RParen => "RParen"@,
        TokenView::LBrace => "LBrace"@,
        TokenView::RBrace => "RBrace"@,
        TokenView::LBracket => "LBracket"@,
        TokenView::RBracket => "RBracket"@,
        TokenView::Comma => "Comma"@,
        TokenView::If => "If"@,
        TokenView::Else => "Else"@,
        TokenView::While => "While"@,
        TokenView::EOF => "EOF"@,
        TokenView::Greater => "Greater"@,
        TokenView::Less => "Less"@,
        TokenView::Equal => "Equal"@,
        TokenView::NotEqual => "NotEqual"@,
        TokenView::Ident(name) => "Ident(\""@ + name + "\")"@,
        TokenView::String(text) => "String(\""@ + text + "\")"@,
        TokenView::Assignment => "Assignment"@,
    }
}

/// The parse error with `message` at the token that the parser looks at:
/// from where its reading began to the cursor.
pub open spec fn parse_error_at(input: Seq<char>, s: ParserState, message: Seq<char>) -> ErrorView {
    ErrorView::ParseError {
        src: input,
        message,
        start: s.token_start as usize,
        len: (s.cursor.position - s.token_start) as usize,
    }
}

/// The message for a token that is not the one expected.
pub open spec fn expected_message(expected: TokenView, got: TokenView) -> Seq<char> {
    "Expected: "@ + token_text(expected) + ", Got: "@ + token_text(got)
}

/// Moving past the token looked at, which must be `expected`: the parser
/// then looks at the next token of the text. A tokenizer's error is handed
/// on as it is.
#[verifier::opaque]
pub open spec fn eat_of(input: Seq<char>, s: ParserState, expected: TokenView) -> Parsed<()> {
    if s.current == expected {
        let lexed = next_token_of(input, s.cursor);
        match lexed.result {
            Ok(token) => Parsed {
                result: Ok(()),
                state: ParserState {
                    cursor: lexed.cursor,
                    current: token,
                    token_start: s.cursor.position,
                },
            },
            Err(e) => Parsed {
                result: Err(e),
                state: ParserState { cursor: lexed.cursor, token_start: s.cursor.position, ..s },
            },
        }
    } else {
        Parsed {
            result: Err(parse_error_at(input, s, expected_message(expected, s.current))),
            state: s,
        }
    }
}

impl<T> Parsed<T> {
    /// Whether the step succeeded and left less to read than there was at
    /// `before`. Every step that succeeds does: this is what makes the
    /// grammar's definitions well founded.
    pub open spec fn moved_on(self, input: Seq<char>, before: ParserState) -> bool {
        self.result is Ok && remaining(input, self.state) < remaining(input, before)
    }

    /// The failure of a step, handed on by the step that it was part of.
    pub open spec fn stopped<U>(self, input: Seq<char>) -> Parsed<U> {
        Parsed {
            result: Err(
                match self.result {
                    Err(e) => e,
                    Ok(_) => parse_error_at(input, self.state, "Nothing was read"@),
                },
            ),
            state: self.state,
        }
    }
}

/// The tree of a binary operation.
pub open spec fn binop(left: AstView, op: TokenView, right: AstView) -> AstView {
    AstView::BinOp { left: Box::new(left), op, right: Box::new(right) }
}

/// The message for a bracket that is not closed.
pub open spec fn unclosed_bracket() -> Seq<char> {
    "Expected closing bracket ']'"@
}

/// A factor: a number, a text, a comparison in parentheses, a variable,
/// an indexed variable, or an array literal.
pub open spec fn factor_of(input: Seq<char>, s: ParserState) -> Parsed<AstView>
    decreases remaining(input, s), 5nat,
{
    match s.current {
        TokenView::Number(n) => {
            let eaten = eat_of(input, s, s.current);
            if eaten.result is Ok {
                Parsed { result: Ok(AstView::Number(n)), state: eaten.state }
            } else {
                eaten.stopped(input)
            }
        },
        TokenView::String(text) => {
            let eaten = eat_of(input, s, s.current);
            if eaten.result is Ok {
                Parsed { result: Ok(AstView::String(text)), state: eaten.state }
            } else {
                eaten.stopped(input)
            }
        },
        TokenView::LParen => {
            let opened = eat_of(input, s, TokenView::LParen);
            if !opened.moved_on(input, s) {
                opened.stopped(input)
            } else {
                let inner = comparison_of(input, opened.state);
                if inner.result is Err {
                    inner
                } else {
                    let closed = eat_of(input, inner.state, TokenView::RParen);
                    if closed.result is Ok {
                        Parsed { result: inner.result, state: closed.state }
                    } else {
                        closed.stopped(input)
                    }
                }
            }
        },
        TokenView::Ident(name) => {
            let eaten = eat_of(input, s, s.current);
            if !eaten.moved_on(input, s) {
                eaten.stopped(input)
            } else if eaten.state.current is LBracket {
                array_index_of(input, eaten.state, AstView::VarRef(name))
            } else {
                Parsed { result: Ok(AstView::VarRef(name)), state: eaten.state }
            }
        },
        TokenView::LBracket => array_literal_of(input, s),
        _ => Parsed {
            result: Err(
                parse_error_at(input, s, "Expected number, string, identifier, or '('"@),
            ),
            state: s,
        },
    }
}

/// A term: factors joined by `*` and `/`, grouped from the left.
pub open spec fn term_of(input: Seq<char>, s: ParserState) -> Parsed<AstView>
    decreases remaining(input, s), 6nat,
{
    let first = factor_of(input, s);
    if !first.moved_on(input, s) {
        first.stopped(input)
    } else {
        term_rest_of(input, first.state, first.result->Ok_0)
    }
}

/// What follows the factors read so far, which make `left`.
pub open spec fn term_rest_of(input: Seq<char>, s: ParserState, left: AstView) -> Parsed<AstView>
    decreases remaining(input, s), 0nat,
{
    if s.current is Star || s.current is Slash {
        let eaten = eat_of(input, s, s.current);
        if !eaten.moved_on(input, s) {
            eaten.stopped(input)
        } else {
            let right = factor_of(input, eaten.state);
            if !right.moved_on(input, eaten.state) {
                right.stopped(input)
            } else {
                term_rest_of(input, right.state, binop(left, s.current, right.result->Ok_0))
            }
        }
    } else {
        Parsed { result: Ok(left), state: s }
    }
}

/// An expression: terms joined by `+` and `-`, grouped from the left.
pub open spec fn expr_of(input: Seq<char>, s: ParserState) -> Parsed<AstView>
    decreases remaining(input, s), 7nat,
{
    let first = term_of(input, s);
    if !first.moved_on(input, s) {
        first.stopped(input)
    } else {
        expr_rest_of(input, first.state, first.result->Ok_0)
    }
}

/// What follows the terms read so far, which make `left`.
pub open spec fn expr_rest_of(input: Seq<char>, s: ParserState, left: AstView) -> Parsed<AstView>
    decreases remaining(input, s), 0nat,
{
    if s.current is Plus || s.current is Minus {
        let eaten = eat_of(input, s, s.current);
        if !eaten.moved_on(input, s) {
            eaten.stopped(input)
        } else {
            let right = term_of(input, eaten.state);
            if !right.moved_on(input, eaten.state) {
                right.stopped(input)
            } else {
                expr_rest_of(input, right.state, binop(left, s.current, right.result->Ok_0))
            }
        }
    } else {
        Parsed { result: Ok(left), state: s }
    }
}

/// Whether the token compares two values.
pub open spec fn is_comparator(token: TokenView) -> bool {
    token is Greater || token is Less || token is Equal || token is NotEqual
}

/// A comparison: expressions joined by `>`, `<`, `==` and `!=`, grouped
/// from the left.
pub open spec fn comparison_of(input: Seq<char>, s: ParserState) -> Parsed<AstView>
    decreases remaining(input, s), 8nat,
{
    let first = expr_of(input, s);
    if !first.moved_on(input, s) {
        first.stopped(input)
    } else {
        comparison_rest_of(input, first.state, first.result->Ok_0)
    }
}

/// What follows the expressions read so far, which make `left`.
pub open spec fn comparison_rest_of(input: Seq<char>, s: ParserState, left: AstView) -> Parsed<
    AstView,
>
    decreases remaining(input, s), 0nat,
{
    if is_comparator(s.current) {
        let eaten = eat_of(input, s, s.current);
        if !eaten.moved_on(input, s) {
            eaten.stopped(input)
        } else {
            let right = expr_of(input, eaten.state);
            if !right.moved_on(input, eaten.state) {
                right.stopped(input)
            } else {
                comparison_rest_of(
                    input,
                    right.state,
                    binop(left, s.current, right.result->Ok_0),
                )
            }
        }
    } else {
        Parsed { result: Ok(left), state: s }
    }
}

/// The test of a conditional or a loop: the keyword, then a comparison in
/// parentheses.
pub open spec fn test_of(input: Seq<char>, s: ParserState, keyword: TokenView) -> Parsed<AstView>
    decreases remaining(input, s), 1nat,
{
    let first = eat_of(input, s, keyword);
    if !first.moved_on(input, s) {
        first.stopped(input)
    } else {
        let opened = eat_of(input, first.state, TokenView::LParen);
        if !opened.moved_on(input, first.state) {
            opened.stopped(input)
        } else {
            let test = comparison_of(input, opened.state);
            if !test.moved_on(input, opened.state) {
                test.stopped(input)
            } else {
                let closed = eat_of(input, test.state, TokenView::RParen);
                if !closed.moved_on(input, test.state) {
                    closed.stopped(input)
                } else {
                    Parsed { result: test.result, state: closed.state }
                }
            }
        }
    }
}

/// A conditional: `if`, the test, a block, and after `else` another block.
pub open spec fn if_statement_of(input: Seq<char>, s: ParserState) -> Parsed<AstView>
    decreases remaining(input, s), 9nat,
{
    let test = test_of(input, s, TokenView::If);
    if !test.moved_on(input, s) {
        test.stopped(input)
    } else {
        let if_block = block_of(input, test.state);
        if !if_block.moved_on(input, test.state) {
            if_block.stopped(input)
        } else if if_block.state.current is Else {
            let eaten = eat_of(input, if_block.state, TokenView::Else);
            if !eaten.moved_on(input, if_block.state) {
                eaten.stopped(input)
            } else {
                let else_block = block_of(input, eaten.state);
                if else_block.result is Ok {
                    Parsed {
                        result: Ok(
                            AstView::If {
                                condition: Box::new(test.result->Ok_0),
                                if_block: if_block.result->Ok_0,
                                else_block: else_block.result->Ok_0,
                            },
                        ),
                        state: else_block.state,
                    }
                } else {
                    else_block.stopped(input)
                }
            }
        } else {
            Parsed {
                result: Ok(
                    AstView::If {
                        condition: Box::new(test.result->Ok_0),
                        if_block: if_block.result->Ok_0,
                        else_block: Seq::empty(),
                    },
                ),
                state: if_block.state,
            }
        }
    }
}

/// A loop: `while`, the test, and a block or one statement.
pub open spec fn while_loop_of(input: Seq<char>, s: ParserState) -> Parsed<AstView>
    decreases remaining(input, s), 9nat,
{
    let test = test_of(input, s, TokenView::While);
    if !test.moved_on(input, s) {
        test.stopped(input)
    } else if test.state.current is LBrace {
        let body = block_of(input, test.state);
        if body.result is Ok {
            Parsed {
                result: Ok(
                    AstView::While {
                        condition: Box::new(test.result->Ok_0),
                        body: body.result->Ok_0,
                    },
                ),
                state: body.state,
            }
        } else {
            body.stopped(input)
        }
    } else {
        let body = statement_of(input, test.state);
        if body.result is Ok {
            Parsed {
                result: Ok(
                    AstView::While {
                        condition: Box::new(test.result->Ok_0),
                        body: seq![body.result->Ok_0],
                    },
                ),
                state: body.state,
            }
        } else {
            body.stopped(input)
        }
    }
}

/// A block: statements between braces.
pub open spec fn block_of(input: Seq<char>, s: ParserState) -> Parsed<Seq<AstView>>
    decreases remaining(input, s), 9nat,
{
    let opened = eat_of(input, s, TokenView::LBrace);
    if !opened.moved_on(input, s) {
        opened.stopped(input)
    } else {
        let inner = block_rest_of(input, opened.state, Seq::empty());
        if inner.result is Err {
            inner
        } else {
            let closed = eat_of(input, inner.state, TokenView::RBrace);
            if closed.result is Ok {
                Parsed { result: inner.result, state: closed.state }
            } else {
                closed.stopped(input)
            }
        }
    }
}

/// The statements of a block that follow those read so far, up to the
/// closing brace.
pub open spec fn block_rest_of(input: Seq<char>, s: ParserState, nodes: Seq<AstView>) -> Parsed<
    Seq<AstView>,
>
    decreases remaining(input, s), 11nat,
{
    if s.current is RBrace {
        Parsed { result: Ok(nodes), state: s }
    } else {
        let next = statement_of(input, s);
        if !next.moved_on(input, s) {
            next.stopped(input)
        } else {
            block_rest_of(input, next.state, nodes.push(next.result->Ok_0))
        }
    }
}

/// A statement: a conditional, a loop, a block, one that begins with a
/// variable, or an expression.
pub open spec fn statement_of(input: Seq<char>, s: ParserState) -> Parsed<AstView>
    decreases remaining(input, s), 10nat,
{
    match s.current {
        TokenView::If => if_statement_of(input, s),
        TokenView::While => while_loop_of(input, s),
        TokenView::LBrace => {
            let block = block_of(input, s);
            if block.result is Ok {
                Parsed { result: Ok(AstView::Block(block.result->Ok_0)), state: block.state }
            } else {
                block.stopped(input)
            }
        },
        TokenView::Ident(_) => var_statement_of(input, s),
        _ => expr_of(input, s),
    }
}

/// A statement that begins with a variable: an assignment to it, an
/// assignment to one of its items, one of its items, or the variable alone.
pub open spec fn var_statement_of(input: Seq<char>, s: ParserState) -> Parsed<AstView>
    decreases remaining(input, s), 9nat,
{
    match s.current {
        TokenView::Ident(name) => {
            let eaten = eat_of(input, s, s.current);
            if !eaten.moved_on(input, s) {
                eaten.stopped(input)
            } else if eaten.state.current is Assignment {
                assigned_of(input, eaten.state, AstView::VarRef(name))
            } else if eaten.state.current is LBracket {
                let item = array_index_of(input, eaten.state, AstView::VarRef(name));
                if !item.moved_on(input, eaten.state) {
                    item.stopped(input)
                } else if item.state.current is Assignment {
                    assigned_of(input, item.state, item.result->Ok_0)
                } else {
                    item
                }
            } else {
                Parsed { result: Ok(AstView::VarRef(name)), state: eaten.state }
            }
        },
        _ => Parsed { result: Err(parse_error_at(input, s, "Expected variable name"@)), state: s },
    }
}

/// An assignment to `target`, which is a variable or an item of an array:
/// the sign and the expression whose value is assigned.
pub open spec fn assigned_of(input: Seq<char>, s: ParserState, target: AstView) -> Parsed<AstView>
    decreases remaining(input, s), 8nat,
{
    let eaten = eat_of(input, s, TokenView::Assignment);
    if !eaten.moved_on(input, s) {
        eaten.stopped(input)
    } else {
        let value = expr_of(input, eaten.state);
        if value.result is Err {
            value
        } else {
            match target {
                AstView::VarRef(name) => Parsed {
                    result: Ok(AstView::VarDecl(name, Box::new(value.result->Ok_0))),
                    state: value.state,
                },
                AstView::ArrayIndex { array, index } => Parsed {
                    result: Ok(
                        AstView::ArrayAssign {
                            array,
                            index,
                            value: Box::new(value.result->Ok_0),
                        },
                    ),
                    state: value.state,
                },
                _ => Parsed {
                    result: Err(parse_error_at(input, value.state, "Expected array index"@)),
                    state: value.state,
                },
            }
        }
    }
}

/// An array literal: expressions between brackets, separated by commas;
/// a comma may follow the last.
pub open spec fn array_literal_of(input: Seq<char>, s: ParserState) -> Parsed<AstView>
    decreases remaining(input, s), 4nat,
{
    let opened = eat_of(input, s, TokenView::LBracket);
    if !opened.moved_on(input, s) {
        opened.stopped(input)
    } else {
        let elements = array_literal_elements(input, opened.state);
        if elements.result is Err {
            elements.stopped(input)
        } else {
            let closed = eat_of(input, elements.state, TokenView::RBracket);
            if closed.result is Ok {
                Parsed { result: Ok(AstView::Array(elements.result->Ok_0)), state: closed.state }
            } else {
                Parsed {
                    result: Err(parse_error_at(input, closed.state, unclosed_bracket())),
                    state: closed.state,
                }
            }
        }
    }
}

/// The elements of an array literal that follow those read so far.
pub open spec fn elements_rest_of(
    input: Seq<char>,
    s: ParserState,
    elements: Seq<AstView>,
) -> Parsed<Seq<AstView>>
    decreases remaining(input, s), 0nat,
{
    if s.current is Comma {
        let eaten = eat_of(input, s, TokenView::Comma);
        if !eaten.moved_on(input, s) {
            eaten.stopped(input)
        } else if eaten.state.current is RBracket {
            Parsed { result: Ok(elements), state: eaten.state }
        } else {
            let next = expr_of(input, eaten.state);
            if !next.moved_on(input, eaten.state) {
                next.stopped(input)
            } else {
                elements_rest_of(input, next.state, elements.push(next.result->Ok_0))
            }
        }
    } else {
        Parsed { result: Ok(elements), state: s }
    }
}

/// The index that follows `array`: an expression between brackets.
pub open spec fn array_index_of(input: Seq<char>, s: ParserState, array: AstView) -> Parsed<
    AstView,
>
    decreases remaining(input, s), 4nat,
{
    let opened = eat_of(input, s, TokenView::LBracket);
    if !opened.moved_on(input, s) {
        opened.stopped(input)
    } else {
        let index = expr_of(input, opened.state);
        if index.result is Err {
            index
        } else {
            let closed = eat_of(input, index.state, TokenView::RBracket);
            if closed.result is Ok {
                Parsed {
                    result: Ok(
                        AstView::ArrayIndex {
                            array: Box::new(array),
                            index: Box::new(index.result->Ok_0),
                        },
                    ),
                    state: closed.state,
                }
            } else {
                Parsed {
                    result: Err(parse_error_at(input, closed.state, unclosed_bracket())),
                    state: closed.state,
                }
            }
        }
    }
}

/// The statements of a program that follow those read so far, up to the
/// end of the text.
pub open spec fn program_of(input: Seq<char>, s: ParserState, statements: Seq<AstView>) -> Parsed<
    Seq<AstView>,
>
    decreases remaining(input, s), 12nat,
{
    if s.current is EOF {
        Parsed { result: Ok(statements), state: s }
    } else {
        let next = statement_of(input, s);
        if !next.moved_on(input, s) {
            next.stopped(input)
        } else {
            program_of(input, next.state, statements.push(next.result->Ok_0))
        }
    }
}


/// The elements between the brackets of an array literal, where `opened`
/// is the state after the opening bracket.
pub open spec fn array_literal_elements(input: Seq<char>, opened: ParserState) -> Parsed<
    Seq<AstView>,
>
    decreases remaining(input, opened), 8nat,
{
    if opened.current is RBracket {
        Parsed { result: Ok(Seq::<AstView>::empty()), state: opened }
    } else {
        let first = expr_of(input, opened);
        if !first.moved_on(input, opened) {
            first.stopped(input)
        } else {
            elements_rest_of(input, first.state, seq![first.result->Ok_0])
        }
    }
}


} // verus!
