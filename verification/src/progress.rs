//! Every step of the grammar that succeeds reads something: the checks for
//! it in the grammar's definitions never fail a step that has succeeded.

use crate::ast::AstView;
use crate::grammar::{
    array_index_of, array_literal_elements, array_literal_of, assigned_of, binop, block_of,
    block_rest_of, comparison_of, comparison_rest_of, eat_of, elements_rest_of, expr_of,
    expr_rest_of, factor_of, if_statement_of, is_comparator, program_of, remaining,
    statement_of, term_of, term_rest_of, test_of, var_statement_of, while_loop_of, Parsed,
    ParserState,
};
use crate::tokenizer::{lemma_next_token_advances, TokenView};
use vstd::prelude::*;

verus! {

/// Whether the parser stands inside the text, or at its end.
pub open spec fn inside(input: Seq<char>, s: ParserState) -> bool {
    s.cursor.position <= input.len()
}

/// Whether a step from `s` ended inside the text, with less left to read if
/// it succeeded.
pub open spec fn reads<T>(input: Seq<char>, s: ParserState, p: Parsed<T>) -> bool {
    &&& inside(input, p.state)
    &&& p.result is Ok ==> remaining(input, p.state) < remaining(input, s)
}

/// Whether a step from `s` ended inside the text, with no more left to read
/// if it succeeded.
pub open spec fn reads_on<T>(input: Seq<char>, s: ParserState, p: Parsed<T>) -> bool {
    &&& inside(input, p.state)
    &&& p.result is Ok ==> remaining(input, p.state) <= remaining(input, s)
}

/// Moving past a token other than the end of the text reads something.
pub proof fn lemma_eat_reads(input: Seq<char>, s: ParserState, expected: TokenView)
    requires
        inside(input, s),
        !(expected is EOF),
    ensures
        reads(input, s, eat_of(input, s, expected)),
{
    reveal(eat_of);
    lemma_next_token_advances(input, s.cursor);
}

/// A factor that is read takes something off the text.
pub proof fn lemma_factor_reads(input: Seq<char>, s: ParserState)
    requires
        inside(input, s),
    ensures
        reads(input, s, factor_of(input, s)),
    decreases remaining(input, s), 5nat,
{
    match s.current {
        TokenView::Number(_) => {
            lemma_eat_reads(input, s, s.current);
        },
        TokenView::String(_) => {
            lemma_eat_reads(input, s, s.current);
        },
        TokenView::LParen => {
            lemma_eat_reads(input, s, TokenView::LParen);
            let opened = eat_of(input, s, TokenView::LParen);
            if opened.moved_on(input, s) {
                lemma_comparison_reads(input, opened.state);
                let inner = comparison_of(input, opened.state);
                if inner.result is Ok {
                    lemma_eat_reads(input, inner.state, TokenView::RParen);
                }
            }
        },
        TokenView::Ident(name) => {
            lemma_eat_reads(input, s, s.current);
            let eaten = eat_of(input, s, s.current);
            if eaten.moved_on(input, s) && eaten.state.current is LBracket {
                lemma_array_index_reads(input, eaten.state, AstView::VarRef(name));
            }
        },
        TokenView::LBracket => {
            lemma_array_literal_reads(input, s);
        },
        _ => {},
    }
}

/// A term that is read takes something off the text.
pub proof fn lemma_term_reads(input: Seq<char>, s: ParserState)
    requires
        inside(input, s),
    ensures
        reads(input, s, term_of(input, s)),
    decreases remaining(input, s), 6nat,
{
    lemma_factor_reads(input, s);
    let first = factor_of(input, s);
    if first.moved_on(input, s) {
        lemma_term_rest_reads(input, first.state, first.result->Ok_0);
    }
}

/// What follows a term's first factors takes nothing back.
pub proof fn lemma_term_rest_reads(input: Seq<char>, s: ParserState, left: AstView)
    requires
        inside(input, s),
    ensures
        reads_on(input, s, term_rest_of(input, s, left)),
    decreases remaining(input, s), 0nat,
{
    if s.current is Star || s.current is Slash {
        lemma_eat_reads(input, s, s.current);
        let eaten = eat_of(input, s, s.current);
        if eaten.moved_on(input, s) {
            lemma_factor_reads(input, eaten.state);
            let right = factor_of(input, eaten.state);
            if right.moved_on(input, eaten.state) {
                lemma_term_rest_reads(
                    input,
                    right.state,
                    binop(left, s.current, right.result->Ok_0),
                );
            }
        }
    }
}

/// An expression that is read takes something off the text.
pub proof fn lemma_expr_reads(input: Seq<char>, s: ParserState)
    requires
        inside(input, s),
    ensures
        reads(input, s, expr_of(input, s)),
    decreases remaining(input, s), 7nat,
{
    lemma_term_reads(input, s);
    let first = term_of(input, s);
    if first.moved_on(input, s) {
        lemma_expr_rest_reads(input, first.state, first.result->Ok_0);
    }
}

/// What follows an expression's first terms takes nothing back.
pub proof fn lemma_expr_rest_reads(input: Seq<char>, s: ParserState, left: AstView)
    requires
        inside(input, s),
    ensures
        reads_on(input, s, expr_rest_of(input, s, left)),
    decreases remaining(input, s), 0nat,
{
    if s.current is Plus || s.current is Minus {
        lemma_eat_reads(input, s, s.current);
        let eaten = eat_of(input, s, s.current);
        if eaten.moved_on(input, s) {
            lemma_term_reads(input, eaten.state);
            let right = term_of(input, eaten.state);
            if right.moved_on(input, eaten.state) {
                lemma_expr_rest_reads(
                    input,
                    right.state,
                    binop(left, s.current, right.result->Ok_0),
                );
            }
        }
    }
}

/// A comparison that is read takes something off the text.
pub proof fn lemma_comparison_reads(input: Seq<char>, s: ParserState)
    requires
        inside(input, s),
    ensures
        reads(input, s, comparison_of(input, s)),
    decreases remaining(input, s), 8nat,
{
    lemma_expr_reads(input, s);
    let first = expr_of(input, s);
    if first.moved_on(input, s) {
        lemma_comparison_rest_reads(input, first.state, first.result->Ok_0);
    }
}

/// What follows a comparison's first expressions takes nothing back.
pub proof fn lemma_comparison_rest_reads(input: Seq<char>, s: ParserState, left: AstView)
    requires
        inside(input, s),
    ensures
        reads_on(input, s, comparison_rest_of(input, s, left)),
    decreases remaining(input, s), 0nat,
{
    if is_comparator(s.current) {
        lemma_eat_reads(input, s, s.current);
        let eaten = eat_of(input, s, s.current);
        if eaten.moved_on(input, s) {
            lemma_expr_reads(input, eaten.state);
            let right = expr_of(input, eaten.state);
            if right.moved_on(input, eaten.state) {
                lemma_comparison_rest_reads(
                    input,
                    right.state,
                    binop(left, s.current, right.result->Ok_0),
                );
            }
        }
    }
}

/// A test that is read takes something off the text.
pub proof fn lemma_test_reads(input: Seq<char>, s: ParserState, keyword: TokenView)
    requires
        inside(input, s),
        !(keyword is EOF),
    ensures
        reads(input, s, test_of(input, s, keyword)),
    decreases remaining(input, s), 1nat,
{
    lemma_eat_reads(input, s, keyword);
    let first = eat_of(input, s, keyword);
    if first.moved_on(input, s) {
        lemma_eat_reads(input, first.state, TokenView::LParen);
        let opened = eat_of(input, first.state, TokenView::LParen);
        if opened.moved_on(input, first.state) {
            lemma_comparison_reads(input, opened.state);
            let test = comparison_of(input, opened.state);
            if test.moved_on(input, opened.state) {
                lemma_eat_reads(input, test.state, TokenView::RParen);
            }
        }
    }
}

/// A conditional that is read takes something off the text.
pub proof fn lemma_if_statement_reads(input: Seq<char>, s: ParserState)
    requires
        inside(input, s),
    ensures
        reads(input, s, if_statement_of(input, s)),
    decreases remaining(input, s), 9nat,
{
    lemma_test_reads(input, s, TokenView::If);
    let test = test_of(input, s, TokenView::If);
    if test.moved_on(input, s) {
        lemma_block_reads(input, test.state);
        let if_block = block_of(input, test.state);
        if if_block.moved_on(input, test.state) && if_block.state.current is Else {
            lemma_eat_reads(input, if_block.state, TokenView::Else);
            let eaten = eat_of(input, if_block.state, TokenView::Else);
            if eaten.moved_on(input, if_block.state) {
                lemma_block_reads(input, eaten.state);
            }
        }
    }
}

/// A loop that is read takes something off the text.
pub proof fn lemma_while_loop_reads(input: Seq<char>, s: ParserState)
    requires
        inside(input, s),
    ensures
        reads(input, s, while_loop_of(input, s)),
    decreases remaining(input, s), 9nat,
{
    lemma_test_reads(input, s, TokenView::While);
    let test = test_of(input, s, TokenView::While);
    if test.moved_on(input, s) {
        if test.state.current is LBrace {
            lemma_block_reads(input, test.state);
        } else {
            lemma_statement_reads(input, test.state);
        }
    }
}

/// A block that is read takes something off the text.
pub proof fn lemma_block_reads(input: Seq<char>, s: ParserState)
    requires
        inside(input, s),
    ensures
        reads(input, s, block_of(input, s)),
    decreases remaining(input, s), 9nat,
{
    lemma_eat_reads(input, s, TokenView::LBrace);
    let opened = eat_of(input, s, TokenView::LBrace);
    if opened.moved_on(input, s) {
        lemma_block_rest_reads(input, opened.state, Seq::empty());
        let inner = block_rest_of(input, opened.state, Seq::empty());
        if inner.result is Ok {
            lemma_eat_reads(input, inner.state, TokenView::RBrace);
        }
    }
}

/// The statements up to a block's end take nothing back.
pub proof fn lemma_block_rest_reads(input: Seq<char>, s: ParserState, nodes: Seq<AstView>)
    requires
        inside(input, s),
    ensures
        reads_on(input, s, block_rest_of(input, s, nodes)),
    decreases remaining(input, s), 11nat,
{
    if !(s.current is RBrace) {
        lemma_statement_reads(input, s);
        let next = statement_of(input, s);
        if next.moved_on(input, s) {
            lemma_block_rest_reads(input, next.state, nodes.push(next.result->Ok_0));
        }
    }
}

/// A statement that is read takes something off the text.
pub proof fn lemma_statement_reads(input: Seq<char>, s: ParserState)
    requires
        inside(input, s),
    ensures
        reads(input, s, statement_of(input, s)),
    decreases remaining(input, s), 10nat,
{
    match s.current {
        TokenView::If => {
            lemma_if_statement_reads(input, s);
        },
        TokenView::While => {
            lemma_while_loop_reads(input, s);
        },
        TokenView::LBrace => {
            lemma_block_reads(input, s);
        },
        TokenView::Ident(_) => {
            lemma_var_statement_reads(input, s);
        },
        _ => {
            lemma_expr_reads(input, s);
        },
    }
}

/// A statement that begins with a variable, once read, has taken
/// something off the text.
pub proof fn lemma_var_statement_reads(input: Seq<char>, s: ParserState)
    requires
        inside(input, s),
    ensures
        reads(input, s, var_statement_of(input, s)),
    decreases remaining(input, s), 9nat,
{
    match s.current {
        TokenView::Ident(name) => {
            lemma_eat_reads(input, s, s.current);
            let eaten = eat_of(input, s, s.current);
            if eaten.moved_on(input, s) {
                if eaten.state.current is Assignment {
                    lemma_assigned_reads(input, eaten.state, AstView::VarRef(name));
                } else if eaten.state.current is LBracket {
                    lemma_array_index_reads(input, eaten.state, AstView::VarRef(name));
                    let item = array_index_of(input, eaten.state, AstView::VarRef(name));
                    if item.moved_on(input, eaten.state) && item.state.current is Assignment {
                        lemma_assigned_reads(input, item.state, item.result->Ok_0);
                    }
                }
            }
        },
        _ => {},
    }
}

/// An assignment that is read takes something off the text.
pub proof fn lemma_assigned_reads(input: Seq<char>, s: ParserState, target: AstView)
    requires
        inside(input, s),
    ensures
        reads(input, s, assigned_of(input, s, target)),
    decreases remaining(input, s), 8nat,
{
    lemma_eat_reads(input, s, TokenView::Assignment);
    let eaten = eat_of(input, s, TokenView::Assignment);
    if eaten.moved_on(input, s) {
        lemma_expr_reads(input, eaten.state);
    }
}

/// An array literal that is read takes something off the text.
pub proof fn lemma_array_literal_reads(input: Seq<char>, s: ParserState)
    requires
        inside(input, s),
    ensures
        reads(input, s, array_literal_of(input, s)),
    decreases remaining(input, s), 4nat,
{
    lemma_eat_reads(input, s, TokenView::LBracket);
    let opened = eat_of(input, s, TokenView::LBracket);
    if opened.moved_on(input, s) {
        lemma_array_literal_elements_read(input, opened.state);
        let elements = array_literal_elements(input, opened.state);
        if elements.result is Ok {
            lemma_eat_reads(input, elements.state, TokenView::RBracket);
        }
    }
}

/// The elements of an array literal take nothing back.
pub proof fn lemma_array_literal_elements_read(input: Seq<char>, s: ParserState)
    requires
        inside(input, s),
    ensures
        reads_on(input, s, array_literal_elements(input, s)),
    decreases remaining(input, s), 8nat,
{
    if !(s.current is RBracket) {
        lemma_expr_reads(input, s);
        let first = expr_of(input, s);
        if first.moved_on(input, s) {
            lemma_elements_rest_read(input, first.state, seq![first.result->Ok_0]);
        }
    }
}

/// The elements after an array literal's first take nothing back.
pub proof fn lemma_elements_rest_read(input: Seq<char>, s: ParserState, elements: Seq<AstView>)
    requires
        inside(input, s),
    ensures
        reads_on(input, s, elements_rest_of(input, s, elements)),
    decreases remaining(input, s), 0nat,
{
    if s.current is Comma {
        lemma_eat_reads(input, s, TokenView::Comma);
        let eaten = eat_of(input, s, TokenView::Comma);
        if eaten.moved_on(input, s) && !(eaten.state.current is RBracket) {
            lemma_expr_reads(input, eaten.state);
            let next = expr_of(input, eaten.state);
            if next.moved_on(input, eaten.state) {
                lemma_elements_rest_read(input, next.state, elements.push(next.result->Ok_0));
            }
        }
    }
}

/// An index that is read takes something off the text.
pub proof fn lemma_array_index_reads(input: Seq<char>, s: ParserState, array: AstView)
    requires
        inside(input, s),
    ensures
        reads(input, s, array_index_of(input, s, array)),
    decreases remaining(input, s), 4nat,
{
    lemma_eat_reads(input, s, TokenView::LBracket);
    let opened = eat_of(input, s, TokenView::LBracket);
    if opened.moved_on(input, s) {
        lemma_expr_reads(input, opened.state);
        let index = expr_of(input, opened.state);
        if index.result is Ok {
            lemma_eat_reads(input, index.state, TokenView::RBracket);
        }
    }
}

/// The statements up to the end of the text take nothing back.
pub proof fn lemma_program_reads(input: Seq<char>, s: ParserState, statements: Seq<AstView>)
    requires
        inside(input, s),
    ensures
        reads_on(input, s, program_of(input, s, statements)),
    decreases remaining(input, s), 12nat,
{
    if !(s.current is EOF) {
        lemma_statement_reads(input, s);
        let next = statement_of(input, s);
        if next.moved_on(input, s) {
            lemma_program_reads(input, next.state, statements.push(next.result->Ok_0));
        }
    }
}

} // verus!
