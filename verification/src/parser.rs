//! The parser: from the tokens of a text to syntax trees, by recursive
//! descent.

use crate::ast::{lemma_node_views_push, node_views, ASTNode, AstView};
use crate::compiler::all_supported;
use crate::error::{ErrorView, VMError};
use crate::grammar::{
    array_index_of, array_literal_elements, array_literal_of, assigned_of, block_of,
    block_rest_of, comparison_of, comparison_rest_of, eat_of, elements_rest_of, expr_of,
    expr_rest_of, factor_of, if_statement_of, parse_error_at, program_of, remaining,
    signed_decimal, statement_of, term_of, term_rest_of, test_of, token_text,
    var_statement_of, while_loop_of, Parsed, ParserState,
};
use crate::text::decimal_text;
use crate::tokenizer::{lemma_next_token_advances, next_token_of, Token, TokenView, Tokenizer};
use vstd::prelude::*;
use vstd::string::*;

verus! {

/// Writes a number in decimal notation, with its sign.
fn signed_decimal_text(n: i32) -> (text: String)
    ensures
        text@ == signed_decimal(n as int),
{
    if n < 0 {
        let mut text = String::from_str("-");
        text.append(decimal_text((-(n as i64)) as u64).as_str());
        text
    } else {
        decimal_text(n as u64)
    }
}

/// Names a token for an error message.
fn describe(token: &Token) -> (text: String)
    ensures
        text@ == token_text(token@),
{
    match token {
        Token::Number(n) => {
            let mut text = String::from_str("Number(");
            text.append(signed_decimal_text(*n).as_str());
            text.append(")");
            text
        },
        Token::Plus => String::from_str("Plus"),
        Token::Minus => String::from_str("Minus"),
        Token::Star => String::from_str("Star"),
        Token::Slash => String::from_str("Slash"),
        Token::LParen => String::from_str("LParen"),
        Token::RParen => String::from_str("RParen"),
        Token::LBrace => String::from_str("LBrace"),
        Token::RBrace => String::from_str("RBrace"),
        Token::LBracket => String::from_str("LBracket"),
        Token::RBracket => String::from_str("RBracket"),
        Token::Comma => String::from_str("Comma"),
        Token::If => String::from_str("If"),
        Token::Else => String::from_str("Else"),
        Token::While => String::from_str("While"),
        Token::EOF => String::from_str("EOF"),
        Token::Greater => String::from_str("Greater"),
        Token::Less => String::from_str("Less"),
        Token::Equal => String::from_str("Equal"),
        Token::NotEqual => String::from_str("NotEqual"),
        Token::Ident(name) => {
            let mut text = String::from_str("Ident(\"");
            text.append(name.as_str());
            text.append("\")");
            text
        },
        Token::String(content) => {
            let mut text = String::from_str("String(\"");
            text.append(content.as_str());
            text.append("\")");
            text
        },
        Token::Assignment => String::from_str("Assignment"),
    }
}

/// Reads a text's tokens one ahead and builds syntax trees of them.
#[derive(Debug)]
pub struct Parser {
    /// The tokenizer, which stands after the token looked at.
    pub tokenizer: Tokenizer,
    /// The token looked at.
    pub current_token: Token,
    /// Where the reading of that token began.
    pub token_start: usize,
}

impl View for Parser {
    type V = ParserState;

    open spec fn view(&self) -> ParserState {
        ParserState {
            cursor: self.tokenizer.cursor(),
            current: self.current_token@,
            token_start: self.token_start as nat,
        }
    }
}

impl Parser {
    /// A parser is well formed when its tokenizer is, and the token looked
    /// at began before the tokenizer's place.
    pub open spec fn wf(&self) -> bool {
        &&& self.tokenizer.wf()
        &&& self.token_start <= self.tokenizer.position
    }

    /// The text that the parser reads.
    pub open spec fn input(&self) -> Seq<char> {
        self.tokenizer.input@
    }

    /// A parser that looks at the first token of the tokenizer's text. That
    /// token must be there: a text whose first token cannot be read has no
    /// parser.
    pub fn new(tokenizer: Tokenizer) -> (parser: Self)
        requires
            tokenizer.wf(),
            next_token_of(tokenizer.input@, tokenizer.cursor()).result is Ok,
        ensures
            parser.wf(),
            parser.input() == tokenizer.input@,
            parser@ == (ParserState {
                cursor: next_token_of(tokenizer.input@, tokenizer.cursor()).cursor,
                current: next_token_of(tokenizer.input@, tokenizer.cursor()).result->Ok_0,
                token_start: tokenizer.position as nat,
            }),
    {
        let mut tokenizer = tokenizer;
        let token_start = tokenizer.position;
        proof {
            lemma_next_token_advances(tokenizer.input@, tokenizer.cursor());
        }
        match tokenizer.next_token() {
            Ok(current_token) => Parser { tokenizer, current_token, token_start },
            Err(_) => Parser { tokenizer, current_token: Token::EOF, token_start },
        }
    }

    /// The parse error with `message` at the token looked at.
    fn create_error(&self, message: String) -> (e: VMError)
        requires
            self.wf(),
        ensures
            e@ == parse_error_at(self.input(), self@, message@),
    {
        VMError::parse_error(
            self.tokenizer.input.clone(),
            message,
            self.token_start,
            self.tokenizer.position - self.token_start,
        )
    }

    /// The parse error with `message` at the token looked at.
    fn error(&self, message: &str) -> (e: VMError)
        requires
            self.wf(),
        ensures
            e@ == parse_error_at(self.input(), self@, message@),
    {
        self.create_error(String::from_str(message))
    }

    /// Moves past the token looked at, which must be `token`.
    fn eat(&mut self, token: Token) -> (r: Result<(), VMError>)
        requires
            old(self).wf(),
        ensures
            final(self).wf(),
            final(self).input() == old(self).input(),
            unit_outcome(r) == eat_of(old(self).input(), old(self)@, token@).result,
            final(self)@ == eat_of(old(self).input(), old(self)@, token@).state,
            r is Ok && !(token@ is EOF) ==> remaining(final(self).input(), final(self)@)
                < remaining(old(self).input(), old(self)@),
    {
        reveal(eat_of);
        if self.current_token == token {
            proof {
                lemma_next_token_advances(self.tokenizer.input@, self.tokenizer.cursor());
            }
            self.token_start = self.tokenizer.position;
            self.current_token = self.tokenizer.next_token()?;
            Ok(())
        } else {
            let mut message = String::from_str("Expected: ");
            message.append(describe(&token).as_str());
            message.append(", Got: ");
            message.append(describe(&self.current_token).as_str());
            Err(self.create_error(message))
        }
    }
}

/// The view of a step that gives nothing but its success.
pub open spec fn unit_outcome(r: Result<(), VMError>) -> Result<(), ErrorView> {
    match r {
        Ok(_) => Ok(()),
        Err(e) => Err(e@),
    }
}

/// The view of a step that gives a syntax tree.
pub open spec fn node_outcome(r: Result<ASTNode, VMError>) -> Result<AstView, ErrorView> {
    match r {
        Ok(node) => Ok(node@),
        Err(e) => Err(e@),
    }
}

/// The view of a step that gives a sequence of syntax trees.
pub open spec fn nodes_outcome(r: Result<Vec<ASTNode>, VMError>) -> Result<
    Seq<AstView>,
    ErrorView,
> {
    match r {
        Ok(nodes) => Ok(node_views(nodes@)),
        Err(e) => Err(e@),
    }
}

impl Parser {
    /// Reads a factor.
    fn factor(&mut self) -> (r: Result<ASTNode, VMError>)
        requires
            old(self).wf(),
        ensures
            final(self).wf(),
            final(self).input() == old(self).input(),
            node_outcome(r) == factor_of(old(self).input(), old(self)@).result,
            r is Ok ==> r->Ok_0@.supported(),
            final(self)@ == factor_of(old(self).input(), old(self)@).state,
            r is Ok ==> remaining(final(self).input(), final(self)@) < remaining(
                old(self).input(),
                old(self)@,
            ),
        decreases remaining(old(self).input(), old(self)@), 5nat,
    {
        let token = self.current_token.clone();
        match token {
            Token::Number(n) => {
                self.eat(Token::Number(n))?;
                Ok(ASTNode::Number(n))
            },
            Token::String(text) => {
                self.eat(Token::String(text.clone()))?;
                Ok(ASTNode::String(text))
            },
            Token::LParen => {
                self.eat(Token::LParen)?;
                let node = self.comparison()?;
                self.eat(Token::RParen)?;
                Ok(node)
            },
            Token::Ident(name) => {
                self.eat(Token::Ident(name.clone()))?;
                if self.current_token == Token::LBracket {
                    self.array_index(ASTNode::VarRef(name))
                } else {
                    Ok(ASTNode::VarRef(name))
                }
            },
            Token::LBracket => self.array_literal(),
            _ => Err(self.error("Expected number, string, identifier, or '('")),
        }
    }

    /// Reads a term.
    fn term(&mut self) -> (r: Result<ASTNode, VMError>)
        requires
            old(self).wf(),
        ensures
            final(self).wf(),
            final(self).input() == old(self).input(),
            node_outcome(r) == term_of(old(self).input(), old(self)@).result,
            r is Ok ==> r->Ok_0@.supported(),
            final(self)@ == term_of(old(self).input(), old(self)@).state,
            r is Ok ==> remaining(final(self).input(), final(self)@) < remaining(
                old(self).input(),
                old(self)@,
            ),
        decreases remaining(old(self).input(), old(self)@), 6nat,
    {
        let ghost input = self.input();
        let ghost goal = term_of(input, self@);
        let mut node = self.factor()?;
        while matches!(self.current_token, Token::Star | Token::Slash)
            invariant
                self.wf(),
                self.input() == input,
                input == old(self).input(),
                node@.supported(),
                goal == term_of(input, old(self)@),
                goal == term_rest_of(input, self@, node@),
                remaining(input, self@) < remaining(input, old(self)@),
            decreases remaining(input, self@),
        {
            let op = self.current_token.clone();
            self.eat(op.clone())?;
            let right = self.factor()?;
            node = ASTNode::BinOp { left: Box::new(node), op, right: Box::new(right) };
        }
        Ok(node)
    }

    /// Reads an expression.
    fn expr(&mut self) -> (r: Result<ASTNode, VMError>)
        requires
            old(self).wf(),
        ensures
            final(self).wf(),
            final(self).input() == old(self).input(),
            node_outcome(r) == expr_of(old(self).input(), old(self)@).result,
            r is Ok ==> r->Ok_0@.supported(),
            final(self)@ == expr_of(old(self).input(), old(self)@).state,
            r is Ok ==> remaining(final(self).input(), final(self)@) < remaining(
                old(self).input(),
                old(self)@,
            ),
        decreases remaining(old(self).input(), old(self)@), 7nat,
    {
        let ghost input = self.input();
        let ghost goal = expr_of(input, self@);
        let mut node = self.term()?;
        while matches!(self.current_token, Token::Plus | Token::Minus)
            invariant
                self.wf(),
                self.input() == input,
                input == old(self).input(),
                node@.supported(),
                goal == expr_of(input, old(self)@),
                goal == expr_rest_of(input, self@, node@),
                remaining(input, self@) < remaining(input, old(self)@),
            decreases remaining(input, self@),
        {
            let op = self.current_token.clone();
            self.eat(op.clone())?;
            let right = self.term()?;
            node = ASTNode::BinOp { left: Box::new(node), op, right: Box::new(right) };
        }
        Ok(node)
    }

    /// Reads a comparison.
    fn comparison(&mut self) -> (r: Result<ASTNode, VMError>)
        requires
            old(self).wf(),
        ensures
            final(self).wf(),
            final(self).input() == old(self).input(),
            node_outcome(r) == comparison_of(old(self).input(), old(self)@).result,
            r is Ok ==> r->Ok_0@.supported(),
            final(self)@ == comparison_of(old(self).input(), old(self)@).state,
            r is Ok ==> remaining(final(self).input(), final(self)@) < remaining(
                old(self).input(),
                old(self)@,
            ),
        decreases remaining(old(self).input(), old(self)@), 8nat,
    {
        let ghost input = self.input();
        let ghost goal = comparison_of(input, self@);
        let mut node = self.expr()?;
        while matches!(
            self.current_token,
            Token::Greater | Token::Less | Token::Equal | Token::NotEqual
        )
            invariant
                self.wf(),
                self.input() == input,
                input == old(self).input(),
                node@.supported(),
                goal == comparison_of(input, old(self)@),
                goal == comparison_rest_of(input, self@, node@),
                remaining(input, self@) < remaining(input, old(self)@),
            decreases remaining(input, self@),
        {
            let op = self.current_token.clone();
            self.eat(op.clone())?;
            let right = self.expr()?;
            node = ASTNode::BinOp { left: Box::new(node), op, right: Box::new(right) };
        }
        Ok(node)
    }

    /// Reads an array literal.
    fn array_literal(&mut self) -> (r: Result<ASTNode, VMError>)
        requires
            old(self).wf(),
        ensures
            final(self).wf(),
            final(self).input() == old(self).input(),
            node_outcome(r) == array_literal_of(old(self).input(), old(self)@).result,
            r is Ok ==> r->Ok_0@.supported(),
            final(self)@ == array_literal_of(old(self).input(), old(self)@).state,
            r is Ok ==> remaining(final(self).input(), final(self)@) < remaining(
                old(self).input(),
                old(self)@,
            ),
        decreases remaining(old(self).input(), old(self)@), 4nat,
    {
        let ghost input = self.input();
        self.eat(Token::LBracket)?;
        let ghost opened = self@;
        let mut elements: Vec<ASTNode> = Vec::new();
        assert(node_views(elements@) =~= Seq::<AstView>::empty());
        assert(all_supported(node_views(elements@)));
        if self.current_token != Token::RBracket {
            let first = self.expr()?;
            proof {
                lemma_node_views_push(elements@, first);
                assert(node_views(elements@).push(first@) =~= seq![first@]);
            }
            elements.push(first);
            let ghost goal = elements_rest_of(input, self@, node_views(elements@));
            let mut listing = true;
            while listing
                invariant
                    self.wf(),
                    self.input() == input,
                    input == old(self).input(),
                    all_supported(node_views(elements@)),
                    listing ==> goal == elements_rest_of(input, self@, node_views(elements@)),
                    !listing ==> goal == (Parsed {
                        result: Ok::<Seq<AstView>, ErrorView>(node_views(elements@)),
                        state: self@,
                    }),
                    remaining(input, self@) < remaining(input, opened),
                    remaining(input, opened) < remaining(input, old(self)@),
                    opened == eat_of(input, old(self)@, TokenView::LBracket).state,
                    eat_of(input, old(self)@, TokenView::LBracket).result is Ok,
                    goal == array_literal_elements(input, opened),
                decreases remaining(input, self@) + (if listing { 1nat } else { 0nat }),
            {
                if self.current_token == Token::Comma {
                    self.eat(Token::Comma)?;
                    if self.current_token == Token::RBracket {
                        listing = false;
                    } else {
                        let next = self.expr()?;
                        proof {
                            lemma_node_views_push(elements@, next);
                        }
                        elements.push(next);
                    }
                } else {
                    listing = false;
                }
            }
        }
        match self.eat(Token::RBracket) {
            Ok(_) => Ok(ASTNode::Array(elements)),
            Err(_) => Err(self.error("Expected closing bracket ']'")),
        }
    }

    /// Reads the index that follows `array`.
    fn array_index(&mut self, array: ASTNode) -> (r: Result<ASTNode, VMError>)
        requires
            old(self).wf(),
            array@.supported(),
        ensures
            final(self).wf(),
            final(self).input() == old(self).input(),
            node_outcome(r) == array_index_of(old(self).input(), old(self)@, array@).result,
            r is Ok ==> r->Ok_0@.supported(),
            final(self)@ == array_index_of(
                old(self).input(),
                old(self)@,
                array@,
            ).state,
            r is Ok ==> remaining(final(self).input(), final(self)@) < remaining(
                old(self).input(),
                old(self)@,
            ),
        decreases remaining(old(self).input(), old(self)@), 4nat,
    {
        self.eat(Token::LBracket)?;
        let index = self.expr()?;
        match self.eat(Token::RBracket) {
            Ok(_) => Ok(ASTNode::ArrayIndex { array: Box::new(array), index: Box::new(index) }),
            Err(_) => Err(self.error("Expected closing bracket ']'")),
        }
    }
}


impl Parser {
    /// Reads the test of a conditional or a loop, after its keyword.
    fn test(&mut self, keyword: Token) -> (r: Result<ASTNode, VMError>)
        requires
            old(self).wf(),
            !(keyword@ is EOF),
        ensures
            final(self).wf(),
            final(self).input() == old(self).input(),
            node_outcome(r) == test_of(old(self).input(), old(self)@, keyword@).result,
            r is Ok ==> r->Ok_0@.supported(),
            final(self)@ == test_of(old(self).input(), old(self)@, keyword@).state,
            r is Ok ==> remaining(final(self).input(), final(self)@) < remaining(
                old(self).input(),
                old(self)@,
            ),
        decreases remaining(old(self).input(), old(self)@), 1nat,
    {
        self.eat(keyword)?;
        self.eat(Token::LParen)?;
        let condition = self.comparison()?;
        self.eat(Token::RParen)?;
        Ok(condition)
    }

    /// Reads a conditional.
    fn if_statement(&mut self) -> (r: Result<ASTNode, VMError>)
        requires
            old(self).wf(),
        ensures
            final(self).wf(),
            final(self).input() == old(self).input(),
            node_outcome(r) == if_statement_of(old(self).input(), old(self)@).result,
            r is Ok ==> r->Ok_0@.supported(),
            final(self)@ == if_statement_of(old(self).input(), old(self)@).state,
            r is Ok ==> remaining(final(self).input(), final(self)@) < remaining(
                old(self).input(),
                old(self)@,
            ),
        decreases remaining(old(self).input(), old(self)@), 9nat,
    {
        let condition = self.test(Token::If)?;
        let if_block = self.block()?;
        let else_block = if self.current_token == Token::Else {
            self.eat(Token::Else)?;
            self.block()?
        } else {
            let none: Vec<ASTNode> = Vec::new();
            assert(node_views(none@) =~= Seq::<AstView>::empty());
            assert(all_supported(node_views(none@)));
            none
        };
        Ok(ASTNode::If { condition: Box::new(condition), if_block, else_block })
    }

    /// Reads a loop.
    fn while_loop(&mut self) -> (r: Result<ASTNode, VMError>)
        requires
            old(self).wf(),
        ensures
            final(self).wf(),
            final(self).input() == old(self).input(),
            node_outcome(r) == while_loop_of(old(self).input(), old(self)@).result,
            r is Ok ==> r->Ok_0@.supported(),
            final(self)@ == while_loop_of(old(self).input(), old(self)@).state,
            r is Ok ==> remaining(final(self).input(), final(self)@) < remaining(
                old(self).input(),
                old(self)@,
            ),
        decreases remaining(old(self).input(), old(self)@), 9nat,
    {
        let condition = self.test(Token::While)?;
        let body = if self.current_token == Token::LBrace {
            self.block()?
        } else {
            let statement = self.statement()?;
            let mut one: Vec<ASTNode> = Vec::new();
            proof {
                lemma_node_views_push(one@, statement);
                assert(node_views(one@) =~= Seq::<AstView>::empty());
                assert(node_views(one@).push(statement@) =~= seq![statement@]);
            }
            one.push(statement);
            assert(all_supported(node_views(one@)));
            one
        };
        Ok(ASTNode::While { condition: Box::new(condition), body })
    }

    /// Reads a block.
    fn block(&mut self) -> (r: Result<Vec<ASTNode>, VMError>)
        requires
            old(self).wf(),
        ensures
            final(self).wf(),
            final(self).input() == old(self).input(),
            nodes_outcome(r) == block_of(old(self).input(), old(self)@).result,
            r is Ok ==> all_supported(node_views(r->Ok_0@)),
            final(self)@ == block_of(old(self).input(), old(self)@).state,
            r is Ok ==> remaining(final(self).input(), final(self)@) < remaining(
                old(self).input(),
                old(self)@,
            ),
        decreases remaining(old(self).input(), old(self)@), 9nat,
    {
        let ghost input = self.input();
        self.eat(Token::LBrace)?;
        let ghost opened = self@;
        let mut nodes: Vec<ASTNode> = Vec::new();
        assert(node_views(nodes@) =~= Seq::<AstView>::empty());
        while self.current_token != Token::RBrace
            invariant
                self.wf(),
                self.input() == input,
                input == old(self).input(),
                opened == eat_of(input, old(self)@, TokenView::LBrace).state,
                eat_of(input, old(self)@, TokenView::LBrace).result is Ok,
                remaining(input, opened) < remaining(input, old(self)@),
                remaining(input, self@) <= remaining(input, opened),
                all_supported(node_views(nodes@)),
                block_rest_of(input, opened, Seq::empty()) == block_rest_of(
                    input,
                    self@,
                    node_views(nodes@),
                ),
            decreases remaining(input, self@),
        {
            let statement = self.statement()?;
            proof {
                lemma_node_views_push(nodes@, statement);
            }
            nodes.push(statement);
        }
        self.eat(Token::RBrace)?;
        Ok(nodes)
    }

    /// Reads a statement.
    fn statement(&mut self) -> (r: Result<ASTNode, VMError>)
        requires
            old(self).wf(),
        ensures
            final(self).wf(),
            final(self).input() == old(self).input(),
            node_outcome(r) == statement_of(old(self).input(), old(self)@).result,
            r is Ok ==> r->Ok_0@.supported(),
            final(self)@ == statement_of(old(self).input(), old(self)@).state,
            r is Ok ==> remaining(final(self).input(), final(self)@) < remaining(
                old(self).input(),
                old(self)@,
            ),
        decreases remaining(old(self).input(), old(self)@), 10nat,
    {
        match &self.current_token {
            Token::If => self.if_statement(),
            Token::While => self.while_loop(),
            Token::LBrace => Ok(ASTNode::Block(self.block()?)),
            Token::Ident(_) => self.var_statement(),
            _ => self.expr(),
        }
    }

    /// Reads what follows the sign of an assignment to `target`.
    fn assigned(&mut self, target: ASTNode) -> (r: Result<ASTNode, VMError>)
        requires
            old(self).wf(),
            target@.supported(),
        ensures
            final(self).wf(),
            final(self).input() == old(self).input(),
            node_outcome(r) == assigned_of(old(self).input(), old(self)@, target@).result,
            r is Ok ==> r->Ok_0@.supported(),
            final(self)@ == assigned_of(
                old(self).input(),
                old(self)@,
                target@,
            ).state,
            r is Ok ==> remaining(final(self).input(), final(self)@) < remaining(
                old(self).input(),
                old(self)@,
            ),
        decreases remaining(old(self).input(), old(self)@), 8nat,
    {
        self.eat(Token::Assignment)?;
        let value = self.expr()?;
        match target {
            ASTNode::VarRef(name) => Ok(ASTNode::VarDecl(name, Box::new(value))),
            ASTNode::ArrayIndex { array, index } => Ok(
                ASTNode::ArrayAssign { array, index, value: Box::new(value) },
            ),
            _ => Err(self.error("Expected array index")),
        }
    }

    /// Reads a statement that begins with a variable.
    fn var_statement(&mut self) -> (r: Result<ASTNode, VMError>)
        requires
            old(self).wf(),
        ensures
            final(self).wf(),
            final(self).input() == old(self).input(),
            node_outcome(r) == var_statement_of(old(self).input(), old(self)@).result,
            r is Ok ==> r->Ok_0@.supported(),
            final(self)@ == var_statement_of(old(self).input(), old(self)@).state,
            r is Ok ==> remaining(final(self).input(), final(self)@) < remaining(
                old(self).input(),
                old(self)@,
            ),
        decreases remaining(old(self).input(), old(self)@), 9nat,
    {
        let token = self.current_token.clone();
        let var_name = match token {
            Token::Ident(name) => name,
            _ => {
                return Err(self.error("Expected variable name"));
            },
        };
        self.eat(Token::Ident(var_name.clone()))?;
        if self.current_token == Token::Assignment {
            self.assigned(ASTNode::VarRef(var_name))
        } else if self.current_token == Token::LBracket {
            let item = self.array_index(ASTNode::VarRef(var_name))?;
            if self.current_token == Token::Assignment {
                self.assigned(item)
            } else {
                Ok(item)
            }
        } else {
            Ok(ASTNode::VarRef(var_name))
        }
    }

    /// Reads statements up to the end of the text: the program, from the
    /// token that the parser looks at.
    pub fn parse_program(&mut self) -> (r: Result<Vec<ASTNode>, VMError>)
        requires
            old(self).wf(),
        ensures
            final(self).wf(),
            final(self).input() == old(self).input(),
            nodes_outcome(r) == program_of(old(self).input(), old(self)@, Seq::empty()).result,
            r is Ok ==> all_supported(node_views(r->Ok_0@)),
            final(self)@ == program_of(old(self).input(), old(self)@, Seq::empty()).state,
    {
        let ghost input = self.input();
        let mut statements: Vec<ASTNode> = Vec::new();
        assert(node_views(statements@) =~= Seq::<AstView>::empty());
        while self.current_token != Token::EOF
            invariant
                self.wf(),
                self.input() == input,
                input == old(self).input(),
                all_supported(node_views(statements@)),
                program_of(input, old(self)@, Seq::empty()) == program_of(
                    input,
                    self@,
                    node_views(statements@),
                ),
            decreases remaining(input, self@),
        {
            let statement = self.statement()?;
            proof {
                lemma_node_views_push(statements@, statement);
            }
            statements.push(statement);
        }
        Ok(statements)
    }
}


} // verus!
