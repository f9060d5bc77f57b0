//! The tokens of the language and the tokenizer that reads them off a text.

use crate::error::{ErrorView, VMError};
use vstd::prelude::*;
use vstd::std_specs::cmp::PartialEqSpecImpl;
use vstd::string::*;

verus! {

/// One token of the language.
#[derive(Debug)]
pub enum Token {
    Number(i32),
    Plus,
    Minus,
    Star,
    Slash,
    LParen,
    RParen,
    LBrace,
    RBrace,
    LBracket,
    RBracket,
    Comma,
    If,
    Else,
    While,
    EOF,
    Greater,
    Less,
    Equal,
    NotEqual,
    Ident(String),
    String(String),
    Assignment,
}

/// The mathematical content of a [`Token`]: names and texts are character
/// sequences.
pub enum TokenView {
    Number(i32),
    Plus,
    Minus,
    Star,
    Slash,
    LParen,
    RParen,
    LBrace,
    RBrace,
    LBracket,
    RBracket,
    Comma,
    If,
    Else,
    While,
    EOF,
    Greater,
    Less,
    Equal,
    NotEqual,
    Ident(Seq<char>),
    String(Seq<char>),
    Assignment,
}

impl View for Token {
    type V = TokenView;

    open spec fn view(&self) -> TokenView {
        match *self {
            Token::Number(n) => TokenView::Number(n),
            Token::Plus => TokenView::Plus,
            Token::Minus => TokenView::Minus,
            Token::Star => TokenView::Star,
            Token::Slash => TokenView::Slash,
            Token::LParen => TokenView::LParen,
            Token::RParen => TokenView::RParen,
            Token::LBrace => TokenView::LBrace,
            Token::RBrace => TokenView::RBrace,
            Token::LBracket => TokenView::LBracket,
            Token::RBracket => TokenView::RBracket,
            Token::Comma => TokenView::Comma,
            Token::If => TokenView::If,
            Token::Else => TokenView::Else,
            Token::While => TokenView::While,
            Token::EOF => TokenView::EOF,
            Token::Greater => TokenView::Greater,
            Token::Less => TokenView::Less,
            Token::Equal => TokenView::Equal,
            Token::NotEqual => TokenView::NotEqual,
            Token::Ident(name) => TokenView::Ident(name@),
            Token::String(text) => TokenView::String(text@),
            Token::Assignment => TokenView::Assignment,
        }
    }
}

impl Clone for Token {
    /// A copy with the same content.
    fn clone(&self) -> (copy: Self)
        ensures
            copy@ == self@,
    {
        match self {
            Token::Number(n) => Token::Number(*n),
            Token::Plus => Token::Plus,
            Token::Minus => Token::Minus,
            Token::Star => Token::Star,
            Token::Slash => Token::Slash,
            Token::LParen => Token::LParen,
            Token::RParen => Token::RParen,
            Token::LBrace => Token::LBrace,
            Token::RBrace => Token::RBrace,
            Token::LBracket => Token::LBracket,
            Token::RBracket => Token::RBracket,
            Token::Comma => Token::Comma,
            Token::If => Token::If,
            Token::Else => Token::Else,
            Token::While => Token::While,
            Token::EOF => Token::EOF,
            Token::Greater => Token::Greater,
            Token::Less => Token::Less,
            Token::Equal => Token::Equal,
            Token::NotEqual => Token::NotEqual,
            Token::Ident(name) => Token::Ident(name.clone()),
            Token::String(text) => Token::String(text.clone()),
            Token::Assignment => Token::Assignment,
        }
    }
}

impl PartialEq for Token {
    /// Whether two tokens have the same content.
    fn eq(&self, other: &Token) -> (same: bool) {
        match (self, other) {
            (Token::Number(a), Token::Number(b)) => *a == *b,
            (Token::Plus, Token::Plus) => true,
            (Token::Minus, Token::Minus) => true,
            (Token::Star, Token::Star) => true,
            (Token::Slash, Token::Slash) => true,
            (Token::LParen, Token::LParen) => true,
            (Token::RParen, Token::RParen) => true,
            (Token::LBrace, Token::LBrace) => true,
            (Token::RBrace, Token::RBrace) => true,
            (Token::LBracket, Token::LBracket) => true,
            (Token::RBracket, Token::RBracket) => true,
            (Token::Comma, Token::Comma) => true,
            (Token::If, Token::If) => true,
            (Token::Else, Token::Else) => true,
            (Token::While, Token::While) => true,
            (Token::EOF, Token::EOF) => true,
            (Token::Greater, Token::Greater) => true,
            (Token::Less, Token::Less) => true,
            (Token::Equal, Token::Equal) => true,
            (Token::NotEqual, Token::NotEqual) => true,
            (Token::Ident(a), Token::Ident(b)) => *a == *b,
            (Token::String(a), Token::String(b)) => *a == *b,
            (Token::Assignment, Token::Assignment) => true,
            _ => false,
        }
    }
}

impl PartialEqSpecImpl for Token {
    open spec fn obeys_eq_spec() -> bool {
        true
    }

    open spec fn eq_spec(&self, other: &Token) -> bool {
        self@ == other@
    }
}

/// Where a tokenizer stands in its text.
pub struct Cursor {
    /// The index of the next character.
    pub position: nat,
    /// The line of the next character, from 1.
    pub line: nat,
    /// The place of the next character in its line, from 1.
    pub line_position: nat,
}

/// A token read, or the error met, and where the tokenizer stands after it.
pub struct Lexed {
    pub result: Result<TokenView, ErrorView>,
    pub cursor: Cursor,
}

/// The tokenization error for `len` characters of `input` from `start` on.
pub open spec fn lex_error(
    input: Seq<char>,
    message: Seq<char>,
    start: nat,
    len: nat,
) -> ErrorView {
    ErrorView::TokenizationError { src: input, message, start: start as usize, len: len as usize }
}

/// Whether `c` is a decimal digit.
pub open spec fn is_digit(c: char) -> bool {
    '0' <= c <= '9'
}

/// Whether `c` is a letter of the English alphabet.
pub open spec fn is_letter(c: char) -> bool {
    'a' <= c <= 'z' || 'A' <= c <= 'Z'
}

/// Whether `c` can stand inside a name.
pub open spec fn is_name_part(c: char) -> bool {
    is_letter(c) || is_digit(c) || c == '_'
}

/// The cursor after the blanks and line ends that stand at it.
pub open spec fn skip_blanks(input: Seq<char>, cursor: Cursor) -> Cursor
    decreases input.len() - cursor.position,
{
    if cursor.position >= input.len() {
        cursor
    } else if input[cursor.position as int] == ' ' || input[cursor.position as int] == '\t' {
        skip_blanks(
            input,
            Cursor {
                position: cursor.position + 1,
                line_position: cursor.line_position + 1,
                ..cursor
            },
        )
    } else if input[cursor.position as int] == '\n' {
        skip_blanks(
            input,
            Cursor { position: cursor.position + 1, line: cursor.line + 1, line_position: 1 },
        )
    } else {
        cursor
    }
}

/// The first index from `from` on at which no digit stands.
pub open spec fn digits_end(input: Seq<char>, from: nat) -> nat
    decreases input.len() - from,
{
    if from < input.len() && is_digit(input[from as int]) {
        digits_end(input, from + 1)
    } else {
        from
    }
}

/// The first index from `from` on at which no part of a name stands.
pub open spec fn name_end(input: Seq<char>, from: nat) -> nat
    decreases input.len() - from,
{
    if from < input.len() && is_name_part(input[from as int]) {
        name_end(input, from + 1)
    } else {
        from
    }
}

/// The number that the digits from `start` up to `end` write.
pub open spec fn digits_value(input: Seq<char>, start: nat, end: nat) -> nat
    decreases end,
{
    if end <= start {
        0
    } else {
        digits_value(input, start, (end - 1) as nat) * 10 + (input[end - 1] as nat
            - '0' as nat) as nat
    }
}

/// The character that stands for `c` after a backslash; none where the
/// two make no escape sequence.
pub open spec fn escaped(c: char) -> Option<char> {
    if c == 'n' {
        Some('\n')
    } else if c == 't' {
        Some('\t')
    } else if c == 'r' {
        Some('\r')
    } else if c == '\\' {
        Some('\\')
    } else if c == '"' {
        Some('"')
    } else if c == '\'' {
        Some('\'')
    } else if c == 'b' {
        Some('\x08')
    } else if c == 'f' {
        Some('\x0c')
    } else if c == 'v' {
        Some('\x0b')
    } else if c == '0' {
        Some('\0')
    } else {
        None
    }
}

/// The rest of a text literal that began at `start` with `quote`: the
/// cursor stands inside it, `text` holds what was read, and `after_backslash`
/// says whether the last character read was a backslash that escapes.
pub open spec fn lex_text(
    input: Seq<char>,
    start: nat,
    quote: char,
    cursor: Cursor,
    text: Seq<char>,
    after_backslash: bool,
) -> Lexed
    decreases input.len() - cursor.position,
{
    if cursor.position >= input.len() {
        Lexed {
            result: Err(
                lex_error(
                    input,
                    "Unterminated string literal"@,
                    start,
                    (cursor.position - start) as nat,
                ),
            ),
            cursor,
        }
    } else {
        let c = input[cursor.position as int];
        let on = Cursor {
            position: cursor.position + 1,
            line_position: cursor.line_position + 1,
            ..cursor
        };
        if after_backslash {
            match escaped(c) {
                Some(e) => lex_text(input, start, quote, on, text.push(e), false),
                None => Lexed {
                    result: Err(
                        lex_error(
                            input,
                            "Invalid escape sequence: \\"@.push(c),
                            (on.position - 2) as nat,
                            2,
                        ),
                    ),
                    cursor: on,
                },
            }
        } else if c == '\\' {
            lex_text(input, start, quote, on, text, true)
        } else if c == quote {
            Lexed { result: Ok(TokenView::String(text)), cursor: on }
        } else if c == '\n' {
            lex_text(
                input,
                start,
                quote,
                Cursor { line: on.line + 1, line_position: 1, ..on },
                text.push(c),
                false,
            )
        } else {
            lex_text(input, start, quote, on, text.push(c), false)
        }
    }
}

/// The token that a name is: a keyword, or an identifier.
pub open spec fn name_token(name: Seq<char>) -> TokenView {
    if name == "if"@ {
        TokenView::If
    } else if name == "else"@ {
        TokenView::Else
    } else if name == "while"@ {
        TokenView::While
    } else {
        TokenView::Ident(name)
    }
}

/// The token of the sign `c`, and how many characters it takes, where the
/// character after it is `next`; none for a `!` that no `=` follows, and
/// for a character that is no sign.
pub open spec fn sign_token(c: char, next: Option<char>) -> Option<(TokenView, nat)> {
    if c == '+' {
        Some((TokenView::Plus, 1))
    } else if c == '-' {
        Some((TokenView::Minus, 1))
    } else if c == '*' {
        Some((TokenView::Star, 1))
    } else if c == '/' {
        Some((TokenView::Slash, 1))
    } else if c == '(' {
        Some((TokenView::LParen, 1))
    } else if c == ')' {
        Some((TokenView::RParen, 1))
    } else if c == '{' {
        Some((TokenView::LBrace, 1))
    } else if c == '}' {
        Some((TokenView::RBrace, 1))
    } else if c == '[' {
        Some((TokenView::LBracket, 1))
    } else if c == ']' {
        Some((TokenView::RBracket, 1))
    } else if c == ',' {
        Some((TokenView::Comma, 1))
    } else if c == '>' {
        Some((TokenView::Greater, 1))
    } else if c == '<' {
        Some((TokenView::Less, 1))
    } else if c == '=' {
        if next == Some('=') {
            Some((TokenView::Equal, 2))
        } else {
            Some((TokenView::Assignment, 1))
        }
    } else if c == '!' && next == Some('=') {
        Some((TokenView::NotEqual, 2))
    } else {
        None
    }
}

/// The character at `at`, if the text reaches that far.
pub open spec fn char_at(input: Seq<char>, at: nat) -> Option<char> {
    if at < input.len() {
        Some(input[at as int])
    } else {
        None
    }
}

/// The next token of `input` from `cursor` on, or the error met, and the
/// cursor after it: blanks and line ends are passed over; the end of the text
/// gives `EOF`; digits give a number, which must fit the number type; a
/// quote begins a text literal; a letter begins a name.
#[verifier::opaque]
pub open spec fn next_token_of(input: Seq<char>, cursor: Cursor) -> Lexed {
    let at = skip_blanks(input, cursor);
    if at.position >= input.len() {
        Lexed { result: Ok(TokenView::EOF), cursor: at }
    } else {
        let c = input[at.position as int];
        if is_digit(c) {
            let end = digits_end(input, at.position);
            let value = digits_value(input, at.position, end);
            let len = (end - at.position) as nat;
            if value <= i32::MAX {
                Lexed {
                    result: Ok(TokenView::Number(value as i32)),
                    cursor: Cursor {
                        position: end,
                        line_position: at.line_position + len,
                        ..at
                    },
                }
            } else {
                Lexed {
                    result: Err(
                        lex_error(input, "Number literal out of range"@, at.position, len),
                    ),
                    cursor: at,
                }
            }
        } else if c == '"' || c == '\'' {
            lex_text(
                input,
                at.position,
                c,
                Cursor { position: at.position + 1, ..at },
                Seq::empty(),
                false,
            )
        } else if is_letter(c) {
            let end = name_end(input, at.position);
            let len = (end - at.position) as nat;
            Lexed {
                result: Ok(name_token(input.subrange(at.position as int, end as int))),
                cursor: Cursor { position: end, line_position: at.line_position + len, ..at },
            }
        } else {
            match sign_token(c, char_at(input, at.position + 1)) {
                Some((token, len)) => Lexed {
                    result: Ok(token),
                    cursor: Cursor {
                        position: at.position + len,
                        line_position: at.line_position + len,
                        ..at
                    },
                },
                None => Lexed {
                    result: Err(
                        lex_error(
                            input,
                            if c == '!' {
                                "Unexpected token: !"@
                            } else {
                                "Unexpected character: "@.push(c)
                            },
                            at.position,
                            1,
                        ),
                    ),
                    cursor: at,
                },
            }
        }
    }
}

/// Reads tokens off a text, one at a time.
#[derive(Debug)]
pub struct Tokenizer {
    /// The text.
    pub input: String,
    /// The index of the next character.
    pub position: usize,
    /// The line of the next character, from 1.
    pub line: usize,
    /// The place of the next character in its line, from 1.
    pub line_position: usize,
}

impl Clone for Tokenizer {
    /// A tokenizer on the same text at the same place.
    fn clone(&self) -> (copy: Self)
        ensures
            copy.input@ == self.input@,
            copy.cursor() == self.cursor(),
    {
        Tokenizer {
            input: self.input.clone(),
            position: self.position,
            line: self.line,
            line_position: self.line_position,
        }
    }
}

/// The one-character text of what stands for `c` after a backslash.
fn escape_text(c: char) -> (text: Option<&'static str>)
    ensures
        match escaped(c) {
            Some(e) => text is Some && text->0@ == seq![e],
            None => text is None,
        },
{
    proof {
        reveal_strlit("\n");
        reveal_strlit("\t");
        reveal_strlit("\r");
        reveal_strlit("\\");
        reveal_strlit("\"");
        reveal_strlit("'");
        reveal_strlit("\x08");
        reveal_strlit("\x0c");
        reveal_strlit("\x0b");
        reveal_strlit("\0");
    }
    let text = if c == 'n' {
        Some("\n")
    } else if c == 't' {
        Some("\t")
    } else if c == 'r' {
        Some("\r")
    } else if c == '\\' {
        Some("\\")
    } else if c == '"' {
        Some("\"")
    } else if c == '\'' {
        Some("'")
    } else if c == 'b' {
        Some("\x08")
    } else if c == 'f' {
        Some("\x0c")
    } else if c == 'v' {
        Some("\x0b")
    } else if c == '0' {
        Some("\0")
    } else {
        None
    };
    proof {
        match escaped(c) {
            Some(e) => {
                assert(text->0@ =~= seq![e]);
            },
            None => {},
        }
    }
    text
}

impl Tokenizer {
    /// Where the tokenizer stands.
    pub open spec fn cursor(&self) -> Cursor {
        Cursor {
            position: self.position as nat,
            line: self.line as nat,
            line_position: self.line_position as nat,
        }
    }

    /// A tokenizer is well formed when it stands inside its text, or at its
    /// end, and has counted no more lines and places than characters passed.
    pub open spec fn wf(&self) -> bool {
        &&& self.input@.len() < usize::MAX
        &&& self.position <= self.input@.len()
        &&& self.line <= self.position + 1
        &&& self.line_position <= self.position + 1
    }

    /// A tokenizer at the start of `input`.
    pub fn new(input: String) -> (tokenizer: Self)
        requires
            input@.len() < usize::MAX,
        ensures
            tokenizer.wf(),
            tokenizer.input@ == input@,
            tokenizer.cursor() == (Cursor { position: 0, line: 1, line_position: 1 }),
    {
        Tokenizer { input, position: 0, line: 1, line_position: 1 }
    }

    /// The tokenization error for `len` characters from `error_start` on.
    fn create_error(&self, message: String, error_start: usize, len: usize) -> (e: VMError)
        ensures
            e@ == lex_error(self.input@, message@, error_start as nat, len as nat),
    {
        VMError::tokenization_error(self.input.clone(), message, error_start, len)
    }

    /// Passes over the blanks and line ends at the cursor.
    fn pass_blanks(&mut self, len: usize)
        requires
            old(self).wf(),
            len == old(self).input@.len(),
        ensures
            final(self).wf(),
            final(self).input == old(self).input,
            final(self).cursor() == skip_blanks(old(self).input@, old(self).cursor()),
    {
        let mut scanning = true;
        while scanning
            invariant
                self.wf(),
                self.input == old(self).input,
                len == self.input@.len(),
                skip_blanks(self.input@, old(self).cursor()) == skip_blanks(
                    self.input@,
                    self.cursor(),
                ),
                !scanning ==> self.cursor() == skip_blanks(self.input@, self.cursor()),
            decreases len - self.position + (if scanning { 1nat } else { 0nat }),
        {
            if self.position >= len {
                scanning = false;
            } else {
                let c = self.input.as_str().get_char(self.position);
                if c == ' ' || c == '\t' {
                    self.position += 1;
                    self.line_position += 1;
                } else if c == '\n' {
                    self.position += 1;
                    self.line += 1;
                    self.line_position = 1;
                } else {
                    scanning = false;
                }
            }
        }
    }

    /// Reads the number whose first digit stands at the cursor.
    fn lex_number(&mut self, len: usize) -> (r: Result<Token, VMError>)
        requires
            old(self).wf(),
            len == old(self).input@.len(),
            old(self).position < len,
            is_digit(old(self).input@[old(self).position as int]),
        ensures
            final(self).wf(),
            final(self).input == old(self).input,
            ({
                let input = old(self).input@;
                let at = old(self).cursor();
                let end = digits_end(input, at.position);
                let value = digits_value(input, at.position, end);
                let taken = (end - at.position) as nat;
                if value <= i32::MAX {
                    &&& r is Ok
                    &&& r->Ok_0@ == TokenView::Number(value as i32)
                    &&& final(self).cursor() == (Cursor {
                        position: end,
                        line_position: at.line_position + taken,
                        ..at
                    })
                } else {
                    &&& r is Err
                    &&& r->Err_0@ == lex_error(
                        input,
                        "Number literal out of range"@,
                        at.position,
                        taken,
                    )
                    &&& final(self).cursor() == at
                }
            }),
    {
        let start = self.position;
        let mut end = start;
        let mut value: i32 = 0;
        let mut fits = true;
        let mut scanning = true;
        while scanning
            invariant
                self.wf(),
                self.input == old(self).input,
                self.cursor() == old(self).cursor(),
                len == self.input@.len(),
                start == self.position,
                start <= end <= len,
                digits_end(self.input@, start as nat) == digits_end(self.input@, end as nat),
                !scanning ==> end == digits_end(self.input@, end as nat),
                fits ==> value == digits_value(self.input@, start as nat, end as nat),
                !fits ==> digits_value(self.input@, start as nat, end as nat) > i32::MAX,
                0 <= value,
            decreases len - end + (if scanning { 1nat } else { 0nat }),
        {
            if end >= len {
                scanning = false;
            } else {
                let c = self.input.as_str().get_char(end);
                if '0' <= c && c <= '9' {
                    let digit: i32 = c as i32 - '0' as i32;
                    assert(digits_value(self.input@, start as nat, (end + 1) as nat)
                        == digits_value(self.input@, start as nat, end as nat) * 10 + digit);
                    if fits {
                        if value > (i32::MAX - digit) / 10 {
                            fits = false;
                        } else {
                            value = value * 10 + digit;
                        }
                    }
                    end += 1;
                } else {
                    scanning = false;
                }
            }
        }
        if fits {
            self.line_position += end - start;
            self.position = end;
            Ok(Token::Number(value))
        } else {
            Err(
                self.create_error(
                    String::from_str("Number literal out of range"),
                    start,
                    end - start,
                ),
            )
        }
    }
}

impl Tokenizer {
    /// Reads the rest of a text literal whose opening quote stands at the
    /// cursor.
    fn lex_string(&mut self, len: usize, quote: char) -> (r: Result<Token, VMError>)
        requires
            old(self).wf(),
            len == old(self).input@.len(),
            old(self).position < len,
        ensures
            final(self).wf(),
            final(self).input == old(self).input,
            ({
                let at = old(self).cursor();
                let lexed = lex_text(
                    old(self).input@,
                    at.position,
                    quote,
                    Cursor { position: at.position + 1, ..at },
                    Seq::empty(),
                    false,
                );
                &&& token_outcome(r) == lexed.result
                &&& final(self).cursor() == lexed.cursor
            }),
    {
        let start_pos = self.position;
        self.position += 1;
        let mut text = String::new();
        let mut after_backslash = false;
        let ghost before = old(self).cursor();
        let ghost first = Cursor { position: before.position + 1, ..before };
        while self.position < len
            invariant
                self.wf(),
                self.input == old(self).input,
                len == self.input@.len(),
                before == old(self).cursor(),
                first == (Cursor { position: before.position + 1, ..before }),
                start_pos == before.position,
                start_pos < self.position,
                lex_text(
                    self.input@,
                    start_pos as nat,
                    quote,
                    first,
                    Seq::empty(),
                    false,
                ) == lex_text(
                    self.input@,
                    start_pos as nat,
                    quote,
                    self.cursor(),
                    text@,
                    after_backslash,
                ),
            decreases len - self.position,
        {
            let c = self.input.as_str().get_char(self.position);
            let one = self.input.as_str().substring_char(self.position, self.position + 1);
            assert(one@ =~= seq![c]);
            self.position += 1;
            self.line_position += 1;
            if after_backslash {
                match escape_text(c) {
                    Some(e) => {
                        assert(text@ + e@ =~= text@.push(escaped(c)->0));
                        text.append(e);
                    },
                    None => {
                        let mut message = String::from_str("Invalid escape sequence: \\");
                        message.append(one);
                        assert(message@ =~= "Invalid escape sequence: \\"@.push(c));
                        return Err(self.create_error(message, self.position - 2, 2));
                    },
                }
                after_backslash = false;
            } else if c == '\\' {
                after_backslash = true;
            } else if c == quote {
                return Ok(Token::String(text));
            } else if c == '\n' {
                self.line += 1;
                self.line_position = 1;
                assert(text@ + one@ =~= text@.push(c));
                text.append(one);
            } else {
                assert(text@ + one@ =~= text@.push(c));
                text.append(one);
            }
        }
        Err(
            self.create_error(
                String::from_str("Unterminated string literal"),
                start_pos,
                self.position - start_pos,
            ),
        )
    }

    /// Reads the name whose first letter stands at the cursor.
    fn lex_name(&mut self, len: usize) -> (token: Token)
        requires
            old(self).wf(),
            len == old(self).input@.len(),
            old(self).position < len,
            is_letter(old(self).input@[old(self).position as int]),
        ensures
            final(self).wf(),
            final(self).input == old(self).input,
            ({
                let input = old(self).input@;
                let at = old(self).cursor();
                let end = name_end(input, at.position);
                &&& token@ == name_token(input.subrange(at.position as int, end as int))
                &&& final(self).cursor() == (Cursor {
                    position: end,
                    line_position: at.line_position + (end - at.position) as nat,
                    ..at
                })
            }),
    {
        let start = self.position;
        let mut scanning = true;
        while scanning
            invariant
                self.wf(),
                self.input == old(self).input,
                len == self.input@.len(),
                start == old(self).position,
                start <= self.position <= len,
                self.line == old(self).line,
                self.line_position == old(self).line_position + (self.position - start),
                name_end(self.input@, start as nat) == name_end(
                    self.input@,
                    self.position as nat,
                ),
                !scanning ==> self.position == name_end(self.input@, self.position as nat),
            decreases len - self.position + (if scanning { 1nat } else { 0nat }),
        {
            if self.position >= len {
                scanning = false;
            } else {
                let c = self.input.as_str().get_char(self.position);
                if ('a' <= c && c <= 'z') || ('A' <= c && c <= 'Z') || ('0' <= c && c <= '9') || c
                    == '_' {
                    self.position += 1;
                    self.line_position += 1;
                } else {
                    scanning = false;
                }
            }
        }
        let name = String::from_str(self.input.as_str().substring_char(start, self.position));
        if name == String::from_str("if") {
            Token::If
        } else if name == String::from_str("else") {
            Token::Else
        } else if name == String::from_str("while") {
            Token::While
        } else {
            Token::Ident(name)
        }
    }

    /// Reads the sign that stands at the cursor.
    fn lex_sign(&mut self, len: usize, c: char) -> (r: Result<Token, VMError>)
        requires
            old(self).wf(),
            len == old(self).input@.len(),
            old(self).position < len,
            c == old(self).input@[old(self).position as int],
        ensures
            final(self).wf(),
            final(self).input == old(self).input,
            ({
                let input = old(self).input@;
                let at = old(self).cursor();
                match sign_token(c, char_at(input, at.position + 1)) {
                    Some((token, taken)) => {
                        &&& r is Ok
                        &&& r->Ok_0@ == token
                        &&& final(self).cursor() == (Cursor {
                            position: at.position + taken,
                            line_position: at.line_position + taken,
                            ..at
                        })
                    },
                    None => {
                        &&& r is Err
                        &&& r->Err_0@ == lex_error(
                            input,
                            if c == '!' {
                                "Unexpected token: !"@
                            } else {
                                "Unexpected character: "@.push(c)
                            },
                            at.position,
                            1,
                        )
                        &&& final(self).cursor() == at
                    },
                }
            }),
    {
        let followed = self.position + 1 < len && self.input.as_str().get_char(self.position + 1)
            == '=';
        let token = if c == '+' {
            Token::Plus
        } else if c == '-' {
            Token::Minus
        } else if c == '*' {
            Token::Star
        } else if c == '/' {
            Token::Slash
        } else if c == '(' {
            Token::LParen
        } else if c == ')' {
            Token::RParen
        } else if c == '{' {
            Token::LBrace
        } else if c == '}' {
            Token::RBrace
        } else if c == '[' {
            Token::LBracket
        } else if c == ']' {
            Token::RBracket
        } else if c == ',' {
            Token::Comma
        } else if c == '>' {
            Token::Greater
        } else if c == '<' {
            Token::Less
        } else if c == '=' {
            if followed {
                self.position += 1;
                self.line_position += 1;
                Token::Equal
            } else {
                Token::Assignment
            }
        } else if c == '!' {
            if followed {
                self.position += 1;
                self.line_position += 1;
                Token::NotEqual
            } else {
                return Err(
                    self.create_error(
                        String::from_str("Unexpected token: !"),
                        self.position,
                        1,
                    ),
                );
            }
        } else {
            let mut message = String::from_str("Unexpected character: ");
            let one = self.input.as_str().substring_char(self.position, self.position + 1);
            assert(one@ =~= seq![c]);
            message.append(one);
            assert(message@ =~= "Unexpected character: "@.push(c));
            return Err(self.create_error(message, self.position, 1));
        };
        self.position += 1;
        self.line_position += 1;
        Ok(token)
    }

    /// Reads the next token and moves past it. At the end of the text the
    /// token is `EOF`, as often as it is asked for.
    pub fn next_token(&mut self) -> (r: Result<Token, VMError>)
        requires
            old(self).wf(),
        ensures
            final(self).wf(),
            final(self).input == old(self).input,
            ({
                let lexed = next_token_of(old(self).input@, old(self).cursor());
                &&& token_outcome(r) == lexed.result
                &&& final(self).cursor() == lexed.cursor
            }),
    {
        reveal(next_token_of);
        let len = self.input.as_str().unicode_len();
        self.pass_blanks(len);
        if self.position >= len {
            return Ok(Token::EOF);
        }
        let c = self.input.as_str().get_char(self.position);
        if '0' <= c && c <= '9' {
            self.lex_number(len)
        } else if c == '"' || c == '\'' {
            self.lex_string(len, c)
        } else if ('a' <= c && c <= 'z') || ('A' <= c && c <= 'Z') {
            Ok(self.lex_name(len))
        } else {
            self.lex_sign(len, c)
        }
    }
}

/// The view of a tokenizer's answer: of the token or of the error.
pub open spec fn token_outcome(r: Result<Token, VMError>) -> Result<TokenView, ErrorView> {
    match r {
        Ok(token) => Ok(token@),
        Err(e) => Err(e@),
    }
}


/// Passing over blanks moves the cursor forward, if at all, and not past
/// the end of the text.
pub proof fn lemma_skip_blanks_bounds(input: Seq<char>, cursor: Cursor)
    requires
        cursor.position <= input.len(),
    ensures
        cursor.position <= skip_blanks(input, cursor).position <= input.len(),
    decreases input.len() - cursor.position,
{
    if cursor.position < input.len() {
        let c = input[cursor.position as int];
        if c == ' ' || c == '\t' {
            lemma_skip_blanks_bounds(
                input,
                Cursor {
                    position: cursor.position + 1,
                    line_position: cursor.line_position + 1,
                    ..cursor
                },
            );
        } else if c == '\n' {
            lemma_skip_blanks_bounds(
                input,
                Cursor { position: cursor.position + 1, line: cursor.line + 1, line_position: 1 },
            );
        }
    }
}

/// A run of digits ends inside the text, after its start.
pub proof fn lemma_digits_end_bounds(input: Seq<char>, from: nat)
    requires
        from <= input.len(),
    ensures
        from <= digits_end(input, from) <= input.len(),
        from < input.len() && is_digit(input[from as int]) ==> from < digits_end(input, from),
    decreases input.len() - from,
{
    if from < input.len() && is_digit(input[from as int]) {
        lemma_digits_end_bounds(input, from + 1);
    }
}

/// A name ends inside the text, after its start.
pub proof fn lemma_name_end_bounds(input: Seq<char>, from: nat)
    requires
        from <= input.len(),
    ensures
        from <= name_end(input, from) <= input.len(),
        from < input.len() && is_name_part(input[from as int]) ==> from < name_end(input, from),
    decreases input.len() - from,
{
    if from < input.len() && is_name_part(input[from as int]) {
        lemma_name_end_bounds(input, from + 1);
    }
}

/// Reading a text literal moves the cursor forward, if at all, and not
/// past the end of the text.
pub proof fn lemma_lex_text_bounds(
    input: Seq<char>,
    start: nat,
    quote: char,
    cursor: Cursor,
    text: Seq<char>,
    after_backslash: bool,
)
    requires
        cursor.position <= input.len(),
    ensures
        cursor.position <= lex_text(
            input,
            start,
            quote,
            cursor,
            text,
            after_backslash,
        ).cursor.position <= input.len(),
    decreases input.len() - cursor.position,
{
    if cursor.position < input.len() {
        let c = input[cursor.position as int];
        let on = Cursor {
            position: cursor.position + 1,
            line_position: cursor.line_position + 1,
            ..cursor
        };
        if after_backslash {
            match escaped(c) {
                Some(e) => {
                    lemma_lex_text_bounds(input, start, quote, on, text.push(e), false);
                },
                None => {},
            }
        } else if c == '\\' {
            lemma_lex_text_bounds(input, start, quote, on, text, true);
        } else if c == quote {
        } else if c == '\n' {
            lemma_lex_text_bounds(
                input,
                start,
                quote,
                Cursor { line: on.line + 1, line_position: 1, ..on },
                text.push(c),
                false,
            );
        } else {
            lemma_lex_text_bounds(input, start, quote, on, text.push(c), false);
        }
    }
}

/// Reading a token never moves the cursor back nor past the end of the
/// text, and every token but `EOF` takes at least one character.
pub proof fn lemma_next_token_advances(input: Seq<char>, cursor: Cursor)
    requires
        cursor.position <= input.len(),
    ensures
        ({
            let lexed = next_token_of(input, cursor);
            &&& cursor.position <= lexed.cursor.position <= input.len()
            &&& lexed.result is Ok && !(lexed.result->Ok_0 is EOF) ==> cursor.position
                < lexed.cursor.position
        }),
{
    reveal(next_token_of);
    lemma_skip_blanks_bounds(input, cursor);
    let at = skip_blanks(input, cursor);
    if at.position < input.len() {
        let c = input[at.position as int];
        lemma_digits_end_bounds(input, at.position);
        lemma_name_end_bounds(input, at.position);
        lemma_lex_text_bounds(
            input,
            at.position,
            c,
            Cursor { position: at.position + 1, ..at },
            Seq::empty(),
            false,
        );
    }
}


impl PartialEq for Tokenizer {
    /// Whether two tokenizers stand at the same place in the same text.
    fn eq(&self, other: &Tokenizer) -> (same: bool) {
        self.input == other.input && self.position == other.position && self.line == other.line
            && self.line_position == other.line_position
    }
}

impl PartialEqSpecImpl for Tokenizer {
    open spec fn obeys_eq_spec() -> bool {
        true
    }

    open spec fn eq_spec(&self, other: &Tokenizer) -> bool {
        self.input@ == other.input@ && self.cursor() == other.cursor()
    }
}


} // verus!
