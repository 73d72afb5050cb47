//! The scanner: converts raw source text into the ordered token sequence
//! that [`crate::model::scanned`] describes.

use crate::error_handler::ErrorHandler;
use crate::model::SpecToken;
use crate::model::SpecTokenInfo;
use crate::model::alnum_end;
use crate::model::count_in;
use crate::model::digits_end;
use crate::model::find_from;
use crate::model::is_alnum_char;
use crate::model::is_alpha_char;
use crate::model::is_digit_char;
use crate::model::lemma_scan_step_bounds;
use crate::model::scan_rest;
use crate::model::scan_step;
use crate::model::scanned;
use crate::model::spec_keyword;
use vstd::prelude::*;
use vstd::string::StrSliceExecFns;
use vstd::string::StringExecFns;

verus! {

/// One lexical unit. Identifier and string tokens carry the exact source
/// text of their lexeme (for strings, the text strictly between the
/// quotes); number tokens carry the exact digit-and-dot lexeme, which a
/// consumer may parse as a double-precision value.
#[derive(Debug, PartialEq, Clone)]
pub enum Token {
    LeftParen,
    RightParen,
    LeftBrace,
    RightBrace,
    Comma,
    Dot,
    Minus,
    Plus,
    Semicolon,
    Slash,
    Star,
    Bang,
    BangEqual,
    Equal,
    EqualEqual,
    Greater,
    GreaterEqual,
    Less,
    LessEqual,
    Identifier(String),
    StringValue(String),
    Number(String),
    And,
    Class,
    Else,
    False,
    Fun,
    For,
    If,
    Nil,
    Or,
    Print,
    Return,
    Super,
    This,
    True,
    Var,
    While,
    EOF,
}

impl View for Token {
    type V = SpecToken;

    open spec fn view(&self) -> SpecToken {
        match self {
            Token::LeftParen => SpecToken::LeftParen,
            Token::RightParen => SpecToken::RightParen,
            Token::LeftBrace => SpecToken::LeftBrace,
            Token::RightBrace => SpecToken::RightBrace,
            Token::Comma => SpecToken::Comma,
            Token::Dot => SpecToken::Dot,
            Token::Minus => SpecToken::Minus,
            Token::Plus => SpecToken::Plus,
            Token::Semicolon => SpecToken::Semicolon,
            Token::Slash => SpecToken::Slash,
            Token::Star => SpecToken::Star,
            Token::Bang => SpecToken::Bang,
            Token::BangEqual => SpecToken::BangEqual,
            Token::Equal => SpecToken::Equal,
            Token::EqualEqual => SpecToken::EqualEqual,
            Token::Greater => SpecToken::Greater,
            Token::GreaterEqual => SpecToken::GreaterEqual,
            Token::Less => SpecToken::Less,
            Token::LessEqual => SpecToken::LessEqual,
            Token::Identifier(s) => SpecToken::Identifier(s@),
            Token::StringValue(s) => SpecToken::StringValue(s@),
            Token::Number(s) => SpecToken::Number(s@),
            Token::And => SpecToken::And,
            Token::Class => SpecToken::Class,
            Token::Else => SpecToken::Else,
            Token::False => SpecToken::False,
            Token::Fun => SpecToken::Fun,
            Token::For => SpecToken::For,
            Token::If => SpecToken::If,
            Token::Nil => SpecToken::Nil,
            Token::Or => SpecToken::Or,
            Token::Print => SpecToken::Print,
            Token::Return => SpecToken::Return,
            Token::Super => SpecToken::Super,
            Token::This => SpecToken::This,
            Token::True => SpecToken::True,
            Token::Var => SpecToken::Var,
            Token::While => SpecToken::While,
            Token::EOF => SpecToken::EOF,
        }
    }
}

/// A token together with the 1-based source line it was recognized on.
#[derive(Debug, PartialEq, Clone)]
pub struct TokenInfo {
    pub token: Token,
    pub line: u32,
}

impl View for TokenInfo {
    type V = SpecTokenInfo;

    open spec fn view(&self) -> SpecTokenInfo {
        SpecTokenInfo { token: self.token@, line: self.line as nat }
    }
}

/// The views of a sequence of tokens, element for element.
pub open spec fn tokens_view(ts: Seq<TokenInfo>) -> Seq<SpecTokenInfo> {
    Seq::new(ts.len(), |k: int| ts[k]@)
}

/// An ASCII decimal digit.
fn is_digit(c: char) -> (b: bool)
    ensures
        b == is_digit_char(c),
{
    let u = c as u32;
    48 <= u && u <= 57
}

/// An ASCII letter.
fn is_alpha(c: char) -> (b: bool)
    ensures
        b == is_alpha_char(c),
{
    let u = c as u32;
    (97 <= u && u <= 122) || (65 <= u && u <= 90)
}

/// An ASCII letter or digit.
fn is_alnum(c: char) -> (b: bool)
    ensures
        b == is_alnum_char(c),
{
    is_alpha(c) || is_digit(c)
}

/// Character-for-character string equality.
fn str_eq(a: &str, b: &str) -> (r: bool)
    ensures
        r == (a@ == b@),
{
    let na = a.unicode_len();
    let nb = b.unicode_len();
    if na != nb {
        return false;
    }
    let mut i: usize = 0;
    while i < na
        invariant
            i <= na,
            na as nat == a@.len(),
            nb as nat == b@.len(),
            na == nb,
            forall|k: int| 0 <= k < i ==> a@[k] == b@[k],
        decreases na - i,
    {
        if a.get_char(i) != b.get_char(i) {
            return false;
        }
        i = i + 1;
    }
    proof {
        assert(a@ =~= b@);
    }
    true
}

/// The reserved-word table: an exact, case-sensitive lookup of the sixteen
/// keyword spellings.
fn keyword(text: &str) -> (r: Option<Token>)
    ensures
        match r {
            Some(t) => spec_keyword(text@) == Some(t@),
            None => spec_keyword(text@) is None,
        },
{
    if str_eq(text, "and") {
        Some(Token::And)
    } else if str_eq(text, "or") {
        Some(Token::Or)
    } else if str_eq(text, "if") {
        Some(Token::If)
    } else if str_eq(text, "else") {
        Some(Token::Else)
    } else if str_eq(text, "true") {
        Some(Token::True)
    } else if str_eq(text, "false") {
        Some(Token::False)
    } else if str_eq(text, "var") {
        Some(Token::Var)
    } else if str_eq(text, "fun") {
        Some(Token::Fun)
    } else if str_eq(text, "return") {
        Some(Token::Return)
    } else if str_eq(text, "class") {
        Some(Token::Class)
    } else if str_eq(text, "this") {
        Some(Token::This)
    } else if str_eq(text, "super") {
        Some(Token::Super)
    } else if str_eq(text, "for") {
        Some(Token::For)
    } else if str_eq(text, "while") {
        Some(Token::While)
    } else if str_eq(text, "print") {
        Some(Token::Print)
    } else if str_eq(text, "nil") {
        Some(Token::Nil)
    } else {
        None
    }
}

/// The finite-state tokenizer. It owns a materialized character index of
/// the source, a `start`/`current` cursor pair bounding the lexeme being
/// scanned, the 1-based line counter, the accumulated error flag, and the
/// output token list.
pub struct Scanner<'s, E: ErrorHandler> {
    // Input data
    code: &'s str,
    chars: Vec<char>,
    error_handler: &'s E,
    // Temp data
    had_errors: bool,
    line: u32,
    start: usize,
    current: usize,
    tokens: Vec<TokenInfo>,
}

impl<'s, E: ErrorHandler> Scanner<'s, E> {
    /// The source text being scanned.
    pub closed spec fn source(&self) -> Seq<char> {
        self.code@
    }

    /// The scanner's internal well-formedness: the character index mirrors
    /// the source, the cursor pair stays inside it in order, and the line
    /// counter never outruns what the consumed characters allow.
    pub closed spec fn inv(&self) -> bool {
        &&& self.chars@ == self.code@
        &&& self.code@.len() < u32::MAX as nat
        &&& self.current <= self.chars@.len()
        &&& self.start <= self.current
        &&& 1 <= self.line
        &&& self.line as nat <= 1 + self.current as nat
    }

    /// A freshly constructed scanner, ready for its one scan.
    pub closed spec fn ready(&self) -> bool {
        &&& self.current == 0
        &&& self.start == 0
        &&& self.line == 1
        &&& self.tokens@.len() == 0
        &&& !self.had_errors
    }

    /// Whether any lexical error has been found so far.
    pub closed spec fn error_flag(&self) -> bool {
        self.had_errors
    }

    /// The fields that scanning never changes.
    spec fn same_input(&self, other: &Self) -> bool {
        &&& self.code == other.code
        &&& self.chars == other.chars
    }

    pub fn new(code: &'s str, error_handler: &'s E) -> (scanner: Scanner<'s, E>)
        requires
            code@.len() < u32::MAX as nat,
        ensures
            scanner.inv(),
            scanner.ready(),
            scanner.source() == code@,
    {
        let n = code.unicode_len();
        let mut chars: Vec<char> = Vec::new();
        let mut i: usize = 0;
        while i < n
            invariant
                i <= n,
                n as nat == code@.len(),
                chars@.len() == i as nat,
                forall|k: int| 0 <= k < i ==> chars@[k] == code@[k],
            decreases n - i,
        {
            let c = code.get_char(i);
            chars.push(c);
            i = i + 1;
        }
        proof {
            assert(chars@ =~= code@);
        }
        Scanner {
            code,
            chars,
            error_handler,
            had_errors: false,
            line: 1,
            start: 0,
            current: 0,
            tokens: Vec::new(),
        }
    }

    fn is_at_end(&self) -> (b: bool)
        ensures
            b == (self.current >= self.chars@.len()),
    {
        self.current >= self.chars.len()
    }

    fn matches(&mut self, expected: char) -> (b: bool)
        requires
            old(self).current <= old(self).chars@.len(),
        ensures
            b == (old(self).current < old(self).chars@.len() && old(self).chars@[old(
                self,
            ).current as int] == expected),
            old(self).same_input(final(self)),
            final(self).error_handler == old(self).error_handler,
            final(self).had_errors == old(self).had_errors,
            final(self).line == old(self).line,
            final(self).start == old(self).start,
            final(self).tokens == old(self).tokens,
            final(self).current == if b {
                old(self).current + 1
            } else {
                old(self).current as int
            },
    {
        if self.current >= self.chars.len() {
            return false;
        }
        if self.chars[self.current] != expected {
            return false;
        }
        self.current = self.current + 1;
        true
    }

    fn peek(&self) -> (c: char)
        requires
            self.current <= self.chars@.len(),
        ensures
            c == (if self.current < self.chars@.len() {
                self.chars@[self.current as int]
            } else {
                '\0'
            }),
    {
        if self.is_at_end() {
            return '\0';
        }
        self.chars[self.current]
    }

    fn peek_next(&self) -> (c: char)
        requires
            self.current <= self.chars@.len(),
        ensures
            c == (if self.current < self.chars@.len() && self.current as int + 1
                < self.chars@.len() {
                self.chars@[self.current as int + 1]
            } else {
                '\0'
            }),
    {
        if self.current >= self.chars.len() {
            return '\0';
        }
        if self.current + 1 >= self.chars.len() {
            return '\0';
        }
        self.chars[self.current + 1]
    }

    fn advance(&mut self) -> (c: char)
        requires
            old(self).current < old(self).chars@.len(),
        ensures
            c == old(self).chars@[old(self).current as int],
            old(self).same_input(final(self)),
            final(self).error_handler == old(self).error_handler,
            final(self).had_errors == old(self).had_errors,
            final(self).line == old(self).line,
            final(self).start == old(self).start,
            final(self).tokens == old(self).tokens,
            final(self).current == old(self).current + 1,
    {
        proof {
            assert(self.chars.len() == self.chars@.len());
        }
        let c = self.chars[self.current];
        self.current = self.current + 1;
        c
    }

    fn add_token(&mut self, token_type: Token)
        ensures
            old(self).same_input(final(self)),
            final(self).error_handler == old(self).error_handler,
            final(self).had_errors == old(self).had_errors,
            final(self).line == old(self).line,
            final(self).start == old(self).start,
            final(self).current == old(self).current,
            final(self).tokens@ == old(self).tokens@.push(
                TokenInfo { line: old(self).line, token: token_type },
            ),
    {
        self.tokens.push(TokenInfo { line: self.line, token: token_type })
    }

    /// The text of the lexeme currently bounded by `start..current`.
    fn current_text(&self) -> (r: &'s str)
        requires
            self.chars@ == self.code@,
            self.start <= self.current,
            self.current <= self.chars@.len(),
        ensures
            r@ == self.code@.subrange(self.start as int, self.current as int),
    {
        self.code.substring_char(self.start, self.current)
    }

    /// Scans the rest of a string literal; `start` is at the opening quote,
    /// which has just been consumed.
    fn string(&mut self) -> (t: Option<Token>)
        requires
            old(self).inv(),
            old(self).start < old(self).chars@.len(),
            old(self).current == old(self).start + 1,
            old(self).chars@[old(self).start as int] == '"',
        ensures
            final(self).inv(),
            old(self).same_input(final(self)),
            final(self).error_handler == old(self).error_handler,
            final(self).start == old(self).start,
            final(self).tokens == old(self).tokens,
            ({
                let st = scan_step(
                    old(self).chars@,
                    old(self).start as nat,
                    old(self).line as nat,
                );
                &&& final(self).current as nat == st.next
                &&& final(self).line as nat == st.line
                &&& final(self).had_errors == (old(self).had_errors || st.error)
                &&& match (t, st.token) {
                    (Some(tok), Some(sti)) => tok@ == sti.token && sti.line == st.line,
                    (None, None) => true,
                    _ => false,
                }
            }),
    {
        let ghost s = self.chars@;
        let ghost i = self.start as nat;
        let ghost line0 = self.line as nat;
        while self.peek() != '"' && !self.is_at_end()
            invariant
                self.inv(),
                self.chars@ == s,
                self.code == old(self).code,
                self.chars == old(self).chars,
                self.error_handler == old(self).error_handler,
                self.had_errors == old(self).had_errors,
                self.start == old(self).start,
                self.tokens == old(self).tokens,
                i + 1 <= self.current as nat <= s.len(),
                find_from(s, self.current as nat, '"') == find_from(s, i + 1, '"'),
                self.line as nat == line0 + count_in(s, i + 1, self.current as nat, '\n'),
            decreases s.len() - self.current,
        {
            proof {
                assert(find_from(s, self.current as nat, '"') == find_from(
                    s,
                    self.current as nat + 1,
                    '"',
                ));
                assert(count_in(s, i + 1, self.current as nat + 1, '\n') == count_in(
                    s,
                    i + 1,
                    self.current as nat,
                    '\n',
                ) + (if s[self.current as int] == '\n' {
                    1nat
                } else {
                    0nat
                }));
            }
            let c = self.advance();
            if c == '\n' {
                self.line = self.line + 1;
            }
        }
        if self.is_at_end() {
            proof {
                assert(find_from(s, self.current as nat, '"') is None);
            }
            self.had_errors = true;
            self.error_handler.error(self.line, "Unterminated string.");
            None
        } else {
            proof {
                assert(find_from(s, self.current as nat, '"') == Some(self.current as nat));
                assert(self.chars.len() == self.chars@.len());
            }
            let text = self.code.substring_char(self.start + 1, self.current);
            let tok = Token::StringValue(text.to_owned());
            self.advance();
            Some(tok)
        }
    }

    /// Scans the rest of a number literal; `start` is at its first digit,
    /// which has just been consumed. The lexeme always matches the numeric
    /// grammar (digits, at most one dot, a digit after any dot), so every
    /// call yields a token; parsing the digits as a double-precision value
    /// is the consumer's concern.
    fn number(&mut self) -> (t: Option<Token>)
        requires
            old(self).inv(),
            old(self).start < old(self).chars@.len(),
            old(self).current == old(self).start + 1,
            is_digit_char(old(self).chars@[old(self).start as int]),
        ensures
            final(self).inv(),
            old(self).same_input(final(self)),
            final(self).error_handler == old(self).error_handler,
            final(self).start == old(self).start,
            final(self).tokens == old(self).tokens,
            ({
                let st = scan_step(
                    old(self).chars@,
                    old(self).start as nat,
                    old(self).line as nat,
                );
                &&& final(self).current as nat == st.next
                &&& final(self).line as nat == st.line
                &&& final(self).had_errors == (old(self).had_errors || st.error)
                &&& match (t, st.token) {
                    (Some(tok), Some(sti)) => tok@ == sti.token && sti.line == st.line,
                    (None, None) => true,
                    _ => false,
                }
            }),
    {
        let ghost s = self.chars@;
        let ghost i = self.start as nat;
        while is_digit(self.peek())
            invariant
                self.inv(),
                self.chars@ == s,
                self.code == old(self).code,
                self.chars == old(self).chars,
                self.error_handler == old(self).error_handler,
                self.had_errors == old(self).had_errors,
                self.line == old(self).line,
                self.start == old(self).start,
                self.tokens == old(self).tokens,
                i + 1 <= self.current as nat <= s.len(),
                digits_end(s, self.current as nat) == digits_end(s, i + 1),
            decreases s.len() - self.current,
        {
            proof {
                assert(digits_end(s, self.current as nat) == digits_end(
                    s,
                    self.current as nat + 1,
                ));
            }
            self.advance();
        }
        let ghost j = self.current as nat;
        proof {
            assert(digits_end(s, j) == j);
            assert(j == digits_end(s, i + 1));
        }
        if self.peek() == '.' && is_digit(self.peek_next()) {
            self.advance();
            while is_digit(self.peek())
                invariant
                    self.inv(),
                    self.chars@ == s,
                    self.code == old(self).code,
                    self.chars == old(self).chars,
                    self.error_handler == old(self).error_handler,
                    self.had_errors == old(self).had_errors,
                    self.line == old(self).line,
                    self.start == old(self).start,
                    self.tokens == old(self).tokens,
                    j + 1 <= self.current as nat <= s.len(),
                    digits_end(s, self.current as nat) == digits_end(s, j + 1),
                decreases s.len() - self.current,
            {
                proof {
                    assert(digits_end(s, self.current as nat) == digits_end(
                        s,
                        self.current as nat + 1,
                    ));
                }
                self.advance();
            }
            proof {
                assert(digits_end(s, self.current as nat) == self.current as nat);
            }
        }
        let text = self.current_text();
        Some(Token::Number(text.to_owned()))
    }

    /// Scans the rest of an identifier or keyword; `start` is at its first
    /// letter, which has just been consumed. The maximal run of letters and
    /// digits is taken, then classified by the reserved-word table.
    fn identifier(&mut self) -> (t: Option<Token>)
        requires
            old(self).inv(),
            old(self).start < old(self).chars@.len(),
            old(self).current == old(self).start + 1,
            is_alpha_char(old(self).chars@[old(self).start as int]),
        ensures
            final(self).inv(),
            old(self).same_input(final(self)),
            final(self).error_handler == old(self).error_handler,
            final(self).start == old(self).start,
            final(self).tokens == old(self).tokens,
            ({
                let st = scan_step(
                    old(self).chars@,
                    old(self).start as nat,
                    old(self).line as nat,
                );
                &&& final(self).current as nat == st.next
                &&& final(self).line as nat == st.line
                &&& final(self).had_errors == (old(self).had_errors || st.error)
                &&& match (t, st.token) {
                    (Some(tok), Some(sti)) => tok@ == sti.token && sti.line == st.line,
                    (None, None) => true,
                    _ => false,
                }
            }),
    {
        let ghost s = self.chars@;
        let ghost i = self.start as nat;
        while is_alnum(self.peek())
            invariant
                self.inv(),
                self.chars@ == s,
                self.code == old(self).code,
                self.chars == old(self).chars,
                self.error_handler == old(self).error_handler,
                self.had_errors == old(self).had_errors,
                self.line == old(self).line,
                self.start == old(self).start,
                self.tokens == old(self).tokens,
                i + 1 <= self.current as nat <= s.len(),
                alnum_end(s, self.current as nat) == alnum_end(s, i + 1),
            decreases s.len() - self.current,
        {
            proof {
                assert(alnum_end(s, self.current as nat) == alnum_end(s, self.current as nat + 1));
            }
            self.advance();
        }
        proof {
            assert(alnum_end(s, self.current as nat) == self.current as nat);
        }
        let text = self.current_text();
        match keyword(text) {
            Some(token) => Some(token),
            None => Some(Token::Identifier(text.to_owned())),
        }
    }

    /// Scans one lexeme, starting at `start == current`, and appends its
    /// token (if the lexeme yields one) to the output.
    fn scan_token(&mut self)
        requires
            old(self).inv(),
            old(self).start == old(self).current,
            old(self).current < old(self).chars@.len(),
        ensures
            final(self).inv(),
            old(self).same_input(final(self)),
            final(self).error_handler == old(self).error_handler,
            ({
                let st = scan_step(
                    old(self).chars@,
                    old(self).current as nat,
                    old(self).line as nat,
                );
                &&& final(self).current as nat == st.next
                &&& final(self).line as nat == st.line
                &&& final(self).had_errors == (old(self).had_errors || st.error)
                &&& tokens_view(final(self).tokens@) == tokens_view(old(self).tokens@) + (match st.token {
                    Some(ti) => seq![ti],
                    None => Seq::<SpecTokenInfo>::empty(),
                })
            }),
    {
        let ghost s = self.chars@;
        let ghost i = self.current as nat;
        let ghost line0 = self.line as nat;
        let c = self.advance();
        let token: Option<Token> = match c {
            '(' => Some(Token::LeftParen),
            ')' => Some(Token::RightParen),
            '{' => Some(Token::LeftBrace),
            '}' => Some(Token::RightBrace),
            ',' => Some(Token::Comma),
            '.' => Some(Token::Dot),
            '-' => Some(Token::Minus),
            '+' => Some(Token::Plus),
            ';' => Some(Token::Semicolon),
            '*' => Some(Token::Star),
            '!' => Some(
                if self.matches('=') {
                    Token::BangEqual
                } else {
                    Token::Bang
                },
            ),
            '=' => Some(
                if self.matches('=') {
                    Token::EqualEqual
                } else {
                    Token::Equal
                },
            ),
            '<' => Some(
                if self.matches('=') {
                    Token::LessEqual
                } else {
                    Token::Less
                },
            ),
            '>' => Some(
                if self.matches('=') {
                    Token::GreaterEqual
                } else {
                    Token::Greater
                },
            ),
            '/' => {
                if self.matches('/') {
                    // A comment runs to the end of the physical line; the
                    // newline itself is left for the next lexeme.
                    while !self.is_at_end() && self.peek() != '\n'
                        invariant
                            self.inv(),
                            self.chars@ == s,
                            self.code == old(self).code,
                            self.chars == old(self).chars,
                            self.error_handler == old(self).error_handler,
                            self.had_errors == old(self).had_errors,
                            self.line == old(self).line,
                            self.start == old(self).start,
                            self.tokens == old(self).tokens,
                            i + 2 <= self.current as nat <= s.len(),
                            find_from(s, self.current as nat, '\n') == find_from(s, i + 2, '\n'),
                        decreases s.len() - self.current,
                    {
                        proof {
                            assert(find_from(s, self.current as nat, '\n') == find_from(
                                s,
                                self.current as nat + 1,
                                '\n',
                            ));
                        }
                        self.advance();
                    }
                    proof {
                        if self.current as nat == s.len() {
                            assert(find_from(s, self.current as nat, '\n') is None);
                        } else {
                            assert(find_from(s, self.current as nat, '\n') == Some(
                                self.current as nat,
                            ));
                        }
                    }
                    None
                } else {
                    Some(Token::Slash)
                }
            },
            ' ' | '\r' | '\t' => None,
            '\n' => {
                self.line = self.line + 1;
                None
            },
            '"' => self.string(),
            _ => {
                if is_digit(c) {
                    self.number()
                } else if is_alpha(c) {
                    self.identifier()
                } else {
                    // An unexpected character: report it, skip it, emit
                    // nothing, and let scanning continue.
                    self.had_errors = true;
                    let mut message = "Unexpected character ".to_owned();
                    message.append(self.current_text());
                    self.error_handler.error(self.line, message.as_str());
                    None
                }
            },
        };
        match token {
            Some(t) => self.add_token(t),
            None => {},
        }
        proof {
            let st = scan_step(s, i, line0);
            assert(tokens_view(self.tokens@) =~= tokens_view(old(self).tokens@) + (match st.token {
                Some(ti) => seq![ti],
                None => Seq::<SpecTokenInfo>::empty(),
            }));
        }
    }

    /// Runs the scan to completion: drives the per-lexeme loop over the
    /// whole source, appends the terminal end-of-file token, and returns
    /// the full ordered token list — exactly what [`scanned`] says for this
    /// source, errors never aborting the scan.
    pub fn scan_tokens(&mut self) -> (r: &Vec<TokenInfo>)
        requires
            old(self).inv(),
            old(self).ready(),
        ensures
            final(self).inv(),
            final(self).source() == old(self).source(),
            tokens_view(r@) == scanned(old(self).source()).tokens,
            final(self).error_flag() == scanned(old(self).source()).had_errors,
    {
        let ghost s = self.chars@;
        proof {
            assert(tokens_view(self.tokens@) =~= Seq::<SpecTokenInfo>::empty());
        }
        while !self.is_at_end()
            invariant
                self.inv(),
                self.chars@ == s,
                self.code == old(self).code,
                self.chars == old(self).chars,
                self.error_handler == old(self).error_handler,
                scan_rest(s, 0, 1).tokens == tokens_view(self.tokens@) + scan_rest(
                    s,
                    self.current as nat,
                    self.line as nat,
                ).tokens,
                scan_rest(s, 0, 1).line == scan_rest(s, self.current as nat, self.line as nat).line,
                scan_rest(s, 0, 1).had_errors == (self.had_errors || scan_rest(
                    s,
                    self.current as nat,
                    self.line as nat,
                ).had_errors),
            decreases s.len() - self.current,
        {
            self.start = self.current;
            let ghost cur = self.current as nat;
            let ghost line0 = self.line as nat;
            let ghost toks = tokens_view(self.tokens@);
            proof {
                lemma_scan_step_bounds(s, cur, line0);
            }
            self.scan_token();
            proof {
                let st = scan_step(s, cur, line0);
                assert(scan_rest(s, cur, line0).tokens =~= (match st.token {
                    Some(ti) => seq![ti],
                    None => Seq::<SpecTokenInfo>::empty(),
                }) + scan_rest(s, st.next, st.line).tokens);
                assert(scan_rest(s, 0, 1).tokens =~= tokens_view(self.tokens@) + scan_rest(
                    s,
                    self.current as nat,
                    self.line as nat,
                ).tokens);
            }
        }
        proof {
            assert(scan_rest(s, self.current as nat, self.line as nat).tokens
                =~= Seq::<SpecTokenInfo>::empty());
            assert(scan_rest(s, 0, 1).tokens =~= tokens_view(self.tokens@));
        }
        self.add_token(Token::EOF);
        proof {
            assert(tokens_view(self.tokens@) =~= scanned(s).tokens);
        }
        &self.tokens
    }

    /// Whether any lexical error was found so far: the accumulated error
    /// flag a caller consults before handing the tokens to a parser.
    pub fn had_errors(&self) -> (b: bool)
        ensures
            b == self.error_flag(),
    {
        self.had_errors
    }
}

} // verus!
