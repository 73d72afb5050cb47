//! The mathematical model of scanning.
//!
//! A source text is a sequence of characters; `scanned` says, for every
//! such sequence, exactly which tokens the scanner produces, on which
//! lines, and whether any lexical error was found. The executable scanner
//! is proved to return precisely this.

use vstd::prelude::*;

verus! {

/// The model of a token: like [`crate::scanner::Token`], but literal
/// payloads are character sequences.
pub enum SpecToken {
    LeftParen,
    RightParen,
    LeftBrace,
    RightBrace,
    Comma,
    Dot,
    Minus,
    Plus,
    Semicolon,
    Slash,
    Star,
    Bang,
    BangEqual,
    Equal,
    EqualEqual,
    Greater,
    GreaterEqual,
    Less,
    LessEqual,
    Identifier(Seq<char>),
    StringValue(Seq<char>),
    Number(Seq<char>),
    And,
    Class,
    Else,
    False,
    Fun,
    For,
    If,
    Nil,
    Or,
    Print,
    Return,
    Super,
    This,
    True,
    Var,
    While,
    EOF,
}

/// The model of a token together with the 1-based line it was recognized on.
pub struct SpecTokenInfo {
    pub token: SpecToken,
    pub line: nat,
}

/// What scanning one lexeme does: where the cursor moves, the line counter
/// after the lexeme, the token emitted (if any), and whether an error was
/// reported.
pub struct SpecStep {
    pub next: nat,
    pub line: nat,
    pub token: Option<SpecTokenInfo>,
    pub error: bool,
}

/// The outcome of scanning: the token sequence, the final line counter,
/// and whether any lexical error was found.
pub struct SpecScan {
    pub tokens: Seq<SpecTokenInfo>,
    pub line: nat,
    pub had_errors: bool,
}

/// An ASCII decimal digit.
pub open spec fn is_digit_char(c: char) -> bool {
    ('0' as u32) <= (c as u32) && (c as u32) <= ('9' as u32)
}

/// An ASCII letter.
pub open spec fn is_alpha_char(c: char) -> bool {
    (('a' as u32) <= (c as u32) && (c as u32) <= ('z' as u32)) || (('A' as u32) <= (c as u32)
        && (c as u32) <= ('Z' as u32))
}

/// An ASCII letter or digit: what may continue an identifier.
pub open spec fn is_alnum_char(c: char) -> bool {
    is_alpha_char(c) || is_digit_char(c)
}

/// Whitespace other than newline: consumed without effect.
pub open spec fn is_blank_char(c: char) -> bool {
    c == ' ' || c == '\r' || c == '\t'
}

/// The first position at or after `i` holding `c`, if any.
pub open spec fn find_from(s: Seq<char>, i: nat, c: char) -> Option<nat>
    decreases s.len() - i,
{
    if i >= s.len() {
        None
    } else if s[i as int] == c {
        Some(i)
    } else {
        find_from(s, i + 1, c)
    }
}

/// The first position at or after `i` holding `c`, or the end of input.
pub open spec fn stop_at(s: Seq<char>, i: nat, c: char) -> nat {
    match find_from(s, i, c) {
        Some(j) => j,
        None => s.len(),
    }
}

/// How many positions in `i..j` hold `c`.
pub open spec fn count_in(s: Seq<char>, i: nat, j: nat, c: char) -> nat
    decreases j,
{
    if j <= i {
        0
    } else {
        count_in(s, i, (j - 1) as nat, c) + (if s[j as int - 1] == c {
            1nat
        } else {
            0nat
        })
    }
}

/// The end of the maximal run of digits starting at `i`.
pub open spec fn digits_end(s: Seq<char>, i: nat) -> nat
    decreases s.len() - i,
{
    if i >= s.len() {
        i
    } else if is_digit_char(s[i as int]) {
        digits_end(s, i + 1)
    } else {
        i
    }
}

/// The end of the maximal run of letters and digits starting at `i`.
pub open spec fn alnum_end(s: Seq<char>, i: nat) -> nat
    decreases s.len() - i,
{
    if i >= s.len() {
        i
    } else if is_alnum_char(s[i as int]) {
        alnum_end(s, i + 1)
    } else {
        i
    }
}

/// The reserved-word table: the token for `s` if it is one of the sixteen
/// keyword spellings (an exact, case-sensitive match), else `None`.
pub open spec fn spec_keyword(s: Seq<char>) -> Option<SpecToken> {
    if s == "and"@ {
        Some(SpecToken::And)
    } else if s == "or"@ {
        Some(SpecToken::Or)
    } else if s == "if"@ {
        Some(SpecToken::If)
    } else if s == "else"@ {
        Some(SpecToken::Else)
    } else if s == "true"@ {
        Some(SpecToken::True)
    } else if s == "false"@ {
        Some(SpecToken::False)
    } else if s == "var"@ {
        Some(SpecToken::Var)
    } else if s == "fun"@ {
        Some(SpecToken::Fun)
    } else if s == "return"@ {
        Some(SpecToken::Return)
    } else if s == "class"@ {
        Some(SpecToken::Class)
    } else if s == "this"@ {
        Some(SpecToken::This)
    } else if s == "super"@ {
        Some(SpecToken::Super)
    } else if s == "for"@ {
        Some(SpecToken::For)
    } else if s == "while"@ {
        Some(SpecToken::While)
    } else if s == "print"@ {
        Some(SpecToken::Print)
    } else if s == "nil"@ {
        Some(SpecToken::Nil)
    } else {
        None
    }
}

/// A step that emits `t` and leaves the cursor at `next`.
pub open spec fn emit(next: nat, line: nat, t: SpecToken) -> SpecStep {
    SpecStep { next, line, token: Some(SpecTokenInfo { token: t, line }), error: false }
}

/// A step that emits nothing.
pub open spec fn skip(next: nat, line: nat) -> SpecStep {
    SpecStep { next, line, token: None, error: false }
}

/// One lexeme scanned from position `i < s.len()` with the line counter at
/// `line`: the per-lexeme dispatch on the first character.
pub open spec fn scan_step(s: Seq<char>, i: nat, line: nat) -> SpecStep
    recommends
        i < s.len(),
{
    let c = s[i as int];
    if c == '(' {
        emit(i + 1, line, SpecToken::LeftParen)
    } else if c == ')' {
        emit(i + 1, line, SpecToken::RightParen)
    } else if c == '{' {
        emit(i + 1, line, SpecToken::LeftBrace)
    } else if c == '}' {
        emit(i + 1, line, SpecToken::RightBrace)
    } else if c == ',' {
        emit(i + 1, line, SpecToken::Comma)
    } else if c == '.' {
        emit(i + 1, line, SpecToken::Dot)
    } else if c == '-' {
        emit(i + 1, line, SpecToken::Minus)
    } else if c == '+' {
        emit(i + 1, line, SpecToken::Plus)
    } else if c == ';' {
        emit(i + 1, line, SpecToken::Semicolon)
    } else if c == '*' {
        emit(i + 1, line, SpecToken::Star)
    } else if c == '!' {
        if i + 1 < s.len() && s[i as int + 1] == '=' {
            emit(i + 2, line, SpecToken::BangEqual)
        } else {
            emit(i + 1, line, SpecToken::Bang)
        }
    } else if c == '=' {
        if i + 1 < s.len() && s[i as int + 1] == '=' {
            emit(i + 2, line, SpecToken::EqualEqual)
        } else {
            emit(i + 1, line, SpecToken::Equal)
        }
    } else if c == '<' {
        if i + 1 < s.len() && s[i as int + 1] == '=' {
            emit(i + 2, line, SpecToken::LessEqual)
        } else {
            emit(i + 1, line, SpecToken::Less)
        }
    } else if c == '>' {
        if i + 1 < s.len() && s[i as int + 1] == '=' {
            emit(i + 2, line, SpecToken::GreaterEqual)
        } else {
            emit(i + 1, line, SpecToken::Greater)
        }
    } else if c == '/' {
        if i + 1 < s.len() && s[i as int + 1] == '/' {
            // A line comment: everything up to, not including, the next
            // newline (or the end of input) is consumed and emits nothing.
            skip(stop_at(s, i + 2, '\n'), line)
        } else {
            emit(i + 1, line, SpecToken::Slash)
        }
    } else if is_blank_char(c) {
        skip(i + 1, line)
    } else if c == '\n' {
        skip(i + 1, line + 1)
    } else if c == '"' {
        match find_from(s, i + 1, '"') {
            Some(j) => {
                // The payload lies strictly between the quotes; newlines
                // inside the literal advance the line counter.
                let l2 = line + count_in(s, i + 1, j, '\n');
                SpecStep {
                    next: j + 1,
                    line: l2,
                    token: Some(
                        SpecTokenInfo {
                            token: SpecToken::StringValue(s.subrange(i as int + 1, j as int)),
                            line: l2,
                        },
                    ),
                    error: false,
                }
            },
            None => {
                // Unterminated string: the lexeme is abandoned and the rest
                // of the input is consumed.
                SpecStep {
                    next: s.len(),
                    line: line + count_in(s, i + 1, s.len(), '\n'),
                    token: None,
                    error: true,
                }
            },
        }
    } else if is_digit_char(c) {
        let j = digits_end(s, i + 1);
        // A fractional part is taken only when a digit follows the dot.
        let e = if j + 1 < s.len() && s[j as int] == '.' && is_digit_char(s[j as int + 1]) {
            digits_end(s, j + 1)
        } else {
            j
        };
        emit(e, line, SpecToken::Number(s.subrange(i as int, e as int)))
    } else if is_alpha_char(c) {
        let j = alnum_end(s, i + 1);
        let text = s.subrange(i as int, j as int);
        match spec_keyword(text) {
            Some(k) => emit(j, line, k),
            None => emit(j, line, SpecToken::Identifier(text)),
        }
    } else {
        // An unexpected character: reported, skipped, no token.
        SpecStep { next: i + 1, line, token: None, error: true }
    }
}

pub proof fn lemma_find_from_bounds(s: Seq<char>, i: nat, c: char)
    ensures
        match find_from(s, i, c) {
            Some(j) => i <= j < s.len() && s[j as int] == c && (forall|k: int|
                i <= k < j ==> s[k] != c),
            None => forall|k: int| i <= k < s.len() ==> s[k] != c,
        },
    decreases s.len() - i,
{
    if i < s.len() && s[i as int] != c {
        lemma_find_from_bounds(s, i + 1, c);
    }
}

pub proof fn lemma_digits_end_bounds(s: Seq<char>, i: nat)
    requires
        i <= s.len(),
    ensures
        i <= digits_end(s, i) <= s.len(),
        forall|k: int| i <= k < digits_end(s, i) ==> is_digit_char(s[k]),
        digits_end(s, i) < s.len() ==> !is_digit_char(s[digits_end(s, i) as int]),
    decreases s.len() - i,
{
    if i < s.len() && is_digit_char(s[i as int]) {
        lemma_digits_end_bounds(s, i + 1);
    }
}

pub proof fn lemma_alnum_end_bounds(s: Seq<char>, i: nat)
    requires
        i <= s.len(),
    ensures
        i <= alnum_end(s, i) <= s.len(),
        forall|k: int| i <= k < alnum_end(s, i) ==> is_alnum_char(s[k]),
        alnum_end(s, i) < s.len() ==> !is_alnum_char(s[alnum_end(s, i) as int]),
    decreases s.len() - i,
{
    if i < s.len() && is_alnum_char(s[i as int]) {
        lemma_alnum_end_bounds(s, i + 1);
    }
}

/// Scanning one lexeme consumes at least one character and never runs past
/// the end of the input.
pub proof fn lemma_scan_step_bounds(s: Seq<char>, i: nat, line: nat)
    requires
        i < s.len(),
    ensures
        i < scan_step(s, i, line).next <= s.len(),
{
    let c = s[i as int];
    if c == '/' && i + 1 < s.len() && s[i as int + 1] == '/' {
        lemma_find_from_bounds(s, i + 2, '\n');
    } else if c == '"' {
        lemma_find_from_bounds(s, i + 1, '"');
    } else if !(c == '(' || c == ')' || c == '{' || c == '}' || c == ',' || c == '.' || c == '-'
        || c == '+' || c == ';' || c == '*' || c == '!' || c == '=' || c == '<' || c == '>' || c
        == '/' || is_blank_char(c) || c == '\n') {
        if is_digit_char(c) {
            let j = digits_end(s, i + 1);
            lemma_digits_end_bounds(s, i + 1);
            if j + 1 < s.len() && s[j as int] == '.' && is_digit_char(s[j as int + 1]) {
                lemma_digits_end_bounds(s, j + 1);
            }
        } else if is_alpha_char(c) {
            lemma_alnum_end_bounds(s, i + 1);
        }
    }
}

/// The tokens, final line counter and error flag of scanning from position
/// `i` with the line counter at `line`, the terminal end-of-file token not
/// included.
pub open spec fn scan_rest(s: Seq<char>, i: nat, line: nat) -> SpecScan
    decreases s.len() - i,
    via scan_rest_decreases
{
    if i >= s.len() {
        SpecScan { tokens: Seq::empty(), line, had_errors: false }
    } else {
        let st = scan_step(s, i, line);
        let rest = scan_rest(s, st.next, st.line);
        SpecScan {
            tokens: match st.token {
                Some(t) => seq![t] + rest.tokens,
                None => rest.tokens,
            },
            line: rest.line,
            had_errors: st.error || rest.had_errors,
        }
    }
}

#[via_fn]
proof fn scan_rest_decreases(s: Seq<char>, i: nat, line: nat) {
    if i < s.len() {
        lemma_scan_step_bounds(s, i, line);
    }
}

/// What scanning a whole source text produces: every recognized token in
/// order, closed by exactly one end-of-file token tagged with the line
/// counter at termination. Scanning starts on line 1; errors never abort
/// it.
pub open spec fn scanned(s: Seq<char>) -> SpecScan {
    let r = scan_rest(s, 0, 1);
    SpecScan {
        tokens: r.tokens.push(SpecTokenInfo { token: SpecToken::EOF, line: r.line }),
        line: r.line,
        had_errors: r.had_errors,
    }
}

} // verus!
