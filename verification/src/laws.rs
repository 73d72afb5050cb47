//! Laws of the scanner, stated over the model and proved once for every
//! source text. `Scanner::scan_tokens` returns exactly
//! [`crate::model::scanned`] of its source, so each law carries over to
//! every scan.

use crate::model::SpecToken;
use crate::model::is_blank_char;
use crate::model::lemma_scan_step_bounds;
use crate::model::scan_rest;
use crate::model::scan_step;
use crate::model::scanned;
use vstd::prelude::*;

verus! {

proof fn lemma_whitespace_rest(s: Seq<char>, i: nat, line: nat)
    requires
        i <= s.len(),
        forall|k: int| 0 <= k < s.len() ==> is_blank_char(#[trigger] s[k]) || s[k] == '\n',
    ensures
        scan_rest(s, i, line).tokens == Seq::<crate::model::SpecTokenInfo>::empty(),
        !scan_rest(s, i, line).had_errors,
    decreases s.len() - i,
{
    if i < s.len() {
        let st = scan_step(s, i, line);
        lemma_scan_step_bounds(s, i, line);
        lemma_whitespace_rest(s, st.next, st.line);
    }
}

/// For every input consisting only of whitespace and newlines, the output
/// token sequence contains exactly one token — end-of-file — and no error
/// is found.
pub proof fn lemma_whitespace_scans_to_eof_alone(s: Seq<char>)
    requires
        forall|k: int| 0 <= k < s.len() ==> is_blank_char(#[trigger] s[k]) || s[k] == '\n',
    ensures
        scanned(s).tokens.len() == 1,
        scanned(s).tokens[0].token is EOF,
        !scanned(s).had_errors,
{
    lemma_whitespace_rest(s, 0, 1);
}

/// Greedy matching of two-character operators: wherever `!`, `=`, `<` or
/// `>` is followed by `=`, one lexeme consumes both characters and yields
/// the two-character operator token — never the one-character prefix
/// followed by an equal sign.
pub proof fn lemma_two_char_operators_take_precedence(s: Seq<char>, i: nat, line: nat)
    requires
        i + 1 < s.len(),
        s[i as int] == '!' || s[i as int] == '=' || s[i as int] == '<' || s[i as int] == '>',
        s[i as int + 1] == '=',
    ensures
        scan_step(s, i, line).next == i + 2,
        scan_step(s, i, line).token == Some(
            crate::model::SpecTokenInfo {
                token: if s[i as int] == '!' {
                    SpecToken::BangEqual
                } else if s[i as int] == '=' {
                    SpecToken::EqualEqual
                } else if s[i as int] == '<' {
                    SpecToken::LessEqual
                } else {
                    SpecToken::GreaterEqual
                },
                line,
            },
        ),
        !scan_step(s, i, line).error,
{
}

proof fn lemma_rest_no_eof(s: Seq<char>, i: nat, line: nat)
    requires
        i <= s.len(),
    ensures
        forall|k: int|
            0 <= k < scan_rest(s, i, line).tokens.len() ==> !((#[trigger] scan_rest(
                s,
                i,
                line,
            ).tokens[k]).token is EOF),
    decreases s.len() - i,
{
    if i < s.len() {
        let st = scan_step(s, i, line);
        lemma_scan_step_bounds(s, i, line);
        lemma_rest_no_eof(s, st.next, st.line);
    }
}

/// For every input, the token sequence is non-empty, its last token is
/// end-of-file, and no other token is end-of-file.
pub proof fn lemma_eof_exactly_last(s: Seq<char>)
    ensures
        scanned(s).tokens.len() >= 1,
        scanned(s).tokens.last().token is EOF,
        forall|k: int|
            0 <= k < scanned(s).tokens.len() - 1 ==> !((#[trigger] scanned(
                s,
            ).tokens[k]).token is EOF),
{
    lemma_rest_no_eof(s, 0, 1);
}

/// The payload of a token is a span of the source `s`: for identifier and
/// string tokens, the carried text equals a contiguous subrange of the
/// source, character for character. Other tokens carry no text.
pub open spec fn payload_is_span(t: SpecToken, s: Seq<char>) -> bool {
    match t {
        SpecToken::Identifier(txt) => exists|a: int, b: int|
            0 <= a <= b <= s.len() && txt == #[trigger] s.subrange(a, b),
        SpecToken::StringValue(txt) => exists|a: int, b: int|
            0 <= a <= b <= s.len() && txt == #[trigger] s.subrange(a, b),
        _ => true,
    }
}

proof fn lemma_step_payload(s: Seq<char>, i: nat, line: nat)
    requires
        i < s.len(),
    ensures
        match scan_step(s, i, line).token {
            Some(ti) => payload_is_span(ti.token, s),
            None => true,
        },
{
    let st = scan_step(s, i, line);
    lemma_scan_step_bounds(s, i, line);
    if st.token is Some {
        let t = st.token->Some_0.token;
        if t is Identifier {
            let txt = t->Identifier_0;
            assert(0 <= i as int <= st.next as int <= s.len());
            assert(txt == s.subrange(i as int, st.next as int));
        }
        if t is StringValue {
            let txt = t->StringValue_0;
            crate::model::lemma_find_from_bounds(s, i + 1, '"');
            assert(0 <= i as int + 1 <= st.next as int - 1 <= s.len());
            assert(txt == s.subrange(i as int + 1, st.next as int - 1));
        }
    }
}

proof fn lemma_rest_payloads(s: Seq<char>, i: nat, line: nat)
    requires
        i <= s.len(),
    ensures
        forall|k: int|
            0 <= k < scan_rest(s, i, line).tokens.len() ==> payload_is_span(
                (#[trigger] scan_rest(s, i, line).tokens[k]).token,
                s,
            ),
    decreases s.len() - i,
{
    if i < s.len() {
        let st = scan_step(s, i, line);
        lemma_scan_step_bounds(s, i, line);
        lemma_step_payload(s, i, line);
        lemma_rest_payloads(s, st.next, st.line);
    }
}

/// Round-trip of literal text: in every scan, the text carried by an
/// identifier or string token equals the corresponding contiguous span of
/// the original source, character for character — the scanner extracts
/// spans, it does not reconstruct text.
pub proof fn lemma_literal_payloads_are_source_spans(s: Seq<char>)
    ensures
        forall|k: int|
            0 <= k < scanned(s).tokens.len() ==> payload_is_span(
                (#[trigger] scanned(s).tokens[k]).token,
                s,
            ),
{
    lemma_rest_payloads(s, 0, 1);
}

} // verus!
