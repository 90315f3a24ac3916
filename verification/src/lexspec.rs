//! The mathematical model of the token scan.
//!
//! A scan state is the input text together with a cursor: an index and the
//! 1-based line and column of that index. Every scanning routine of the
//! executable lexer is mirrored here by a total spec function from state
//! to result and successor state; the lexer's contracts say that the code
//! computes exactly these functions.

use vstd::prelude::*;

use crate::errors::LexerErrorKinds;
use crate::errors::SpecLexerError;
use crate::jsonvalue::SpecTokenKind;

verus! {

/// A scan state: the whole input text and the cursor into it.
pub struct LexState {
    pub text: Seq<char>,
    pub pos: nat,
    pub line: nat,
    pub col: nat,
}

/// A token at spec level: a kind and the position of its first character
/// (for `EOF`, the position just past the input).
pub struct SpecToken {
    pub kind: SpecTokenKind,
    pub line: nat,
    pub col: nat,
}

/// How many newline characters lie before `pos` in the text.
pub open spec fn newline_count(text: Seq<char>, pos: nat) -> nat
    decreases pos,
{
    if pos == 0 {
        0
    } else if text[pos - 1] == '\n' {
        newline_count(text, (pos - 1) as nat) + 1
    } else {
        newline_count(text, (pos - 1) as nat)
    }
}

/// The index at which the line holding `pos` begins: just after the
/// last newline before `pos`, or the start of the text.
pub open spec fn line_start(text: Seq<char>, pos: nat) -> nat
    decreases pos,
{
    if pos == 0 {
        0
    } else if text[pos - 1] == '\n' {
        pos
    } else {
        line_start(text, (pos - 1) as nat)
    }
}

/// The position contract in closed form: the line is one more than the
/// number of newlines before the cursor, and the column counts the
/// characters since that line began, 1-based.
pub open spec fn position_consistent(st: LexState) -> bool {
    &&& st.line == 1 + newline_count(st.text, st.pos)
    &&& st.col == st.pos - line_start(st.text, st.pos) + 1
}

/// The cursor lies within the text, the line and column are 1-based and
/// can never have outrun the number of characters consumed, and they
/// satisfy the closed-form position contract. Every scanning function
/// preserves this, so each position a token or an error carries is the
/// true line and column of the cursor it was taken at.
pub open spec fn lex_wf(st: LexState) -> bool {
    &&& st.pos <= st.text.len()
    &&& 1 <= st.line <= st.pos + 1
    &&& 1 <= st.col <= st.pos + 1
    &&& position_consistent(st)
}

/// The character under the cursor.
pub open spec fn cur(st: LexState) -> char {
    st.text[st.pos as int]
}

/// Whether the cursor has reached the end of the text.
pub open spec fn at_end(st: LexState) -> bool {
    st.pos >= st.text.len()
}

/// Consuming one character: a newline starts a new line, anything else
/// moves one column to the right. At the end of the text, no effect.
pub open spec fn step(st: LexState) -> LexState {
    if at_end(st) {
        st
    } else if cur(st) == '\n' {
        LexState { text: st.text, pos: st.pos + 1, line: st.line + 1, col: 1 }
    } else {
        LexState { text: st.text, pos: st.pos + 1, line: st.line, col: st.col + 1 }
    }
}

/// A lexical error at the current cursor position.
pub open spec fn lex_err(st: LexState, kind: LexerErrorKinds) -> SpecLexerError {
    SpecLexerError { kind, line: st.line, col: st.col }
}

/// The Unicode `White_Space` characters: exactly those the scanner skips
/// between tokens.
pub open spec fn is_ws_char(c: char) -> bool {
    let u = c as u32;
    ||| u == 0x20
    ||| u == 0x09
    ||| u == 0x0a
    ||| u == 0x0d
    ||| u == 0x0b
    ||| u == 0x0c
    ||| u == 0x85
    ||| u == 0xa0
    ||| u == 0x1680
    ||| (0x2000 <= u && u <= 0x200a)
    ||| u == 0x2028
    ||| u == 0x2029
    ||| u == 0x202f
    ||| u == 0x205f
    ||| u == 0x3000
}

/// ASCII decimal digit.
pub open spec fn is_digit_char(c: char) -> bool {
    0x30 <= c as u32 && c as u32 <= 0x39
}

/// ASCII hexadecimal digit.
pub open spec fn is_hex_char(c: char) -> bool {
    let u = c as u32;
    ||| (0x30 <= u && u <= 0x39)
    ||| (0x61 <= u && u <= 0x66)
    ||| (0x41 <= u && u <= 0x46)
}

/// ASCII letter or digit.
pub open spec fn is_alnum_char(c: char) -> bool {
    let u = c as u32;
    ||| (0x30 <= u && u <= 0x39)
    ||| (0x61 <= u && u <= 0x7a)
    ||| (0x41 <= u && u <= 0x5a)
}

/// The numeric value of a hexadecimal digit.
pub open spec fn hex_val(c: char) -> nat {
    let u = c as u32;
    if 0x30 <= u && u <= 0x39 {
        (u - 0x30) as nat
    } else if 0x61 <= u && u <= 0x66 {
        (u - 0x61 + 10) as nat
    } else if 0x41 <= u && u <= 0x46 {
        (u - 0x41 + 10) as nat
    } else {
        0
    }
}

/// The state after skipping every whitespace character under the cursor.
pub open spec fn skip_ws(st: LexState) -> LexState
    decreases st.text.len() - st.pos,
{
    if !at_end(st) && is_ws_char(cur(st)) {
        skip_ws(step(st))
    } else {
        st
    }
}

/// The single-character escapes and what they decode to.
pub open spec fn simple_escape(c: char) -> Option<char> {
    if c == '"' {
        Some('"')
    } else if c == '\\' {
        Some('\\')
    } else if c == '/' {
        Some('/')
    } else if c == 'b' {
        Some('\u{8}')
    } else if c == 'f' {
        Some('\u{c}')
    } else if c == 'n' {
        Some('\n')
    } else if c == 'r' {
        Some('\r')
    } else if c == 't' {
        Some('\t')
    } else {
        None
    }
}

/// Reading `k` hexadecimal digits, folding them into `acc`. Fails with
/// `InvalidEscape` at the offending position if a digit is missing.
pub open spec fn read_hex(st: LexState, k: nat, acc: nat) -> (Result<nat, SpecLexerError>, LexState)
    decreases k,
{
    if k == 0 {
        (Ok(acc), st)
    } else if !at_end(st) && is_hex_char(cur(st)) {
        read_hex(step(st), (k - 1) as nat, acc * 16 + hex_val(cur(st)))
    } else {
        (Err(lex_err(st, LexerErrorKinds::InvalidEscape)), st)
    }
}

/// Decoding one escape sequence, entered with the cursor on the backslash.
/// Yields the decoded character and the state past the sequence.
pub open spec fn read_escape(st: LexState) -> (Result<char, SpecLexerError>, LexState) {
    let st1 = step(st);
    if at_end(st1) {
        (Err(lex_err(st1, LexerErrorKinds::InvalidEscape)), st1)
    } else if simple_escape(cur(st1)) is Some {
        (Ok(simple_escape(cur(st1))->0), step(st1))
    } else if cur(st1) == 'u' {
        let (r, st2) = read_hex(step(st1), 4, 0);
        match r {
            Ok(v) => if v < 0xd800 || 0xe000 <= v {
                (Ok(((v as u32) as char)), st2)
            } else {
                (Err(lex_err(st2, LexerErrorKinds::InvalidEscape)), st2)
            },
            Err(e) => (Err(e), st2),
        }
    } else {
        (Err(lex_err(st1, LexerErrorKinds::InvalidEscapeChar(cur(st1)))), st1)
    }
}

/// Reading hexadecimal digits leaves the text alone and only moves the
/// cursor forward, never past the end.
pub proof fn lemma_read_hex_cursor(st: LexState, k: nat, acc: nat)
    ensures
        ({
            let (r, st1) = read_hex(st, k, acc);
            &&& st1.text == st.text
            &&& st1.pos >= st.pos
            &&& st.pos <= st.text.len() ==> st1.pos <= st.text.len()
        }),
    decreases k,
{
    if k > 0 && !at_end(st) && is_hex_char(cur(st)) {
        lemma_read_hex_cursor(step(st), (k - 1) as nat, acc * 16 + hex_val(cur(st)));
    }
}

/// Decoding an escape leaves the text alone, only moves the cursor
/// forward and never past the end, and on success consumes at least one
/// character.
pub proof fn lemma_read_escape_cursor(st: LexState)
    ensures
        ({
            let (r, st1) = read_escape(st);
            &&& st1.text == st.text
            &&& st1.pos >= st.pos
            &&& st.pos <= st.text.len() ==> st1.pos <= st.text.len()
            &&& r is Ok ==> st1.pos > st.pos
        }),
{
    let st1 = step(st);
    if !at_end(st1) && !(simple_escape(cur(st1)) is Some) && cur(st1) == 'u' {
        lemma_read_hex_cursor(step(st1), 4, 0);
    }
}

/// Scanning the body of a string literal, entered just past the opening
/// quote. Yields the decoded contents and the state past the closing
/// quote.
pub open spec fn read_string_body(st: LexState) -> (Result<Seq<char>, SpecLexerError>, LexState)
    decreases st.text.len() - st.pos,
    via read_string_body_decreases
{
    if at_end(st) {
        (Err(lex_err(st, LexerErrorKinds::UnclosedString)), st)
    } else {
        let c = cur(st);
        if c == '"' {
            (Ok(Seq::empty()), step(st))
        } else if c == '\n' || c == '\r' {
            (Err(lex_err(st, LexerErrorKinds::UnclosedString)), st)
        } else if (c as u32) < 0x20 {
            (Err(lex_err(st, LexerErrorKinds::UnescapedControlCharacter)), st)
        } else if c == '\\' {
            let (r, st1) = read_escape(st);
            match r {
                Ok(ch) => {
                    let (r2, st2) = read_string_body(st1);
                    match r2 {
                        Ok(s) => (Ok(seq![ch] + s), st2),
                        Err(e) => (Err(e), st2),
                    }
                },
                Err(e) => (Err(e), st1),
            }
        } else {
            let (r2, st2) = read_string_body(step(st));
            match r2 {
                Ok(s) => (Ok(seq![c] + s), st2),
                Err(e) => (Err(e), st2),
            }
        }
    }
}

#[via_fn]
proof fn read_string_body_decreases(st: LexState) {
    lemma_read_escape_cursor(st);
}

/// A maximal run of decimal digits and the state past it.
pub open spec fn read_digits(st: LexState) -> (Seq<char>, LexState)
    decreases st.text.len() - st.pos,
{
    if !at_end(st) && is_digit_char(cur(st)) {
        let (s, st1) = read_digits(step(st));
        (seq![cur(st)] + s, st1)
    } else {
        (Seq::empty(), st)
    }
}

/// The integer part of a number: a single `0`, or a nonzero digit followed
/// by more digits. A `0` followed by another digit is a leading zero.
pub open spec fn read_integer_part(st: LexState) -> (Result<Seq<char>, LexerErrorKinds>, LexState) {
    if !at_end(st) && cur(st) == '0' {
        let st1 = step(st);
        if !at_end(st1) && is_digit_char(cur(st1)) {
            (Err(LexerErrorKinds::LeadingZero), st1)
        } else {
            (Ok(seq!['0']), st1)
        }
    } else if !at_end(st) && is_digit_char(cur(st)) {
        let (s, st1) = read_digits(st);
        (Ok(s), st1)
    } else {
        (Err(LexerErrorKinds::InvalidNumber), st)
    }
}

/// The optional fraction: a dot must be followed by at least one digit.
pub open spec fn read_fraction_part(st: LexState) -> (Result<Seq<char>, LexerErrorKinds>, LexState) {
    if !at_end(st) && cur(st) == '.' {
        let (s, st1) = read_digits(step(st));
        if s.len() == 0 {
            (Err(LexerErrorKinds::InvalidDecimal), st1)
        } else {
            (Ok(seq!['.'] + s), st1)
        }
    } else {
        (Ok(Seq::empty()), st)
    }
}

/// The optional exponent: `e` or `E` (normalized to `e` in the recorded
/// text), an optional sign, then at least one digit.
pub open spec fn read_exponent_part(st: LexState) -> (Result<Seq<char>, LexerErrorKinds>, LexState) {
    if !at_end(st) && (cur(st) == 'e' || cur(st) == 'E') {
        let st1 = step(st);
        let (sign, st2) = if !at_end(st1) && (cur(st1) == '+' || cur(st1) == '-') {
            (seq![cur(st1)], step(st1))
        } else {
            (Seq::<char>::empty(), st1)
        };
        let (s, st3) = read_digits(st2);
        if s.len() == 0 {
            (Err(LexerErrorKinds::InvalidExponent), st3)
        } else {
            (Ok(seq!['e'] + sign + s), st3)
        }
    } else {
        (Ok(Seq::empty()), st)
    }
}

/// The characters recorded for an exponent marker before its digits are
/// read: a lowercase `e`, and the sign if one follows the marker.
pub open spec fn exponent_prefix(st: LexState) -> Seq<char> {
    let st1 = step(st);
    if !at_end(st1) && (cur(st1) == '+' || cur(st1) == '-') {
        seq!['e', cur(st1)]
    } else {
        seq!['e']
    }
}

/// Scanning a whole number, entered with the cursor on its first character
/// (a digit or `-`). Yields the validated literal text. Every failure is
/// reported at the first character of the number.
pub open spec fn read_number_text(st: LexState) -> (Result<Seq<char>, SpecLexerError>, LexState) {
    let (sign, st1) = if !at_end(st) && cur(st) == '-' {
        (seq!['-'], step(st))
    } else {
        (Seq::<char>::empty(), st)
    };
    let (ri, st2) = read_integer_part(st1);
    match ri {
        Err(k) => (Err(lex_err(st, k)), st2),
        Ok(ip) => {
            let (rf, st3) = read_fraction_part(st2);
            match rf {
                Err(k) => (Err(lex_err(st, k)), st3),
                Ok(fp) => {
                    let (re, st4) = read_exponent_part(st3);
                    match re {
                        Err(k) => (Err(lex_err(st, k)), st4),
                        Ok(ep) => (Ok(sign + ip + fp + ep), st4),
                    }
                },
            }
        },
    }
}

/// Matching the tail of a literal keyword character by character; after a
/// full match the next character must not be alphanumeric. A mismatch is
/// reported at the mismatching position.
pub open spec fn match_literal(st: LexState, lit: Seq<char>) -> (Result<(), SpecLexerError>, LexState)
    decreases lit.len(),
{
    if lit.len() == 0 {
        if !at_end(st) && is_alnum_char(cur(st)) {
            (Err(lex_err(st, LexerErrorKinds::InvalidLiteral)), st)
        } else {
            (Ok(()), st)
        }
    } else if !at_end(st) && cur(st) == lit[0] {
        match_literal(step(st), lit.drop_first())
    } else {
        (Err(lex_err(st, LexerErrorKinds::InvalidLiteral)), st)
    }
}

/// The keyword that begins with the given character.
pub open spec fn literal_text(b: char) -> Seq<char> {
    if b == 't' {
        seq!['t', 'r', 'u', 'e']
    } else if b == 'f' {
        seq!['f', 'a', 'l', 's', 'e']
    } else {
        seq!['n', 'u', 'l', 'l']
    }
}

/// The token kind of the keyword that begins with the given character.
pub open spec fn literal_kind(b: char) -> SpecTokenKind {
    if b == 't' {
        SpecTokenKind::True
    } else if b == 'f' {
        SpecTokenKind::False
    } else {
        SpecTokenKind::Null
    }
}

/// A token whose first character sits at `st`.
pub open spec fn tok_at(kind: SpecTokenKind, st: LexState) -> SpecToken {
    SpecToken { kind, line: st.line, col: st.col }
}

/// Scanning one token: skip whitespace, then dispatch on the next
/// character. Yields the token (positioned at its first character) and
/// the state past it, or the first lexical error. After an
/// `UnexcpectedChar` error the offending character has been consumed, so
/// a caller that keeps scanning makes progress.
pub open spec fn next_token_spec(st: LexState) -> (Result<SpecToken, SpecLexerError>, LexState) {
    let st0 = skip_ws(st);
    if at_end(st0) {
        (Ok(tok_at(SpecTokenKind::EOF, st0)), st0)
    } else {
        let c = cur(st0);
        if c == '{' {
            (Ok(tok_at(SpecTokenKind::LeftBrace, st0)), step(st0))
        } else if c == '}' {
            (Ok(tok_at(SpecTokenKind::RightBrace, st0)), step(st0))
        } else if c == '[' {
            (Ok(tok_at(SpecTokenKind::LeftBracket, st0)), step(st0))
        } else if c == ']' {
            (Ok(tok_at(SpecTokenKind::RightBracket, st0)), step(st0))
        } else if c == ':' {
            (Ok(tok_at(SpecTokenKind::Colon, st0)), step(st0))
        } else if c == ',' {
            (Ok(tok_at(SpecTokenKind::Comma, st0)), step(st0))
        } else if c == '"' {
            let (r, st1) = read_string_body(step(st0));
            match r {
                Ok(s) => (Ok(tok_at(SpecTokenKind::String(s), st0)), st1),
                Err(e) => (Err(e), st1),
            }
        } else if is_digit_char(c) || c == '-' {
            let (r, st1) = read_number_text(st0);
            match r {
                Ok(s) => (Ok(tok_at(SpecTokenKind::Number(s), st0)), st1),
                Err(e) => (Err(e), st1),
            }
        } else if c == 't' {
            let (r, st1) = match_literal(st0, seq!['t', 'r', 'u', 'e']);
            match r {
                Ok(u) => (Ok(tok_at(SpecTokenKind::True, st0)), st1),
                Err(e) => (Err(e), st1),
            }
        } else if c == 'f' {
            let (r, st1) = match_literal(st0, seq!['f', 'a', 'l', 's', 'e']);
            match r {
                Ok(u) => (Ok(tok_at(SpecTokenKind::False, st0)), st1),
                Err(e) => (Err(e), st1),
            }
        } else if c == 'n' {
            let (r, st1) = match_literal(st0, seq!['n', 'u', 'l', 'l']);
            match r {
                Ok(u) => (Ok(tok_at(SpecTokenKind::Null, st0)), st1),
                Err(e) => (Err(e), st1),
            }
        } else {
            (Err(lex_err(st0, LexerErrorKinds::UnexcpectedChar(c))), step(st0))
        }
    }
}

/// Stepping keeps the text, moves the cursor at most one character, and
/// preserves well-formedness.
pub proof fn lemma_step_wf(st: LexState)
    requires
        lex_wf(st),
    ensures
        lex_wf(step(st)),
        step(st).text == st.text,
        st.pos <= step(st).pos <= st.pos + 1,
        !at_end(st) ==> step(st).pos == st.pos + 1,
{
}

/// Skipping whitespace keeps the text, moves the cursor only forward, and
/// preserves well-formedness; afterwards the cursor is at the end or on a
/// non-whitespace character.
pub proof fn lemma_skip_ws_wf(st: LexState)
    requires
        lex_wf(st),
    ensures
        lex_wf(skip_ws(st)),
        skip_ws(st).text == st.text,
        skip_ws(st).pos >= st.pos,
        at_end(skip_ws(st)) || !is_ws_char(cur(skip_ws(st))),
    decreases st.text.len() - st.pos,
{
    if !at_end(st) && is_ws_char(cur(st)) {
        lemma_skip_ws_wf(step(st));
    }
}

/// Reading hexadecimal digits preserves well-formedness.
pub proof fn lemma_read_hex_wf(st: LexState, k: nat, acc: nat)
    requires
        lex_wf(st),
    ensures
        ({
            let (r, st1) = read_hex(st, k, acc);
            &&& lex_wf(st1)
            &&& st1.text == st.text
            &&& st1.pos >= st.pos
        }),
    decreases k,
{
    if k > 0 && !at_end(st) && is_hex_char(cur(st)) {
        lemma_read_hex_wf(step(st), (k - 1) as nat, acc * 16 + hex_val(cur(st)));
    }
}

/// Decoding an escape preserves well-formedness; on success at least one
/// character was consumed.
pub proof fn lemma_read_escape_wf(st: LexState)
    requires
        lex_wf(st),
    ensures
        ({
            let (r, st1) = read_escape(st);
            &&& lex_wf(st1)
            &&& st1.text == st.text
            &&& st1.pos >= st.pos
            &&& r is Ok ==> st1.pos > st.pos
        }),
{
    let st1 = step(st);
    lemma_step_wf(st);
    lemma_step_wf(st1);
    if !at_end(st1) && !(simple_escape(cur(st1)) is Some) && cur(st1) == 'u' {
        lemma_read_hex_wf(step(st1), 4, 0);
    }
}

/// Scanning a string body preserves well-formedness and moves the cursor
/// only forward.
pub proof fn lemma_read_string_body_wf(st: LexState)
    requires
        lex_wf(st),
    ensures
        ({
            let (r, st1) = read_string_body(st);
            &&& lex_wf(st1)
            &&& st1.text == st.text
            &&& st1.pos >= st.pos
        }),
    decreases st.text.len() - st.pos,
{
    if !at_end(st) {
        let c = cur(st);
        if c == '"' || c == '\n' || c == '\r' || (c as u32) < 0x20 {
        } else if c == '\\' {
            lemma_read_escape_wf(st);
            lemma_read_escape_cursor(st);
            let (r, st1) = read_escape(st);
            if r is Ok {
                lemma_read_string_body_wf(st1);
            }
        } else {
            lemma_read_string_body_wf(step(st));
        }
    }
}

/// A digit run preserves well-formedness; the characters read are exactly
/// as many as the cursor moved.
pub proof fn lemma_read_digits_wf(st: LexState)
    requires
        lex_wf(st),
    ensures
        ({
            let (s, st1) = read_digits(st);
            &&& lex_wf(st1)
            &&& st1.text == st.text
            &&& st1.pos == st.pos + s.len()
        }),
    decreases st.text.len() - st.pos,
{
    if !at_end(st) && is_digit_char(cur(st)) {
        lemma_read_digits_wf(step(st));
    }
}

/// Scanning a whole number preserves well-formedness and moves the cursor
/// only forward; on success it consumed at least one character.
pub proof fn lemma_read_number_text_wf(st: LexState)
    requires
        lex_wf(st),
    ensures
        ({
            let (r, st1) = read_number_text(st);
            &&& lex_wf(st1)
            &&& st1.text == st.text
            &&& st1.pos >= st.pos
            &&& r is Ok ==> st1.pos > st.pos
        }),
{
    let (sign, st1) = if !at_end(st) && cur(st) == '-' {
        (seq!['-'], step(st))
    } else {
        (Seq::<char>::empty(), st)
    };
    let (ri, st2) = read_integer_part(st1);
    lemma_read_digits_wf(st1);
    if !at_end(st1) && cur(st1) == '0' {
        lemma_step_wf(st1);
    }
    if ri is Ok {
        lemma_read_digits_wf(st2);
        let (rf, st3) = read_fraction_part(st2);
        if !at_end(st2) && cur(st2) == '.' {
            lemma_step_wf(st2);
            lemma_read_digits_wf(step(st2));
        }
        if rf is Ok {
            if !at_end(st3) && (cur(st3) == 'e' || cur(st3) == 'E') {
                let st4 = step(st3);
                lemma_step_wf(st3);
                if !at_end(st4) && (cur(st4) == '+' || cur(st4) == '-') {
                    lemma_step_wf(st4);
                    lemma_read_digits_wf(step(st4));
                } else {
                    lemma_read_digits_wf(st4);
                }
            }
        }
    }
}

/// Matching a literal preserves well-formedness and on success consumed
/// exactly the literal's characters.
pub proof fn lemma_match_literal_wf(st: LexState, lit: Seq<char>)
    requires
        lex_wf(st),
    ensures
        ({
            let (r, st1) = match_literal(st, lit);
            &&& lex_wf(st1)
            &&& st1.text == st.text
            &&& st1.pos >= st.pos
            &&& r is Ok ==> st1.pos == st.pos + lit.len()
        }),
    decreases lit.len(),
{
    if lit.len() == 0 {
    } else if !at_end(st) && cur(st) == lit[0] {
        lemma_match_literal_wf(step(st), lit.drop_first());
    }
}

/// Scanning one token preserves well-formedness and moves the cursor only
/// forward; any token other than `EOF` consumed at least one character.
pub proof fn lemma_next_token_wf(st: LexState)
    requires
        lex_wf(st),
    ensures
        ({
            let (r, st1) = next_token_spec(st);
            &&& lex_wf(st1)
            &&& st1.text == st.text
            &&& st1.pos >= st.pos
            &&& (r is Ok && !(r->Ok_0.kind is EOF)) ==> st1.pos > st.pos
        }),
{
    lemma_skip_ws_wf(st);
    let st0 = skip_ws(st);
    if !at_end(st0) {
        let c = cur(st0);
        if c == '"' {
            lemma_step_wf(st0);
            lemma_read_string_body_wf(step(st0));
        } else if is_digit_char(c) || c == '-' {
            lemma_read_number_text_wf(st0);
        } else if c == 't' {
            lemma_match_literal_wf(st0, seq!['t', 'r', 'u', 'e']);
        } else if c == 'f' {
            lemma_match_literal_wf(st0, seq!['f', 'a', 'l', 's', 'e']);
        } else if c == 'n' {
            lemma_match_literal_wf(st0, seq!['n', 'u', 'l', 'l']);
        }
    }
}

} // verus!
