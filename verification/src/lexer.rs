//! The executable lexer: one token per call, scanning the input character
//! by character while tracking 1-based line and column.
//!
//! Every method's contract equates its outcome with the corresponding
//! spec function over the lexer's abstract state (`LexState`), so the
//! token stream of an input is pinned down completely.

use vstd::prelude::*;
use vstd::string::StrSliceExecFns;

use crate::errors::LexerError;
use crate::errors::LexerErrorKinds;
use crate::jsonvalue::TokenKind;
use crate::lexspec::LexState;
use crate::lexspec::SpecToken;
use crate::lexspec::at_end;
use crate::lexspec::cur;
use crate::lexspec::is_alnum_char;
use crate::lexspec::is_digit_char;
use crate::lexspec::is_hex_char;
use crate::lexspec::is_ws_char;
use crate::lexspec::hex_val;
use crate::lexspec::lex_err;
use crate::lexspec::lex_wf;
use crate::lexspec::skip_ws;
use crate::lexspec::step;
use crate::strutil::push_char;

verus! {

/// A token with the 1-based line and column of its first character.
#[derive(Debug, Clone, PartialEq, Eq)]
pub struct Token {
    pub kind: TokenKind,
    pub line: usize,
    pub column: usize,
}

impl View for Token {
    type V = SpecToken;

    open spec fn view(&self) -> SpecToken {
        SpecToken { kind: self.kind@, line: self.line as nat, col: self.column as nat }
    }
}

/// The lexer: the input as characters, a cursor into it, and the 1-based
/// position of the cursor.
pub struct Lexer {
    input: Vec<char>,
    line: usize,
    column: usize,
    pos: usize,
}

impl View for Lexer {
    type V = LexState;

    closed spec fn view(&self) -> LexState {
        LexState {
            text: self.input@,
            pos: self.pos as nat,
            line: self.line as nat,
            col: self.column as nat,
        }
    }
}

impl Lexer {
    /// The cursor is inside the text, positions are 1-based and bounded,
    /// and one more character than the text holds still fits in `usize`.
    pub open spec fn wf(&self) -> bool {
        &&& lex_wf(self@)
        &&& self@.text.len() < usize::MAX
    }

    /// Builds a lexer over the given text, with the cursor at its start.
    pub fn new(input: &str) -> (r: Self)
        requires
            input@.len() < usize::MAX,
        ensures
            r.wf(),
            r@ == (LexState { text: input@, pos: 0 as nat, line: 1 as nat, col: 1 as nat }),
    {
        let n = input.unicode_len();
        let mut chars: Vec<char> = Vec::new();
        let mut i: usize = 0;
        while i < n
            invariant
                i <= n,
                n == input@.len(),
                chars@.len() == i,
                forall|j: int| 0 <= j < i ==> chars@[j] == input@[j],
            decreases n - i,
        {
            let c = input.get_char(i);
            chars.push(c);
            i = i + 1;
        }
        proof {
            assert(chars@ =~= input@);
        }
        Lexer { input: chars, line: 1, column: 1, pos: 0 }
    }

    /// The character under the cursor, if any. Does not consume.
    pub fn peek(&self) -> (r: Option<char>)
        requires
            self.wf(),
        ensures
            r == (if at_end(self@) {
                None::<char>
            } else {
                Some(cur(self@))
            }),
    {
        if self.pos < self.input.len() {
            Some(self.input[self.pos])
        } else {
            None
        }
    }

    /// Consumes one character, starting a new line on a newline.
    pub fn advance(&mut self)
        requires
            old(self).wf(),
        ensures
            final(self).wf(),
            final(self)@ == step(old(self)@),
    {
        if self.pos < self.input.len() {
            let c = self.input[self.pos];
            self.pos = self.pos + 1;
            if c == '\n' {
                self.line = self.line + 1;
                self.column = 1;
            } else {
                self.column = self.column + 1;
            }
        }
    }

    /// Consumes the cursor character if it is the expected one.
    fn expect_char(&mut self, expected: char) -> (b: bool)
        requires
            old(self).wf(),
        ensures
            final(self).wf(),
            b == (!at_end(old(self)@) && cur(old(self)@) == expected),
            b ==> final(self)@ == step(old(self)@),
            !b ==> final(self)@ == old(self)@,
    {
        match self.peek() {
            Some(c) => {
                if c == expected {
                    self.advance();
                    true
                } else {
                    false
                }
            },
            None => false,
        }
    }

    /// Consumes every whitespace character under the cursor.
    pub fn skip_whitespace(&mut self)
        requires
            old(self).wf(),
        ensures
            final(self).wf(),
            final(self)@ == skip_ws(old(self)@),
    {
        loop
            invariant
                self.wf(),
                skip_ws(self@) == skip_ws(old(self)@),
            ensures
                self@ == skip_ws(old(self)@),
            decreases self@.text.len() - self@.pos,
        {
            match self.peek() {
                Some(c) => {
                    if is_whitespace_char(c) {
                        self.advance();
                    } else {
                        break;
                    }
                },
                None => {
                    break;
                },
            }
        }
    }

    /// Decodes one escape sequence, entered with the cursor on the
    /// backslash, appending the decoded character to `result`.
    fn read_escape_sequence(&mut self, result: &mut String) -> (r: Result<(), LexerError>)
        requires
            old(self).wf(),
            !at_end(old(self)@),
            cur(old(self)@) == '\\',
        ensures
            final(self).wf(),
            ({
                let (rs, st1) = crate::lexspec::read_escape(old(self)@);
                &&& final(self)@ == st1
                &&& match (r, rs) {
                    (Ok(u), Ok(ch)) => final(result)@ == old(result)@.push(ch),
                    (Err(e), Err(eq)) => e@ == eq && final(result)@ == old(result)@,
                    _ => false,
                }
            }),
    {
        self.advance();
        let c = match self.peek() {
            Some(c) => c,
            None => {
                return Err(self.return_error(LexerErrorKinds::InvalidEscape));
            },
        };
        match c {
            '"' => {
                push_char(result, '"');
                self.advance();
                Ok(())
            },
            '\\' => {
                push_char(result, '\\');
                self.advance();
                Ok(())
            },
            '/' => {
                push_char(result, '/');
                self.advance();
                Ok(())
            },
            'b' => {
                push_char(result, '\u{8}');
                self.advance();
                Ok(())
            },
            'f' => {
                push_char(result, '\u{c}');
                self.advance();
                Ok(())
            },
            'n' => {
                push_char(result, '\n');
                self.advance();
                Ok(())
            },
            'r' => {
                push_char(result, '\r');
                self.advance();
                Ok(())
            },
            't' => {
                push_char(result, '\t');
                self.advance();
                Ok(())
            },
            'u' => {
                self.advance();
                let code = match self.read_hex_quad() {
                    Ok(v) => v,
                    Err(e) => {
                        return Err(e);
                    },
                };
                if 0xd800 <= code && code < 0xe000 {
                    return Err(self.return_error(LexerErrorKinds::InvalidEscape));
                }
                match crate::strutil::char_from_u32(code) {
                    Some(ch) => {
                        push_char(result, ch);
                        Ok(())
                    },
                    None => Err(self.return_error(LexerErrorKinds::InvalidEscape)),
                }
            },
            other => Err(self.return_error(LexerErrorKinds::InvalidEscapeChar(other))),
        }
    }

    /// Reads exactly four hexadecimal digits as a code point value.
    fn read_hex_quad(&mut self) -> (r: Result<u32, LexerError>)
        requires
            old(self).wf(),
        ensures
            final(self).wf(),
            ({
                let (rs, st1) = crate::lexspec::read_hex(old(self)@, 4, 0);
                &&& final(self)@ == st1
                &&& match (r, rs) {
                    (Ok(v), Ok(n)) => v as nat == n && v <= 0xffff,
                    (Err(e), Err(eq)) => e@ == eq,
                    _ => false,
                }
            }),
    {
        let mut code: u32 = 0;
        let mut k: usize = 0;
        loop
            invariant
                self.wf(),
                k <= 4,
                code < 0x10000,
                ({
                    let (rs, st1) = crate::lexspec::read_hex(old(self)@, 4, 0);
                    let (rc, stc) = crate::lexspec::read_hex(self@, (4 - k) as nat, code as nat);
                    st1 == stc && rs == rc
                }),
                k == 0 ==> code == 0,
                k == 1 ==> code < 0x10,
                k == 2 ==> code < 0x100,
                k == 3 ==> code < 0x1000,
            ensures
                k == 4,
                ({
                    let (rs, st1) = crate::lexspec::read_hex(old(self)@, 4, 0);
                    st1 == self@ && rs == Ok::<nat, crate::errors::SpecLexerError>(code as nat)
                }),
            decreases 4 - k,
        {
            if k == 4 {
                break;
            }
            match self.peek() {
                Some(c) => {
                    if is_ascii_hex_char(c) {
                        let d = hex_digit_val(c);
                        code = code * 16 + d;
                        self.advance();
                        k = k + 1;
                    } else {
                        return Err(self.return_error(LexerErrorKinds::InvalidEscape));
                    }
                },
                None => {
                    return Err(self.return_error(LexerErrorKinds::InvalidEscape));
                },
            }
        }
        Ok(code)
    }

    /// Scans a string literal, entered with the cursor on the opening
    /// quote, and yields its decoded contents.
    pub fn read_string(&mut self) -> (r: Result<String, LexerError>)
        requires
            old(self).wf(),
            !at_end(old(self)@),
            cur(old(self)@) == '"',
        ensures
            final(self).wf(),
            ({
                let (rs, st1) = crate::lexspec::read_string_body(step(old(self)@));
                &&& final(self)@ == st1
                &&& match (r, rs) {
                    (Ok(s), Ok(sq)) => s@ == sq,
                    (Err(e), Err(eq)) => e@ == eq,
                    _ => false,
                }
            }),
    {
        let mut result = String::new();
        self.advance();
        loop
            invariant
                self.wf(),
                ({
                    let (rs, st1) = crate::lexspec::read_string_body(step(old(self)@));
                    let (rc, stc) = crate::lexspec::read_string_body(self@);
                    &&& st1 == stc
                    &&& match (rs, rc) {
                        (Ok(a), Ok(b)) => a == result@ + b,
                        (Err(x), Err(y)) => x == y,
                        _ => false,
                    }
                }),
            decreases self@.text.len() - self@.pos,
        {
            match self.peek() {
                None => {
                    return Err(self.return_error(LexerErrorKinds::UnclosedString));
                },
                Some(c) => {
                    if c == '"' {
                        self.advance();
                        proof {
                            assert(result@ + Seq::<char>::empty() =~= result@);
                        }
                        return Ok(result);
                    } else if c == '\n' || c == '\r' {
                        return Err(self.return_error(LexerErrorKinds::UnclosedString));
                    } else if (c as u32) < 0x20 {
                        return Err(self.return_error(LexerErrorKinds::UnescapedControlCharacter));
                    } else if c == '\\' {
                        let ghost pre = self@;
                        let ghost acc_pre = result@;
                        match self.read_escape_sequence(&mut result) {
                            Ok(u) => {
                                proof {
                                    crate::lexspec::lemma_read_escape_cursor(pre);
                                    let (re, ste) = crate::lexspec::read_escape(pre);
                                    let ch = re->Ok_0;
                                    let (rc2, stc2) = crate::lexspec::read_string_body(self@);
                                    if rc2 is Ok {
                                        assert(acc_pre + (seq![ch] + rc2->Ok_0) =~= (acc_pre.push(
                                            ch,
                                        )) + rc2->Ok_0);
                                    }
                                }
                            },
                            Err(e) => {
                                return Err(e);
                            },
                        }
                    } else {
                        push_char(&mut result, c);
                        let ghost acc_pre = result@;
                        let ghost pre = self@;
                        self.advance();
                        proof {
                            let (rc2, stc2) = crate::lexspec::read_string_body(self@);
                            if rc2 is Ok {
                                assert(acc_pre.drop_last() + (seq![c] + rc2->Ok_0) =~= acc_pre
                                    + rc2->Ok_0);
                            }
                        }
                    }
                },
            }
        }
    }

    /// Consumes a maximal run of decimal digits, appending them to
    /// `nums`; reports whether at least one digit was consumed.
    fn read_digit_run(&mut self, nums: &mut String) -> (found: bool)
        requires
            old(self).wf(),
        ensures
            final(self).wf(),
            ({
                let (s, st1) = crate::lexspec::read_digits(old(self)@);
                &&& final(self)@ == st1
                &&& final(nums)@ == old(nums)@ + s
                &&& found == (s.len() > 0)
            }),
    {
        let mut found = false;
        loop
            invariant
                self.wf(),
                self@.pos >= old(self)@.pos,
                found == (self@.pos > old(self)@.pos),
                ({
                    let (s1, st1) = crate::lexspec::read_digits(old(self)@);
                    let (s2, st2) = crate::lexspec::read_digits(self@);
                    &&& st1 == st2
                    &&& old(nums)@ + s1 == nums@ + s2
                    &&& s1.len() == s2.len() + (self@.pos - old(self)@.pos)
                }),
            ensures
                ({
                    let (s1, st1) = crate::lexspec::read_digits(old(self)@);
                    &&& self@ == st1
                    &&& nums@ == old(nums)@ + s1
                    &&& found == (s1.len() > 0)
                }),
            decreases self@.text.len() - self@.pos,
        {
            match self.peek() {
                Some(c) => {
                    if is_ascii_digit_char(c) {
                        push_char(nums, c);
                        let ghost nums_pre = nums@;
                        let ghost pre = self@;
                        self.advance();
                        found = true;
                        proof {
                            let (s2, st2) = crate::lexspec::read_digits(self@);
                            assert(nums_pre.drop_last() + (seq![c] + s2) =~= nums_pre + s2);
                        }
                    } else {
                        proof {
                            let (s2, st2) = crate::lexspec::read_digits(self@);
                            assert(nums@ + s2 =~= nums@);
                        }
                        break;
                    }
                },
                None => {
                    proof {
                        let (s2, st2) = crate::lexspec::read_digits(self@);
                        assert(nums@ + s2 =~= nums@);
                    }
                    break;
                },
            }
        }
        found
    }

    /// Scans the integer part of a number: a single `0`, or a run of
    /// digits with no leading zero. On a leading-zero failure the `0`
    /// has been appended to `nums`; on a missing-digit failure `nums`
    /// is unchanged.
    pub fn read_integer(&mut self, nums: &mut String) -> (r: Result<(), LexerError>)
        requires
            old(self).wf(),
        ensures
            final(self).wf(),
            ({
                let (rs, st1) = crate::lexspec::read_integer_part(old(self)@);
                &&& final(self)@ == st1
                &&& match (r, rs) {
                    (Ok(u), Ok(s)) => final(nums)@ == old(nums)@ + s,
                    (Err(e), Err(k)) => e@ == crate::lexspec::lex_err(st1, k) && final(nums)@ == (
                        if k is LeadingZero {
                            old(nums)@ + seq!['0']
                        } else {
                            old(nums)@
                        }
                    ),
                    _ => false,
                }
            }),
    {
        match self.peek() {
            Some(c) => {
                if c == '0' {
                    push_char(nums, '0');
                    self.advance();
                    if let Some(c2) = self.peek() {
                        if is_ascii_digit_char(c2) {
                            proof {
                                assert(old(nums)@.push('0') =~= old(nums)@ + seq!['0']);
                            }
                            return Err(self.return_error(LexerErrorKinds::LeadingZero));
                        }
                    }
                    proof {
                        assert(old(nums)@.push('0') =~= old(nums)@ + seq!['0']);
                    }
                    Ok(())
                } else if is_ascii_digit_char(c) {
                    let found = self.read_digit_run(nums);
                    Ok(())
                } else {
                    Err(self.return_error(LexerErrorKinds::InvalidNumber))
                }
            },
            None => Err(self.return_error(LexerErrorKinds::InvalidNumber)),
        }
    }

    /// Scans the optional fraction: a dot must be followed by at least
    /// one digit. On failure the consumed dot has been appended to
    /// `nums`.
    pub fn read_fraction(&mut self, nums: &mut String) -> (r: Result<(), LexerError>)
        requires
            old(self).wf(),
        ensures
            final(self).wf(),
            ({
                let (rs, st1) = crate::lexspec::read_fraction_part(old(self)@);
                &&& final(self)@ == st1
                &&& match (r, rs) {
                    (Ok(u), Ok(s)) => final(nums)@ == old(nums)@ + s,
                    (Err(e), Err(k)) => e@ == crate::lexspec::lex_err(st1, k) && final(nums)@
                        == old(nums)@ + seq!['.'],
                    _ => false,
                }
            }),
    {
        let mut dot = false;
        if let Some(c) = self.peek() {
            if c == '.' {
                dot = true;
            }
        }
        if !dot {
            proof {
                assert(old(nums)@ + Seq::<char>::empty() =~= old(nums)@);
            }
            return Ok(());
        }
        push_char(nums, '.');
        let ghost nums_dot = nums@;
        self.advance();
        let found = self.read_digit_run(nums);
        if !found {
            proof {
                assert(nums@ =~= old(nums)@ + seq!['.']);
            }
            return Err(self.return_error(LexerErrorKinds::InvalidDecimal));
        }
        proof {
            let (s, st1) = crate::lexspec::read_digits(step(old(self)@));
            assert(nums_dot.drop_last() + (seq!['.'] + s) =~= nums_dot + s);
        }
        Ok(())
    }

    /// Scans the optional exponent: `e` or `E` (recorded as `e`), an
    /// optional sign, then at least one digit. On failure the recorded
    /// `e` — and the sign, if one was read — has been appended to
    /// `nums`.
    pub fn read_exponent(&mut self, nums: &mut String) -> (r: Result<(), LexerError>)
        requires
            old(self).wf(),
        ensures
            final(self).wf(),
            ({
                let (rs, st1) = crate::lexspec::read_exponent_part(old(self)@);
                &&& final(self)@ == st1
                &&& match (r, rs) {
                    (Ok(u), Ok(s)) => final(nums)@ == old(nums)@ + s,
                    (Err(e), Err(k)) => e@ == crate::lexspec::lex_err(st1, k) && final(nums)@
                        == old(nums)@ + crate::lexspec::exponent_prefix(old(self)@),
                    _ => false,
                }
            }),
    {
        let mut marker = false;
        if let Some(c) = self.peek() {
            if c == 'e' || c == 'E' {
                marker = true;
            }
        }
        if !marker {
            proof {
                assert(old(nums)@ + Seq::<char>::empty() =~= old(nums)@);
            }
            return Ok(());
        }
        push_char(nums, 'e');
        self.advance();
        let ghost sign_seq = Seq::<char>::empty();
        let mut signed = false;
        let mut sign_char = '+';
        if let Some(s) = self.peek() {
            if s == '+' || s == '-' {
                signed = true;
                sign_char = s;
                push_char(nums, s);
                self.advance();
            }
        }
        let ghost nums_head = nums@;
        let ghost head = if signed {
            seq!['e', sign_char]
        } else {
            seq!['e']
        };
        proof {
            assert(nums_head =~= old(nums)@ + head);
        }
        let found = self.read_digit_run(nums);
        if !found {
            proof {
                assert(head =~= crate::lexspec::exponent_prefix(old(self)@));
                assert(nums@ =~= old(nums)@ + head);
            }
            return Err(self.return_error(LexerErrorKinds::InvalidExponent));
        }
        proof {
            let (rs, st1) = crate::lexspec::read_exponent_part(old(self)@);
            if rs is Ok {
                assert((old(nums)@ + head) + (rs->Ok_0.skip(head.len() as int)) =~= old(nums)@
                    + rs->Ok_0);
            }
        }
        Ok(())
    }

    /// Scans a whole number, entered with the cursor on its first
    /// character, and yields its validated literal text. Failures are
    /// reported at that first character.
    pub fn read_number(&mut self) -> (r: Result<String, LexerError>)
        requires
            old(self).wf(),
        ensures
            final(self).wf(),
            ({
                let (rs, st1) = crate::lexspec::read_number_text(old(self)@);
                &&& final(self)@ == st1
                &&& match (r, rs) {
                    (Ok(s), Ok(sq)) => s@ == sq,
                    (Err(e), Err(eq)) => e@ == eq,
                    _ => false,
                }
            }),
    {
        let start_line = self.line;
        let start_column = self.column;
        let mut nums = String::new();
        let mut negative = false;
        if let Some(c) = self.peek() {
            if c == '-' {
                negative = true;
                push_char(&mut nums, '-');
                self.advance();
            }
        }
        let ghost sign = if negative {
            seq!['-']
        } else {
            Seq::<char>::empty()
        };
        proof {
            assert(nums@ =~= sign);
        }
        match self.read_integer(&mut nums) {
            Ok(u) => {},
            Err(e) => {
                return Err(LexerError { kind: e.kind, line: start_line, column: start_column });
            },
        }
        match self.read_fraction(&mut nums) {
            Ok(u) => {},
            Err(e) => {
                return Err(LexerError { kind: e.kind, line: start_line, column: start_column });
            },
        }
        match self.read_exponent(&mut nums) {
            Ok(u) => {},
            Err(e) => {
                return Err(LexerError { kind: e.kind, line: start_line, column: start_column });
            },
        }
        proof {
            let (rs, st1) = crate::lexspec::read_number_text(old(self)@);
            if rs is Ok {
                assert(nums@ =~= rs->Ok_0);
            }
        }
        Ok(nums)
    }

    /// A lexical error of the given kind at the current position.
    fn return_error(&self, kind: LexerErrorKinds) -> (e: LexerError)
        requires
            self.wf(),
        ensures
            e@ == lex_err(self@, kind),
    {
        LexerError { kind, line: self.line, column: self.column }
    }

    /// Matches the given characters one by one, then rejects a trailing
    /// alphanumeric character; a mismatch is reported where it occurs.
    fn match_chars(&mut self, lit: &[char]) -> (r: Result<(), LexerError>)
        requires
            old(self).wf(),
        ensures
            final(self).wf(),
            ({
                let (rs, st1) = crate::lexspec::match_literal(old(self)@, lit@);
                &&& final(self)@ == st1
                &&& match (r, rs) {
                    (Ok(u), Ok(u2)) => true,
                    (Err(e), Err(eq)) => e@ == eq,
                    _ => false,
                }
            }),
    {
        let n = lit.len();
        let mut i: usize = 0;
        proof {
            assert(lit@.skip(0) =~= lit@);
        }
        while i < n
            invariant
                self.wf(),
                i <= n,
                n == lit@.len(),
                crate::lexspec::match_literal(old(self)@, lit@) == crate::lexspec::match_literal(
                    self@,
                    lit@.skip(i as int),
                ),
            decreases n - i,
        {
            let c = lit[i];
            let ghost pre = self@;
            if !self.expect_char(c) {
                return Err(self.return_error(LexerErrorKinds::InvalidLiteral));
            }
            proof {
                assert(lit@.skip(i as int).drop_first() =~= lit@.skip(i + 1));
            }
            i = i + 1;
        }
        proof {
            assert(lit@.skip(n as int) =~= Seq::<char>::empty());
        }
        if let Some(c) = self.peek() {
            if is_ascii_alnum_char(c) {
                return Err(self.return_error(LexerErrorKinds::InvalidLiteral));
            }
        }
        Ok(())
    }

    /// Scans a `true`, `false` or `null` keyword, entered with the cursor
    /// on its first character.
    pub fn read_literal(&mut self, b_char: char) -> (r: Result<TokenKind, LexerError>)
        requires
            old(self).wf(),
            b_char == 't' || b_char == 'f' || b_char == 'n',
        ensures
            final(self).wf(),
            ({
                let (rs, st1) = crate::lexspec::match_literal(
                    old(self)@,
                    crate::lexspec::literal_text(b_char),
                );
                &&& final(self)@ == st1
                &&& match (r, rs) {
                    (Ok(k), Ok(u)) => k@ == crate::lexspec::literal_kind(b_char),
                    (Err(e), Err(eq)) => e@ == eq,
                    _ => false,
                }
            }),
    {
        if b_char == 't' {
            let lit = ['t', 'r', 'u', 'e'];
            proof {
                assert(lit@ =~= crate::lexspec::literal_text(b_char));
            }
            match self.match_chars(&lit) {
                Ok(u) => Ok(TokenKind::True),
                Err(e) => Err(e),
            }
        } else if b_char == 'f' {
            let lit = ['f', 'a', 'l', 's', 'e'];
            proof {
                assert(lit@ =~= crate::lexspec::literal_text(b_char));
            }
            match self.match_chars(&lit) {
                Ok(u) => Ok(TokenKind::False),
                Err(e) => Err(e),
            }
        } else {
            let lit = ['n', 'u', 'l', 'l'];
            proof {
                assert(lit@ =~= crate::lexspec::literal_text(b_char));
            }
            match self.match_chars(&lit) {
                Ok(u) => Ok(TokenKind::Null),
                Err(e) => Err(e),
            }
        }
    }

    /// Scans one token: skips whitespace, then dispatches on the next
    /// character. The token carries the position of its first character;
    /// at the end of the input the token is `EOF`, idempotently.
    pub fn next_token(&mut self) -> (r: Result<Token, LexerError>)
        requires
            old(self).wf(),
        ensures
            final(self).wf(),
            ({
                let (rs, st1) = crate::lexspec::next_token_spec(old(self)@);
                &&& final(self)@ == st1
                &&& match (r, rs) {
                    (Ok(t), Ok(ts)) => t@ == ts,
                    (Err(e), Err(eq)) => e@ == eq,
                    _ => false,
                }
            }),
    {
        self.skip_whitespace();
        let next_char = self.peek();
        let c = match next_char {
            Some(c) => c,
            None => {
                return Ok(self.new_token(TokenKind::EOF));
            },
        };
        if c == '{' {
            Ok(self.new_token_advance(TokenKind::LeftBrace))
        } else if c == '}' {
            Ok(self.new_token_advance(TokenKind::RightBrace))
        } else if c == '[' {
            Ok(self.new_token_advance(TokenKind::LeftBracket))
        } else if c == ']' {
            Ok(self.new_token_advance(TokenKind::RightBracket))
        } else if c == ':' {
            Ok(self.new_token_advance(TokenKind::Colon))
        } else if c == ',' {
            Ok(self.new_token_advance(TokenKind::Comma))
        } else if c == '"' {
            let start_line = self.line;
            let start_column = self.column;
            let string_value = match self.read_string() {
                Ok(s) => s,
                Err(e) => {
                    return Err(e);
                },
            };
            Ok(Token { kind: TokenKind::String(string_value), line: start_line, column: start_column })
        } else if is_ascii_digit_char(c) || c == '-' {
            let start_line = self.line;
            let start_column = self.column;
            let number_value = match self.read_number() {
                Ok(s) => s,
                Err(e) => {
                    return Err(e);
                },
            };
            Ok(Token { kind: TokenKind::Number(number_value), line: start_line, column: start_column })
        } else if c == 't' || c == 'f' || c == 'n' {
            let start_line = self.line;
            let start_column = self.column;
            let token_kind = match self.read_literal(c) {
                Ok(k) => k,
                Err(e) => {
                    return Err(e);
                },
            };
            Ok(Token { kind: token_kind, line: start_line, column: start_column })
        } else {
            let err = self.return_error(LexerErrorKinds::UnexcpectedChar(c));
            self.advance();
            Err(err)
        }
    }

    /// A token of the given kind at the current position.
    fn new_token(&mut self, kind: TokenKind) -> (t: Token)
        requires
            old(self).wf(),
        ensures
            *final(self) == *old(self),
            t.kind == kind,
            t@.line == old(self)@.line,
            t@.col == old(self)@.col,
    {
        Token { kind, line: self.line, column: self.column }
    }

    /// A token of the given kind at the current position, consuming one
    /// character. Only for the single-character tokens.
    fn new_token_advance(&mut self, kind: TokenKind) -> (t: Token)
        requires
            old(self).wf(),
        ensures
            final(self).wf(),
            final(self)@ == step(old(self)@),
            t.kind == kind,
            t@.line == old(self)@.line,
            t@.col == old(self)@.col,
    {
        let token = Token { kind, line: self.line, column: self.column };
        self.advance();
        token
    }
}

/// Whether `c` is a Unicode `White_Space` character.
pub fn is_whitespace_char(c: char) -> (b: bool)
    ensures
        b == is_ws_char(c),
{
    let u = c as u32;
    u == 0x20 || u == 0x09 || u == 0x0a || u == 0x0d || u == 0x0b || u == 0x0c || u == 0x85
        || u == 0xa0 || u == 0x1680 || (0x2000 <= u && u <= 0x200a) || u == 0x2028 || u == 0x2029
        || u == 0x202f || u == 0x205f || u == 0x3000
}

/// Whether `c` is an ASCII decimal digit.
pub fn is_ascii_digit_char(c: char) -> (b: bool)
    ensures
        b == is_digit_char(c),
{
    let u = c as u32;
    0x30 <= u && u <= 0x39
}

/// Whether `c` is an ASCII hexadecimal digit.
pub fn is_ascii_hex_char(c: char) -> (b: bool)
    ensures
        b == is_hex_char(c),
{
    let u = c as u32;
    (0x30 <= u && u <= 0x39) || (0x61 <= u && u <= 0x66) || (0x41 <= u && u <= 0x46)
}

/// Whether `c` is an ASCII letter or digit.
pub fn is_ascii_alnum_char(c: char) -> (b: bool)
    ensures
        b == is_alnum_char(c),
{
    let u = c as u32;
    (0x30 <= u && u <= 0x39) || (0x61 <= u && u <= 0x7a) || (0x41 <= u && u <= 0x5a)
}

/// The numeric value of an ASCII hexadecimal digit.
pub fn hex_digit_val(c: char) -> (v: u32)
    requires
        is_hex_char(c),
    ensures
        v as nat == hex_val(c),
        v < 16,
{
    let u = c as u32;
    if 0x30 <= u && u <= 0x39 {
        u - 0x30
    } else if 0x61 <= u && u <= 0x66 {
        u - 0x61 + 10
    } else {
        u - 0x41 + 10
    }
}

} // verus!
