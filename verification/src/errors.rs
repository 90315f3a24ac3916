//! The error vocabulary of the lexer and the parser.
//!
//! Lexical errors carry the 1-based line and column of the offending
//! character (or, for malformed numbers, of the first character of the
//! number). Structural errors carry the position of the offending token.
//! Each error can render itself as a one-line human-readable message
//! through a verified `message` method.

use vstd::prelude::*;
use vstd::string::StringExecFns;

use crate::jsonvalue::SpecTokenKind;
use crate::jsonvalue::TokenKind;
use crate::strutil::dec_digits;
use crate::strutil::push_char;
use crate::strutil::push_decimal;

verus! {

/// The ways a token scan can fail.
#[derive(Debug, Clone, Copy, PartialEq, Eq)]
pub enum LexerErrorKinds {
    UnexcpectedChar(char),
    UnescapedControlCharacter,
    InvalidEscapeChar(char),
    UnclosedString,
    LeadingZero,
    InvalidNumber,
    InvalidLiteral,
    InvalidDecimal,
    InvalidExponent,
    CastingError,
    InvalidEscape,
}

/// A lexical error with the position at which scanning failed.
#[derive(Debug, Clone, Copy, PartialEq, Eq)]
pub struct LexerError {
    pub kind: LexerErrorKinds,
    pub line: usize,
    pub column: usize,
}

/// Spec-level mirror of `LexerError`, with unbounded positions.
pub struct SpecLexerError {
    pub kind: LexerErrorKinds,
    pub line: nat,
    pub col: nat,
}

impl View for LexerError {
    type V = SpecLexerError;

    open spec fn view(&self) -> SpecLexerError {
        SpecLexerError { kind: self.kind, line: self.line as nat, col: self.column as nat }
    }
}

/// The description of a lexical failure, without its position.
pub open spec fn lex_kind_message(kind: LexerErrorKinds) -> Seq<char> {
    match kind {
        LexerErrorKinds::UnexcpectedChar(c) => "Unexpected character: '"@ + seq![c] + "'"@,
        LexerErrorKinds::UnescapedControlCharacter => "Unescaped control character in string"@,
        LexerErrorKinds::InvalidEscapeChar(c) => "Invalid escape character: '\\"@ + seq![c] + "'"@,
        LexerErrorKinds::UnclosedString => "Unclosed string literal"@,
        LexerErrorKinds::LeadingZero => "Number cannot have leading zeros"@,
        LexerErrorKinds::InvalidNumber => "Invalid number format"@,
        LexerErrorKinds::InvalidLiteral => "Invalid literal"@,
        LexerErrorKinds::InvalidDecimal => "Invalid decimal format"@,
        LexerErrorKinds::InvalidExponent => "Invalid exponent format"@,
        LexerErrorKinds::CastingError => "Error casting number"@,
        LexerErrorKinds::InvalidEscape => "Invalid escape sequence"@,
    }
}

/// The one-line rendering of a lexical error: its description followed
/// by its 1-based position.
pub open spec fn lex_message(e: SpecLexerError) -> Seq<char> {
    lex_kind_message(e.kind) + " at line "@ + dec_digits(e.line) + ", column "@ + dec_digits(e.col)
}

impl LexerError {
    /// Renders the error as one human-readable line.
    pub fn message(&self) -> (s: String)
        ensures
            s@ == lex_message(self@),
    {
        let mut out = String::new();
        match self.kind {
            LexerErrorKinds::UnexcpectedChar(c) => {
                out.append("Unexpected character: '");
                push_char(&mut out, c);
                out.append("'");
            },
            LexerErrorKinds::UnescapedControlCharacter => {
                out.append("Unescaped control character in string");
            },
            LexerErrorKinds::InvalidEscapeChar(c) => {
                out.append("Invalid escape character: '\\");
                push_char(&mut out, c);
                out.append("'");
            },
            LexerErrorKinds::UnclosedString => {
                out.append("Unclosed string literal");
            },
            LexerErrorKinds::LeadingZero => {
                out.append("Number cannot have leading zeros");
            },
            LexerErrorKinds::InvalidNumber => {
                out.append("Invalid number format");
            },
            LexerErrorKinds::InvalidLiteral => {
                out.append("Invalid literal");
            },
            LexerErrorKinds::InvalidDecimal => {
                out.append("Invalid decimal format");
            },
            LexerErrorKinds::InvalidExponent => {
                out.append("Invalid exponent format");
            },
            LexerErrorKinds::CastingError => {
                out.append("Error casting number");
            },
            LexerErrorKinds::InvalidEscape => {
                out.append("Invalid escape sequence");
            },
        }
        out.append(" at line ");
        push_decimal(&mut out, self.line);
        out.append(", column ");
        push_decimal(&mut out, self.column);
        proof {
            assert(out@ =~= lex_message(self@));
        }
        out
    }
}

/// The ways the parser can reject a token stream that lexed cleanly.
#[derive(Debug, Clone, PartialEq, Eq)]
pub enum ParserErrorKind {
    UnexpectedToken(TokenKind),
    UnexpectedEOF,
    ExpectedToken(TokenKind, TokenKind),
    ExpectedOneOfTokens(Vec<TokenKind>, TokenKind),
    ExpectedObjectEndOrComma(TokenKind),
    TrailingComma,
}

/// Spec-level mirror of `ParserErrorKind`.
pub enum SpecParserErrorKind {
    UnexpectedToken(SpecTokenKind),
    UnexpectedEOF,
    ExpectedToken(SpecTokenKind, SpecTokenKind),
    ExpectedOneOfTokens(Seq<SpecTokenKind>, SpecTokenKind),
    ExpectedObjectEndOrComma(SpecTokenKind),
    TrailingComma,
}

/// The views of a sequence of token kinds, in order.
pub open spec fn kind_views(kinds: Seq<TokenKind>) -> Seq<SpecTokenKind> {
    kinds.map_values(|k: TokenKind| k@)
}

impl View for ParserErrorKind {
    type V = SpecParserErrorKind;

    open spec fn view(&self) -> SpecParserErrorKind {
        match self {
            ParserErrorKind::UnexpectedToken(t) => SpecParserErrorKind::UnexpectedToken(t@),
            ParserErrorKind::UnexpectedEOF => SpecParserErrorKind::UnexpectedEOF,
            ParserErrorKind::ExpectedToken(e, f) => SpecParserErrorKind::ExpectedToken(e@, f@),
            ParserErrorKind::ExpectedOneOfTokens(e, f) => SpecParserErrorKind::ExpectedOneOfTokens(
                kind_views(e@),
                f@,
            ),
            ParserErrorKind::ExpectedObjectEndOrComma(f) => SpecParserErrorKind::ExpectedObjectEndOrComma(
                f@,
            ),
            ParserErrorKind::TrailingComma => SpecParserErrorKind::TrailingComma,
        }
    }
}

/// The display texts of token kinds joined by commas.
pub open spec fn kinds_joined(kinds: Seq<SpecTokenKind>) -> Seq<char>
    decreases kinds.len(),
{
    if kinds.len() == 0 {
        Seq::empty()
    } else if kinds.len() == 1 {
        crate::jsonvalue::token_kind_message(kinds[0])
    } else {
        crate::jsonvalue::token_kind_message(kinds[0]) + ", "@ + kinds_joined(kinds.drop_first())
    }
}

/// Appending one more kind to a joined list adds a comma and its text.
proof fn lemma_kinds_joined_step(kinds: Seq<SpecTokenKind>, i: int)
    requires
        1 <= i < kinds.len(),
    ensures
        kinds_joined(kinds.take(i + 1)) == kinds_joined(kinds.take(i)) + ", "@
            + crate::jsonvalue::token_kind_message(kinds[i]),
    decreases i,
{
    if i == 1 {
        assert(kinds.take(2).drop_first() =~= seq![kinds[1]]);
        assert(kinds.take(2).len() == 2);
        assert(kinds.take(2)[0] == kinds[0]);
        assert(kinds.take(1).len() == 1);
        assert(kinds.take(1)[0] == kinds[0]);
        assert(seq![kinds[1]].len() == 1);
        assert(kinds_joined(seq![kinds[1]]) == crate::jsonvalue::token_kind_message(kinds[1]));
        assert(kinds_joined(kinds.take(1)) == crate::jsonvalue::token_kind_message(kinds[0]));
        assert(kinds_joined(kinds.take(2)) =~= kinds_joined(kinds.take(1)) + ", "@
            + crate::jsonvalue::token_kind_message(kinds[1]));
    } else {
        lemma_kinds_joined_step(kinds.drop_first(), i - 1);
        assert(kinds.take(i + 1).drop_first() =~= kinds.drop_first().take(i));
        assert(kinds.take(i).drop_first() =~= kinds.drop_first().take(i - 1));
        assert(kinds_joined(kinds.take(i + 1)) =~= kinds_joined(kinds.take(i)) + ", "@
            + crate::jsonvalue::token_kind_message(kinds[i]));
    }
}

/// The description of a structural failure, without its position.
pub open spec fn parser_kind_message(k: SpecParserErrorKind) -> Seq<char> {
    match k {
        SpecParserErrorKind::UnexpectedToken(t) => "Unexpected token: "@
            + crate::jsonvalue::token_kind_message(t),
        SpecParserErrorKind::UnexpectedEOF => "Unexpected end of input"@,
        SpecParserErrorKind::ExpectedToken(e, f) => "Expected token "@
            + crate::jsonvalue::token_kind_message(e) + ", but found "@
            + crate::jsonvalue::token_kind_message(f),
        SpecParserErrorKind::ExpectedOneOfTokens(es, f) => "Expected one of "@ + kinds_joined(es)
            + " but found "@ + crate::jsonvalue::token_kind_message(f),
        SpecParserErrorKind::ExpectedObjectEndOrComma(f) => "Expected ',' or '}' in object, but found "@
            + crate::jsonvalue::token_kind_message(f),
        SpecParserErrorKind::TrailingComma => "Trailing comma found"@,
    }
}

impl ParserErrorKind {
    /// Renders the failure description for a diagnostic message.
    pub fn message(&self) -> (s: String)
        ensures
            s@ == parser_kind_message(self@),
    {
        let mut out = String::new();
        match self {
            ParserErrorKind::UnexpectedToken(t) => {
                out.append("Unexpected token: ");
                let m = t.message();
                out.append(m.as_str());
            },
            ParserErrorKind::UnexpectedEOF => {
                out.append("Unexpected end of input");
            },
            ParserErrorKind::ExpectedToken(e, f) => {
                out.append("Expected token ");
                let me = e.message();
                out.append(me.as_str());
                out.append(", but found ");
                let mf = f.message();
                out.append(mf.as_str());
            },
            ParserErrorKind::ExpectedOneOfTokens(es, f) => {
                out.append("Expected one of ");
                let n = es.len();
                let mut i: usize = 0;
                proof {
                    assert(kind_views(es@).take(0) =~= Seq::<SpecTokenKind>::empty());
                    assert(out@ =~= "Expected one of "@ + kinds_joined(kind_views(es@).take(0)));
                }
                while i < n
                    invariant
                        i <= n,
                        n == es@.len(),
                        out@ == "Expected one of "@ + kinds_joined(kind_views(es@).take(i as int)),
                    decreases n - i,
                {
                    if i > 0 {
                        out.append(", ");
                    }
                    let m = es[i].message();
                    out.append(m.as_str());
                    proof {
                        let views = kind_views(es@);
                        if i == 0 {
                            assert(views.take(1) =~= seq![views[0]]);
                            assert(out@ =~= "Expected one of "@ + kinds_joined(views.take(1)));
                        } else {
                            lemma_kinds_joined_step(views, i as int);
                            assert(out@ =~= "Expected one of "@ + kinds_joined(
                                views.take(i as int + 1),
                            ));
                        }
                    }
                    i = i + 1;
                }
                proof {
                    assert(kind_views(es@).take(n as int) =~= kind_views(es@));
                }
                out.append(" but found ");
                let mf = f.message();
                out.append(mf.as_str());
            },
            ParserErrorKind::ExpectedObjectEndOrComma(f) => {
                out.append("Expected ',' or '}' in object, but found ");
                let mf = f.message();
                out.append(mf.as_str());
            },
            ParserErrorKind::TrailingComma => {
                out.append("Trailing comma found");
            },
        }
        proof {
            assert(out@ =~= parser_kind_message(self@));
        }
        out
    }
}

/// The unified error returned by a parse: either the underlying lexical
/// failure, or a grammar violation with its position.
#[derive(Debug, Clone, PartialEq, Eq)]
pub enum ParserError {
    Lexer(LexerError),
    Parser { kind: ParserErrorKind, line: usize, column: usize },
}

/// Spec-level mirror of `ParserError`.
pub enum SpecParserError {
    Lexer(SpecLexerError),
    Parser { kind: SpecParserErrorKind, line: nat, col: nat },
}

impl View for ParserError {
    type V = SpecParserError;

    open spec fn view(&self) -> SpecParserError {
        match self {
            ParserError::Lexer(e) => SpecParserError::Lexer(e@),
            ParserError::Parser { kind, line, column } => SpecParserError::Parser {
                kind: kind@,
                line: *line as nat,
                col: *column as nat,
            },
        }
    }
}

/// The one-line rendering of a parse failure.
pub open spec fn parser_message(e: SpecParserError) -> Seq<char> {
    match e {
        SpecParserError::Lexer(le) => "Lexer error: "@ + lex_message(le),
        SpecParserError::Parser { kind, line, col } => "Parse error at line "@ + dec_digits(line)
            + ", column "@ + dec_digits(col) + ": "@ + parser_kind_message(kind),
    }
}

impl ParserError {
    /// Renders the error as one human-readable line.
    pub fn message(&self) -> (s: String)
        ensures
            s@ == parser_message(self@),
    {
        let mut out = String::new();
        match self {
            ParserError::Lexer(e) => {
                out.append("Lexer error: ");
                let m = e.message();
                out.append(m.as_str());
            },
            ParserError::Parser { kind, line, column } => {
                out.append("Parse error at line ");
                push_decimal(&mut out, *line);
                out.append(", column ");
                push_decimal(&mut out, *column);
                out.append(": ");
                let m = kind.message();
                out.append(m.as_str());
            },
        }
        proof {
            assert(out@ =~= parser_message(self@));
        }
        out
    }
}

} // verus!
