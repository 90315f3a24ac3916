//! The recursive-descent parser: one token of lookahead over the lexer,
//! building the value tree while enforcing the JSON grammar.
//!
//! The parser's abstract state is the scan state from which its next
//! token will be read; every method's contract equates its outcome with
//! the corresponding spec function of `parsespec` at that state.

use vstd::prelude::*;

use crate::errors::LexerError;
use crate::errors::ParserError;
use crate::errors::ParserErrorKind;
use crate::errors::SpecParserError;
use crate::errors::kind_views;
use crate::jsonvalue::JSONValue;
use crate::jsonvalue::TokenKind;
use crate::jsonvalue::element_views;
use crate::jsonvalue::entries_value;
use crate::lexer::Lexer;
use crate::lexer::Token;
use crate::lexspec::LexState;
use crate::lexspec::lex_wf;
use crate::lexspec::next_token_spec;
use crate::parsespec::array_fuel;
use crate::parsespec::elements_fuel;
use crate::parsespec::lemma_parse_elements_total;
use crate::parsespec::lemma_parse_members_total;
use crate::parsespec::lemma_parse_value_total;
use crate::parsespec::members_fuel;
use crate::parsespec::object_fuel;
use crate::parsespec::parse_array_spec;
use crate::parsespec::parse_elements_spec;
use crate::parsespec::parse_members_spec;
use crate::parsespec::parse_object_spec;
use crate::parsespec::parse_top_spec;
use crate::parsespec::parse_value_spec;
use crate::parsespec::spec_parse_json;
use crate::parsespec::value_fuel;

verus! {

/// The parser: the lexer plus one token of lookahead, and (as ghost
/// state) the scan state from which that lookahead was read.
pub struct Parser {
    lexer: Lexer,
    lookahead: Option<Result<Token, LexerError>>,
    la_start: Ghost<LexState>,
}

impl View for Parser {
    type V = LexState;

    closed spec fn view(&self) -> LexState {
        self.la_start@
    }
}

impl Parser {
    /// The lookahead is present and is exactly what scanning one token
    /// from the parser's abstract state yields, leaving the lexer just
    /// past it.
    pub closed spec fn wf(&self) -> bool {
        &&& self.lexer.wf()
        &&& lex_wf(self.la_start@)
        &&& self.la_start@.text == self.lexer@.text
        &&& self.lookahead is Some
        &&& ({
            let (r, st1) = next_token_spec(self.la_start@);
            &&& st1 == self.lexer@
            &&& match (self.lookahead->0, r) {
                (Ok(t), Ok(ts)) => t@ == ts,
                (Err(e), Err(eq)) => e@ == eq,
                _ => false,
            }
        })
    }

    /// Wraps a lexer, reading the first token as lookahead.
    pub fn new(lexer: Lexer) -> (r: Self)
        requires
            lexer.wf(),
        ensures
            r.wf(),
            r@ == lexer@,
    {
        let mut lexer = lexer;
        let ghost st0 = lexer@;
        let first = lexer.next_token();
        proof {
            crate::lexspec::lemma_next_token_wf(st0);
        }
        Parser { lexer, lookahead: Some(first), la_start: Ghost(st0) }
    }

    /// The next token, without consuming it; a lexical failure surfaces
    /// as a parser-level error.
    fn peek(&self) -> (r: Result<&Token, ParserError>)
        requires
            self.wf(),
        ensures
            ({
                let (rs, st1) = next_token_spec(self@);
                match (r, rs) {
                    (Ok(t), Ok(ts)) => t@ == ts,
                    (Err(e), Err(eq)) => e@ == SpecParserError::Lexer(eq),
                    _ => false,
                }
            }),
    {
        match &self.lookahead {
            Some(la) => match la {
                Ok(token) => Ok(token),
                Err(error) => Err(ParserError::Lexer(*error)),
            },
            None => vstd::pervasive::unreached(),
        }
    }

    /// The kind of the next token, without consuming it.
    fn peek_kind(&self) -> (r: Result<&TokenKind, ParserError>)
        requires
            self.wf(),
        ensures
            ({
                let (rs, st1) = next_token_spec(self@);
                match (r, rs) {
                    (Ok(k), Ok(ts)) => k@ == ts.kind,
                    (Err(e), Err(eq)) => e@ == SpecParserError::Lexer(eq),
                    _ => false,
                }
            }),
    {
        match self.peek() {
            Ok(token) => Ok(&token.kind),
            Err(e) => Err(e),
        }
    }

    /// Consumes and returns the next token, reading the one after it as
    /// the new lookahead.
    fn advance(&mut self) -> (r: Result<Token, ParserError>)
        requires
            old(self).wf(),
        ensures
            final(self).wf(),
            ({
                let (rs, st1) = next_token_spec(old(self)@);
                &&& final(self)@ == st1
                &&& match (r, rs) {
                    (Ok(t), Ok(ts)) => t@ == ts,
                    (Err(e), Err(eq)) => e@ == SpecParserError::Lexer(eq),
                    _ => false,
                }
            }),
    {
        let current = self.lookahead.take();
        let ghost st1 = self.lexer@;
        let next = self.lexer.next_token();
        self.lookahead = Some(next);
        proof {
            crate::lexspec::lemma_next_token_wf(st1);
            self.la_start@ = st1;
        }
        match current {
            Some(la) => match la {
                Ok(token) => Ok(token),
                Err(error) => Err(ParserError::Lexer(error)),
            },
            None => vstd::pervasive::unreached(),
        }
    }

    /// Consumes the next token and returns only its kind.
    fn advance_kind(&mut self) -> (r: Result<TokenKind, ParserError>)
        requires
            old(self).wf(),
        ensures
            final(self).wf(),
            ({
                let (rs, st1) = next_token_spec(old(self)@);
                &&& final(self)@ == st1
                &&& match (r, rs) {
                    (Ok(k), Ok(ts)) => k@ == ts.kind,
                    (Err(e), Err(eq)) => e@ == SpecParserError::Lexer(eq),
                    _ => false,
                }
            }),
    {
        match self.advance() {
            Ok(token) => Ok(token.kind),
            Err(e) => Err(e),
        }
    }

    /// Consumes the next token, which must be of the given kind; a
    /// mismatch is reported at the token found.
    fn expect(&mut self, kind: TokenKind) -> (r: Result<Token, ParserError>)
        requires
            old(self).wf(),
        ensures
            final(self).wf(),
            ({
                let (rs, st1) = next_token_spec(old(self)@);
                &&& final(self)@ == st1
                &&& match (r, rs) {
                    (Ok(t), Ok(ts)) => t@ == ts && ts.kind == kind@,
                    (Err(e), Ok(ts)) => ts.kind != kind@ && e@ == crate::parsespec::perr(
                        crate::errors::SpecParserErrorKind::ExpectedToken(kind@, ts.kind),
                        ts,
                    ),
                    (Err(e), Err(eq)) => e@ == SpecParserError::Lexer(eq),
                    _ => false,
                }
            }),
    {
        let k = match self.advance() {
            Ok(token) => token,
            Err(e) => {
                return Err(e);
            },
        };
        if !same_kind(&k.kind, &kind) {
            return Err(ParserError::Parser {
                kind: ParserErrorKind::ExpectedToken(kind, k.kind),
                line: k.line,
                column: k.column,
            });
        }
        Ok(k)
    }

    /// Consumes the next token, which must be of one of the given kinds;
    /// a mismatch is reported at the token found.
    fn expect_either(&mut self, kinds: &[TokenKind]) -> (r: Result<Token, ParserError>)
        requires
            old(self).wf(),
        ensures
            final(self).wf(),
            ({
                let (rs, st1) = next_token_spec(old(self)@);
                &&& final(self)@ == st1
                &&& match (r, rs) {
                    (Ok(t), Ok(ts)) => t@ == ts && kind_views(kinds@).contains(ts.kind),
                    (Err(e), Ok(ts)) => !kind_views(kinds@).contains(ts.kind) && e@
                        == crate::parsespec::perr(
                        crate::errors::SpecParserErrorKind::ExpectedOneOfTokens(
                            kind_views(kinds@),
                            ts.kind,
                        ),
                        ts,
                    ),
                    (Err(e), Err(eq)) => e@ == SpecParserError::Lexer(eq),
                    _ => false,
                }
            }),
    {
        let k = match self.advance() {
            Ok(token) => token,
            Err(e) => {
                return Err(e);
            },
        };
        let n = kinds.len();
        let mut i: usize = 0;
        let mut found = false;
        while i < n
            invariant
                i <= n,
                n == kinds@.len(),
                found == exists|j: int| 0 <= j < i && kind_views(kinds@)[j] == k@.kind,
            decreases n - i,
        {
            let here = same_kind(&kinds[i], &k.kind);
            proof {
                assert(kind_views(kinds@)[i as int] == kinds@[i as int]@);
            }
            if here {
                found = true;
            }
            i = i + 1;
        }
        if found {
            Ok(k)
        } else {
            let mut expected: Vec<TokenKind> = Vec::new();
            let mut m: usize = 0;
            while m < n
                invariant
                    m <= n,
                    n == kinds@.len(),
                    expected@.len() == m,
                    forall|j: int| 0 <= j < m ==> (#[trigger] expected@[j])@ == kinds@[j]@,
                decreases n - m,
            {
                let copy = clone_kind(&kinds[m]);
                expected.push(copy);
                m = m + 1;
            }
            proof {
                assert(kind_views(expected@) =~= kind_views(kinds@));
            }
            Err(ParserError::Parser {
                kind: ParserErrorKind::ExpectedOneOfTokens(expected, k.kind),
                line: k.line,
                column: k.column,
            })
        }
    }
}

impl Parser {
    /// Parses one value and then requires the end of the input: a
    /// trailing token after a complete value is an error.
    pub fn parse(&mut self) -> (r: Result<JSONValue, ParserError>)
        requires
            old(self).wf(),
        ensures
            final(self).wf(),
            ({
                let res = parse_top_spec(old(self)@, value_fuel(old(self)@));
                match r {
                    Ok(v) => res == Some(Ok::<_, (SpecParserError, LexState)>((v@, final(self)@)))
                        && crate::jsonvalue::value_wf(v),
                    Err(e) => res == Some(
                        Err::<(crate::jsonvalue::SpecValue, LexState), _>((e@, final(self)@)),
                    ),
                }
            }),
    {
        let value = match self.parse_value() {
            Ok(v) => v,
            Err(e) => {
                return Err(e);
            },
        };
        match self.expect(TokenKind::EOF) {
            Ok(t) => {},
            Err(e) => {
                return Err(e);
            },
        }
        Ok(value)
    }

    /// Parses one value, dispatching on the kind of the next token.
    fn parse_value(&mut self) -> (r: Result<JSONValue, ParserError>)
        requires
            old(self).wf(),
        ensures
            final(self).wf(),
            ({
                let res = parse_value_spec(old(self)@, value_fuel(old(self)@));
                match r {
                    Ok(v) => res == Some(Ok::<_, (SpecParserError, LexState)>((v@, final(self)@)))
                        && crate::jsonvalue::value_wf(v),
                    Err(e) => res == Some(
                        Err::<(crate::jsonvalue::SpecValue, LexState), _>((e@, final(self)@)),
                    ),
                }
            }),
        decreases self@.text.len() - self@.pos, 2int,
    {
        let token = match self.peek() {
            Ok(t) => t,
            Err(e) => {
                return Err(e);
            },
        };
        match &token.kind {
            TokenKind::LeftBrace => self.parse_object(),
            TokenKind::LeftBracket => self.parse_array(),
            TokenKind::String(s) => {
                match self.advance_kind() {
                    Ok(TokenKind::String(s)) => Ok(JSONValue::String(s)),
                    Ok(k) => vstd::pervasive::unreached(),
                    Err(e) => Err(e),
                }
            },
            TokenKind::Number(s) => {
                match self.advance_kind() {
                    Ok(TokenKind::Number(s)) => Ok(JSONValue::Number(s)),
                    Ok(k) => vstd::pervasive::unreached(),
                    Err(e) => Err(e),
                }
            },
            TokenKind::True => {
                match self.advance_kind() {
                    Ok(k) => Ok(JSONValue::Bool(true)),
                    Err(e) => Err(e),
                }
            },
            TokenKind::False => {
                match self.advance_kind() {
                    Ok(k) => Ok(JSONValue::Bool(false)),
                    Err(e) => Err(e),
                }
            },
            TokenKind::Null => {
                match self.advance_kind() {
                    Ok(k) => Ok(JSONValue::Null),
                    Err(e) => Err(e),
                }
            },
            unexpected => {
                let found = clone_kind(unexpected);
                Err(ParserError::Parser {
                    kind: ParserErrorKind::UnexpectedToken(found),
                    line: token.line,
                    column: token.column,
                })
            },
        }
    }

    /// Parses an object, entered before its `{` token.
    fn parse_object(&mut self) -> (r: Result<JSONValue, ParserError>)
        requires
            old(self).wf(),
        ensures
            final(self).wf(),
            ({
                let res = parse_object_spec(old(self)@, object_fuel(old(self)@));
                match r {
                    Ok(v) => res == Some(Ok::<_, (SpecParserError, LexState)>((v@, final(self)@)))
                        && crate::jsonvalue::value_wf(v),
                    Err(e) => res == Some(
                        Err::<(crate::jsonvalue::SpecValue, LexState), _>((e@, final(self)@)),
                    ),
                }
            }),
        decreases self@.text.len() - self@.pos, 1int,
    {
        let mut map: Vec<(String, JSONValue)> = Vec::new();
        match self.expect(TokenKind::LeftBrace) {
            Ok(t) => {},
            Err(e) => {
                return Err(e);
            },
        }
        let ghost st1 = self@;
        proof {
            crate::lexspec::lemma_next_token_wf(old(self)@);
        }
        let empty = match self.peek_kind() {
            Ok(k) => match k {
                TokenKind::RightBrace => true,
                _ => false,
            },
            Err(e) => {
                return Err(e);
            },
        };
        if empty {
            match self.advance() {
                Ok(t) => {},
                Err(e) => {
                    return Err(e);
                },
            }
            proof {
                assert(entries_value(map@) =~= Map::<Seq<char>, crate::jsonvalue::SpecValue>::empty());
            }
            return Ok(JSONValue::Object(map));
        }
        match self.parse_members(&mut map) {
            Ok(u) => {},
            Err(e) => {
                proof {
                    crate::lexspec::lemma_next_token_wf(old(self)@);
                    lemma_parse_members_total(st1, Map::empty(), members_fuel(st1), (object_fuel(
                        old(self)@,
                    ) - 1) as nat);
                    assert(entries_value(Seq::<(String, JSONValue)>::empty())
                        =~= Map::<Seq<char>, crate::jsonvalue::SpecValue>::empty());
                }
                return Err(e);
            },
        }
        proof {
            crate::lexspec::lemma_next_token_wf(old(self)@);
            lemma_parse_members_total(st1, Map::empty(), members_fuel(st1), (object_fuel(
                old(self)@,
            ) - 1) as nat);
            assert(entries_value(Seq::<(String, JSONValue)>::empty())
                =~= Map::<Seq<char>, crate::jsonvalue::SpecValue>::empty());
        }
        Ok(JSONValue::Object(map))
    }

    /// Parses the members of a non-empty object, entered before a key,
    /// adding each entry to `map` and consuming the closing brace.
    fn parse_members(&mut self, map: &mut Vec<(String, JSONValue)>) -> (r: Result<(), ParserError>)
        requires
            old(self).wf(),
            crate::jsonvalue::entries_unique(old(map)@),
            forall|i: int|
                0 <= i < old(map)@.len() ==> crate::jsonvalue::value_wf(
                    (#[trigger] old(map)@[i]).1,
                ),
        ensures
            final(self).wf(),
            ({
                let res = parse_members_spec(
                    old(self)@,
                    entries_value(old(map)@),
                    members_fuel(old(self)@),
                );
                match r {
                    Ok(u) => res == Some(Ok::<_, (SpecParserError, LexState)>((
                        crate::jsonvalue::SpecValue::Object(entries_value(final(map)@)),
                        final(self)@,
                    ))) && crate::jsonvalue::entries_unique(final(map)@) && (forall|i: int|
                        0 <= i < final(map)@.len() ==> crate::jsonvalue::value_wf(
                            (#[trigger] final(map)@[i]).1,
                        )),
                    Err(e) => res == Some(
                        Err::<(crate::jsonvalue::SpecValue, LexState), _>((e@, final(self)@)),
                    ),
                }
            }),
        decreases self@.text.len() - self@.pos, 3int,
    {
        let token = match self.advance() {
            Ok(t) => t,
            Err(e) => {
                return Err(e);
            },
        };
        let key = match token.kind {
            TokenKind::String(s) => s,
            other => {
                return Err(ParserError::Parser {
                    kind: ParserErrorKind::ExpectedToken(TokenKind::String(String::new()), other),
                    line: token.line,
                    column: token.column,
                });
            },
        };
        match self.expect(TokenKind::Colon) {
            Ok(t) => {},
            Err(e) => {
                return Err(e);
            },
        }
        let ghost st2 = self@;
        proof {
            crate::lexspec::lemma_next_token_wf(old(self)@);
            crate::lexspec::lemma_next_token_wf(next_token_spec(old(self)@).1);
            lemma_parse_value_total(st2, (members_fuel(old(self)@) - 1) as nat, value_fuel(st2));
        }
        let value = match self.parse_value() {
            Ok(v) => v,
            Err(e) => {
                return Err(e);
            },
        };
        crate::jsonvalue::insert_entry(map, key, value);
        let ghost st3 = self@;
        let t3 = match self.peek() {
            Ok(t) => t,
            Err(e) => {
                return Err(e);
            },
        };
        if same_kind(&t3.kind, &TokenKind::Comma) {
            let comma = match self.advance() {
                Ok(t) => t,
                Err(e) => {
                    return Err(e);
                },
            };
            let ghost st4 = self@;
            let trailing = match self.peek_kind() {
                Ok(k) => match k {
                    TokenKind::RightBrace => true,
                    _ => false,
                },
                Err(e) => {
                    return Err(e);
                },
            };
            if trailing {
                return Err(ParserError::Parser {
                    kind: ParserErrorKind::TrailingComma,
                    line: comma.line,
                    column: comma.column,
                });
            }
            proof {
                crate::lexspec::lemma_next_token_wf(st3);
                lemma_parse_members_total(
                    st4,
                    entries_value(map@),
                    members_fuel(st4),
                    (members_fuel(old(self)@) - 1) as nat,
                );
            }
            self.parse_members(map)
        } else if same_kind(&t3.kind, &TokenKind::RightBrace) {
            match self.advance() {
                Ok(t) => {},
                Err(e) => {
                    return Err(e);
                },
            }
            Ok(())
        } else {
            let found = clone_kind(&t3.kind);
            let line = t3.line;
            let column = t3.column;
            Err(ParserError::Parser {
                kind: ParserErrorKind::ExpectedObjectEndOrComma(found),
                line,
                column,
            })
        }
    }

    /// Parses an array, entered before its `[` token.
    fn parse_array(&mut self) -> (r: Result<JSONValue, ParserError>)
        requires
            old(self).wf(),
        ensures
            final(self).wf(),
            ({
                let res = parse_array_spec(old(self)@, array_fuel(old(self)@));
                match r {
                    Ok(v) => res == Some(Ok::<_, (SpecParserError, LexState)>((v@, final(self)@)))
                        && crate::jsonvalue::value_wf(v),
                    Err(e) => res == Some(
                        Err::<(crate::jsonvalue::SpecValue, LexState), _>((e@, final(self)@)),
                    ),
                }
            }),
        decreases self@.text.len() - self@.pos, 1int,
    {
        match self.expect(TokenKind::LeftBracket) {
            Ok(t) => {},
            Err(e) => {
                return Err(e);
            },
        }
        let ghost st1 = self@;
        proof {
            crate::lexspec::lemma_next_token_wf(old(self)@);
        }
        let mut arr: Vec<JSONValue> = Vec::new();
        let empty = match self.peek_kind() {
            Ok(k) => match k {
                TokenKind::RightBracket => true,
                _ => false,
            },
            Err(e) => {
                return Err(e);
            },
        };
        if empty {
            match self.advance() {
                Ok(t) => {},
                Err(e) => {
                    return Err(e);
                },
            }
            proof {
                assert(element_views(arr@) =~= Seq::<crate::jsonvalue::SpecValue>::empty());
            }
            return Ok(JSONValue::Array(arr));
        }
        match self.parse_elements(&mut arr) {
            Ok(u) => {},
            Err(e) => {
                proof {
                    crate::lexspec::lemma_next_token_wf(old(self)@);
                    lemma_parse_elements_total(st1, Seq::empty(), elements_fuel(st1), (array_fuel(
                        old(self)@,
                    ) - 1) as nat);
                    assert(element_views(Seq::<JSONValue>::empty())
                        =~= Seq::<crate::jsonvalue::SpecValue>::empty());
                }
                return Err(e);
            },
        }
        proof {
            crate::lexspec::lemma_next_token_wf(old(self)@);
            lemma_parse_elements_total(st1, Seq::empty(), elements_fuel(st1), (array_fuel(
                old(self)@,
            ) - 1) as nat);
            assert(element_views(Seq::<JSONValue>::empty())
                =~= Seq::<crate::jsonvalue::SpecValue>::empty());
        }
        Ok(JSONValue::Array(arr))
    }

    /// Parses the elements of a non-empty array, entered before a value,
    /// pushing each onto `arr` and consuming the closing bracket.
    #[verifier::rlimit(30)]
    fn parse_elements(&mut self, arr: &mut Vec<JSONValue>) -> (r: Result<(), ParserError>)
        requires
            old(self).wf(),
            forall|i: int|
                0 <= i < old(arr)@.len() ==> crate::jsonvalue::value_wf(#[trigger] old(arr)@[i]),
        ensures
            final(self).wf(),
            ({
                let res = parse_elements_spec(
                    old(self)@,
                    element_views(old(arr)@),
                    elements_fuel(old(self)@),
                );
                match r {
                    Ok(u) => res == Some(Ok::<_, (SpecParserError, LexState)>((
                        crate::jsonvalue::SpecValue::Array(element_views(final(arr)@)),
                        final(self)@,
                    ))) && (forall|i: int|
                        0 <= i < final(arr)@.len() ==> crate::jsonvalue::value_wf(
                            #[trigger] final(arr)@[i],
                        )),
                    Err(e) => res == Some(
                        Err::<(crate::jsonvalue::SpecValue, LexState), _>((e@, final(self)@)),
                    ),
                }
            }),
        decreases self@.text.len() - self@.pos, 3int,
    {
        let ghost st0 = self@;
        let value = match self.parse_value() {
            Ok(v) => v,
            Err(e) => {
                return Err(e);
            },
        };
        let ghost s_pre = arr@;
        arr.push(value);
        proof {
            assert(arr@.drop_last() =~= s_pre);
        }
        let ghost st1 = self@;
        let t2 = match self.peek() {
            Ok(t) => t,
            Err(e) => {
                return Err(e);
            },
        };
        if same_kind(&t2.kind, &TokenKind::RightBracket) {
            match self.advance() {
                Ok(t) => {},
                Err(e) => {
                    return Err(e);
                },
            }
            Ok(())
        } else {
            let expected = [TokenKind::Comma, TokenKind::RightBracket];
            proof {
                assert(kind_views(expected@) =~= seq![
                    crate::jsonvalue::SpecTokenKind::Comma,
                    crate::jsonvalue::SpecTokenKind::RightBracket,
                ]);
            }
            let comma = match self.expect_either(&expected) {
                Ok(t) => t,
                Err(e) => {
                    return Err(e);
                },
            };
            let ghost st2 = self@;
            let trailing = match self.peek_kind() {
                Ok(k) => match k {
                    TokenKind::RightBracket => true,
                    _ => false,
                },
                Err(e) => {
                    return Err(e);
                },
            };
            if trailing {
                return Err(ParserError::Parser {
                    kind: ParserErrorKind::TrailingComma,
                    line: comma.line,
                    column: comma.column,
                });
            }
            proof {
                lemma_parse_value_total(st0, (elements_fuel(st0) - 1) as nat, value_fuel(st0));
                crate::lexspec::lemma_next_token_wf(st1);
                lemma_parse_elements_total(
                    st2,
                    element_views(arr@),
                    elements_fuel(st2),
                    (elements_fuel(st0) - 1) as nat,
                );
            }
            self.parse_elements(arr)
        }
    }
}

/// Parses a complete JSON document: builds a lexer over the text, wraps
/// it in a parser, and returns its single value, or the first error.
pub fn parse_json(input: &str) -> (r: Result<JSONValue, ParserError>)
    requires
        input@.len() < usize::MAX,
    ensures
        match r {
            Ok(v) => spec_parse_json(input@) == Ok::<_, SpecParserError>(v@)
                && crate::jsonvalue::value_wf(v),
            Err(e) => spec_parse_json(input@) == Err::<crate::jsonvalue::SpecValue, _>(e@),
        },
{
    let lexer = Lexer::new(input);
    let mut parser = Parser::new(lexer);
    parser.parse()
}

/// Whether two token kinds are the same, payloads included.
fn same_kind(a: &TokenKind, b: &TokenKind) -> (r: bool)
    ensures
        r == (a@ == b@),
{
    match (a, b) {
        (TokenKind::LeftBrace, TokenKind::LeftBrace) => true,
        (TokenKind::RightBrace, TokenKind::RightBrace) => true,
        (TokenKind::LeftBracket, TokenKind::LeftBracket) => true,
        (TokenKind::RightBracket, TokenKind::RightBracket) => true,
        (TokenKind::Colon, TokenKind::Colon) => true,
        (TokenKind::Comma, TokenKind::Comma) => true,
        (TokenKind::String(x), TokenKind::String(y)) => *x == *y,
        (TokenKind::Number(x), TokenKind::Number(y)) => *x == *y,
        (TokenKind::True, TokenKind::True) => true,
        (TokenKind::False, TokenKind::False) => true,
        (TokenKind::Null, TokenKind::Null) => true,
        (TokenKind::EOF, TokenKind::EOF) => true,
        _ => false,
    }
}

/// A copy of a token kind with the same abstract value.
fn clone_kind(k: &TokenKind) -> (r: TokenKind)
    ensures
        r@ == k@,
{
    match k {
        TokenKind::LeftBrace => TokenKind::LeftBrace,
        TokenKind::RightBrace => TokenKind::RightBrace,
        TokenKind::LeftBracket => TokenKind::LeftBracket,
        TokenKind::RightBracket => TokenKind::RightBracket,
        TokenKind::Colon => TokenKind::Colon,
        TokenKind::Comma => TokenKind::Comma,
        TokenKind::String(s) => TokenKind::String(s.clone()),
        TokenKind::Number(s) => TokenKind::Number(s.clone()),
        TokenKind::True => TokenKind::True,
        TokenKind::False => TokenKind::False,
        TokenKind::Null => TokenKind::Null,
        TokenKind::EOF => TokenKind::EOF,
    }
}

} // verus!
