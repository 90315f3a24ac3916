//! The mathematical model of the grammar check.
//!
//! The parser is mirrored by total spec functions that walk the token
//! stream (through `next_token_spec`) and build the abstract value. Each
//! takes a fuel bound so that the mutual recursion is visibly
//! terminating; `lemma_parse_value_total` and its companions show that
//! any fuel past three times the remaining characters is enough and that
//! the result does not depend on it, so the fuel is an artifact of the
//! definition, not of the meaning.

use vstd::prelude::*;

use crate::errors::SpecParserError;
use crate::errors::SpecParserErrorKind;
use crate::jsonvalue::SpecTokenKind;
use crate::jsonvalue::SpecValue;
use crate::lexspec::LexState;
use crate::lexspec::SpecToken;
use crate::lexspec::lemma_next_token_wf;
use crate::lexspec::lex_wf;
use crate::lexspec::next_token_spec;

verus! {

/// The outcome of a parsing routine: `None` only when the fuel ran out.
/// A success carries the value and the scan state past it; a failure
/// carries the error and the scan state at which parsing stopped, so a
/// parser's position after an error is pinned down too.
pub type ParseStep<T> = Option<Result<(T, LexState), (SpecParserError, LexState)>>;

/// A structural error at the given token's position.
pub open spec fn perr(kind: SpecParserErrorKind, t: SpecToken) -> SpecParserError {
    SpecParserError::Parser { kind, line: t.line, col: t.col }
}

/// Parsing one value: dispatch on the next token.
pub open spec fn parse_value_spec(st: LexState, fuel: nat) -> ParseStep<SpecValue>
    decreases fuel,
{
    if fuel == 0 {
        None
    } else {
        let (r, st1) = next_token_spec(st);
        match r {
            Err(e) => Some(Err((SpecParserError::Lexer(e), st))),
            Ok(t) => match t.kind {
                SpecTokenKind::LeftBrace => parse_object_spec(st, (fuel - 1) as nat),
                SpecTokenKind::LeftBracket => parse_array_spec(st, (fuel - 1) as nat),
                SpecTokenKind::String(s) => Some(Ok((SpecValue::String(s), st1))),
                SpecTokenKind::Number(s) => Some(Ok((SpecValue::Number(s), st1))),
                SpecTokenKind::True => Some(Ok((SpecValue::Bool(true), st1))),
                SpecTokenKind::False => Some(Ok((SpecValue::Bool(false), st1))),
                SpecTokenKind::Null => Some(Ok((SpecValue::Null, st1))),
                _ => Some(Err((perr(SpecParserErrorKind::UnexpectedToken(t.kind), t), st))),
            },
        }
    }
}

/// Parsing an object, entered before its `{` token.
pub open spec fn parse_object_spec(st: LexState, fuel: nat) -> ParseStep<SpecValue>
    decreases fuel,
{
    if fuel == 0 {
        None
    } else {
        let (r, st1) = next_token_spec(st);
        match r {
            Err(e) => Some(Err((SpecParserError::Lexer(e), st1))),
            Ok(t) => if !(t.kind is LeftBrace) {
                Some(Err((
                    perr(SpecParserErrorKind::ExpectedToken(SpecTokenKind::LeftBrace, t.kind), t),
                    st1,
                )))
            } else {
                let (r2, st2) = next_token_spec(st1);
                match r2 {
                    Err(e) => Some(Err((SpecParserError::Lexer(e), st1))),
                    Ok(t2) => if t2.kind is RightBrace {
                        Some(Ok((SpecValue::Object(Map::empty()), st2)))
                    } else {
                        parse_members_spec(st1, Map::empty(), (fuel - 1) as nat)
                    },
                }
            },
        }
    }
}

/// Parsing the members of a non-empty object, entered before a key,
/// with the entries read so far.
pub open spec fn parse_members_spec(
    st: LexState,
    acc: Map<Seq<char>, SpecValue>,
    fuel: nat,
) -> ParseStep<SpecValue>
    decreases fuel,
{
    if fuel == 0 {
        None
    } else {
        let (r, st1) = next_token_spec(st);
        match r {
            Err(e) => Some(Err((SpecParserError::Lexer(e), st1))),
            Ok(t) => match t.kind {
                SpecTokenKind::String(key) => {
                    let (r2, st2) = next_token_spec(st1);
                    match r2 {
                        Err(e) => Some(Err((SpecParserError::Lexer(e), st2))),
                        Ok(t2) => if !(t2.kind is Colon) {
                            Some(Err((
                                perr(
                                    SpecParserErrorKind::ExpectedToken(SpecTokenKind::Colon, t2.kind),
                                    t2,
                                ),
                                st2,
                            )))
                        } else {
                            match parse_value_spec(st2, (fuel - 1) as nat) {
                                None => None,
                                Some(Err(es)) => Some(Err(es)),
                                Some(Ok((v, st3))) => {
                                    let acc1 = acc.insert(key, v);
                                    let (r3, st4) = next_token_spec(st3);
                                    match r3 {
                                        Err(e) => Some(Err((SpecParserError::Lexer(e), st3))),
                                        Ok(t3) => if t3.kind is Comma {
                                            let (r4, st5) = next_token_spec(st4);
                                            match r4 {
                                                Err(e) => Some(Err((SpecParserError::Lexer(e), st4))),
                                                Ok(t4) => if t4.kind is RightBrace {
                                                    Some(Err((
                                                        perr(SpecParserErrorKind::TrailingComma, t3),
                                                        st4,
                                                    )))
                                                } else {
                                                    parse_members_spec(st4, acc1, (fuel - 1) as nat)
                                                },
                                            }
                                        } else if t3.kind is RightBrace {
                                            Some(Ok((SpecValue::Object(acc1), st4)))
                                        } else {
                                            Some(Err((
                                                perr(
                                                    SpecParserErrorKind::ExpectedObjectEndOrComma(
                                                        t3.kind,
                                                    ),
                                                    t3,
                                                ),
                                                st3,
                                            )))
                                        },
                                    }
                                },
                            }
                        },
                    }
                },
                _ => Some(Err((
                    perr(
                        SpecParserErrorKind::ExpectedToken(
                            SpecTokenKind::String(Seq::empty()),
                            t.kind,
                        ),
                        t,
                    ),
                    st1,
                ))),
            },
        }
    }
}

/// Parsing an array, entered before its `[` token.
pub open spec fn parse_array_spec(st: LexState, fuel: nat) -> ParseStep<SpecValue>
    decreases fuel,
{
    if fuel == 0 {
        None
    } else {
        let (r, st1) = next_token_spec(st);
        match r {
            Err(e) => Some(Err((SpecParserError::Lexer(e), st1))),
            Ok(t) => if !(t.kind is LeftBracket) {
                Some(Err((
                    perr(
                        SpecParserErrorKind::ExpectedToken(SpecTokenKind::LeftBracket, t.kind),
                        t,
                    ),
                    st1,
                )))
            } else {
                let (r2, st2) = next_token_spec(st1);
                match r2 {
                    Err(e) => Some(Err((SpecParserError::Lexer(e), st1))),
                    Ok(t2) => if t2.kind is RightBracket {
                        Some(Ok((SpecValue::Array(Seq::empty()), st2)))
                    } else {
                        parse_elements_spec(st1, Seq::empty(), (fuel - 1) as nat)
                    },
                }
            },
        }
    }
}

/// Parsing the elements of a non-empty array, entered before a value,
/// with the elements read so far. A comma must be followed by another
/// value; a comma directly before `]` is a trailing comma, reported at
/// the comma.
pub open spec fn parse_elements_spec(
    st: LexState,
    acc: Seq<SpecValue>,
    fuel: nat,
) -> ParseStep<SpecValue>
    decreases fuel,
{
    if fuel == 0 {
        None
    } else {
        match parse_value_spec(st, (fuel - 1) as nat) {
            None => None,
            Some(Err(es)) => Some(Err(es)),
            Some(Ok((v, st1))) => {
                let acc1 = acc.push(v);
                let (r2, st2) = next_token_spec(st1);
                match r2 {
                    Err(e) => Some(Err((SpecParserError::Lexer(e), st1))),
                    Ok(t2) => if t2.kind is RightBracket {
                        Some(Ok((SpecValue::Array(acc1), st2)))
                    } else if !(t2.kind is Comma) {
                        Some(Err((
                            perr(
                                SpecParserErrorKind::ExpectedOneOfTokens(
                                    seq![SpecTokenKind::Comma, SpecTokenKind::RightBracket],
                                    t2.kind,
                                ),
                                t2,
                            ),
                            st2,
                        )))
                    } else {
                        let (r3, st3) = next_token_spec(st2);
                        match r3 {
                            Err(e) => Some(Err((SpecParserError::Lexer(e), st2))),
                            Ok(t3) => if t3.kind is RightBracket {
                                Some(Err((perr(SpecParserErrorKind::TrailingComma, t2), st2)))
                            } else {
                                parse_elements_spec(st2, acc1, (fuel - 1) as nat)
                            },
                        }
                    },
                }
            },
        }
    }
}

/// Parsing one value succeeds in giving an answer whenever the fuel
/// exceeds three times the remaining characters, the answer does not
/// depend on the exact fuel, and on success the cursor moved strictly
/// forward within the same text.
pub proof fn lemma_parse_value_total(st: LexState, f1: nat, f2: nat)
    requires
        lex_wf(st),
        f1 >= 3 * (st.text.len() - st.pos) + 3,
        f2 >= 3 * (st.text.len() - st.pos) + 3,
    ensures
        parse_value_spec(st, f1) == parse_value_spec(st, f2),
        parse_value_spec(st, f1) is Some,
        ({
            match parse_value_spec(st, f1) {
                Some(Ok((v, st1))) => lex_wf(st1) && st1.text == st.text && st1.pos > st.pos,
                _ => true,
            }
        }),
    decreases f1 + f2,
{
    lemma_next_token_wf(st);
    let (r, st1) = next_token_spec(st);
    if r is Ok {
        let t = r->Ok_0;
        if t.kind is LeftBrace {
            lemma_parse_object_total(st, (f1 - 1) as nat, (f2 - 1) as nat);
        } else if t.kind is LeftBracket {
            lemma_parse_array_total(st, (f1 - 1) as nat, (f2 - 1) as nat);
        }
    }
}

/// The companion of `lemma_parse_value_total` for objects.
pub proof fn lemma_parse_object_total(st: LexState, f1: nat, f2: nat)
    requires
        lex_wf(st),
        f1 >= 3 * (st.text.len() - st.pos) + 2,
        f2 >= 3 * (st.text.len() - st.pos) + 2,
    ensures
        parse_object_spec(st, f1) == parse_object_spec(st, f2),
        parse_object_spec(st, f1) is Some,
        ({
            match parse_object_spec(st, f1) {
                Some(Ok((v, st1))) => lex_wf(st1) && st1.text == st.text && st1.pos > st.pos,
                _ => true,
            }
        }),
    decreases f1 + f2,
{
    lemma_next_token_wf(st);
    let (r, st1) = next_token_spec(st);
    if r is Ok && r->Ok_0.kind is LeftBrace {
        lemma_next_token_wf(st1);
        let (r2, st2) = next_token_spec(st1);
        if r2 is Ok && !(r2->Ok_0.kind is RightBrace) {
            lemma_parse_members_total(st1, Map::empty(), (f1 - 1) as nat, (f2 - 1) as nat);
        }
    }
}

/// The companion of `lemma_parse_value_total` for object members.
pub proof fn lemma_parse_members_total(
    st: LexState,
    acc: Map<Seq<char>, SpecValue>,
    f1: nat,
    f2: nat,
)
    requires
        lex_wf(st),
        f1 >= 3 * (st.text.len() - st.pos) + 1,
        f2 >= 3 * (st.text.len() - st.pos) + 1,
    ensures
        parse_members_spec(st, acc, f1) == parse_members_spec(st, acc, f2),
        parse_members_spec(st, acc, f1) is Some,
        ({
            match parse_members_spec(st, acc, f1) {
                Some(Ok((v, st1))) => lex_wf(st1) && st1.text == st.text && st1.pos > st.pos,
                _ => true,
            }
        }),
    decreases f1 + f2,
{
    lemma_next_token_wf(st);
    let (r, st1) = next_token_spec(st);
    if r is Ok && r->Ok_0.kind is String {
        let key = r->Ok_0.kind->String_0;
        lemma_next_token_wf(st1);
        let (r2, st2) = next_token_spec(st1);
        if r2 is Ok && r2->Ok_0.kind is Colon {
            lemma_parse_value_total(st2, (f1 - 1) as nat, (f2 - 1) as nat);
            match parse_value_spec(st2, (f1 - 1) as nat) {
                Some(Ok((v, st3))) => {
                    lemma_next_token_wf(st3);
                    let (r3, st4) = next_token_spec(st3);
                    if r3 is Ok && r3->Ok_0.kind is Comma {
                        lemma_next_token_wf(st4);
                        let (r4, st5) = next_token_spec(st4);
                        if r4 is Ok && !(r4->Ok_0.kind is RightBrace) {
                            lemma_parse_members_total(
                                st4,
                                acc.insert(key, v),
                                (f1 - 1) as nat,
                                (f2 - 1) as nat,
                            );
                        }
                    }
                },
                _ => {},
            }
        }
    }
}

/// The companion of `lemma_parse_value_total` for arrays.
pub proof fn lemma_parse_array_total(st: LexState, f1: nat, f2: nat)
    requires
        lex_wf(st),
        f1 >= 3 * (st.text.len() - st.pos) + 2,
        f2 >= 3 * (st.text.len() - st.pos) + 2,
    ensures
        parse_array_spec(st, f1) == parse_array_spec(st, f2),
        parse_array_spec(st, f1) is Some,
        ({
            match parse_array_spec(st, f1) {
                Some(Ok((v, st1))) => lex_wf(st1) && st1.text == st.text && st1.pos > st.pos,
                _ => true,
            }
        }),
    decreases f1 + f2,
{
    lemma_next_token_wf(st);
    let (r, st1) = next_token_spec(st);
    if r is Ok && r->Ok_0.kind is LeftBracket {
        lemma_next_token_wf(st1);
        let (r2, st2) = next_token_spec(st1);
        if r2 is Ok && !(r2->Ok_0.kind is RightBracket) {
            lemma_parse_elements_total(st1, Seq::empty(), (f1 - 1) as nat, (f2 - 1) as nat);
        }
    }
}

/// The companion of `lemma_parse_value_total` for array elements.
pub proof fn lemma_parse_elements_total(st: LexState, acc: Seq<SpecValue>, f1: nat, f2: nat)
    requires
        lex_wf(st),
        f1 >= 3 * (st.text.len() - st.pos) + 4,
        f2 >= 3 * (st.text.len() - st.pos) + 4,
    ensures
        parse_elements_spec(st, acc, f1) == parse_elements_spec(st, acc, f2),
        parse_elements_spec(st, acc, f1) is Some,
        ({
            match parse_elements_spec(st, acc, f1) {
                Some(Ok((v, st1))) => lex_wf(st1) && st1.text == st.text && st1.pos > st.pos,
                _ => true,
            }
        }),
    decreases f1 + f2,
{
    lemma_parse_value_total(st, (f1 - 1) as nat, (f2 - 1) as nat);
    match parse_value_spec(st, (f1 - 1) as nat) {
        Some(Ok((v, st1))) => {
            lemma_next_token_wf(st1);
            let (r2, st2) = next_token_spec(st1);
            if r2 is Ok && !(r2->Ok_0.kind is RightBracket) && r2->Ok_0.kind is Comma {
                lemma_next_token_wf(st2);
                let (r3, st3) = next_token_spec(st2);
                if r3 is Ok && !(r3->Ok_0.kind is RightBracket) {
                    lemma_parse_elements_total(st2, acc.push(v), (f1 - 1) as nat, (f2 - 1) as nat);
                }
            }
        },
        _ => {},
    }
}

/// Parsing a whole document: one value, then the end of the input.
pub open spec fn parse_top_spec(st: LexState, fuel: nat) -> ParseStep<SpecValue> {
    match parse_value_spec(st, fuel) {
        None => None,
        Some(Err(es)) => Some(Err(es)),
        Some(Ok((v, st1))) => {
            let (r2, st2) = next_token_spec(st1);
            match r2 {
                Err(e) => Some(Err((SpecParserError::Lexer(e), st2))),
                Ok(t) => if t.kind is EOF {
                    Some(Ok((v, st2)))
                } else {
                    Some(Err((
                        perr(SpecParserErrorKind::ExpectedToken(SpecTokenKind::EOF, t.kind), t),
                        st2,
                    )))
                },
            }
        },
    }
}

/// Fuel that is always enough to parse one value from `st`.
pub open spec fn value_fuel(st: LexState) -> nat {
    (3 * (st.text.len() - st.pos) + 3) as nat
}

/// Fuel that is always enough to parse one object from `st`.
pub open spec fn object_fuel(st: LexState) -> nat {
    (3 * (st.text.len() - st.pos) + 2) as nat
}

/// Fuel that is always enough to parse one array from `st`.
pub open spec fn array_fuel(st: LexState) -> nat {
    (3 * (st.text.len() - st.pos) + 2) as nat
}

/// Fuel that is always enough to parse the members of an object from
/// `st`.
pub open spec fn members_fuel(st: LexState) -> nat {
    (3 * (st.text.len() - st.pos) + 1) as nat
}

/// Fuel that is always enough to parse the elements of an array from
/// `st`.
pub open spec fn elements_fuel(st: LexState) -> nat {
    (3 * (st.text.len() - st.pos) + 4) as nat
}

/// The scan state at the start of a text.
pub open spec fn start_state(text: Seq<char>) -> LexState {
    LexState { text, pos: 0 as nat, line: 1 as nat, col: 1 as nat }
}

/// What parsing a text means: the unique outcome of the grammar walk
/// over its token stream. This is the function the library's entry point
/// is proved to compute.
pub open spec fn spec_parse_json(text: Seq<char>) -> Result<SpecValue, SpecParserError> {
    match parse_top_spec(start_state(text), value_fuel(start_state(text))) {
        Some(Ok((v, st))) => Ok(v),
        Some(Err((e, st))) => Err(e),
        None => arbitrary(),
    }
}

/// The scan of a text begins at line 1, column 1, a well-formed state.
/// Well-formedness includes the closed-form position contract
/// (`position_consistent`: the line is one more than the newlines
/// before the cursor, the column counts the characters since that line
/// began), and every scanning function preserves it, so each position a
/// token or an error carries is the exact 1-based line and column of
/// the cursor it was taken at.
pub proof fn lemma_start_state_wf(text: Seq<char>)
    ensures
        lex_wf(start_state(text)),
{
}

/// Parsing is idempotent: what a text parses to is a function of the
/// text alone, so two parses of the same input yield equal value trees
/// on success and equal errors on failure. Together with the entry
/// point's contract — its result's view equals `spec_parse_json` of the
/// input's view — this pins down repeated parses completely.
pub proof fn lemma_parse_idempotent(
    text: Seq<char>,
    r1: Result<SpecValue, SpecParserError>,
    r2: Result<SpecValue, SpecParserError>,
)
    requires
        r1 == spec_parse_json(text),
        r2 == spec_parse_json(text),
    ensures
        r1 == r2,
{
}

} // verus!
