//! The token and value vocabulary shared by the lexer and the parser,
//! together with the spec-level mirrors that contracts are stated over.
//!
//! A JSON number is kept as its grammar-validated literal text: the lexer
//! guarantees the shape of that text, and a caller that wants a machine
//! float converts the text itself.

use vstd::prelude::*;

verus! {

/// The lexical classes of JSON, each carrying its decoded payload.
/// `Number` holds the validated literal text (sign, digits, fraction,
/// exponent) exactly as accumulated by the lexer.
#[derive(Debug, Clone, PartialEq, Eq)]
pub enum TokenKind {
    LeftBrace,
    RightBrace,
    LeftBracket,
    RightBracket,
    Colon,
    Comma,
    String(String),
    Number(String),
    True,
    False,
    Null,
    EOF,
}

/// Spec-level mirror of `TokenKind`: string payloads become `Seq<char>`.
pub enum SpecTokenKind {
    LeftBrace,
    RightBrace,
    LeftBracket,
    RightBracket,
    Colon,
    Comma,
    String(Seq<char>),
    Number(Seq<char>),
    True,
    False,
    Null,
    EOF,
}

impl View for TokenKind {
    type V = SpecTokenKind;

    open spec fn view(&self) -> SpecTokenKind {
        match self {
            TokenKind::LeftBrace => SpecTokenKind::LeftBrace,
            TokenKind::RightBrace => SpecTokenKind::RightBrace,
            TokenKind::LeftBracket => SpecTokenKind::LeftBracket,
            TokenKind::RightBracket => SpecTokenKind::RightBracket,
            TokenKind::Colon => SpecTokenKind::Colon,
            TokenKind::Comma => SpecTokenKind::Comma,
            TokenKind::String(s) => SpecTokenKind::String(s@),
            TokenKind::Number(s) => SpecTokenKind::Number(s@),
            TokenKind::True => SpecTokenKind::True,
            TokenKind::False => SpecTokenKind::False,
            TokenKind::Null => SpecTokenKind::Null,
            TokenKind::EOF => SpecTokenKind::EOF,
        }
    }
}

/// The display text of a token kind: the punctuation itself, the
/// keyword, or the payload of a string or number token.
pub open spec fn token_kind_message(k: SpecTokenKind) -> Seq<char> {
    match k {
        SpecTokenKind::LeftBrace => "{"@,
        SpecTokenKind::RightBrace => "}"@,
        SpecTokenKind::LeftBracket => "["@,
        SpecTokenKind::RightBracket => "]"@,
        SpecTokenKind::Colon => ":"@,
        SpecTokenKind::Comma => ","@,
        SpecTokenKind::String(s) => "string: \""@ + s + "\""@,
        SpecTokenKind::Number(s) => "number("@ + s + ")"@,
        SpecTokenKind::True => "true"@,
        SpecTokenKind::False => "false"@,
        SpecTokenKind::Null => "null"@,
        SpecTokenKind::EOF => "EOF"@,
    }
}

/// How many bytes a token occupies in the source, as the error renderer
/// underlines it: a string includes its two quotes.
pub open spec fn spec_display_len(k: SpecTokenKind) -> nat {
    match k {
        SpecTokenKind::String(s) => vstd::utf8::encode_utf8(s).len() + 2,
        SpecTokenKind::Number(s) => vstd::utf8::encode_utf8(s).len(),
        SpecTokenKind::True => 4 as nat,
        SpecTokenKind::False => 5 as nat,
        SpecTokenKind::Null => 4 as nat,
        _ => 1 as nat,
    }
}

impl TokenKind {
    /// Renders the kind for a diagnostic message.
    pub fn message(&self) -> (s: String)
        ensures
            s@ == token_kind_message(self@),
    {
        let mut out = String::new();
        match self {
            TokenKind::LeftBrace => {
                out.append("{");
            },
            TokenKind::RightBrace => {
                out.append("}");
            },
            TokenKind::LeftBracket => {
                out.append("[");
            },
            TokenKind::RightBracket => {
                out.append("]");
            },
            TokenKind::Colon => {
                out.append(":");
            },
            TokenKind::Comma => {
                out.append(",");
            },
            TokenKind::String(s) => {
                out.append("string: \"");
                out.append(s.as_str());
                out.append("\"");
            },
            TokenKind::Number(s) => {
                out.append("number(");
                out.append(s.as_str());
                out.append(")");
            },
            TokenKind::True => {
                out.append("true");
            },
            TokenKind::False => {
                out.append("false");
            },
            TokenKind::Null => {
                out.append("null");
            },
            TokenKind::EOF => {
                out.append("EOF");
            },
        }
        proof {
            assert(out@ =~= token_kind_message(self@));
        }
        out
    }

    /// The width in bytes of the token's source text, for underlining.
    pub fn display_len(&self) -> (r: usize)
        ensures
            spec_display_len(self@) <= usize::MAX ==> r as nat == spec_display_len(self@),
    {
        match self {
            TokenKind::LeftBrace
            | TokenKind::RightBrace
            | TokenKind::LeftBracket
            | TokenKind::RightBracket
            | TokenKind::Colon
            | TokenKind::Comma => 1,
            TokenKind::String(s) => {
                let b = s.as_str().len();
                if b <= usize::MAX - 2 {
                    b + 2
                } else {
                    usize::MAX
                }
            },
            TokenKind::Number(s) => s.as_str().len(),
            TokenKind::True => 4,
            TokenKind::False => 5,
            TokenKind::Null => 4,
            TokenKind::EOF => 1,
        }
    }
}

/// A parsed JSON document: a tagged tree. Children are owned by their
/// parent container; an object is a list of key/value entries whose keys
/// are unique (later inserts overwrite earlier ones).
#[derive(Debug, PartialEq, Eq)]
pub enum JSONValue {
    Null,
    Bool(bool),
    /// The validated literal text of the number.
    Number(String),
    String(String),
    Array(Vec<JSONValue>),
    Object(Vec<(String, JSONValue)>),
}

/// Spec-level mirror of `JSONValue`. An object is a mathematical map, so
/// two objects that differ only in entry order are equal values.
#[verifier::ext_equal]
pub enum SpecValue {
    Null,
    Bool(bool),
    Number(Seq<char>),
    String(Seq<char>),
    Array(Seq<SpecValue>),
    Object(Map<Seq<char>, SpecValue>),
}

/// The abstract values of a sequence of array elements, in order.
pub open spec fn element_views(elems: Seq<JSONValue>) -> Seq<SpecValue>
    decreases elems,
{
    if elems.len() == 0 {
        Seq::empty()
    } else {
        element_views(elems.drop_last()).push(value_view(elems.last()))
    }
}

/// The value of a sequence of object entries as a map: a later entry with
/// the same key wins.
pub open spec fn entries_value(entries: Seq<(String, JSONValue)>) -> Map<Seq<char>, SpecValue>
    decreases entries,
{
    if entries.len() == 0 {
        Map::empty()
    } else {
        entries_value(entries.drop_last()).insert(entries.last().0@, value_view(entries.last().1))
    }
}

/// The abstract value of a `JSONValue` tree.
pub open spec fn value_view(v: JSONValue) -> SpecValue
    decreases v,
{
    match v {
        JSONValue::Null => SpecValue::Null,
        JSONValue::Bool(b) => SpecValue::Bool(b),
        JSONValue::Number(s) => SpecValue::Number(s@),
        JSONValue::String(s) => SpecValue::String(s@),
        JSONValue::Array(a) => SpecValue::Array(element_views(a@)),
        JSONValue::Object(entries) => SpecValue::Object(entries_value(entries@)),
    }
}

impl View for JSONValue {
    type V = SpecValue;

    open spec fn view(&self) -> SpecValue {
        value_view(*self)
    }
}

/// The keys of a sequence of object entries are pairwise distinct.
pub open spec fn entries_unique(entries: Seq<(String, JSONValue)>) -> bool {
    forall|i: int, j: int|
        0 <= i < j < entries.len() ==> (#[trigger] entries[i].0)@ != (#[trigger] entries[j].0)@
}

/// Well-formedness of the concrete representation: object keys are unique,
/// recursively. The parser only ever builds well-formed trees.
pub open spec fn value_wf(v: JSONValue) -> bool
    decreases v,
{
    match v {
        JSONValue::Array(a) => forall|i: int| 0 <= i < a@.len() ==> value_wf(#[trigger] a@[i]),
        JSONValue::Object(entries) => {
            &&& entries_unique(entries@)
            &&& forall|i: int| 0 <= i < entries@.len() ==> value_wf((#[trigger] entries@[i]).1)
        },
        _ => true,
    }
}

/// Removing the only entry holding a key does not change what an insert
/// of that key yields: the entry sequence means the same map either way.
proof fn lemma_entries_value_remove(
    s: Seq<(String, JSONValue)>,
    i: int,
    key: Seq<char>,
    v: SpecValue,
)
    requires
        0 <= i < s.len(),
        s[i].0@ == key,
        forall|j: int| 0 <= j < s.len() && j != i ==> (#[trigger] s[j].0)@ != key,
    ensures
        entries_value(s.remove(i)).insert(key, v) == entries_value(s).insert(key, v),
    decreases s.len(),
{
    if i == s.len() - 1 {
        assert(s.remove(i) =~= s.drop_last());
        assert(entries_value(s.drop_last()).insert(key, v) =~= entries_value(s).insert(key, v));
    } else {
        let p = s.last();
        assert(s.remove(i).drop_last() =~= s.drop_last().remove(i));
        assert(s.remove(i).last() == p);
        lemma_entries_value_remove(s.drop_last(), i, key, v);
        let m = entries_value(s.drop_last().remove(i));
        let md = entries_value(s.drop_last());
        assert(m.insert(p.0@, value_view(p.1)).insert(key, v) =~= m.insert(key, v).insert(
            p.0@,
            value_view(p.1),
        ));
        assert(md.insert(key, v).insert(p.0@, value_view(p.1)) =~= md.insert(
            p.0@,
            value_view(p.1),
        ).insert(key, v));
    }
}

/// Inserts a key/value entry with last-write-wins semantics: an entry
/// with the same key is removed and the new one appended. The entries
/// mean exactly the map they meant before, with `key` now bound to
/// `value`.
pub fn insert_entry(entries: &mut Vec<(String, JSONValue)>, key: String, value: JSONValue)
    requires
        entries_unique(old(entries)@),
    ensures
        entries_unique(final(entries)@),
        entries_value(final(entries)@) == entries_value(old(entries)@).insert(
            key@,
            value_view(value),
        ),
        (forall|i: int| 0 <= i < old(entries)@.len() ==> value_wf((#[trigger] old(entries)@[i]).1))
            && value_wf(value) ==> forall|i: int|
            0 <= i < final(entries)@.len() ==> value_wf((#[trigger] final(entries)@[i]).1),
{
    let n = entries.len();
    let mut i: usize = 0;
    while i < n
        invariant
            i <= n,
            n == entries@.len(),
            entries_unique(entries@),
            entries@ == old(entries)@,
            forall|j: int| 0 <= j < i ==> (#[trigger] entries@[j].0)@ != key@,
        decreases n - i,
    {
        if entries[i].0 == key {
            let ghost s = entries@;
            entries.remove(i);
            proof {
                lemma_entries_value_remove(s, i as int, key@, value_view(value));
            }
            let ghost s1 = entries@;
            entries.push((key, value));
            proof {
                assert(entries@.drop_last() =~= s1);
            }
            return ;
        }
        i = i + 1;
    }
    let ghost s1 = entries@;
    entries.push((key, value));
    proof {
        assert(entries@.drop_last() =~= s1);
    }
}

} // verus!
