//! The value tree produced by the parser, its errors, and their
//! mathematical models.
//!
//! An object's entries are kept as a vector of key/value pairs in insertion
//! order, but an object *means* a finite map from keys to values: a later
//! entry with the same key overwrites the earlier one.  The spec-level model
//! [`SpecJson`] therefore holds a `Map` for objects, which makes equality of
//! objects independent of entry order, and a `Seq` for arrays, whose order is
//! significant.  An empty object or array is represented as `None`, which the
//! model keeps distinct from `Some` of an empty container.

use vstd::prelude::*;

verus! {

/// Spec-level model of a number: a 64-bit signed integer value, or a
/// floating-point literal kept as its lexeme.
pub enum SpecNumber {
    Integer(int),
    Float(Seq<char>),
}

/// Spec-level model of a value tree.
pub enum SpecJson {
    Object(Option<Map<Seq<char>, SpecJson>>),
    Array(Option<Seq<SpecJson>>),
    String(Seq<char>),
    Number(SpecNumber),
    True,
    False,
    Null,
}

/// Spec-level model of a parse error.
pub enum SpecError {
    EmptyDocument,
    ExpectedObjectStart { found: char },
    ExpectedArrayStart { found: char },
    ExpectedStringStart,
    UnterminatedString,
    UnexpectedToken { found: char, position: int },
    UnexpectedWordToken { word: Seq<char>, expected: char, found: char },
    MissingTerminator,
    ColonWithoutKey { position: int },
    MissingPendingKey { position: int },
    DuplicateKeyBeforeColon { position: int },
    TrailingCommaExpectedPair,
    TrailingCommaNoFollowingPair,
    CommaBeforeElement,
    MissingCommaBetweenElements,
    TrailingCommaNoFollowingElement,
    InvalidNumber { lexeme: Seq<char> },
    UnexpectedEndOfInput,
}

/// A numeric value: a lexeme that reads as a 64-bit signed integer becomes
/// `Integer`; otherwise, a lexeme in the floating-point grammar becomes
/// `Float`, kept as the raw lexeme.  The numeric interpretation of a float
/// lexeme is left to the caller.
#[derive(Debug)]
pub enum JsonNumber {
    Integer(i64),
    Float(String),
}

/// One value of the tree: an object, an array, a string (no escape
/// sequences), a number, or one of the literal words.
#[derive(Debug)]
pub enum JsonToken {
    Object(JsonObject),
    Array(JsonArray),
    String(String),
    Number(JsonNumber),
    True,
    False,
    Null,
}

/// A mapping from text keys to values.  `None` is an object with no entries;
/// a later entry with the same key overwrites the earlier one.
#[derive(Debug)]
pub struct JsonObject {
    pub keys: Option<Vec<(String, JsonToken)>>,
}

/// An ordered sequence of values.  `None` is an array with no elements.
#[derive(Debug)]
pub struct JsonArray {
    pub items: Option<Vec<JsonToken>>,
}

/// The single error type of the parser.  Each variant names the condition
/// that produced it; a variant carries the offending character, position,
/// word or lexeme where there is one to report.
#[derive(Debug)]
pub enum ParseError {
    EmptyDocument,
    ExpectedObjectStart { found: char },
    ExpectedArrayStart { found: char },
    ExpectedStringStart,
    UnterminatedString,
    UnexpectedToken { found: char, position: usize },
    UnexpectedWordToken { word: String, expected: char, found: char },
    MissingTerminator,
    ColonWithoutKey { position: usize },
    MissingPendingKey { position: usize },
    DuplicateKeyBeforeColon { position: usize },
    TrailingCommaExpectedPair,
    TrailingCommaNoFollowingPair,
    CommaBeforeElement,
    MissingCommaBetweenElements,
    TrailingCommaNoFollowingElement,
    InvalidNumber { lexeme: String },
    UnexpectedEndOfInput,
}

/// The map denoted by a sequence of key/value entries: inserted in order,
/// so that the last entry with a given key wins.
pub open spec fn kv_map(entries: Seq<(Seq<char>, SpecJson)>) -> Map<Seq<char>, SpecJson>
    decreases entries.len(),
{
    if entries.len() == 0 {
        Map::empty()
    } else {
        kv_map(entries.drop_last()).insert(entries.last().0, entries.last().1)
    }
}

/// The model of one executable value.
pub open spec fn token_view(t: JsonToken) -> SpecJson
    decreases t,
{
    match t {
        JsonToken::Object(o) => SpecJson::Object(
            match o.keys {
                Option::None => Option::None,
                Option::Some(v) => Option::Some(kv_map(entries_view(v@))),
            },
        ),
        JsonToken::Array(a) => SpecJson::Array(
            match a.items {
                Option::None => Option::None,
                Option::Some(v) => Option::Some(items_view(v@)),
            },
        ),
        JsonToken::String(s) => SpecJson::String(s@),
        JsonToken::Number(n) => SpecJson::Number(number_view(n)),
        JsonToken::True => SpecJson::True,
        JsonToken::False => SpecJson::False,
        JsonToken::Null => SpecJson::Null,
    }
}

/// The models of a sequence of executable object entries.
pub open spec fn entries_view(es: Seq<(String, JsonToken)>) -> Seq<(Seq<char>, SpecJson)>
    decreases es,
{
    if es.len() == 0 {
        Seq::empty()
    } else {
        entries_view(es.drop_last()).push((es.last().0@, token_view(es.last().1)))
    }
}

/// The models of a sequence of executable array elements.
pub open spec fn items_view(is: Seq<JsonToken>) -> Seq<SpecJson>
    decreases is,
{
    if is.len() == 0 {
        Seq::empty()
    } else {
        items_view(is.drop_last()).push(token_view(is.last()))
    }
}

pub open spec fn number_view(n: JsonNumber) -> SpecNumber {
    match n {
        JsonNumber::Integer(i) => SpecNumber::Integer(i as int),
        JsonNumber::Float(s) => SpecNumber::Float(s@),
    }
}

pub open spec fn error_view(e: ParseError) -> SpecError {
    match e {
        ParseError::EmptyDocument => SpecError::EmptyDocument,
        ParseError::ExpectedObjectStart { found } => SpecError::ExpectedObjectStart { found },
        ParseError::ExpectedArrayStart { found } => SpecError::ExpectedArrayStart { found },
        ParseError::ExpectedStringStart => SpecError::ExpectedStringStart,
        ParseError::UnterminatedString => SpecError::UnterminatedString,
        ParseError::UnexpectedToken { found, position } => SpecError::UnexpectedToken {
            found,
            position: position as int,
        },
        ParseError::UnexpectedWordToken { word, expected, found } => SpecError::UnexpectedWordToken {
            word: word@,
            expected,
            found,
        },
        ParseError::MissingTerminator => SpecError::MissingTerminator,
        ParseError::ColonWithoutKey { position } => SpecError::ColonWithoutKey {
            position: position as int,
        },
        ParseError::MissingPendingKey { position } => SpecError::MissingPendingKey {
            position: position as int,
        },
        ParseError::DuplicateKeyBeforeColon { position } => SpecError::DuplicateKeyBeforeColon {
            position: position as int,
        },
        ParseError::TrailingCommaExpectedPair => SpecError::TrailingCommaExpectedPair,
        ParseError::TrailingCommaNoFollowingPair => SpecError::TrailingCommaNoFollowingPair,
        ParseError::CommaBeforeElement => SpecError::CommaBeforeElement,
        ParseError::MissingCommaBetweenElements => SpecError::MissingCommaBetweenElements,
        ParseError::TrailingCommaNoFollowingElement => SpecError::TrailingCommaNoFollowingElement,
        ParseError::InvalidNumber { lexeme } => SpecError::InvalidNumber { lexeme: lexeme@ },
        ParseError::UnexpectedEndOfInput => SpecError::UnexpectedEndOfInput,
    }
}

impl View for JsonToken {
    type V = SpecJson;

    open spec fn view(&self) -> SpecJson {
        token_view(*self)
    }
}

impl View for JsonNumber {
    type V = SpecNumber;

    open spec fn view(&self) -> SpecNumber {
        number_view(*self)
    }
}

impl View for JsonObject {
    type V = Option<Map<Seq<char>, SpecJson>>;

    open spec fn view(&self) -> Option<Map<Seq<char>, SpecJson>> {
        match self.keys {
            Option::None => Option::None,
            Option::Some(v) => Option::Some(kv_map(entries_view(v@))),
        }
    }
}

impl View for JsonArray {
    type V = Option<Seq<SpecJson>>;

    open spec fn view(&self) -> Option<Seq<SpecJson>> {
        match self.items {
            Option::None => Option::None,
            Option::Some(v) => Option::Some(items_view(v@)),
        }
    }
}

impl View for ParseError {
    type V = SpecError;

    open spec fn view(&self) -> SpecError {
        error_view(*self)
    }
}

/// Appending an entry to an entry vector appends its model.
pub proof fn lemma_entries_view_push(es: Seq<(String, JsonToken)>, e: (String, JsonToken))
    ensures
        entries_view(es.push(e)) == entries_view(es).push((e.0@, token_view(e.1))),
{
    assert(es.push(e).drop_last() =~= es);
    assert(es.push(e).last() == e);
}

/// Appending an element to an element vector appends its model.
pub proof fn lemma_items_view_push(is: Seq<JsonToken>, t: JsonToken)
    ensures
        items_view(is.push(t)) == items_view(is).push(token_view(t)),
{
    assert(is.push(t).drop_last() =~= is);
    assert(is.push(t).last() == t);
}

/// Objects have map semantics: two entries with different keys denote the
/// same mapping in either order.
pub proof fn lemma_entry_order_insensitive(
    es: Seq<(Seq<char>, SpecJson)>,
    a: (Seq<char>, SpecJson),
    b: (Seq<char>, SpecJson),
)
    requires
        a.0 != b.0,
    ensures
        kv_map(es.push(a).push(b)) == kv_map(es.push(b).push(a)),
{
    reveal_with_fuel(kv_map, 3);
    assert(es.push(a).push(b).drop_last() =~= es.push(a));
    assert(es.push(b).push(a).drop_last() =~= es.push(b));
    assert(es.push(a).drop_last() =~= es);
    assert(es.push(b).drop_last() =~= es);
    assert(kv_map(es.push(a).push(b)) == kv_map(es).insert(a.0, a.1).insert(b.0, b.1));
    assert(kv_map(es.push(b).push(a)) == kv_map(es).insert(b.0, b.1).insert(a.0, a.1));
    assert(kv_map(es).insert(a.0, a.1).insert(b.0, b.1) =~= kv_map(es).insert(b.0, b.1).insert(
        a.0,
        a.1,
    ));
}

/// The last entry with a given key wins: an earlier entry with the same key
/// does not change the mapping.
pub proof fn lemma_duplicate_key_last_wins(
    es: Seq<(Seq<char>, SpecJson)>,
    a: (Seq<char>, SpecJson),
    b: (Seq<char>, SpecJson),
)
    requires
        a.0 == b.0,
    ensures
        kv_map(es.push(a).push(b)) == kv_map(es.push(b)),
{
    reveal_with_fuel(kv_map, 3);
    assert(es.push(a).push(b).drop_last() =~= es.push(a));
    assert(es.push(a).drop_last() =~= es);
    assert(es.push(b).drop_last() =~= es);
    assert(kv_map(es.push(a).push(b)) == kv_map(es).insert(a.0, a.1).insert(b.0, b.1));
    assert(kv_map(es.push(b)) == kv_map(es).insert(b.0, b.1));
    assert(kv_map(es).insert(a.0, a.1).insert(b.0, b.1) =~= kv_map(es).insert(b.0, b.1));
}

/// A sequence of entries and its model have the same length.
pub proof fn lemma_entries_view_len(es: Seq<(String, JsonToken)>)
    ensures
        entries_view(es).len() == es.len(),
    decreases es,
{
    if es.len() > 0 {
        lemma_entries_view_len(es.drop_last());
    }
}

/// A sequence of elements and its model have the same length.
pub proof fn lemma_items_view_len(is: Seq<JsonToken>)
    ensures
        items_view(is).len() == is.len(),
    decreases is,
{
    if is.len() > 0 {
        lemma_items_view_len(is.drop_last());
    }
}

} // verus!
