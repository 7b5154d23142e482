//! A recursive-descent parser for a small JSON-like grammar.
//!
//! The input is a sequence of characters; the output is a tree of
//! [`token::JsonToken`] values rooted in an object.  The grammar is
//! deliberately restricted: strings have no escape sequences (a backslash is
//! kept verbatim, so a backslash before a quote ends the string early), only
//! space and newline count as whitespace, and the document root must be an
//! object.
//!
//! Every parsing function is specified against the spec-level grammar in
//! [`grammar`]: by its contract, the executable parser returns exactly the
//! value — or exactly the error — that the corresponding spec function
//! denotes on the input sequence.

use vstd::prelude::*;

pub mod eq;
pub mod grammar;
pub mod parser;
pub mod token;

use crate::grammar::spec_parse_document;
use crate::parser::Parser;
use crate::token::JsonObject;
use crate::token::ParseError;
use crate::token::SpecError;
use crate::token::SpecJson;

verus! {

/// Parses a document: the input must be non-empty and its first value must
/// be an object.  Characters after that object are not examined.  The result
/// and every error are exactly those of [`spec_parse_document`] on the
/// input; in particular an empty input yields `EmptyDocument`, and an input
/// whose first character is not an opening brace yields
/// `ExpectedObjectStart` carrying that character.
pub fn parse_json(input: &str) -> (r: Result<JsonObject, ParseError>)
    ensures
        (match r {
            Ok(o) => spec_parse_document(input@) == Ok::<
                Option<Map<Seq<char>, SpecJson>>,
                SpecError,
            >(o@),
            Err(e) => spec_parse_document(input@) == Err::<
                Option<Map<Seq<char>, SpecJson>>,
                SpecError,
            >(e@),
        }),
{
    if input.unicode_len() == 0 {
        return Err(ParseError::EmptyDocument);
    }
    let mut p = Parser::new(input);
    p.parse_json()
}

/// Parsing is pure: it depends on the text alone, so any two results that
/// the contract of [`parse_json`] allows on the same text are equal.  Two
/// parses of the same input therefore yield structurally equal trees.
pub proof fn lemma_parse_document_deterministic(
    s: Seq<char>,
    r1: Result<Option<Map<Seq<char>, SpecJson>>, SpecError>,
    r2: Result<Option<Map<Seq<char>, SpecJson>>, SpecError>,
)
    requires
        r1 == spec_parse_document(s),
        r2 == spec_parse_document(s),
    ensures
        r1 == r2,
{
}

} // verus!
