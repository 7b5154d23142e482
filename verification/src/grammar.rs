//! The grammar, written as spec functions over a sequence of characters.
//!
//! Each function takes the input sequence and a position and yields either
//! the parsed model together with the position just past what was consumed,
//! or the error the parser reports there.  The executable parser's contracts
//! state that it returns exactly these values.
//!
//! The object and array state machines are written as recursive functions
//! over the loop state.  Their recursive calls are guarded so that the
//! position strictly grows, which settles termination; the guards are dead
//! branches, since whitespace skipping and every sub-parser move the
//! position forward, as the executable parser's contracts show at each call
//! site.

use vstd::prelude::*;

use crate::token::SpecError;
use crate::token::SpecJson;
use crate::token::SpecNumber;
use crate::token::kv_map;

verus! {

/// Only space and newline count as whitespace; tab and carriage return do
/// not, a deliberate restriction of this grammar.
pub open spec fn is_ws(c: char) -> bool {
    c == ' ' || c == '\n'
}

pub open spec fn is_digit(c: char) -> bool {
    ('0' as u32) <= (c as u32) && (c as u32) <= ('9' as u32)
}

/// The characters a numeric lexeme may contain.
pub open spec fn is_num_char(c: char) -> bool {
    is_digit(c) || c == '.' || c == '-' || c == 'E' || c == 'e'
}

/// The first position at or after `i` that does not hold whitespace.
pub open spec fn ws_end(s: Seq<char>, i: int) -> int
    decreases s.len() - i,
{
    if 0 <= i && i < s.len() && is_ws(s[i]) {
        ws_end(s, i + 1)
    } else {
        i
    }
}

/// The first position at or after `i` that does not hold a numeric
/// character.
pub open spec fn num_end(s: Seq<char>, i: int) -> int
    decreases s.len() - i,
{
    if 0 <= i && i < s.len() && is_num_char(s[i]) {
        num_end(s, i + 1)
    } else {
        i
    }
}

/// `j` if it lies at or after `i`, else `i`.
pub open spec fn at_least(j: int, i: int) -> int {
    if j < i {
        i
    } else {
        j
    }
}

/// The value of a sequence of decimal digits, most significant first.
pub open spec fn digits_val(ds: Seq<char>) -> int
    decreases ds.len(),
{
    if ds.len() == 0 {
        0
    } else {
        digits_val(ds.drop_last()) * 10 + ((ds.last() as u32) - ('0' as u32))
    }
}

/// The digits of a signed sequence of digits: everything after an optional
/// leading minus sign.
pub open spec fn sign_digits(lex: Seq<char>) -> Seq<char> {
    if lex.len() > 0 && lex[0] == '-' {
        lex.skip(1)
    } else {
        lex
    }
}

/// An optional minus sign followed by one or more digits.
pub open spec fn is_int_lexeme(lex: Seq<char>) -> bool {
    &&& lex.len() > 0
    &&& sign_digits(lex).len() > 0
    &&& forall|k: int| 0 <= k < sign_digits(lex).len() ==> is_digit(#[trigger] sign_digits(lex)[k])
}

/// The signed value of an integer lexeme.
pub open spec fn int_of_lexeme(lex: Seq<char>) -> int {
    if lex.len() > 0 && lex[0] == '-' {
        -digits_val(sign_digits(lex))
    } else {
        digits_val(sign_digits(lex))
    }
}

pub open spec fn in_i64_range(v: int) -> bool {
    -0x8000_0000_0000_0000 <= v && v <= 0x7fff_ffff_ffff_ffff
}

/// The first position at or after `i` that holds an exponent marker.
pub open spec fn exp_marker_end(lex: Seq<char>, i: int) -> int
    decreases lex.len() - i,
{
    if 0 <= i && i < lex.len() && !(lex[i] == 'e' || lex[i] == 'E') {
        exp_marker_end(lex, i + 1)
    } else {
        i
    }
}

/// Digits with at most one dot among them, and at least one digit.
pub open spec fn is_mantissa(m: Seq<char>) -> bool {
    &&& m.len() > 0
    &&& forall|k: int| 0 <= k < m.len() ==> (is_digit(#[trigger] m[k]) || m[k] == '.')
    &&& (forall|k1: int, k2: int|
        0 <= k1 < k2 < m.len() ==> !(#[trigger] m[k1] == '.' && #[trigger] m[k2] == '.'))
    &&& exists|k: int| 0 <= k < m.len() && is_digit(#[trigger] m[k])
}

/// An optional minus sign followed by one or more digits: what may follow an
/// exponent marker.
pub open spec fn is_exponent(e: Seq<char>) -> bool {
    &&& e.len() > 0
    &&& sign_digits(e).len() > 0
    &&& forall|k: int| 0 <= k < sign_digits(e).len() ==> is_digit(#[trigger] sign_digits(e)[k])
}

/// A lexeme over the numeric characters that reads as a floating-point
/// literal: an optional minus sign, a mantissa, and an optional exponent.
pub open spec fn is_float_lexeme(lex: Seq<char>) -> bool {
    let b: int = if lex.len() > 0 && lex[0] == '-' {
        1
    } else {
        0
    };
    let me = exp_marker_end(lex, b);
    &&& lex.len() > b
    &&& is_mantissa(lex.subrange(b, me))
    &&& (me == lex.len() || (me + 1 <= lex.len() && is_exponent(lex.subrange(me + 1, lex.len() as int))))
}

/// A quoted string: the opening quote, then every character up to the next
/// quote, which is consumed and not kept.  There are no escape sequences.
pub open spec fn spec_parse_string(s: Seq<char>, i: int) -> Result<(Seq<char>, int), SpecError> {
    if 0 <= i && i < s.len() && s[i] == '"' {
        spec_string_body(s, i + 1, Seq::empty())
    } else {
        Err(SpecError::ExpectedStringStart)
    }
}

/// The characters of a string after its opening quote.
pub open spec fn spec_string_body(s: Seq<char>, i: int, acc: Seq<char>) -> Result<
    (Seq<char>, int),
    SpecError,
>
    decreases s.len() - i,
{
    if i < 0 || i >= s.len() {
        Err(SpecError::UnterminatedString)
    } else if s[i] == '"' {
        Ok((acc, i + 1))
    } else {
        spec_string_body(s, i + 1, acc.push(s[i]))
    }
}

/// One expected literal word, compared character by character from its
/// `j`-th character; yields the position just past the word.
pub open spec fn spec_parse_word(s: Seq<char>, i: int, w: Seq<char>, j: int) -> Result<
    int,
    SpecError,
>
    decreases w.len() - j,
{
    if j < 0 || j >= w.len() {
        Ok(i)
    } else if 0 <= i && i < s.len() {
        if s[i] == w[j] {
            spec_parse_word(s, i + 1, w, j + 1)
        } else {
            Err(
                SpecError::UnexpectedWordToken { word: w, expected: w[j], found: s[i] },
            )
        }
    } else {
        Err(SpecError::MissingTerminator)
    }
}

/// A numeric literal: the longest run of numeric characters, read as an
/// integer if it is one in 64-bit signed range, else as a float if it is in
/// the floating-point grammar, else an error carrying the lexeme.
pub open spec fn spec_parse_number(s: Seq<char>, i: int) -> Result<(SpecNumber, int), SpecError> {
    let j = num_end(s, i);
    let lex = s.subrange(i, j);
    if is_int_lexeme(lex) && in_i64_range(int_of_lexeme(lex)) {
        Ok((SpecNumber::Integer(int_of_lexeme(lex)), j))
    } else if is_float_lexeme(lex) {
        Ok((SpecNumber::Float(lex), j))
    } else {
        Err(SpecError::InvalidNumber { lexeme: lex })
    }
}

pub open spec fn word_true() -> Seq<char> {
    seq!['t', 'r', 'u', 'e']
}

pub open spec fn word_false() -> Seq<char> {
    seq!['f', 'a', 'l', 's', 'e']
}

pub open spec fn word_null() -> Seq<char> {
    seq!['n', 'u', 'l', 'l']
}

/// One value, selected by its first character: a string, an object, an
/// array, a number, or a literal word.  Any other character, or an exhausted
/// input, is an error.
pub open spec fn spec_parse_value(s: Seq<char>, i: int) -> Result<(SpecJson, int), SpecError>
    decreases s.len() - i, 1int,
{
    if i >= s.len() {
        Err(SpecError::UnexpectedEndOfInput)
    } else {
        let c = s[i];
        if c == '"' {
            match spec_parse_string(s, i) {
                Ok((t, j)) => Ok((SpecJson::String(t), j)),
                Err(e) => Err(e),
            }
        } else if c == '{' {
            match spec_parse_object(s, i) {
                Ok((o, j)) => Ok((SpecJson::Object(o), j)),
                Err(e) => Err(e),
            }
        } else if c == '[' {
            match spec_parse_array(s, i) {
                Ok((a, j)) => Ok((SpecJson::Array(a), j)),
                Err(e) => Err(e),
            }
        } else if c == '-' || is_digit(c) {
            match spec_parse_number(s, i) {
                Ok((n, j)) => Ok((SpecJson::Number(n), j)),
                Err(e) => Err(e),
            }
        } else if c == 't' {
            match spec_parse_word(s, i, word_true(), 0) {
                Ok(j) => Ok((SpecJson::True, j)),
                Err(e) => Err(e),
            }
        } else if c == 'f' {
            match spec_parse_word(s, i, word_false(), 0) {
                Ok(j) => Ok((SpecJson::False, j)),
                Err(e) => Err(e),
            }
        } else if c == 'n' {
            match spec_parse_word(s, i, word_null(), 0) {
                Ok(j) => Ok((SpecJson::Null, j)),
                Err(e) => Err(e),
            }
        } else {
            Err(SpecError::UnexpectedToken { found: c, position: i })
        }
    }
}

/// An object: an opening brace, then the key/value state machine, then the
/// closing brace, consumed without being re-examined — the state machine
/// only stops at a closing brace or at the end of the input.
pub open spec fn spec_parse_object(s: Seq<char>, i: int) -> Result<
    (Option<Map<Seq<char>, SpecJson>>, int),
    SpecError,
>
    decreases s.len() - i, 0int,
{
    if i < 0 || i >= s.len() {
        Err(SpecError::UnexpectedEndOfInput)
    } else if s[i] != '{' {
        Err(SpecError::ExpectedObjectStart { found: s[i] })
    } else {
        match spec_object_items(s, i + 1, false, Option::None, Seq::empty(), false) {
            Ok((entries, j)) => Ok(
                (
                    if entries.len() == 0 {
                        Option::None
                    } else {
                        Option::Some(kv_map(entries))
                    },
                    if j < s.len() {
                        j + 1
                    } else {
                        j
                    },
                ),
            ),
            Err(e) => Err(e),
        }
    }
}

/// The object state machine.  `in_value` tells whether a colon has switched
/// the machine from reading a key to reading a value; `pending` is the key
/// read but not yet paired; `expect_more` is set after a comma until the
/// next pair is stored.  The machine stops before a closing brace or at the
/// end of the input, yielding the entries in insertion order and the
/// position it stopped at.
pub open spec fn spec_object_items(
    s: Seq<char>,
    i: int,
    in_value: bool,
    pending: Option<Seq<char>>,
    entries: Seq<(Seq<char>, SpecJson)>,
    expect_more: bool,
) -> Result<(Seq<(Seq<char>, SpecJson)>, int), SpecError>
    decreases s.len() - i, 2int,
{
    let k = at_least(ws_end(s, i), i);
    if k >= s.len() {
        if expect_more {
            Err(SpecError::TrailingCommaNoFollowingPair)
        } else {
            Ok((entries, k))
        }
    } else {
        let c = s[k];
        if in_value {
            if c == '}' {
                if expect_more {
                    Err(SpecError::TrailingCommaExpectedPair)
                } else {
                    Ok((entries, k))
                }
            } else if c == ',' {
                spec_object_items(s, k + 1, false, pending, entries, true)
            } else {
                match spec_parse_value(s, k) {
                    Err(e) => Err(e),
                    Ok((v, j)) => match pending {
                        Option::None => Err(SpecError::MissingPendingKey { position: k }),
                        Option::Some(key) => if k < j && j <= s.len() {
                            spec_object_items(s, j, true, Option::None, entries.push((key, v)), false)
                        } else {
                            Err(SpecError::UnexpectedEndOfInput)
                        },
                    },
                }
            }
        } else {
            if c == '}' {
                if expect_more {
                    Err(SpecError::TrailingCommaNoFollowingPair)
                } else {
                    Ok((entries, k))
                }
            } else if c == ':' {
                match pending {
                    Option::None => Err(SpecError::ColonWithoutKey { position: k }),
                    Option::Some(_) => spec_object_items(s, k + 1, true, pending, entries, expect_more),
                }
            } else if c == '"' {
                if pending is Some {
                    Err(SpecError::DuplicateKeyBeforeColon { position: k })
                } else {
                    match spec_parse_string(s, k) {
                        Err(e) => Err(e),
                        Ok((t, j)) => if k < j && j <= s.len() {
                            spec_object_items(s, j, false, Option::Some(t), entries, expect_more)
                        } else {
                            Err(SpecError::UnexpectedEndOfInput)
                        },
                    }
                }
            } else {
                Err(SpecError::UnexpectedToken { found: c, position: k })
            }
        }
    }
}

/// An array: an opening bracket, then the element state machine, then the
/// closing bracket, consumed without being re-examined.
pub open spec fn spec_parse_array(s: Seq<char>, i: int) -> Result<
    (Option<Seq<SpecJson>>, int),
    SpecError,
>
    decreases s.len() - i, 0int,
{
    if i < 0 || i >= s.len() {
        Err(SpecError::UnexpectedEndOfInput)
    } else if s[i] != '[' {
        Err(SpecError::ExpectedArrayStart { found: s[i] })
    } else {
        match spec_array_items(s, i + 1, Seq::empty(), false, false) {
            Ok((items, j)) => Ok(
                (
                    if items.len() == 0 {
                        Option::None
                    } else {
                        Option::Some(items)
                    },
                    if j < s.len() {
                        j + 1
                    } else {
                        j
                    },
                ),
            ),
            Err(e) => Err(e),
        }
    }
}

/// The array state machine.  `expect_more` is set after a comma until the
/// next element is stored; `expect_sep` is set after an element until the
/// next comma.  The machine stops before a closing bracket or at the end of
/// the input, yielding the elements in order and the position it stopped at.
pub open spec fn spec_array_items(
    s: Seq<char>,
    i: int,
    items: Seq<SpecJson>,
    expect_more: bool,
    expect_sep: bool,
) -> Result<(Seq<SpecJson>, int), SpecError>
    decreases s.len() - i, 2int,
{
    let k = at_least(ws_end(s, i), i);
    if k >= s.len() {
        if expect_more {
            Err(SpecError::TrailingCommaNoFollowingElement)
        } else {
            Ok((items, k))
        }
    } else {
        let c = s[k];
        if c == ']' {
            if expect_more {
                Err(SpecError::TrailingCommaNoFollowingElement)
            } else {
                Ok((items, k))
            }
        } else if c == ',' {
            if !expect_sep {
                Err(SpecError::CommaBeforeElement)
            } else {
                spec_array_items(s, k + 1, items, true, false)
            }
        } else {
            if expect_sep {
                Err(SpecError::MissingCommaBetweenElements)
            } else {
                match spec_parse_value(s, k) {
                    Err(e) => Err(e),
                    Ok((v, j)) => if k < j && j <= s.len() {
                        spec_array_items(s, j, items.push(v), false, true)
                    } else {
                        Err(SpecError::UnexpectedEndOfInput)
                    },
                }
            }
        }
    }
}

/// A document: a non-empty input whose first value is an object.  Characters
/// after that object are not examined.
pub open spec fn spec_parse_document(s: Seq<char>) -> Result<
    Option<Map<Seq<char>, SpecJson>>,
    SpecError,
> {
    if s.len() == 0 {
        Err(SpecError::EmptyDocument)
    } else {
        match spec_parse_object(s, 0) {
            Ok((o, _)) => Ok(o),
            Err(e) => Err(e),
        }
    }
}

} // verus!
