//! The executable parser: a cursor over a character sequence and one parsing
//! function per construct of the grammar.
//!
//! Every parsing function's contract states that its result and its final
//! position equal the value of the corresponding spec function of
//! [`crate::grammar`] on the input sequence, for success and for every error
//! alike, and that the position never moves backwards.

use vstd::prelude::*;
use vstd::string::StrSliceExecFns;

use crate::grammar::at_least;
use crate::grammar::digits_val;
use crate::grammar::exp_marker_end;
use crate::grammar::in_i64_range;
use crate::grammar::int_of_lexeme;
use crate::grammar::is_digit;
use crate::grammar::is_exponent;
use crate::grammar::is_float_lexeme;
use crate::grammar::is_int_lexeme;
use crate::grammar::is_mantissa;
use crate::grammar::is_num_char;
use crate::grammar::num_end;
use crate::grammar::spec_parse_number;
use crate::grammar::spec_parse_string;
use crate::grammar::spec_parse_word;
use crate::grammar::sign_digits;
use crate::grammar::spec_string_body;
use crate::grammar::ws_end;
use crate::grammar::spec_array_items;
use crate::grammar::spec_object_items;
use crate::grammar::spec_parse_array;
use crate::grammar::spec_parse_object;
use crate::grammar::spec_parse_value;
use crate::grammar::word_false;
use crate::grammar::word_null;
use crate::grammar::word_true;
use crate::token::JsonArray;
use crate::token::JsonNumber;
use crate::token::JsonObject;
use crate::token::JsonToken;
use crate::token::ParseError;
use crate::token::SpecError;
use crate::token::SpecJson;
use crate::token::entries_view;
use crate::token::items_view;
use crate::token::lemma_entries_view_len;
use crate::token::lemma_entries_view_push;
use crate::token::lemma_items_view_len;
use crate::token::lemma_items_view_push;

verus! {

/// The cursor: the input as a random-access sequence of characters and a
/// read position.  The position never moves backwards and never leaves the
/// range `0 ..= chars.len()`.
pub struct Parser {
    pub chars: Vec<char>,
    pub index: usize,
}

/// Relies on String::push: appends exactly the one given character.
#[verifier::external_body]
fn push_char(s: &mut String, c: char)
    ensures
        final(s)@ == old(s)@.push(c),
{
    s.push(c);
}

fn digit_char(c: char) -> (r: bool)
    ensures
        r == is_digit(c),
{
    let u = c as u32;
    ('0' as u32) <= u && u <= ('9' as u32)
}

fn num_char(c: char) -> (r: bool)
    ensures
        r == is_num_char(c),
{
    digit_char(c) || c == '.' || c == '-' || c == 'E' || c == 'e'
}

impl Parser {
    /// The input this cursor reads.
    pub open spec fn src(self) -> Seq<char> {
        self.chars@
    }

    /// The position lies within the input, one past its end at most.
    pub open spec fn wf(self) -> bool {
        self.index <= self.chars@.len()
    }

    /// A cursor over the characters of `input`, at its start.
    #[verifier::loop_isolation(false)]
    pub fn new(input: &str) -> (p: Parser)
        ensures
            p.wf(),
            p.src() == input@,
            p.index == 0,
    {
        let n = input.unicode_len();
        let mut chars: Vec<char> = Vec::new();
        let mut i: usize = 0;
        while i < n
            invariant
                i <= n,
                n == input@.len(),
                chars@ == input@.subrange(0, i as int),
            decreases n - i,
        {
            let c = input.get_char(i);
            chars.push(c);
            i = i + 1;
            proof {
                assert(chars@ =~= input@.subrange(0, i as int));
            }
        }
        proof {
            assert(chars@ =~= input@);
        }
        Parser { chars, index: 0 }
    }

    /// The character at the position, without moving; nothing when the input
    /// is exhausted.
    pub fn peek(&self) -> (r: Option<char>)
        ensures
            r == if self.index < self.src().len() {
                Option::Some(self.src()[self.index as int])
            } else {
                Option::None::<char>
            },
    {
        if self.index < self.chars.len() {
            Option::Some(self.chars[self.index])
        } else {
            Option::None
        }
    }

    /// Whether the position has reached the end of the input.
    pub fn is_done(&self) -> (r: bool)
        ensures
            r == (self.index >= self.src().len()),
    {
        self.index >= self.chars.len()
    }

    /// The character at the position, moving one past it; at the end of the
    /// input, nothing, and the position stays put.
    pub fn pop(&mut self) -> (r: Option<char>)
        requires
            old(self).wf(),
        ensures
            final(self).wf(),
            final(self).src() == old(self).src(),
            if old(self).index < old(self).src().len() {
                r == Option::Some(old(self).src()[old(self).index as int])
                    && final(self).index == old(self).index + 1
            } else {
                r == Option::None::<char> && final(self).index == old(self).index
            },
    {
        if self.index < self.chars.len() {
            let c = self.chars[self.index];
            self.index = self.index + 1;
            Option::Some(c)
        } else {
            Option::None
        }
    }

    /// Moves the position past spaces and newlines; tells whether a
    /// character is left to read.
    #[verifier::loop_isolation(false)]
    pub fn skip_whitespace(&mut self) -> (r: bool)
        requires
            old(self).wf(),
        ensures
            final(self).wf(),
            final(self).src() == old(self).src(),
            old(self).index <= final(self).index,
            final(self).index as int == ws_end(old(self).src(), old(self).index as int),
            r == (final(self).index < final(self).src().len()),
    {
        let ghost s = self.chars@;
        let ghost i0 = self.index as int;
        while self.index < self.chars.len() && (self.chars[self.index] == ' '
            || self.chars[self.index] == '\n')
            invariant
                self.wf(),
                self.chars@ == s,
                i0 <= self.index as int,
                ws_end(s, i0) == ws_end(s, self.index as int),
            decreases s.len() - self.index,
        {
            self.index = self.index + 1;
        }
        self.index < self.chars.len()
    }

    /// A quoted string: requires the next character to be a quote, then
    /// takes every character up to the next quote, which is consumed and not
    /// kept.  A backslash has no special meaning.  Yields
    /// `ExpectedStringStart` when the input does not begin with a quote here,
    /// and `UnterminatedString` when it ends before a closing quote.
    #[verifier::loop_isolation(false)]
    pub fn parse_string(&mut self) -> (r: Result<String, ParseError>)
        requires
            old(self).wf(),
        ensures
            final(self).wf(),
            final(self).src() == old(self).src(),
            old(self).index <= final(self).index,
            (match r {
                Ok(t) => spec_parse_string(old(self).src(), old(self).index as int)
                    == Ok::<(Seq<char>, int), SpecError>((t@, final(self).index as int))
                    && old(self).index < final(self).index,
                Err(e) => spec_parse_string(old(self).src(), old(self).index as int)
                    == Err::<(Seq<char>, int), SpecError>(e@),
            }),
    {
        let ghost s = self.chars@;
        let ghost i0 = self.index as int;
        let opening = self.pop();
        match opening {
            Option::Some(c) => {
                if c != '"' {
                    return Err(ParseError::ExpectedStringStart);
                }
            },
            Option::None => {
                return Err(ParseError::ExpectedStringStart);
            },
        }
        let mut out = String::new();
        loop
            invariant
                self.wf(),
                self.chars@ == s,
                i0 + 1 <= self.index as int,
                spec_parse_string(s, i0) == spec_string_body(s, self.index as int, out@),
            decreases s.len() - self.index,
        {
            let next = self.pop();
            match next {
                Option::None => {
                    return Err(ParseError::UnterminatedString);
                },
                Option::Some(c) => {
                    if c == '"' {
                        return Ok(out);
                    }
                    push_char(&mut out, c);
                },
            }
        }
    }

    /// One expected literal word, compared character by character and
    /// case-sensitively.  A wrong character yields `UnexpectedWordToken`
    /// naming the word and both characters; input ending inside the word
    /// yields `MissingTerminator`.
    #[verifier::loop_isolation(false)]
    pub fn parse_expected_word(&mut self, word: &str) -> (r: Result<(), ParseError>)
        requires
            old(self).wf(),
        ensures
            final(self).wf(),
            final(self).src() == old(self).src(),
            old(self).index <= final(self).index,
            (match r {
                Ok(_) => spec_parse_word(old(self).src(), old(self).index as int, word@, 0)
                    == Ok::<int, SpecError>(final(self).index as int)
                    && final(self).index as int == old(self).index as int + word@.len(),
                Err(e) => spec_parse_word(old(self).src(), old(self).index as int, word@, 0)
                    == Err::<int, SpecError>(e@),
            }),
    {
        let ghost s = self.chars@;
        let ghost i0 = self.index as int;
        let n = word.unicode_len();
        let mut j: usize = 0;
        while j < n
            invariant
                self.wf(),
                self.chars@ == s,
                j <= n,
                n == word@.len(),
                self.index as int == i0 + j,
                spec_parse_word(s, i0, word@, 0) == spec_parse_word(
                    s,
                    self.index as int,
                    word@,
                    j as int,
                ),
            decreases n - j,
        {
            let expected = word.get_char(j);
            let next = self.pop();
            match next {
                Option::None => {
                    return Err(ParseError::MissingTerminator);
                },
                Option::Some(ch) => {
                    if ch != expected {
                        return Err(
                            ParseError::UnexpectedWordToken {
                                word: word.to_owned(),
                                expected,
                                found: ch,
                            },
                        );
                    }
                },
            }
            j = j + 1;
        }
        Ok(())
    }

    /// A numeric literal: takes the longest run of numeric characters,
    /// leaving the first character outside the run unconsumed, then reads
    /// the lexeme as a 64-bit signed integer, or, failing that, as a
    /// floating-point literal kept as its lexeme.  A lexeme that is neither
    /// yields `InvalidNumber` carrying it.
    #[verifier::loop_isolation(false)]
    pub fn parse_number(&mut self) -> (r: Result<JsonNumber, ParseError>)
        requires
            old(self).wf(),
        ensures
            final(self).wf(),
            final(self).src() == old(self).src(),
            old(self).index <= final(self).index,
            (match r {
                Ok(n) => spec_parse_number(old(self).src(), old(self).index as int)
                    == Ok::<(crate::token::SpecNumber, int), SpecError>((
                    n@,
                    final(self).index as int,
                )) && old(self).index < final(self).index,
                Err(e) => spec_parse_number(old(self).src(), old(self).index as int)
                    == Err::<(crate::token::SpecNumber, int), SpecError>(e@),
            }),
    {
        let ghost s = self.chars@;
        let ghost i0 = self.index as int;
        let mut lexeme = String::new();
        while self.index < self.chars.len() && num_char(self.chars[self.index])
            invariant
                self.wf(),
                self.chars@ == s,
                i0 <= self.index as int,
                lexeme@ == s.subrange(i0, self.index as int),
                num_end(s, i0) == num_end(s, self.index as int),
            decreases s.len() - self.index,
        {
            let c = self.chars[self.index];
            self.index = self.index + 1;
            push_char(&mut lexeme, c);
            proof {
                assert(lexeme@ =~= s.subrange(i0, self.index as int));
            }
        }
        let ghost j = self.index as int;
        proof {
            assert(num_end(s, j) == j);
            assert(lexeme@ == s.subrange(i0, num_end(s, i0)));
        }
        match int_from_lexeme(&lexeme) {
            Option::Some(v) => {
                return Ok(JsonNumber::Integer(v));
            },
            Option::None => {},
        }
        if float_lexeme_check(&lexeme) {
            return Ok(JsonNumber::Float(lexeme));
        }
        Err(ParseError::InvalidNumber { lexeme })
    }
}

/// Reads a lexeme as a 64-bit signed integer: an optional minus sign and one
/// or more digits, within range; anything else is nothing.
#[verifier::loop_isolation(false)]
fn int_from_lexeme(lex: &String) -> (r: Option<i64>)
    ensures
        (match r {
            Option::Some(v) => is_int_lexeme(lex@) && in_i64_range(int_of_lexeme(lex@)) && v as int
                == int_of_lexeme(lex@),
            Option::None => !(is_int_lexeme(lex@) && in_i64_range(int_of_lexeme(lex@))),
        }),
{
    let ls = lex.as_str();
    let n = ls.unicode_len();
    if n == 0 {
        return Option::None;
    }
    let neg = ls.get_char(0) == '-';
    let start: usize = if neg {
        1
    } else {
        0
    };
    let ghost ds = sign_digits(lex@);
    proof {
        assert forall|m: int| 0 <= m < ds.len() implies ds[m] == lex@[m + start] by {}
    }
    if n <= start {
        return Option::None;
    }
    let cap: u64 = 0x8000_0000_0000_0000;
    let mut acc: u64 = 0;
    let mut over = false;
    let mut k = start;
    while k < n
        invariant
            start <= k <= n,
            n == lex@.len(),
            start == 1 ==> lex@[0] == '-',
            start == 0 ==> !(lex@.len() > 0 && lex@[0] == '-'),
            start < n,
            cap == 0x8000_0000_0000_0000u64,
            ds == sign_digits(lex@),
            forall|m: int| start <= m < k ==> is_digit(#[trigger] lex@[m]),
            !over ==> acc == digits_val(lex@.subrange(start as int, k as int)) && acc <= cap,
            over ==> digits_val(lex@.subrange(start as int, k as int)) > cap,
        decreases n - k,
    {
        let c = ls.get_char(k);
        if !digit_char(c) {
            proof {
                assert(ds[k - start] == lex@[k as int]);
                assert(!is_int_lexeme(lex@));
            }
            return Option::None;
        }
        let d: u64 = ((c as u32) - ('0' as u32)) as u64;
        let ghost prefix = lex@.subrange(start as int, k as int);
        let ghost extended = lex@.subrange(start as int, k as int + 1);
        proof {
            assert(extended.drop_last() =~= prefix);
            assert(extended.last() == lex@[k as int]);
            assert(digits_val(extended) == digits_val(prefix) * 10 + d);
        }
        if over {
            proof {
                assert(digits_val(prefix) > cap);
                assert(digits_val(prefix) * 10 > cap * 10) by (nonlinear_arith)
                    requires digits_val(prefix) > cap > 0;
                assert(digits_val(extended) > cap);
            }
        } else {
            if acc > (cap - d) / 10 {
                proof {
                    let x = (cap - d) as int;
                    assert((x / 10) * 10 + x % 10 == x);
                    assert(acc as int >= x / 10 + 1);
                    assert((acc as int) * 10 >= (x / 10 + 1) * 10) by (nonlinear_arith)
                        requires acc as int >= x / 10 + 1;
                    assert((x / 10 + 1) * 10 == (x / 10) * 10 + 10);
                    assert((acc as int) * 10 + d > cap);
                    assert(digits_val(extended) > cap);
                }
                over = true;
            } else {
                proof {
                    let x = (cap - d) as int;
                    assert((x / 10) * 10 + x % 10 == x);
                    assert((acc as int) * 10 <= (x / 10) * 10) by (nonlinear_arith)
                        requires acc as int <= x / 10;
                    assert((acc as int) * 10 + d <= cap);
                }
                acc = acc * 10 + d;
            }
        }
        k = k + 1;
    }
    proof {
        assert(lex@.subrange(start as int, n as int) =~= ds);
        assert forall|m: int| 0 <= m < ds.len() implies is_digit(#[trigger] ds[m]) by {
            assert(ds[m] == lex@[m + start]);
        }
        assert(is_int_lexeme(lex@));
        if lex@[0] == '-' {
            assert(int_of_lexeme(lex@) == -digits_val(ds));
        } else {
            assert(int_of_lexeme(lex@) == digits_val(ds));
        }
    }
    if neg {
        if over {
            return Option::None;
        }
        if acc == cap {
            return Option::Some(i64::MIN);
        }
        return Option::Some(-(acc as i64));
    }
    if over || acc > cap - 1 {
        return Option::None;
    }
    Option::Some(acc as i64)
}

/// Decides whether a lexeme is in the floating-point grammar: an optional
/// minus sign, a mantissa of digits with at most one dot and at least one
/// digit, and an optional exponent of an `e` or `E`, an optional minus sign,
/// and one or more digits.
fn float_lexeme_check(lex: &String) -> (r: bool)
    ensures
        r == is_float_lexeme(lex@),
{
    let ls = lex.as_str();
    let n = ls.unicode_len();
    let b: usize = if n > 0 && ls.get_char(0) == '-' {
        1
    } else {
        0
    };
    if n <= b {
        return false;
    }
    let me = find_exp_marker(ls, b);
    if !mantissa_ok(ls, b, me) {
        return false;
    }
    if me == n {
        return true;
    }
    exponent_ok(ls, me + 1)
}

/// The position of the first exponent marker at or after `from`, or the end
/// of the text.
#[verifier::loop_isolation(false)]
fn find_exp_marker(ls: &str, from: usize) -> (r: usize)
    requires
        from <= ls@.len(),
    ensures
        from <= r <= ls@.len(),
        r as int == exp_marker_end(ls@, from as int),
        r < ls@.len() ==> (ls@[r as int] == 'e' || ls@[r as int] == 'E'),
{
    let n = ls.unicode_len();
    let mut me = from;
    while me < n
        invariant
            from <= me <= n,
            n == ls@.len(),
            exp_marker_end(ls@, from as int) == exp_marker_end(ls@, me as int),
        decreases n - me,
    {
        let c = ls.get_char(me);
        if c == 'e' || c == 'E' {
            return me;
        }
        me = me + 1;
    }
    me
}

/// Decides whether the characters in `from .. to` form a mantissa.
#[verifier::loop_isolation(false)]
fn mantissa_ok(ls: &str, from: usize, to: usize) -> (r: bool)
    requires
        from <= to <= ls@.len(),
    ensures
        r == is_mantissa(ls@.subrange(from as int, to as int)),
{
    let ghost m = ls@.subrange(from as int, to as int);
    if from == to {
        return false;
    }
    let mut seen_dot = false;
    let mut seen_digit = false;
    let mut x = from;
    while x < to
        invariant
            from <= x <= to <= ls@.len(),
            m == ls@.subrange(from as int, to as int),
            forall|q: int|
                0 <= q < x - from ==> (is_digit(#[trigger] m[q]) || m[q] == '.'),
            seen_digit == exists|q: int| 0 <= q < x - from && is_digit(#[trigger] m[q]),
            seen_dot == exists|q: int| 0 <= q < x - from && #[trigger] m[q] == '.',
            forall|q1: int, q2: int|
                0 <= q1 < q2 < x - from ==> !(#[trigger] m[q1] == '.' && #[trigger] m[q2] == '.'),
        decreases to - x,
    {
        let c = ls.get_char(x);
        proof {
            assert(m[x - from] == ls@[x as int]);
        }
        if c == '.' {
            if seen_dot {
                proof {
                    let q1 = choose|q: int| 0 <= q < x - from && #[trigger] m[q] == '.';
                    assert(!(m[q1] == '.' && m[x - from] == '.') ==> !is_mantissa(m));
                    assert(!is_mantissa(m));
                }
                return false;
            }
            seen_dot = true;
        } else if digit_char(c) {
            seen_digit = true;
        } else {
            proof {
                assert(!(is_digit(m[x - from]) || m[x - from] == '.'));
                assert(!is_mantissa(m));
            }
            return false;
        }
        x = x + 1;
    }
    if !seen_digit {
        proof {
            assert(!is_mantissa(m));
        }
        return false;
    }
    proof {
        assert(m.len() == to - from > 0);
        assert(is_mantissa(m));
    }
    true
}

/// Decides whether the characters from `from` to the end form an exponent.
#[verifier::loop_isolation(false)]
fn exponent_ok(ls: &str, from: usize) -> (r: bool)
    requires
        from <= ls@.len(),
    ensures
        r == is_exponent(ls@.subrange(from as int, ls@.len() as int)),
{
    let ghost e = ls@.subrange(from as int, ls@.len() as int);
    let n = ls.unicode_len();
    if from == n {
        return false;
    }
    let neg = ls.get_char(from) == '-';
    let eb: usize = if neg {
        from + 1
    } else {
        from
    };
    let ghost eds = sign_digits(e);
    proof {
        assert(e[0] == ls@[from as int]);
        assert forall|q: int| 0 <= q < eds.len() implies eds[q] == ls@[q + eb] by {}
    }
    if eb >= n {
        return false;
    }
    let mut x = eb;
    while x < n
        invariant
            eb <= x <= n,
            n == ls@.len(),
            eb < n,
            e == ls@.subrange(from as int, ls@.len() as int),
            eds == sign_digits(e),
            from <= eb,
            eb - from <= 1,
            e[0] == '-' <==> eb == from + 1,
            forall|q: int| 0 <= q < x - eb ==> is_digit(#[trigger] eds[q]),
            forall|q: int| 0 <= q < eds.len() ==> eds[q] == ls@[q + eb],
            eds.len() == n - eb,
        decreases n - x,
    {
        let c = ls.get_char(x);
        if !digit_char(c) {
            proof {
                assert(eds[x - eb] == ls@[x as int]);
                assert(!is_exponent(e));
            }
            return false;
        }
        x = x + 1;
    }
    proof {
        assert(eds.len() > 0);
        assert(is_exponent(e));
    }
    true
}

/// The model of a pending object key.
pub open spec fn key_view(k: Option<String>) -> Option<Seq<char>> {
    match k {
        Option::Some(t) => Option::Some(t@),
        Option::None => Option::None,
    }
}

impl Parser {
    /// One value, selected by its first character without consuming it: a
    /// string, an object, an array, a number, or one of the literal words
    /// `true`, `false` and `null`, matched case-sensitively.  Any other
    /// character yields `UnexpectedToken` carrying it and the position; an
    /// exhausted input yields `UnexpectedEndOfInput`.
    pub fn parse_json_value(&mut self) -> (r: Result<JsonToken, ParseError>)
        requires
            old(self).wf(),
        ensures
            final(self).wf(),
            final(self).src() == old(self).src(),
            old(self).index <= final(self).index,
            (match r {
                Ok(t) => spec_parse_value(old(self).src(), old(self).index as int)
                    == Ok::<(SpecJson, int), SpecError>((t@, final(self).index as int))
                    && old(self).index < final(self).index,
                Err(e) => spec_parse_value(old(self).src(), old(self).index as int)
                    == Err::<(SpecJson, int), SpecError>(e@),
            }),
        decreases old(self).src().len() - old(self).index, 1int,
    {
        let cur = self.peek();
        let c = match cur {
            Option::Some(c) => c,
            Option::None => {
                return Err(ParseError::UnexpectedEndOfInput);
            },
        };
        if c == '"' {
            match self.parse_string() {
                Ok(t) => Ok(JsonToken::String(t)),
                Err(e) => Err(e),
            }
        } else if c == '{' {
            match self.parse_object() {
                Ok(o) => Ok(JsonToken::Object(o)),
                Err(e) => Err(e),
            }
        } else if c == '[' {
            match self.parse_array() {
                Ok(a) => Ok(JsonToken::Array(a)),
                Err(e) => Err(e),
            }
        } else if c == '-' || digit_char(c) {
            match self.parse_number() {
                Ok(n) => Ok(JsonToken::Number(n)),
                Err(e) => Err(e),
            }
        } else if c == 't' {
            proof {
                reveal_strlit("true");
                assert("true"@ =~= word_true());
            }
            match self.parse_expected_word("true") {
                Ok(_) => Ok(JsonToken::True),
                Err(e) => Err(e),
            }
        } else if c == 'f' {
            proof {
                reveal_strlit("false");
                assert("false"@ =~= word_false());
            }
            match self.parse_expected_word("false") {
                Ok(_) => Ok(JsonToken::False),
                Err(e) => Err(e),
            }
        } else if c == 'n' {
            proof {
                reveal_strlit("null");
                assert("null"@ =~= word_null());
            }
            match self.parse_expected_word("null") {
                Ok(_) => Ok(JsonToken::Null),
                Err(e) => Err(e),
            }
        } else {
            Err(ParseError::UnexpectedToken { found: c, position: self.index })
        }
    }

    /// An object: consumes the opening brace, runs the key/value state
    /// machine, and consumes the closing brace without re-examining it — the
    /// state machine only stops before a closing brace or at the end of the
    /// input.  Whitespace before the end of the input ends the state machine
    /// just as the bare end of the input does.  An object with no entries is
    /// `None`; a later entry with the same key overwrites the earlier one.
    ///
    /// Two sequencing conditions are checked rather than assumed: a colon
    /// with no key read yields `ColonWithoutKey`, and a value parsed while no
    /// key is pending yields `MissingPendingKey`.
    #[verifier::loop_isolation(false)]
    pub fn parse_object(&mut self) -> (r: Result<JsonObject, ParseError>)
        requires
            old(self).wf(),
        ensures
            final(self).wf(),
            final(self).src() == old(self).src(),
            old(self).index <= final(self).index,
            (match r {
                Ok(o) => spec_parse_object(old(self).src(), old(self).index as int)
                    == Ok::<(Option<Map<Seq<char>, SpecJson>>, int), SpecError>((
                    o@,
                    final(self).index as int,
                )) && old(self).index < final(self).index,
                Err(e) => spec_parse_object(old(self).src(), old(self).index as int)
                    == Err::<(Option<Map<Seq<char>, SpecJson>>, int), SpecError>(e@),
            }),
        decreases old(self).src().len() - old(self).index, 0int,
    {
        let ghost s = self.chars@;
        let ghost i0 = self.index as int;
        let opening = self.pop();
        let c0 = match opening {
            Option::Some(c) => c,
            Option::None => {
                return Err(ParseError::UnexpectedEndOfInput);
            },
        };
        if c0 != '{' {
            return Err(ParseError::ExpectedObjectStart { found: c0 });
        }
        let mut in_value = false;
        let mut current_key: Option<String> = Option::None;
        let mut entries: Vec<(String, JsonToken)> = Vec::new();
        let mut expect_more = false;
        loop
            invariant
                self.wf(),
                self.chars@ == s,
                i0 + 1 <= self.index as int,
                spec_object_items(s, i0 + 1, false, Option::None, Seq::empty(), false)
                    == spec_object_items(
                    s,
                    self.index as int,
                    in_value,
                    key_view(current_key),
                    entries_view(entries@),
                    expect_more,
                ),
            decreases s.len() - self.index,
        {
            let ghost p = self.index as int;
            let _more = self.skip_whitespace();
            let ghost k = self.index as int;
            proof {
                assert(k == at_least(ws_end(s, p), p));
            }
            let cur = self.peek();
            match cur {
                Option::None => {
                    if expect_more {
                        return Err(ParseError::TrailingCommaNoFollowingPair);
                    }
                    let _last = self.pop();
                    let ghost ev = entries@;
                    proof {
                        lemma_entries_view_len(ev);
                    }
                    let o = JsonObject {
                        keys: if entries.len() > 0 {
                            Option::Some(entries)
                        } else {
                            Option::None
                        },
                    };
                    return Ok(o);
                },
                Option::Some(c) => {
                    if c == '}' {
                        if in_value && expect_more {
                            return Err(ParseError::TrailingCommaExpectedPair);
                        }
                        if expect_more {
                            return Err(ParseError::TrailingCommaNoFollowingPair);
                        }
                        let _closing = self.pop();
                        let ghost ev = entries@;
                        proof {
                            lemma_entries_view_len(ev);
                        }
                        let o = JsonObject {
                            keys: if entries.len() > 0 {
                                Option::Some(entries)
                            } else {
                                Option::None
                            },
                        };
                        return Ok(o);
                    } else if in_value && c == ',' {
                        let _comma = self.pop();
                        in_value = false;
                        expect_more = true;
                    } else if in_value {
                        let vstart = self.index;
                        let v = match self.parse_json_value() {
                            Ok(v) => v,
                            Err(e) => {
                                return Err(e);
                            },
                        };
                        let taken = current_key;
                        current_key = Option::None;
                        match taken {
                            Option::None => {
                                return Err(ParseError::MissingPendingKey { position: vstart });
                            },
                            Option::Some(keystr) => {
                                let ghost ev = entries@;
                                let ghost pr = (keystr, v);
                                entries.push((keystr, v));
                                proof {
                                    lemma_entries_view_push(ev, pr);
                                }
                                expect_more = false;
                            },
                        }
                    } else {
                        if c == ':' {
                            if current_key.is_none() {
                                return Err(ParseError::ColonWithoutKey { position: self.index });
                            }
                            let _colon = self.pop();
                            in_value = true;
                        } else if c == '"' {
                            if current_key.is_some() {
                                return Err(
                                    ParseError::DuplicateKeyBeforeColon { position: self.index },
                                );
                            }
                            let t = match self.parse_string() {
                                Ok(t) => t,
                                Err(e) => {
                                    return Err(e);
                                },
                            };
                            current_key = Option::Some(t);
                        } else {
                            return Err(
                                ParseError::UnexpectedToken { found: c, position: self.index },
                            );
                        }
                    }
                },
            }
        }
    }

    /// An array: consumes the opening bracket, runs the element state
    /// machine, and consumes the closing bracket without re-examining it —
    /// the state machine only stops before a closing bracket or at the end
    /// of the input.  Whitespace before the end of the input ends the state
    /// machine just as the bare end of the input does.  An array with no
    /// elements is `None`; order is kept.
    #[verifier::loop_isolation(false)]
    pub fn parse_array(&mut self) -> (r: Result<JsonArray, ParseError>)
        requires
            old(self).wf(),
        ensures
            final(self).wf(),
            final(self).src() == old(self).src(),
            old(self).index <= final(self).index,
            (match r {
                Ok(a) => spec_parse_array(old(self).src(), old(self).index as int)
                    == Ok::<(Option<Seq<SpecJson>>, int), SpecError>((
                    a@,
                    final(self).index as int,
                )) && old(self).index < final(self).index,
                Err(e) => spec_parse_array(old(self).src(), old(self).index as int)
                    == Err::<(Option<Seq<SpecJson>>, int), SpecError>(e@),
            }),
        decreases old(self).src().len() - old(self).index, 0int,
    {
        let ghost s = self.chars@;
        let ghost i0 = self.index as int;
        let opening = self.pop();
        let c0 = match opening {
            Option::Some(c) => c,
            Option::None => {
                return Err(ParseError::UnexpectedEndOfInput);
            },
        };
        if c0 != '[' {
            return Err(ParseError::ExpectedArrayStart { found: c0 });
        }
        let mut items: Vec<JsonToken> = Vec::new();
        let mut expect_more = false;
        let mut expect_sep = false;
        loop
            invariant
                self.wf(),
                self.chars@ == s,
                i0 + 1 <= self.index as int,
                spec_array_items(s, i0 + 1, Seq::empty(), false, false) == spec_array_items(
                    s,
                    self.index as int,
                    items_view(items@),
                    expect_more,
                    expect_sep,
                ),
            decreases s.len() - self.index,
        {
            let ghost p = self.index as int;
            let _more = self.skip_whitespace();
            let ghost k = self.index as int;
            proof {
                assert(k == at_least(ws_end(s, p), p));
            }
            let cur = self.peek();
            match cur {
                Option::None => {
                    if expect_more {
                        return Err(ParseError::TrailingCommaNoFollowingElement);
                    }
                    let _last = self.pop();
                    let ghost iv = items@;
                    proof {
                        lemma_items_view_len(iv);
                    }
                    let a = JsonArray {
                        items: if items.len() > 0 {
                            Option::Some(items)
                        } else {
                            Option::None
                        },
                    };
                    return Ok(a);
                },
                Option::Some(c) => {
                    if c == ']' {
                        if expect_more {
                            return Err(ParseError::TrailingCommaNoFollowingElement);
                        }
                        let _closing = self.pop();
                        let ghost iv = items@;
                        proof {
                            lemma_items_view_len(iv);
                        }
                        let a = JsonArray {
                            items: if items.len() > 0 {
                                Option::Some(items)
                            } else {
                                Option::None
                            },
                        };
                        return Ok(a);
                    } else if c == ',' {
                        if !expect_sep {
                            return Err(ParseError::CommaBeforeElement);
                        }
                        let _comma = self.pop();
                        expect_more = true;
                        expect_sep = false;
                    } else {
                        if expect_sep {
                            return Err(ParseError::MissingCommaBetweenElements);
                        }
                        let v = match self.parse_json_value() {
                            Ok(v) => v,
                            Err(e) => {
                                return Err(e);
                            },
                        };
                        let ghost iv = items@;
                        let ghost vv = v;
                        items.push(v);
                        proof {
                            lemma_items_view_push(iv, vv);
                        }
                        expect_sep = true;
                        expect_more = false;
                    }
                },
            }
        }
    }

    /// The document body: the root of a document is an object, so this
    /// delegates to the object parser.
    pub fn parse_json(&mut self) -> (r: Result<JsonObject, ParseError>)
        requires
            old(self).wf(),
        ensures
            final(self).wf(),
            final(self).src() == old(self).src(),
            old(self).index <= final(self).index,
            (match r {
                Ok(o) => spec_parse_object(old(self).src(), old(self).index as int)
                    == Ok::<(Option<Map<Seq<char>, SpecJson>>, int), SpecError>((
                    o@,
                    final(self).index as int,
                )) && old(self).index < final(self).index,
                Err(e) => spec_parse_object(old(self).src(), old(self).index as int)
                    == Err::<(Option<Map<Seq<char>, SpecJson>>, int), SpecError>(e@),
            }),
    {
        self.parse_object()
    }
}

} // verus!
