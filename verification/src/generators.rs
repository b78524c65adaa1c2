//! Generators: what draws a new value for a field.

use crate::definition::{Config, ConfigView};
use crate::formats::{
    does_ask, format_asks, is_in_calendar, lemma_digits_grow, low_bits, low_bits_of,
    number_of, stays_in_calendar, Ask,
};
use crate::rules::{is_scalar_json, scalar_json, Attribute, AttributeView};
use crate::table::Table;
use crate::text::{
    decimal, digits_end, digits_len, digits_value, from_chars, is_digits, same_text, to_chars,
};
use pact_models::generators::{GenerateValue, Generator, NoopVariantMatcher, VariantMatcher};
use serde_json::Value;
use vstd::prelude::*;

verus! {

/// `pact_models::generators::Generator`, as an opaque value.
#[verifier::external_type_specification]
#[verifier::external_body]
pub struct ExGenerator(Generator);

/// A generator and what it was built from.
#[derive(Debug)]
pub struct BuiltGenerator {
    generator: Generator,
    config: Config,
}

impl View for BuiltGenerator {
    type V = ConfigView;

    closed spec fn view(&self) -> ConfigView {
        self.config@
    }
}

/// Whether there is a generator of the type, and the values have what it cannot do without.
pub open spec fn is_generator(c: ConfigView) -> bool {
    if c.name == "Regex"@ {
        c.values.contains_key("regex"@)
    } else if c.name == "ProviderState"@ {
        c.values.contains_key("expression"@)
    } else {
        c.name == "RandomInt"@ || c.name == "Uuid"@ || c.name == "RandomDecimal"@ || c.name
            == "RandomHexadecimal"@ || c.name == "RandomString"@ || c.name == "Date"@ || c.name
            == "Time"@ || c.name == "DateTime"@ || c.name == "RandomBoolean"@ || c.name
            == "MockServerURL"@
    }
}

/// `pact_models::generators::Generator::from_map`: a generator of the type with the values, where
/// there is one. What is not JSON counts as null.
#[verifier::external_body]
pub(crate) fn build_generator(config: Config) -> (r: Option<BuiltGenerator>)
    ensures
        r is Some <==> is_generator(config@),
        r matches Some(g) ==> g@ == config@,
{
    let value = |a: &Attribute| match a {
        Attribute::Text(t) => Value::String(t.clone()),
        Attribute::Json(j) => serde_json::from_str(j).unwrap_or_default(),
    };
    let entries = &config.values.entries;
    let object = entries.iter().map(|(k, a)| (k.clone(), value(a))).collect();
    Generator::from_map(&config.name, &object).map(|generator| BuiltGenerator { generator, config })
}

/// The integer that a JSON text without white space around it is, if it is one that an `i64` holds.
pub open spec fn json_integer(s: Seq<char>) -> Option<int> {
    let negative = s.len() > 0 && s[0] == '-';
    let digits = if negative {
        s.drop_first()
    } else {
        s
    };
    let n = digits_value(digits);
    if !is_digits(digits) || (digits.len() > 1 && digits[0] == '0') {
        None
    } else if negative {
        if 0 < n <= 0x8000_0000_0000_0000 {
            Some(-n)
        } else {
            None
        }
    } else if n < 0x8000_0000_0000_0000 {
        Some(n as int)
    } else {
        None
    }
}

/// White space in JSON.
pub open spec fn is_json_space(c: char) -> bool {
    c == ' ' || c == '\t' || c == '\n' || c == '\r'
}

/// No white space stands around the text.
pub open spec fn is_compact(s: Seq<char>) -> bool {
    s.len() > 0 ==> !is_json_space(s[0]) && !is_json_space(s.last())
}

/// Whether a value, where it is JSON, has no white space around it.
pub open spec fn is_compact_at(
    values: Map<Seq<char>, AttributeView>,
    key: Seq<char>,
) -> bool {
    values.contains_key(key) ==> (values[key] matches AttributeView::Json(j) ==> is_compact(j))
}

/// A bound of a random integer.
pub open spec fn bound(
    values: Map<Seq<char>, AttributeView>,
    key: Seq<char>,
    otherwise: int,
) -> int {
    if values.contains_key(key) {
        match values[key] {
            AttributeView::Json(j) => match json_integer(j) {
                Some(n) => low_bits(n),
                None => otherwise,
            },
            AttributeView::Text(_) => otherwise,
        }
    } else {
        otherwise
    }
}

/// The least random integer to draw.
pub open spec fn least(c: ConfigView) -> int {
    bound(c.values, "min"@, 0)
}

/// The greatest random integer to draw.
pub open spec fn greatest(c: ConfigView) -> int {
    bound(c.values, "max"@, 10)
}

/// Whether there is an integer to draw, where one is drawn. The greatest `i32` never is.
pub open spec fn has_range(c: ConfigView) -> bool {
    c.name == "RandomInt"@ ==> {
        &&& is_compact_at(c.values, "min"@)
        &&& is_compact_at(c.values, "max"@)
        &&& least(c) <= greatest(c)
        &&& least(c) < i32::MAX
    }
}

/// Whether a JSON text is certain to be no text: nothing but a value of another kind begins so.
pub open spec fn is_no_json_text(j: Seq<char>) -> bool {
    j.len() > 0 ==> j[0] != '"' && !is_json_space(j[0])
}

/// Whether a generator is one of dates and times.
pub open spec fn is_of_time(c: ConfigView) -> bool {
    c.name == "Date"@ || c.name == "Time"@ || c.name == "DateTime"@
}

/// Whether all that the format asks for can be written, where there is one: of a date no time of
/// day, and of a second up to three, six or nine digits of its fraction. A format that has no
/// meaning is refused before it is written.
pub open spec fn has_writable_format(c: ConfigView) -> bool {
    is_of_time(c) && c.values.contains_key("format"@) ==> match c.values["format"@] {
        AttributeView::Text(f) => !does_ask(Ask::OddFraction, f) && !(c.name == "Date"@ && does_ask(
            Ask::TimeOfDay,
            f,
        )),
        AttributeView::Json(j) => is_no_json_text(j),
    }
}

/// Whether the expression stays within the calendar, where there is one.
pub open spec fn has_reachable_time(c: ConfigView) -> bool {
    is_of_time(c) && c.values.contains_key("expression"@) ==> match c.values["expression"@] {
        AttributeView::Text(e) => stays_in_calendar(e),
        AttributeView::Json(j) => is_no_json_text(j),
    }
}

/// Where a lookup `${` starts in `s`.
pub open spec fn lookup_start(s: Seq<char>) -> Option<nat>
    decreases s.len(),
{
    if s.len() < 2 {
        None
    } else if s[0] == '$' && s[1] == '{' {
        Some(0)
    } else {
        match lookup_start(s.skip(1)) {
            Some(n) => Some(n + 1),
            None => None,
        }
    }
}

/// Where a closing brace stands in `s`.
pub open spec fn brace_at(s: Seq<char>) -> Option<nat>
    decreases s.len(),
{
    if s.len() == 0 {
        None
    } else if s[0] == '}' {
        Some(0)
    } else {
        match brace_at(s.skip(1)) {
            Some(n) => Some(n + 1),
            None => None,
        }
    }
}

/// Whether the lookups in `s` can be worked off from left to right: none is closed before it is
/// opened.
pub open spec fn can_look_up(s: Seq<char>) -> bool
    decreases s.len(),
{
    match lookup_start(s) {
        Some(start) => match brace_at(s) {
            Some(end) => if end < start {
                false
            } else if end == start + 2 && end < s.len() {
                can_look_up(s.skip(end as int + 1))
            } else {
                true
            },
            None => true,
        },
        None => true,
    }
}

/// Whether the lookups in `s` are all empty, so that a value comes out.
pub open spec fn has_only_empty_lookups(s: Seq<char>) -> bool
    decreases s.len(),
{
    match lookup_start(s) {
        Some(start) => start + 3 <= s.len() && s[start as int + 2] == '}'
            && has_only_empty_lookups(s.skip(start as int + 3)),
        None => true,
    }
}

/// `s` without its empty lookups.
pub open spec fn without_lookups(s: Seq<char>) -> Seq<char>
    decreases s.len(),
{
    match lookup_start(s) {
        Some(start) => if start + 3 <= s.len() {
            s.take(start as int) + without_lookups(s.skip(start as int + 3))
        } else {
            s
        },
        None => s,
    }
}

/// Whether a character is the capital letter or the small letter to it.
pub open spec fn is_letter(c: char, capital: char) -> bool {
    c == capital || ('a' <= c <= 'z' && c as u32 - 32 == capital as u32)
}

/// Whether `s` is the word, which is in capital letters, be its letters capital or small.
pub open spec fn is_in_any_case(s: Seq<char>, word: Seq<char>) -> bool {
    s.len() == word.len() && forall|i: int| 0 <= i < s.len() ==> is_letter(#[trigger] s[i], word[i])
}

/// An integer in decimal that an `i64` holds, with or without a sign.
pub open spec fn is_signed_integer(s: Seq<char>) -> bool {
    let negative = s.len() > 0 && s[0] == '-';
    let digits = if negative || (s.len() > 0 && s[0] == '+') {
        s.drop_first()
    } else {
        s
    };
    is_digits(digits) && (digits_value(digits) < 0x8000_0000_0000_0000 || (negative
        && digits_value(digits) == 0x8000_0000_0000_0000))
}

/// Whether a value of the type is the text itself.
pub open spec fn is_text_type(t: AttributeView) -> bool {
    match t {
        AttributeView::Text(t) => !is_in_any_case(t, "INTEGER"@) && !is_in_any_case(t, "DECIMAL"@)
            && !is_in_any_case(t, "FLOAT"@) && !is_in_any_case(t, "BOOLEAN"@),
        AttributeView::Json(j) => is_no_json_text(j),
    }
}

/// Whether a text is certain to be read as a value of the type; of numbers with a fraction that is
/// said of digits alone.
pub open spec fn is_value_of(t: AttributeView, s: Seq<char>) -> bool {
    is_text_type(t) || match t {
        AttributeView::Text(t) => if is_in_any_case(t, "INTEGER"@) {
            is_signed_integer(s)
        } else if is_in_any_case(t, "BOOLEAN"@) {
            s == "true"@ || s == "false"@
        } else {
            is_digits(s)
        },
        AttributeView::Json(_) => false,
    }
}

/// The integer that a text is, in decimal with or without a sign.
pub open spec fn signed_value(s: Seq<char>) -> int {
    if s.len() > 0 && s[0] == '-' {
        -digits_value(s.drop_first())
    } else if s.len() > 0 && s[0] == '+' {
        digits_value(s.drop_first()) as int
    } else {
        digits_value(s) as int
    }
}

/// How a text that is a value of the type is written; not said of a number that may have a
/// fraction, where it takes more than fifty-three bits.
pub open spec fn value_text(t: AttributeView, s: Seq<char>) -> Option<Seq<char>> {
    if is_text_type(t) {
        Some(s)
    } else {
        match t {
            AttributeView::Text(t) => if is_in_any_case(t, "INTEGER"@) {
                Some(signed_decimal(signed_value(s)))
            } else if is_in_any_case(t, "BOOLEAN"@) {
                Some(s)
            } else if digits_value(s) < 0x20_0000_0000_0000 {
                Some(decimal(digits_value(s)))
            } else {
                None
            },
            AttributeView::Json(_) => None,
        }
    }
}

/// Whether a text is how the value that comes out of empty lookups is written.
pub open spec fn is_state_text(
    values: Map<Seq<char>, AttributeView>,
    left: Seq<char>,
    s: Seq<char>,
) -> bool {
    if values.contains_key("dataType"@) {
        value_text(values["dataType"@], left) matches Some(text) ==> s == text
    } else {
        s == left
    }
}

/// Whether the expression of a value out of a provider's state can be worked off, and the value
/// that comes out of empty lookups is one of the type that is asked for.
pub open spec fn has_readable_state(c: ConfigView) -> bool {
    c.name == "ProviderState"@ && c.values.contains_key("expression"@) ==> (
    match c.values["expression"@] {
        AttributeView::Text(e) => lookup_start(e) is Some ==> can_look_up(e) && (
        has_only_empty_lookups(e) && c.values.contains_key("dataType"@) ==> is_value_of(
            c.values["dataType"@],
            without_lookups(e),
        )),
        AttributeView::Json(j) => is_no_json_text(j) && !j.contains('$') && !j.contains('\\'),
    })
}

/// The largest number before the brace that closes in `s`, or the one that is given where that is
/// larger; none where a number is more than a billion.
pub open spec fn largest_count(s: Seq<char>, largest: nat) -> Option<nat>
    decreases s.len(),
{
    if s.len() == 0 || s[0] == '}' {
        Some(largest)
    } else if '0' <= s[0] <= '9' {
        let n = digits_len(s);
        let value = digits_value(s.take(n as int));
        if 0 < n <= s.len() && value <= 1_000_000_000 {
            largest_count(
                s.skip(n as int),
                if value > largest {
                    value
                } else {
                    largest
                },
            )
        } else {
            None
        }
    } else {
        largest_count(s.skip(1), largest)
    }
}

/// A character that starts the count of a repetition.
pub open spec fn starts_count(c: char) -> bool {
    c == '*' || c == '+' || c == '?' || c == '{'
}

/// The most turns that are drawn of the repetition whose count is at the start of `s`: where the
/// count has no end, at most twenty are drawn beyond its least number. None where that is not told.
pub open spec fn turns(s: Seq<char>) -> Option<nat> {
    if s[0] == '?' {
        Some(1)
    } else if s[0] == '{' {
        match largest_count(s.skip(1), 0) {
            Some(n) => Some(n + 20),
            None => None,
        }
    } else {
        Some(21)
    }
}

/// Whether the letters and hyphens at the start of `s`, which are flags, hold the one that lets
/// white space and comments stand anywhere.
pub open spec fn has_loose_flag(s: Seq<char>) -> bool
    decreases s.len(),
{
    s.len() > 0 && (s[0] == 'x' || ((s[0] == '-' || 'a' <= s[0] <= 'z' || 'A' <= s[0] <= 'Z')
        && has_loose_flag(s.skip(1))))
}

/// Whether no more than `limit` turns can be drawn of any part of a regular expression, where `s`
/// is its rest, `closed` says that a group or another count stands before it, the counts of groups
/// so far make `groups` turns when each is in all the others, and the greatest other count makes
/// `most`.
pub open spec fn is_short(
    s: Seq<char>,
    closed: bool,
    groups: nat,
    most: nat,
    limit: nat,
) -> bool
    decreases s.len(),
{
    if groups * most > limit {
        false
    } else if s.len() == 0 {
        true
    } else if s[0] == '\\' && s.len() > 1 {
        is_short(s.skip(2), false, groups, most, limit)
    } else if s[0] == '(' && s.len() > 1 && s[1] == '?' && has_loose_flag(s.skip(2)) {
        false
    } else if starts_count(s[0]) {
        match turns(s) {
            Some(n) => if closed {
                is_short(s.skip(1), true, groups * n, most, limit)
            } else {
                is_short(
                    s.skip(1),
                    true,
                    groups,
                    if n > most {
                        n
                    } else {
                        most
                    },
                    limit,
                )
            },
            None => false,
        }
    } else {
        is_short(s.skip(1), s[0] == ')' || s[0] == '}', groups, most, limit)
    }
}

/// The most bytes that are drawn of a regular expression.
pub const MOST_BYTES: u64 = 100_000_000;

/// Whether what is drawn of a regular expression is certain to be short enough. A character of it
/// gives at most four bytes in a turn.
pub open spec fn has_short_texts(c: ConfigView) -> bool {
    c.name == "Regex"@ && c.values.contains_key("regex"@) ==> (match c.values["regex"@] {
        AttributeView::Text(pattern) => is_short(
            pattern,
            false,
            1,
            1,
            MOST_BYTES as nat / (4 * (pattern.len() + 1)),
        ),
        AttributeView::Json(j) => is_scalar_json(j),
    })
}

/// Whether the generator has something to draw from and can write what it draws.
pub open spec fn is_drawable(c: ConfigView) -> bool {
    &&& has_short_texts(c)
    &&& has_range(c)
    &&& has_writable_format(c)
    &&& has_reachable_time(c)
    &&& has_readable_state(c)
}

/// An integer in decimal, with a sign where it is negative.
pub open spec fn signed_decimal(n: int) -> Seq<char> {
    if n < 0 {
        "-"@ + decimal((-n) as nat)
    } else {
        decimal(n as nat)
    }
}

/// Whether the text is an integer between the bounds.
pub open spec fn is_integer_in_range(c: ConfigView, s: Seq<char>) -> bool {
    exists|n: int| least(c) <= n <= greatest(c) && s == #[trigger] signed_decimal(n)
}

/// Generators that always have something to give.
pub open spec fn always_draws(c: ConfigView) -> bool {
    c.name == "RandomInt"@ || c.name == "Uuid"@ || c.name == "RandomDecimal"@ || c.name
        == "RandomHexadecimal"@ || c.name == "RandomString"@ || c.name == "RandomBoolean"@
}

/// A hexadecimal digit, with a letter of the case.
pub open spec fn is_hex(c: char, upper: bool) -> bool {
    '0' <= c <= '9' || (if upper {
        'A' <= c <= 'F'
    } else {
        'a' <= c <= 'f'
    })
}

/// Groups of eight, four, four, four and twelve hexadecimal digits with hyphens between them.
pub open spec fn is_hyphenated(s: Seq<char>, upper: bool) -> bool {
    &&& s.len() == 36
    &&& forall|i: int|
        0 <= i < 36 ==> (if i == 8 || i == 13 || i == 18 || i == 23 {
            #[trigger] s[i] == '-'
        } else {
            is_hex(s[i], upper)
        })
}

/// Whether a text has the form of a unique identifier that is asked for.
pub open spec fn is_uuid(values: Map<Seq<char>, AttributeView>, s: Seq<char>) -> bool {
    if values.contains_key("format"@) {
        match values["format"@] {
            AttributeView::Text(f) => if f == "simple"@ {
                s.len() == 32 && forall|i: int| 0 <= i < 32 ==> is_hex(#[trigger] s[i], false)
            } else if f == "URN"@ {
                "urn:uuid:"@.is_prefix_of(s) && is_hyphenated(s.skip(9), false)
            } else {
                is_hyphenated(s, f == "upper-case-hyphenated"@)
            },
            AttributeView::Json(j) => is_no_json_text(j) ==> is_hyphenated(s, false),
        }
    } else {
        is_hyphenated(s, false)
    }
}

/// The natural number that a JSON text without white space around it is, if a `u64` holds it.
pub open spec fn json_natural(s: Seq<char>) -> Option<nat> {
    if is_digits(s) && !(s.len() > 1 && s[0] == '0') && digits_value(s) <= u64::MAX {
        Some(digits_value(s))
    } else {
        None
    }
}

/// How many characters are asked for under the key: the lowest sixteen bits of a number, and ten
/// where none is given.
pub open spec fn size(values: Map<Seq<char>, AttributeView>, key: Seq<char>) -> nat {
    if values.contains_key(key) {
        match values[key] {
            AttributeView::Json(j) => match json_natural(j) {
                Some(n) => n % 0x1_0000,
                None => 10,
            },
            AttributeView::Text(_) => 10,
        }
    } else {
        10
    }
}

/// A letter of the Latin alphabet without diacritics, or a decimal digit.
pub open spec fn is_letter_or_digit(c: char) -> bool {
    'a' <= c <= 'z' || 'A' <= c <= 'Z' || '0' <= c <= '9'
}

/// As many decimal digits, with a dot between them where there are two or more.
pub open spec fn is_decimal_of(s: Seq<char>, digits: nat) -> bool {
    if digits < 2 {
        s.len() == digits && forall|i: int| 0 <= i < s.len() ==> '0' <= #[trigger] s[i] <= '9'
    } else {
        s.len() == digits + 1 && exists|dot: int|
            0 < dot < digits && #[trigger] s[dot] == '.' && forall|i: int|
                0 <= i < s.len() && i != dot ==> '0' <= #[trigger] s[i] <= '9'
    }
}

/// Whether a generator can give the text.
pub open spec fn can_give(c: ConfigView, s: Seq<char>) -> bool {
    if c.name == "RandomInt"@ {
        is_integer_in_range(c, s)
    } else if c.name == "RandomBoolean"@ {
        s == "true"@ || s == "false"@
    } else if c.name == "Uuid"@ {
        is_uuid(c.values, s)
    } else if c.name == "RandomString"@ {
        is_compact_at(c.values, "size"@) ==> s.len() == size(c.values, "size"@) && forall|i: int|
            0 <= i < s.len() ==> is_letter_or_digit(#[trigger] s[i])
    } else if c.name == "RandomHexadecimal"@ {
        is_compact_at(c.values, "digits"@) ==> s.len() == (if size(c.values, "digits"@) < 16 {
            size(c.values, "digits"@)
        } else {
            16
        }) && forall|i: int| 0 <= i < s.len() ==> is_hex(#[trigger] s[i], true)
    } else if c.name == "RandomDecimal"@ {
        is_compact_at(c.values, "digits"@) ==> is_decimal_of(s, size(c.values, "digits"@))
    } else if c.name == "ProviderState"@ && c.values.contains_key("expression"@) {
        c.values["expression"@] matches AttributeView::Text(e) ==> is_state_text(
            c.values,
            without_lookups(e),
            s,
        )
    } else {
        c.name != "MockServerURL"@
    }
}

/// A value that a generator gave.
#[derive(Debug)]
pub struct Drawn {
    text: String,
    generator: Config,
}

/// A value and the generator that gave it.
#[verifier::ext_equal]
pub struct DrawnView {
    pub text: Seq<char>,
    pub generator: ConfigView,
}

impl View for Drawn {
    type V = DrawnView;

    closed spec fn view(&self) -> DrawnView {
        DrawnView { text: self.text@, generator: self.generator@ }
    }
}

impl Drawn {
    /// The value.
    pub fn text(&self) -> (text: String)
        ensures
            text@ == self@.text,
    {
        self.text.clone()
    }
}

/// What `pact_models` reports of a generator that has nothing to give.
pub uninterp spec fn draw_failure(generator: ConfigView) -> Option<Seq<char>>;

/// `pact_models::generators::GenerateValue::generate_value` for a text, in an empty context and
/// with no variants: the value that was drawn, kept with the generator that gave it, or the text of
/// the error. Whether a generator has something to give, and what is reported where it has not,
/// depends on the generator alone. A random integer lies between its bounds, a random truth value
/// is one of the two, unique identifiers and random texts, digits and hexadecimal digits have the
/// form and the length that are asked for, of a provider's state nothing is known but what stands
/// around empty lookups, written as a value of its type, and the address of a mock server is never
/// known. Beyond that the value rests on chance and on the clock, which is taken to show a year of
/// four digits. The call panics where a range is empty, where a date leaves the calendar, where a
/// format asks for what a date does not have, where a lookup is closed before it is opened and
/// where a value is not one of its type, and it runs out of memory where a regular expression
/// repeats too often.
#[verifier::external_body]
pub(crate) fn draw_value(g: &BuiltGenerator, value: &str) -> (r: Result<Drawn, String>)
    requires
        is_drawable(g@),
    ensures
        match r {
            Ok(drawn) => draw_failure(g@) is None && drawn@.generator == g@ && can_give(
                g@,
                drawn@.text,
            ),
            Err(text) => draw_failure(g@) == Some(text@),
        },
        always_draws(g@) ==> r is Ok,
        g@.name == "MockServerURL"@ ==> r is Err && r->Err_0@
            == "MockServerURL: can not generate a value as there is no mock server details in the test context"@,
{
    g.generator
        .generate_value(
            &value.to_string(),
            &std::collections::HashMap::new(),
            &NoopVariantMatcher.boxed(),
        )
        .map(|text| Drawn { text, generator: g.config.clone() })
        .map_err(|e| e.to_string())
}

impl BuiltGenerator {
    /// What the generator was built from.
    pub fn config(&self) -> (config: &Config)
        ensures
            config@ == self@,
    {
        &self.config
    }

    /// The text as a value that the generator gave.
    pub(crate) fn told(&self, text: &str) -> (drawn: Drawn)
        ensures
            drawn@ == (DrawnView { text: text@, generator: self@ }),
    {
        Drawn { text: text.to_owned(), generator: self.config.copy() }
    }
}

/// The value of decimal digits, if it is at most two to the power of 63.
fn value_of_digits(digits: &[char]) -> (r: Option<u64>)
    requires
        is_digits(digits@),
    ensures
        match r {
            Some(n) => n == digits_value(digits@) && n <= 0x8000_0000_0000_0000,
            None => digits_value(digits@) > 0x8000_0000_0000_0000,
        },
{
    let n: usize = digits.len();
    let mut value: u128 = 0;
    let mut i: usize = 0;
    assert(digits@.take(0) =~= seq![]);
    while i < n
        invariant
            0 <= i <= n == digits@.len(),
            is_digits(digits@),
            value == digits_value(digits@.take(i as int)),
            value <= 0x8000_0000_0000_0000,
        decreases n - i,
    {
        let c = digits[i];
        assert('0' <= digits@[i as int] <= '9');
        let digit: u32 = c as u32 - '0' as u32;
        let next: u128 = value * 10 + digit as u128;
        proof {
            let now = digits@.take(i + 1);
            assert(now.drop_last() =~= digits@.take(i as int));
            assert(now.last() == c);
            assert(next == digits_value(now));
        }
        if next > 0x8000_0000_0000_0000 {
            proof {
                lemma_digits_grow(digits@, i + 1);
            }
            return None;
        }
        value = next;
        i = i + 1;
    }
    assert(digits@.take(n as int) =~= digits@);
    Some(value as u64)
}

fn all_digits(s: &[char]) -> (b: bool)
    ensures
        b == is_digits(s@),
{
    let n: usize = s.len();
    let mut i: usize = 0;
    while i < n
        invariant
            0 <= i <= n == s@.len(),
            forall|k: int| 0 <= k < i ==> '0' <= #[trigger] s@[k] <= '9',
        decreases n - i,
    {
        if s[i] < '0' || '9' < s[i] {
            assert(!('0' <= s@[i as int] <= '9'));
            return false;
        }
        i = i + 1;
    }
    n > 0
}

/// The integer that a JSON text without white space around it is, if it is one that an `i64` holds.
fn integer_of_json(s: &str) -> (r: Option<i64>)
    ensures
        match r {
            Some(n) => json_integer(s@) == Some(n as int),
            None => json_integer(s@) is None,
        },
{
    let chars = to_chars(s);
    let v = chars.as_slice();
    let n: usize = v.len();
    let negative = n > 0 && v[0] == '-';
    let start: usize = if negative {
        1
    } else {
        0
    };
    let digits = &v[start..n];
    proof {
        if negative {
            assert(digits@ =~= s@.drop_first());
        } else {
            assert(digits@ =~= s@);
        }
    }
    if !all_digits(digits) || (digits.len() > 1 && digits[0] == '0') {
        return None;
    }
    match value_of_digits(digits) {
        Some(value) => {
            if negative {
                if value == 0 {
                    None
                } else {
                    Some((-(value as i128)) as i64)
                }
            } else if value < 0x8000_0000_0000_0000 {
                Some(value as i64)
            } else {
                None
            }
        },
        None => None,
    }
}

/// A bound of a random integer, if no white space stands around it.
fn bound_of(values: &Table<Attribute>, key: &str, otherwise: i64) -> (r: Option<i64>)
    ensures
        r is Some <==> is_compact_at(values@, key@),
        r matches Some(n) ==> n == bound(values@, key@, otherwise as int),
{
    match values.get(key) {
        Some(Attribute::Json(j)) => {
            let v = to_chars(j);
            let n: usize = v.len();
            if n > 0 && (json_space(v[0]) || json_space(v[n - 1])) {
                return None;
            }
            match integer_of_json(j) {
                Some(n) => Some(low_bits_of(n as i128)),
                None => Some(otherwise),
            }
        },
        _ => Some(otherwise),
    }
}

fn json_space(c: char) -> (b: bool)
    ensures
        b == is_json_space(c),
{
    c == ' ' || c == '\t' || c == '\n' || c == '\r'
}

/// Whether there is an integer to draw, where one is drawn.
fn range_of(config: &Config) -> (b: bool)
    ensures
        b == has_range(config@),
{
    if !same_text(&config.name, "RandomInt") {
        return true;
    }
    match (bound_of(&config.values, "min", 0), bound_of(&config.values, "max", 10)) {
        (Some(least), Some(greatest)) => least <= greatest && least < 0x7fff_ffff,
        _ => false,
    }
}

/// Where a lookup starts at or after `i`.
fn lookup_from(v: &[char], i: usize) -> (r: Option<usize>)
    requires
        i <= v@.len(),
    ensures
        match r {
            Some(j) => i <= j && j + 2 <= v@.len() && lookup_start(v@.skip(i as int)) == Some(
                (j - i) as nat,
            ),
            None => lookup_start(v@.skip(i as int)) is None,
        },
{
    let n: usize = v.len();
    let mut j: usize = i;
    while n - j >= 2
        invariant
            i <= j <= n == v@.len(),
            match lookup_start(v@.skip(j as int)) {
                Some(k) => lookup_start(v@.skip(i as int)) == Some((k + j - i) as nat),
                None => lookup_start(v@.skip(i as int)) is None,
            },
        decreases n - j,
    {
        if v[j] == '$' && v[j + 1] == '{' {
            return Some(j);
        }
        assert(v@.skip(j as int).skip(1) =~= v@.skip(j + 1));
        j = j + 1;
    }
    None
}

/// Where a closing brace stands at or after `i`.
fn brace_from(v: &[char], i: usize) -> (r: Option<usize>)
    requires
        i <= v@.len(),
    ensures
        match r {
            Some(j) => i <= j < v@.len() && brace_at(v@.skip(i as int)) == Some((j - i) as nat),
            None => brace_at(v@.skip(i as int)) is None,
        },
{
    let n: usize = v.len();
    let mut j: usize = i;
    while j < n
        invariant
            i <= j <= n == v@.len(),
            match brace_at(v@.skip(j as int)) {
                Some(k) => brace_at(v@.skip(i as int)) == Some((k + j - i) as nat),
                None => brace_at(v@.skip(i as int)) is None,
            },
        decreases n - j,
    {
        if v[j] == '}' {
            return Some(j);
        }
        assert(v@.skip(j as int).skip(1) =~= v@.skip(j + 1));
        j = j + 1;
    }
    None
}

/// Whether the lookups can be worked off.
fn lookups_work(v: &[char]) -> (b: bool)
    ensures
        b == can_look_up(v@),
{
    let n: usize = v.len();
    let mut i: usize = 0;
    assert(v@.skip(0) =~= v@);
    loop
        invariant
            i <= n == v@.len(),
            can_look_up(v@) == can_look_up(v@.skip(i as int)),
        decreases n - i,
    {
        match (lookup_from(v, i), brace_from(v, i)) {
            (Some(start), Some(end)) => {
                if end < start {
                    return false;
                }
                if end - start != 2 {
                    return true;
                }
                assert(v@.skip(i as int).skip(end - i + 1) =~= v@.skip(end + 1));
                i = end + 1;
            },
            _ => {
                return true;
            },
        }
    }
}

/// The text without its lookups, where they are all empty.
fn text_left(v: &[char]) -> (r: Option<Vec<char>>)
    ensures
        r is Some <==> has_only_empty_lookups(v@),
        r matches Some(text) ==> text@ == without_lookups(v@),
{
    let n: usize = v.len();
    let mut text: Vec<char> = Vec::new();
    let mut i: usize = 0;
    assert(v@.skip(0) =~= v@);
    assert(text@ + without_lookups(v@) =~= without_lookups(v@));
    loop
        invariant
            i <= n == v@.len(),
            has_only_empty_lookups(v@) == has_only_empty_lookups(v@.skip(i as int)),
            without_lookups(v@) == text@ + without_lookups(v@.skip(i as int)),
        decreases n - i,
    {
        let ghost s = v@.skip(i as int);
        match lookup_from(v, i) {
            Some(start) => {
                if n - start < 3 || v[start + 2] != '}' {
                    return None;
                }
                let part = &v[i..start];
                proof {
                    assert(part@ =~= s.take(start - i));
                    assert(s.skip(start - i + 3) =~= v@.skip(start + 3));
                    assert(text@ + (part@ + without_lookups(v@.skip(start + 3))) =~= (text@ + part@)
                        + without_lookups(v@.skip(start + 3)));
                }
                text.extend_from_slice(part);
                i = start + 3;
            },
            None => {
                let part = &v[i..n];
                assert(part@ =~= s);
                text.extend_from_slice(part);
                return Some(text);
            },
        }
    }
}

/// Whether a text is the word, which is in capital letters, be its letters capital or small.
fn in_any_case(s: &str, word: &str) -> (b: bool)
    ensures
        b == is_in_any_case(s@, word@),
{
    let v = to_chars(s);
    let w = to_chars(word);
    let n: usize = v.len();
    if n != w.len() {
        return false;
    }
    let mut i: usize = 0;
    while i < n
        invariant
            0 <= i <= n == v@.len() == w@.len(),
            v@ == s@,
            w@ == word@,
            forall|k: int| 0 <= k < i ==> is_letter(#[trigger] v@[k], w@[k]),
        decreases n - i,
    {
        let c = v[i];
        if !(c == w[i] || ('a' <= c && c <= 'z' && c as u32 - 32 == w[i] as u32)) {
            assert(!is_letter(s@[i as int], word@[i as int]));
            return false;
        }
        i = i + 1;
    }
    true
}

/// Whether a text is an integer in decimal that an `i64` holds.
fn signed_integer(v: &[char]) -> (b: bool)
    ensures
        b == is_signed_integer(v@),
{
    let n: usize = v.len();
    let negative = n > 0 && v[0] == '-';
    let start: usize = if negative || (n > 0 && v[0] == '+') {
        1
    } else {
        0
    };
    let digits = &v[start..n];
    proof {
        if start == 1 {
            assert(digits@ =~= v@.drop_first());
        } else {
            assert(digits@ =~= v@);
        }
    }
    if !all_digits(digits) {
        return false;
    }
    match value_of_digits(digits) {
        Some(value) => value < 0x8000_0000_0000_0000 || negative,
        None => false,
    }
}

fn text_type(t: &Attribute) -> (b: bool)
    ensures
        b == is_text_type(t@),
{
    match t {
        Attribute::Text(t) => !in_any_case(t, "INTEGER") && !in_any_case(t, "DECIMAL")
            && !in_any_case(t, "FLOAT") && !in_any_case(t, "BOOLEAN"),
        Attribute::Json(j) => no_json_text(j),
    }
}

/// Whether a text is certain to be read as a value of the type.
fn value_of(t: &Attribute, text: &[char]) -> (b: bool)
    ensures
        b == is_value_of(t@, text@),
{
    if text_type(t) {
        return true;
    }
    match t {
        Attribute::Text(t) => {
            if in_any_case(t, "INTEGER") {
                signed_integer(text)
            } else if in_any_case(t, "BOOLEAN") {
                let text = from_chars(text);
                same_text(&text, "true") || same_text(&text, "false")
            } else {
                all_digits(text)
            }
        },
        Attribute::Json(_) => false,
    }
}

fn no_json_text(j: &str) -> (b: bool)
    ensures
        b == is_no_json_text(j@),
{
    let v = to_chars(j);
    v.len() == 0 || (v[0] != '"' && !json_space(v[0]))
}

/// Whether the character occurs in the text.
fn holds(s: &str, c: char) -> (b: bool)
    ensures
        b == s@.contains(c),
{
    let v = to_chars(s);
    let n: usize = v.len();
    let mut i: usize = 0;
    while i < n
        invariant
            0 <= i <= n == v@.len(),
            v@ == s@,
            forall|k: int| 0 <= k < i ==> #[trigger] v@[k] != c,
        decreases n - i,
    {
        if v[i] == c {
            assert(s@[i as int] == c);
            return true;
        }
        i = i + 1;
    }
    false
}

fn state_readable(config: &Config) -> (b: bool)
    requires
        config.name@ == "ProviderState"@,
    ensures
        b == has_readable_state(config@),
{
    match config.values.get("expression") {
        Some(Attribute::Text(e)) => {
            let chars = to_chars(e);
            let v = chars.as_slice();
            assert(v@.skip(0) =~= v@);
            if lookup_from(v, 0).is_none() {
                return true;
            }
            if !lookups_work(v) {
                return false;
            }
            match (config.values.get("dataType"), text_left(v)) {
                (Some(t), Some(text)) => value_of(t, text.as_slice()),
                _ => true,
            }
        },
        Some(Attribute::Json(j)) => no_json_text(j) && !holds(j, '$') && !holds(j, '\\'),
        None => true,
    }
}

/// The largest number before the brace that closes at or after `i`, where no number is more than a
/// billion.
fn largest_from(v: &[char], i: usize) -> (r: Option<u64>)
    requires
        i <= v@.len(),
    ensures
        match r {
            Some(n) => largest_count(v@.skip(i as int), 0) == Some(n as nat) && n <= 1_000_000_000,
            None => largest_count(v@.skip(i as int), 0) is None,
        },
{
    let n: usize = v.len();
    let mut largest: u64 = 0;
    let mut j: usize = i;
    while j < n && v[j] != '}'
        invariant
            i <= j <= n == v@.len(),
            largest <= 1_000_000_000,
            largest_count(v@.skip(i as int), 0) == largest_count(v@.skip(j as int), largest as nat),
        decreases n - j,
    {
        let ghost s = v@.skip(j as int);
        let c = v[j];
        if '0' <= c && c <= '9' {
            let end: usize = digits_end(v, j);
            assert(s.skip(end - j) =~= v@.skip(end as int));
            assert(s.take(end - j) =~= v@.subrange(j as int, end as int));
            match number_of(&v[j..end]) {
                Some(value) => {
                    if value > 1_000_000_000 {
                        return None;
                    }
                    if value > largest {
                        largest = value;
                    }
                },
                None => {
                    return None;
                },
            }
            j = end;
        } else {
            assert(s.skip(1) =~= v@.skip(j + 1));
            j = j + 1;
        }
    }
    Some(largest)
}

/// Whether the letters and hyphens at `i` hold the flag that lets white space stand anywhere.
fn loose_flag_at(v: &[char], i: usize) -> (b: bool)
    requires
        i <= v@.len(),
    ensures
        b == has_loose_flag(v@.skip(i as int)),
{
    let n: usize = v.len();
    let mut j: usize = i;
    while j < n
        invariant
            i <= j <= n == v@.len(),
            has_loose_flag(v@.skip(i as int)) == has_loose_flag(v@.skip(j as int)),
        decreases n - j,
    {
        let c = v[j];
        if c == 'x' {
            return true;
        }
        if !(c == '-' || ('a' <= c && c <= 'z') || ('A' <= c && c <= 'Z')) {
            return false;
        }
        assert(v@.skip(j as int).skip(1) =~= v@.skip(j + 1));
        j = j + 1;
    }
    false
}

/// The most turns that are drawn of the repetition whose count is at `i`.
fn turns_at(v: &[char], i: usize) -> (r: Option<u64>)
    requires
        i < v@.len(),
        starts_count(v@[i as int]),
    ensures
        match r {
            Some(n) => turns(v@.skip(i as int)) == Some(n as nat) && n < 2_000_000_000,
            None => turns(v@.skip(i as int)) is None,
        },
{
    assert(v@.skip(i as int).skip(1) =~= v@.skip(i + 1));
    if v[i] == '?' {
        Some(1)
    } else if v[i] == '{' {
        match largest_from(v, i + 1) {
            Some(n) => Some(n + 20),
            None => None,
        }
    } else {
        Some(21)
    }
}

/// Whether what is drawn of a regular expression is certain to be short enough.
fn draws_short(pattern: &str) -> (b: bool)
    ensures
        b == is_short(
            pattern@,
            false,
            1,
            1,
            MOST_BYTES as nat / (4 * (pattern@.len() + 1)),
        ),
{
    let chars = to_chars(pattern);
    let v = chars.as_slice();
    let n: usize = v.len();
    let limit: u128 = MOST_BYTES as u128 / (4 * (n as u128 + 1));
    assert(limit <= MOST_BYTES) by (nonlinear_arith)
        requires
            limit == MOST_BYTES as int / (4 * (n + 1)),
            n >= 0,
    ;
    let mut closed = false;
    let mut groups: u128 = 1;
    let mut most: u128 = 1;
    let mut i: usize = 0;
    assert(v@.skip(0) =~= v@);
    while i < n
        invariant
            0 <= i <= n == v@.len(),
            limit == MOST_BYTES as nat / (4 * (pattern@.len() + 1)),
            limit <= MOST_BYTES,
            0 < groups <= MOST_BYTES * 2_000_000_000,
            0 < most < 2_000_000_000,
            is_short(pattern@, false, 1, 1, limit as nat) == is_short(
                v@.skip(i as int),
                closed,
                groups as nat,
                most as nat,
                limit as nat,
            ),
        decreases n - i,
    {
        assert(groups * most <= MOST_BYTES * 2_000_000_000 * 2_000_000_000) by (nonlinear_arith)
            requires
                0 < groups <= MOST_BYTES * 2_000_000_000,
                0 < most < 2_000_000_000,
        ;
        if groups * most > limit {
            return false;
        }
        assert(groups <= MOST_BYTES) by (nonlinear_arith)
            requires
                0 < groups,
                0 < most,
                groups * most <= MOST_BYTES,
        ;
        let ghost s = v@.skip(i as int);
        let c = v[i];
        assert(s.skip(1) =~= v@.skip(i + 1));
        if c == '\\' && n - i > 1 {
            assert(s.skip(2) =~= v@.skip(i + 2));
            closed = false;
            i = i + 2;
        } else if c == '(' && n - i > 1 && v[i + 1] == '?' && loose_flag_at(v, i + 2) {
            assert(s.skip(2) =~= v@.skip(i + 2));
            return false;
        } else if c == '*' || c == '+' || c == '?' || c == '{' {
            match turns_at(v, i) {
                Some(m) => {
                    if closed {
                        assert(0 < groups * m <= MOST_BYTES * 2_000_000_000) by (nonlinear_arith)
                            requires
                                0 < groups <= MOST_BYTES,
                                0 < m < 2_000_000_000,
                        ;
                        groups = groups * m as u128;
                    } else if m as u128 > most {
                        most = m as u128;
                    }
                    closed = true;
                    i = i + 1;
                },
                None => {
                    return false;
                },
            }
        } else {
            if n - i > 1 {
                assert(s.skip(2) =~= v@.skip(i + 2));
            }
            closed = c == ')' || c == '}';
            i = i + 1;
        }
    }
    assert(groups * most <= MOST_BYTES * 2_000_000_000 * 2_000_000_000) by (nonlinear_arith)
        requires
            0 < groups <= MOST_BYTES * 2_000_000_000,
            0 < most < 2_000_000_000,
    ;
    groups * most <= limit
}

fn regex_short(config: &Config) -> (b: bool)
    requires
        config.name@ == "Regex"@,
    ensures
        b == has_short_texts(config@),
{
    match config.values.get("regex") {
        Some(Attribute::Text(pattern)) => draws_short(pattern),
        Some(Attribute::Json(j)) => scalar_json(j),
        None => true,
    }
}

fn time_writable(config: &Config) -> (b: bool)
    requires
        is_of_time(config@),
    ensures
        b == (has_writable_format(config@) && has_reachable_time(config@)),
{
    let writable = match config.values.get("format") {
        Some(Attribute::Text(f)) => !format_asks(Ask::OddFraction, f) && !(same_text(
            &config.name,
            "Date",
        ) && format_asks(Ask::TimeOfDay, f)),
        Some(Attribute::Json(j)) => no_json_text(j),
        None => true,
    };
    let reachable = match config.values.get("expression") {
        Some(Attribute::Text(e)) => is_in_calendar(e),
        Some(Attribute::Json(j)) => no_json_text(j),
        None => true,
    };
    writable && reachable
}

/// Whether the generator has something to draw from and can write what it draws.
pub fn can_draw(config: &Config) -> (b: bool)
    ensures
        b == is_drawable(config@),
{
    if same_text(&config.name, "Date") || same_text(&config.name, "Time") || same_text(
        &config.name,
        "DateTime",
    ) {
        if !time_writable(config) {
            return false;
        }
    }
    if same_text(&config.name, "ProviderState") {
        if !state_readable(config) {
            return false;
        }
    }
    if same_text(&config.name, "Regex") {
        if !regex_short(config) {
            return false;
        }
    }
    range_of(config)
}

} // verus!
