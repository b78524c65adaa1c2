//! Which draws are certain to come to an end.

use crate::definition::ConfigView;
use crate::formats::{does_rest_ask, does_run_ask, reach, run_len, Ask};
use crate::generators::{is_drawable, is_short, json_integer, lookup_start, MOST_BYTES};
use crate::rules::AttributeView;
use crate::text::{decimal, digits_len};
use crate::text_laws::law_written_numbers_are_read_back;
use vstd::prelude::*;

verus! {

/// Generators of identifiers, truth values, texts, digits and the address of a mock server are
/// always certain to come to an end, and so are those of integers without bounds and of dates and
/// times without a format and an expression.
pub proof fn law_plain_generators_are_certain(c: ConfigView)
    ensures
        c.name == "Uuid"@ || c.name == "RandomBoolean"@ || c.name == "RandomString"@ || c.name
            == "RandomHexadecimal"@ || c.name == "RandomDecimal"@ || c.name == "MockServerURL"@
            ==> is_drawable(c),
        c.name == "RandomInt"@ && !c.values.contains_key("min"@) && !c.values.contains_key("max"@)
            ==> is_drawable(c),
        (c.name == "Date"@ || c.name == "Time"@ || c.name == "DateTime"@) && !c.values.contains_key(
            "format"@,
        ) && !c.values.contains_key("expression"@) ==> is_drawable(c),
{
    lemma_generator_names();
}

/// An integer between bounds, of which the lesser is not above the greater, is certain to be drawn.
pub proof fn law_integers_between_bounds_are_certain(c: ConfigView, least: nat, greatest: nat)
    requires
        c.name == "RandomInt"@,
        least <= greatest < 0x7fff_ffff,
        c.values.contains_key("min"@),
        c.values.contains_key("max"@),
        c.values["min"@] == AttributeView::Json(decimal(least)),
        c.values["max"@] == AttributeView::Json(decimal(greatest)),
    ensures
        is_drawable(c),
{
    lemma_generator_names();
    law_written_numbers_are_read_back(least, greatest);
    law_written_numbers_are_read_back(greatest, least);
    lemma_json_integer(least);
    lemma_json_integer(greatest);
}

proof fn lemma_json_integer(n: nat)
    requires
        n < 0x7fff_ffff,
    ensures
        json_integer(decimal(n)) == Some(n as int),
        crate::formats::low_bits(n as int) == n,
        crate::generators::is_compact(decimal(n)),
{
    law_written_numbers_are_read_back(n, n);
    let s = decimal(n);
    assert('0' <= s[0] <= '9');
    assert('0' <= s[s.len() - 1] <= '9');
    if n == 0 {
        assert(s =~= seq!['0']);
    }
}

/// A date or a time in a format without a time of day and a fraction of a second, or by an
/// expression without a sign, is certain to be drawn.
pub proof fn law_plain_formats_and_expressions_are_certain(
    c: ConfigView,
    format: Seq<char>,
    expression: Seq<char>,
)
    requires
        c.name == "Date"@ || c.name == "Time"@ || c.name == "DateTime"@,
        c.values.contains_key("format"@) ==> c.values["format"@] == AttributeView::Text(format),
        c.values.contains_key("expression"@) ==> c.values["expression"@] == AttributeView::Text(
            expression,
        ),
        forall|i: int|
            0 <= i < format.len() ==> !(#[trigger] format[i] == 'a' || format[i] == 'h' || format[i]
                == 'H' || format[i] == 'k' || format[i] == 'K' || format[i] == 'm' || format[i]
                == 's' || format[i] == 'S' || format[i] == 'n') || (c.name != "Date"@ && format[i]
                != 'S'),
        !expression.contains('+'),
        !expression.contains('-'),
    ensures
        is_drawable(c),
{
    lemma_generator_names();
    lemma_no_sign_no_step(expression, 0);
    assert forall|i: int, n: nat| 0 <= i < format.len() implies !#[trigger] does_run_ask(
        Ask::OddFraction,
        format[i],
        n,
    ) && (c.name == "Date"@ ==> !does_run_ask(Ask::TimeOfDay, format[i], n)) by {
        assert(format[i] == format[i]);
    }
    lemma_not_asked(Ask::OddFraction, format, false);
    if c.name == "Date"@ {
        assert forall|i: int, n: nat| 0 <= i < format.len() implies !#[trigger] does_run_ask(
            Ask::TimeOfDay,
            format[i],
            n,
        ) by {
            assert(!does_run_ask(Ask::OddFraction, format[i], n));
        }
        lemma_not_asked(Ask::TimeOfDay, format, false);
    }
}

proof fn lemma_not_asked(ask: Ask, s: Seq<char>, quoted: bool)
    requires
        forall|i: int, n: nat| 0 <= i < s.len() ==> !#[trigger] does_run_ask(ask, s[i], n),
    ensures
        !does_rest_ask(ask, s, quoted),
    decreases s.len(),
{
    if s.len() > 0 {
        assert forall|k: int, i: int, n: nat|
            0 < k <= s.len() && 0 <= i < s.len() - k implies !#[trigger] does_run_ask(
            ask,
            s.skip(k)[i],
            n,
        ) by {
            assert(s.skip(k)[i] == s[i + k]);
            assert(!does_run_ask(ask, s[i + k], n));
        }
        let n = run_len(s);
        if s[0] == '\'' {
            lemma_not_asked(ask, s.skip(1), !quoted);
        } else if quoted {
            lemma_not_asked(ask, s.skip(1), quoted);
        } else {
            assert(!does_run_ask(ask, s[0], n));
            if 0 < n <= s.len() {
                lemma_not_asked(ask, s.skip(n as int), quoted);
            }
        }
    }
}

proof fn lemma_no_sign_no_step(s: Seq<char>, far: nat)
    requires
        !s.contains('+'),
        !s.contains('-'),
    ensures
        reach(s, false, far) == far,
    decreases s.len(),
{
    if s.len() > 0 {
        assert(s.contains(s[0]));
        assert forall|k: int| 0 < k <= s.len() implies !(#[trigger] s.skip(k)).contains('+')
            && !s.skip(k).contains('-') by {
            let r = s.skip(k);
            assert forall|i: int| 0 <= i < r.len() implies s.contains(#[trigger] r[i]) by {
                assert(r[i] == s[i + k]);
            }
        }
        let n = digits_len(s);
        if '0' <= s[0] <= '9' {
            if 0 < n <= s.len() {
                lemma_no_sign_no_step(s.skip(n as int), far);
            }
        } else {
            lemma_no_sign_no_step(s.skip(1), far);
        }
    }
}

/// A text out of a regular expression of letters and digits alone is certain to be drawn, and so is
/// a value out of a provider's state by an expression without a lookup.
pub proof fn law_literal_expressions_are_certain(c: ConfigView, text: Seq<char>)
    ensures
        c.name == "Regex"@ && c.values.contains_key("regex"@) && c.values["regex"@]
            == AttributeView::Text(text) && text.len() < 24_000_000 && (forall|i: int|
            0 <= i < text.len() ==> ('a' <= #[trigger] text[i] <= 'z' || 'A' <= text[i] <= 'Z' || '0'
                <= text[i] <= '9')) ==> is_drawable(c),
        c.name == "ProviderState"@ && c.values.contains_key("expression"@)
            && c.values["expression"@] == AttributeView::Text(text) && !text.contains('$')
            ==> is_drawable(c),
{
    lemma_generator_names();
    if !text.contains('$') {
        lemma_no_lookup(text);
    }
    if text.len() < 24_000_000 && forall|i: int|
        0 <= i < text.len() ==> ('a' <= #[trigger] text[i] <= 'z' || 'A' <= text[i] <= 'Z' || '0'
            <= text[i] <= '9') {
        let limit = MOST_BYTES as nat / (4 * (text.len() + 1));
        assert(limit >= 1) by (nonlinear_arith)
            requires
                limit == 100_000_000nat / (4 * (text.len() + 1)),
                text.len() < 24_000_000,
        ;
        lemma_literal_is_short(text, limit);
    }
}

proof fn lemma_no_lookup(s: Seq<char>)
    requires
        !s.contains('$'),
    ensures
        lookup_start(s) is None,
    decreases s.len(),
{
    if s.len() >= 2 {
        assert(s.contains(s[0]));
        let r = s.skip(1);
        assert(!r.contains('$')) by {
            assert forall|i: int| 0 <= i < r.len() implies r[i] != '$' by {
                assert(s.contains(s[i + 1]));
            }
        }
        lemma_no_lookup(r);
    }
}

proof fn lemma_literal_is_short(s: Seq<char>, limit: nat)
    requires
        limit >= 1,
        forall|i: int|
            0 <= i < s.len() ==> ('a' <= #[trigger] s[i] <= 'z' || 'A' <= s[i] <= 'Z' || '0' <= s[i]
                <= '9'),
    ensures
        is_short(s, false, 1, 1, limit),
    decreases s.len(),
{
    assert(1nat * 1nat == 1nat) by (nonlinear_arith);
    if s.len() > 0 {
        let r = s.skip(1);
        assert forall|i: int| 0 <= i < r.len() implies ('a' <= #[trigger] r[i] <= 'z' || 'A' <= r[i]
            <= 'Z' || '0' <= r[i] <= '9') by {
            assert(r[i] == s[i + 1]);
        }
        assert(s[0] == s[0]);
        lemma_literal_is_short(r, limit);
    }
}

proof fn lemma_generator_names()
    ensures
        "Uuid"@ != "RandomInt"@ && "Uuid"@ != "Date"@ && "Uuid"@ != "Time"@
            && "Uuid"@ != "DateTime"@ && "Uuid"@ != "Regex"@ && "Uuid"@ != "ProviderState"@,
        "RandomBoolean"@ != "RandomInt"@ && "RandomBoolean"@ != "Date"@
            && "RandomBoolean"@ != "Time"@ && "RandomBoolean"@ != "DateTime"@
            && "RandomBoolean"@ != "Regex"@ && "RandomBoolean"@ != "ProviderState"@,
        "RandomString"@ != "RandomInt"@ && "RandomString"@ != "Date"@ && "RandomString"@ != "Time"@
            && "RandomString"@ != "DateTime"@ && "RandomString"@ != "Regex"@
            && "RandomString"@ != "ProviderState"@,
        "RandomHexadecimal"@ != "RandomInt"@ && "RandomHexadecimal"@ != "Date"@
            && "RandomHexadecimal"@ != "Time"@ && "RandomHexadecimal"@ != "DateTime"@
            && "RandomHexadecimal"@ != "Regex"@ && "RandomHexadecimal"@ != "ProviderState"@,
        "RandomDecimal"@ != "RandomInt"@ && "RandomDecimal"@ != "Date"@
            && "RandomDecimal"@ != "Time"@ && "RandomDecimal"@ != "DateTime"@
            && "RandomDecimal"@ != "Regex"@ && "RandomDecimal"@ != "ProviderState"@,
        "MockServerURL"@ != "RandomInt"@ && "MockServerURL"@ != "Date"@
            && "MockServerURL"@ != "Time"@ && "MockServerURL"@ != "DateTime"@
            && "MockServerURL"@ != "Regex"@ && "MockServerURL"@ != "ProviderState"@,
        "RandomInt"@ != "Date"@ && "RandomInt"@ != "Time"@ && "RandomInt"@ != "DateTime"@
            && "RandomInt"@ != "Regex"@ && "RandomInt"@ != "ProviderState"@,
        "Date"@ != "RandomInt"@ && "Date"@ != "Time"@ && "Date"@ != "DateTime"@
            && "Date"@ != "Regex"@ && "Date"@ != "ProviderState"@,
        "Time"@ != "RandomInt"@ && "Time"@ != "Date"@ && "Time"@ != "DateTime"@
            && "Time"@ != "Regex"@ && "Time"@ != "ProviderState"@,
        "DateTime"@ != "RandomInt"@ && "DateTime"@ != "Date"@ && "DateTime"@ != "Time"@
            && "DateTime"@ != "Regex"@ && "DateTime"@ != "ProviderState"@,
        "Regex"@ != "RandomInt"@ && "Regex"@ != "Date"@ && "Regex"@ != "Time"@
            && "Regex"@ != "DateTime"@ && "Regex"@ != "ProviderState"@,
        "ProviderState"@ != "RandomInt"@ && "ProviderState"@ != "Date"@
            && "ProviderState"@ != "Time"@ && "ProviderState"@ != "DateTime"@
            && "ProviderState"@ != "Regex"@,
{
    reveal_strlit("Uuid");
    reveal_strlit("RandomBoolean");
    reveal_strlit("RandomString");
    reveal_strlit("RandomHexadecimal");
    reveal_strlit("RandomDecimal");
    reveal_strlit("MockServerURL");
    reveal_strlit("RandomInt");
    reveal_strlit("Date");
    reveal_strlit("Time");
    reveal_strlit("DateTime");
    reveal_strlit("Regex");
    reveal_strlit("ProviderState");
    assert("Uuid"@.len() == 4);
    assert("RandomBoolean"@.len() == 13);
    assert("RandomString"@.len() == 12);
    assert("RandomHexadecimal"@.len() == 17);
    assert("RandomDecimal"@.len() == 13);
    assert("MockServerURL"@.len() == 13);
    assert("RandomInt"@.len() == 9);
    assert("Date"@.len() == 4);
    assert("Time"@.len() == 4);
    assert("DateTime"@.len() == 8);
    assert("Regex"@.len() == 5);
    assert("ProviderState"@.len() == 13);
    assert("Uuid"@[0] == 'U' && "Date"@[0] == 'D');
    assert("Uuid"@[0] == 'U' && "Time"@[0] == 'T');
    assert("RandomBoolean"@[6] == 'B' && "RandomDecimal"@[6] == 'D');
    assert("RandomBoolean"@[0] == 'R' && "MockServerURL"@[0] == 'M');
    assert("RandomBoolean"@[0] == 'R' && "ProviderState"@[0] == 'P');
    assert("RandomDecimal"@[0] == 'R' && "MockServerURL"@[0] == 'M');
    assert("RandomDecimal"@[0] == 'R' && "ProviderState"@[0] == 'P');
    assert("MockServerURL"@[0] == 'M' && "ProviderState"@[0] == 'P');
    assert("Date"@[0] == 'D' && "Time"@[0] == 'T');
}

} // verus!
