//! Formats and expressions of dates and times.
//!
//! A format is a sequence of runs, in each of which one letter stands for a part of a date or a
//! time. What stands in quotes, and what is neither a letter nor a digit, stands for itself.

use crate::definition::{blanks_end, skip_blanks};
use crate::text::{digits_end, digits_len, digits_value, has_prefix, to_chars};
use vstd::prelude::*;

verus! {

/// How many characters at the start of `s` are the first one.
pub open spec fn run_len(s: Seq<char>) -> nat
    decreases s.len(),
{
    if s.len() == 0 {
        0
    } else if s.len() > 1 && s[1] == s[0] {
        1 + run_len(s.skip(1))
    } else {
        1
    }
}

/// Whether a run of the character has a meaning.
pub open spec fn is_run_accepted(c: char, n: nat) -> bool {
    if c == 'y' || c == 'Y' || c == 'u' || c == 'D' || c == 'S' || c == 'n' || c == 'A' || c == 'N' {
        true
    } else if c == 'G' || c == 'M' || c == 'L' || c == 'E' || c == 'e' || c == 'Q' || c == 'x' || c
        == 'X' || c == 'Z' {
        n <= 5
    } else if c == 'O' || c == 'z' {
        n <= 4
    } else if c == 'd' || c == 'w' || c == 'W' || c == 'F' || c == 'q' || c == 'h' || c == 'H' || c
        == 'k' || c == 'K' || c == 'm' || c == 's' || c == 'V' {
        n <= 2
    } else if c == 'a' || c == 'c' {
        n <= 1
    } else {
        !('a' <= c <= 'z' || 'A' <= c <= 'Z' || '0' <= c <= '9' || c == '{' || c == '}' || c == '['
            || c == ']')
    }
}

/// Whether the rest of a format has a meaning, from a place on that stands in quotes or not.
pub open spec fn is_rest_accepted(s: Seq<char>, quoted: bool) -> bool
    decreases s.len(),
{
    if s.len() == 0 {
        !quoted
    } else if s[0] == '\'' {
        is_rest_accepted(s.skip(1), !quoted)
    } else if quoted {
        is_rest_accepted(s.skip(1), quoted)
    } else {
        let n = run_len(s);
        0 < n <= s.len() && is_run_accepted(s[0], n) && is_rest_accepted(s.skip(n as int), quoted)
    }
}

/// Whether a format has a meaning. Others are refused before anything is done with them.
pub open spec fn is_format_accepted(s: Seq<char>) -> bool {
    s.len() > 0 && is_rest_accepted(s, false)
}

/// What a format may ask for that not every use of it can bear.
#[derive(Debug, Clone, Copy, PartialEq, Eq, Structural)]
pub enum Ask {
    /// The time of day.
    TimeOfDay,
    /// Another number of digits of a second's fraction than three, six or nine, or fewer than
    /// three.
    OddFraction,
    /// More digits of a second's fraction than a `usize` holds.
    LongFraction,
    /// More than four digits of a year.
    LongYear,
}

/// How many decimal digits a `usize` holds, whatever they are.
pub open spec fn most_digits() -> nat {
    if usize::BITS == 64 {
        19
    } else {
        9
    }
}

/// Whether a run asks for it.
pub open spec fn does_run_ask(ask: Ask, c: char, n: nat) -> bool {
    match ask {
        Ask::TimeOfDay => c == 'a' || c == 'h' || c == 'H' || c == 'k' || c == 'K' || c == 'm' || c
            == 's' || c == 'S' || c == 'n',
        Ask::OddFraction => c == 'S' && n > 3 && n != 6 && n != 9,
        Ask::LongFraction => c == 'S' && n > most_digits(),
        Ask::LongYear => (c == 'y' || c == 'Y' || c == 'u') && n > 4,
    }
}

/// Whether the rest of a format asks for it, from a place on that stands in quotes or not.
pub open spec fn does_rest_ask(ask: Ask, s: Seq<char>, quoted: bool) -> bool
    decreases s.len(),
{
    if s.len() == 0 {
        false
    } else if s[0] == '\'' {
        does_rest_ask(ask, s.skip(1), !quoted)
    } else if quoted {
        does_rest_ask(ask, s.skip(1), quoted)
    } else {
        let n = run_len(s);
        does_run_ask(ask, s[0], n) || (0 < n <= s.len() && does_rest_ask(
            ask,
            s.skip(n as int),
            quoted,
        ))
    }
}

/// Whether a format has a meaning and asks for it.
pub open spec fn does_ask(ask: Ask, s: Seq<char>) -> bool {
    is_format_accepted(s) && does_rest_ask(ask, s, false)
}

/// Where the run at `i` ends.
fn run_end(v: &[char], i: usize) -> (j: usize)
    requires
        i < v@.len(),
    ensures
        i < j <= v@.len(),
        run_len(v@.skip(i as int)) == j - i,
{
    let n: usize = v.len();
    let mut j: usize = i;
    while n - j > 1 && v[j + 1] == v[j]
        invariant
            i <= j < n == v@.len(),
            run_len(v@.skip(i as int)) == j - i + run_len(v@.skip(j as int)),
        decreases n - j,
    {
        assert(v@.skip(j as int).skip(1) =~= v@.skip(j + 1));
        j = j + 1;
    }
    j + 1
}

fn run_accepted(c: char, n: usize) -> (b: bool)
    ensures
        b == is_run_accepted(c, n as nat),
{
    if c == 'y' || c == 'Y' || c == 'u' || c == 'D' || c == 'S' || c == 'n' || c == 'A' || c == 'N' {
        true
    } else if c == 'G' || c == 'M' || c == 'L' || c == 'E' || c == 'e' || c == 'Q' || c == 'x' || c
        == 'X' || c == 'Z' {
        n <= 5
    } else if c == 'O' || c == 'z' {
        n <= 4
    } else if c == 'd' || c == 'w' || c == 'W' || c == 'F' || c == 'q' || c == 'h' || c == 'H' || c
        == 'k' || c == 'K' || c == 'm' || c == 's' || c == 'V' {
        n <= 2
    } else if c == 'a' || c == 'c' {
        n <= 1
    } else {
        !(('a' <= c && c <= 'z') || ('A' <= c && c <= 'Z') || ('0' <= c && c <= '9') || c == '{' || c
            == '}' || c == '[' || c == ']')
    }
}

fn run_asks(ask: Ask, c: char, n: usize) -> (b: bool)
    ensures
        b == does_run_ask(ask, c, n as nat),
{
    match ask {
        Ask::TimeOfDay => c == 'a' || c == 'h' || c == 'H' || c == 'k' || c == 'K' || c == 'm' || c
            == 's' || c == 'S' || c == 'n',
        Ask::OddFraction => c == 'S' && n > 3 && n != 6 && n != 9,
        Ask::LongFraction => {
            let most: usize = if usize::BITS == 64 {
                19
            } else {
                9
            };
            c == 'S' && n > most
        },
        Ask::LongYear => (c == 'y' || c == 'Y' || c == 'u') && n > 4,
    }
}

/// Whether a format has a meaning.
pub fn accepts_format(format: &str) -> (b: bool)
    ensures
        b == is_format_accepted(format@),
{
    let chars = to_chars(format);
    let v = chars.as_slice();
    let n: usize = v.len();
    if n == 0 {
        return false;
    }
    let mut quoted = false;
    let mut i: usize = 0;
    assert(v@.skip(0) =~= v@);
    while i < n
        invariant
            0 <= i <= n == v@.len(),
            is_rest_accepted(format@, false) == is_rest_accepted(v@.skip(i as int), quoted),
        decreases n - i,
    {
        let ghost s = v@.skip(i as int);
        assert(s.skip(1) =~= v@.skip(i + 1));
        if v[i] == '\'' {
            quoted = !quoted;
            i = i + 1;
        } else if quoted {
            i = i + 1;
        } else {
            let j: usize = run_end(v, i);
            if !run_accepted(v[i], j - i) {
                return false;
            }
            assert(s.skip(j - i) =~= v@.skip(j as int));
            i = j;
        }
    }
    !quoted
}

/// Whether a format has a meaning and asks for it.
pub fn format_asks(ask: Ask, format: &str) -> (b: bool)
    ensures
        b == does_ask(ask, format@),
{
    if !accepts_format(format) {
        return false;
    }
    let chars = to_chars(format);
    let v = chars.as_slice();
    let n: usize = v.len();
    let mut quoted = false;
    let mut i: usize = 0;
    assert(v@.skip(0) =~= v@);
    while i < n
        invariant
            0 <= i <= n == v@.len(),
            is_format_accepted(format@),
            does_rest_ask(ask, format@, false) == does_rest_ask(ask, v@.skip(i as int), quoted),
        decreases n - i,
    {
        let ghost s = v@.skip(i as int);
        assert(s.skip(1) =~= v@.skip(i + 1));
        if v[i] == '\'' {
            quoted = !quoted;
            i = i + 1;
        } else if quoted {
            i = i + 1;
        } else {
            let j: usize = run_end(v, i);
            if run_asks(ask, v[i], j - i) {
                return true;
            }
            assert(s.skip(j - i) =~= v@.skip(j as int));
            i = j;
        }
    }
    false
}

/// Whether five decimal digits stand next to each other in `s`.
pub open spec fn has_long_number(s: Seq<char>) -> bool {
    exists|i: int| 0 <= i < s.len() && #[trigger] digits_len(s.skip(i)) >= 5
}

/// Whether five decimal digits stand next to each other in `s`.
pub fn holds_long_number(s: &str) -> (b: bool)
    ensures
        b == has_long_number(s@),
{
    let chars = to_chars(s);
    let v = chars.as_slice();
    let n: usize = v.len();
    let mut i: usize = 0;
    while i < n
        invariant
            0 <= i <= n == v@.len(),
            v@ == s@,
            forall|k: int| 0 <= k < i ==> #[trigger] digits_len(v@.skip(k)) < 5,
        decreases n - i,
    {
        if digits_end(v, i) - i >= 5 {
            assert(digits_len(s@.skip(i as int)) >= 5);
            return true;
        }
        i = i + 1;
    }
    false
}

/// The milliseconds of the unit of time whose name stands at the start of `s`, at the most.
pub open spec fn unit_at(s: Seq<char>) -> Option<nat> {
    if "day"@.is_prefix_of(s) {
        Some(86_400_000)
    } else if "week"@.is_prefix_of(s) {
        Some(604_800_000)
    } else if "month"@.is_prefix_of(s) {
        Some(2_678_400_000)
    } else if "year"@.is_prefix_of(s) {
        Some(31_622_400_000)
    } else if "hour"@.is_prefix_of(s) {
        Some(3_600_000)
    } else if "minute"@.is_prefix_of(s) {
        Some(60_000)
    } else if "second"@.is_prefix_of(s) {
        Some(1_000)
    } else if "millisecond"@.is_prefix_of(s) {
        Some(1)
    } else {
        None
    }
}

/// The `i32` that the lowest bits of an integer are.
pub open spec fn low_bits(n: int) -> int {
    (n + 0x8000_0000) % 0x1_0000_0000 - 0x8000_0000
}

/// How many units a number stands for, be it forward or back: it is read as a signed number of as
/// many bits.
pub open spec fn magnitude(number: nat) -> nat {
    if number > i64::MAX {
        (0x1_0000_0000_0000_0000 - number) as nat
    } else {
        number
    }
}

/// How many years a number stands for, be it forward or back: it is read by its lowest bits.
pub open spec fn years(number: nat) -> nat {
    if low_bits(number as int) < 0 {
        (-low_bits(number as int)) as nat
    } else {
        low_bits(number as int) as nat
    }
}

/// The furthest that an expression may go, in milliseconds: ninety million days, which lead from
/// any year of four digits to one that the calendar has.
pub const FURTHEST: u64 = 7_776_000_000_000_000;

/// How far a number of years goes, in milliseconds, from a day that is so far from where the
/// expression starts. A year that the calendar does not have leaves the day as it is; a number of
/// years that no count of years can bear is out of reach.
pub open spec fn years_step(years: nat, far: nat) -> nat {
    if years > 2_147_000_000 {
        (FURTHEST + 1) as nat
    } else if years > 272_150 + far / 31_536_000_000 {
        0
    } else {
        31_622_400_000 * years
    }
}

/// How far a number of units goes, in milliseconds. A number that is no `u64`, and a length of time
/// that is too great, are refused and go nowhere.
pub open spec fn step(number: nat, rest: Seq<char>, far: nat) -> nat {
    match unit_at(skip_blanks(rest)) {
        Some(unit) => if number > u64::MAX {
            0
        } else if unit == 31_622_400_000 {
            years_step(years(number), far)
        } else if unit != 2_678_400_000 && unit * magnitude(number) > i64::MAX {
            0
        } else {
            unit * magnitude(number)
        },
        None => 0,
    }
}

/// How far an expression goes from where it starts, in milliseconds, where `s` is its rest and what
/// comes before goes so far: all the steps together, be they forward or back. A step is a number
/// behind a sign and before a unit.
pub open spec fn reach(s: Seq<char>, signed: bool, far: nat) -> nat
    decreases s.len(),
{
    if s.len() == 0 {
        far
    } else if '0' <= s[0] <= '9' {
        let n = digits_len(s);
        if 0 < n <= s.len() {
            reach(
                s.skip(n as int),
                false,
                if signed {
                    far + step(digits_value(s.take(n as int)), s.skip(n as int), far)
                } else {
                    far
                },
            )
        } else {
            far
        }
    } else if s[0] == ' ' || s[0] == '\t' || s[0] == '\n' || s[0] == '\u{c}' {
        reach(s.skip(1), signed, far)
    } else {
        reach(s.skip(1), s[0] == '+' || s[0] == '-', far)
    }
}

/// Whether an expression stays within the calendar.
pub open spec fn stays_in_calendar(expression: Seq<char>) -> bool {
    reach(expression, false, 0) <= FURTHEST
}

/// What comes later only goes further.
proof fn lemma_reach_grows(s: Seq<char>, signed: bool, far: nat)
    ensures
        reach(s, signed, far) >= far,
    decreases s.len(),
{
    if s.len() > 0 {
        if '0' <= s[0] <= '9' {
            let n = digits_len(s);
            if 0 < n <= s.len() {
                let more = if signed {
                    far + step(digits_value(s.take(n as int)), s.skip(n as int), far)
                } else {
                    far
                };
                lemma_reach_grows(s.skip(n as int), false, more);
            }
        } else {
            lemma_reach_grows(s.skip(1), signed, far);
            lemma_reach_grows(s.skip(1), s[0] == '+' || s[0] == '-', far);
        }
    }
}

fn unit_of(s: &[char]) -> (r: Option<u64>)
    ensures
        match r {
            Some(unit) => unit_at(s@) == Some(unit as nat) && unit <= 31_622_400_000,
            None => unit_at(s@) is None,
        },
{
    if has_prefix(s, "day") {
        Some(86_400_000)
    } else if has_prefix(s, "week") {
        Some(604_800_000)
    } else if has_prefix(s, "month") {
        Some(2_678_400_000)
    } else if has_prefix(s, "year") {
        Some(31_622_400_000)
    } else if has_prefix(s, "hour") {
        Some(3_600_000)
    } else if has_prefix(s, "minute") {
        Some(60_000)
    } else if has_prefix(s, "second") {
        Some(1_000)
    } else if has_prefix(s, "millisecond") {
        Some(1)
    } else {
        None
    }
}

/// The value of decimal digits, if a `u64` holds it.
pub(crate) fn number_of(digits: &[char]) -> (r: Option<u64>)
    requires
        forall|k: int| 0 <= k < digits@.len() ==> '0' <= #[trigger] digits@[k] <= '9',
    ensures
        match r {
            Some(n) => n == digits_value(digits@),
            None => digits_value(digits@) > u64::MAX,
        },
{
    let n: usize = digits.len();
    let mut value: u128 = 0;
    let mut i: usize = 0;
    assert(digits@.take(0) =~= seq![]);
    while i < n
        invariant
            0 <= i <= n == digits@.len(),
            forall|k: int| 0 <= k < digits@.len() ==> '0' <= #[trigger] digits@[k] <= '9',
            value == digits_value(digits@.take(i as int)),
            value <= u64::MAX,
        decreases n - i,
    {
        let c = digits[i];
        let ghost now = digits@.take(i + 1);
        assert('0' <= digits@[i as int] <= '9');
        assert(now.drop_last() =~= digits@.take(i as int));
        assert(now.last() == c);
        let next: u128 = value * 10 + (c as u32 - '0' as u32) as u128;
        if next > u64::MAX as u128 {
            proof {
                lemma_digits_grow(digits@, i + 1);
            }
            return None;
        }
        value = next;
        i = i + 1;
    }
    assert(digits@.take(n as int) =~= digits@);
    Some(value as u64)
}

pub(crate) proof fn lemma_digits_grow(digits: Seq<char>, n: int)
    requires
        0 <= n <= digits.len(),
    ensures
        digits_value(digits.take(n)) <= digits_value(digits),
    decreases digits.len() - n,
{
    if n < digits.len() {
        assert(digits.take(n + 1).drop_last() =~= digits.take(n));
        lemma_digits_grow(digits, n + 1);
    } else {
        assert(digits.take(n) =~= digits);
    }
}

/// The `i32` that the lowest bits of an integer are.
pub(crate) fn low_bits_of(n: i128) -> (r: i64)
    requires
        -0x1_0000_0000_0000_0000 <= n <= 0x1_0000_0000_0000_0000,
    ensures
        r == low_bits(n as int),
{
    let above: i128 = n + 0x8000_0000 + 0x1_0000_0000_0000_0000;
    let low: i128 = above % 0x1_0000_0000;
    (low - 0x8000_0000) as i64
}

fn years_of(number: u64) -> (r: u64)
    ensures
        r == years(number as nat),
        r <= 0x8000_0000,
{
    let low: i64 = low_bits_of(number as i128);
    if low < 0 {
        (-low) as u64
    } else {
        low as u64
    }
}

/// How far a number of units goes, where the digits of the number stand from `i` to `j`.
fn step_at(v: &[char], i: usize, j: usize, far: u128) -> (r: u128)
    requires
        i < j <= v@.len(),
        forall|k: int| i <= k < j ==> '0' <= #[trigger] v@[k] <= '9',
        far <= FURTHEST,
    ensures
        r == step(digits_value(v@.subrange(i as int, j as int)), v@.skip(j as int), far as nat),
        r <= u64::MAX * 31_622_400_000,
{
    let start: usize = blanks_end(v, j);
    let rest = &v[start..v.len()];
    assert(rest@ =~= v@.skip(start as int));
    match (unit_of(rest), number_of(&v[i..j])) {
        (Some(unit), Some(number)) => {
            if unit == 31_622_400_000 {
                let y: u64 = years_of(number);
                if y > 2_147_000_000 {
                    FURTHEST as u128 + 1
                } else if y as u128 > 272_150 + far / 31_536_000_000 {
                    0
                } else {
                    31_622_400_000 * y as u128
                }
            } else {
                let m: u64 = if number > i64::MAX as u64 {
                    u64::MAX - number + 1
                } else {
                    number
                };
                assert(unit * m <= 31_622_400_000 * u64::MAX) by (nonlinear_arith)
                    requires
                        0 <= unit <= 31_622_400_000,
                        0 <= m <= u64::MAX,
                ;
                let ms: u128 = unit as u128 * m as u128;
                if unit != 2_678_400_000 && ms > i64::MAX as u128 {
                    0
                } else {
                    ms
                }
            }
        },
        _ => 0,
    }
}

/// Whether an expression stays within the calendar.
pub fn is_in_calendar(expression: &str) -> (b: bool)
    ensures
        b == stays_in_calendar(expression@),
{
    let chars = to_chars(expression);
    let v = chars.as_slice();
    let n: usize = v.len();
    let mut signed = false;
    let mut far: u128 = 0;
    let mut i: usize = 0;
    assert(v@.skip(0) =~= v@);
    while i < n
        invariant
            0 <= i <= n == v@.len(),
            far <= FURTHEST,
            reach(expression@, false, 0) == reach(v@.skip(i as int), signed, far as nat),
        decreases n - i,
    {
        let ghost s = v@.skip(i as int);
        let c = v[i];
        assert(s.skip(1) =~= v@.skip(i + 1));
        if '0' <= c && c <= '9' {
            let j: usize = digits_end(v, i);
            assert(s.skip(j - i) =~= v@.skip(j as int));
            assert(s.take(j - i) =~= v@.subrange(i as int, j as int));
            if signed {
                far = far + step_at(v, i, j, far);
            }
            if far > FURTHEST as u128 {
                proof {
                    lemma_reach_grows(v@.skip(j as int), false, far as nat);
                }
                return false;
            }
            signed = false;
            i = j;
        } else {
            if !(c == ' ' || c == '\t' || c == '\n' || c == '\u{c}') {
                signed = c == '+' || c == '-';
            }
            i = i + 1;
        }
    }
    assert(v@.skip(n as int) =~= seq![]);
    true
}

} // verus!
