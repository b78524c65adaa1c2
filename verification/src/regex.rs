//! How often a regular expression can go back while it is matched.
//!
//! A matcher that backtracks gives up after so many times. What is read here of an expression is no
//! more than what tells that it stays far below that: its groups, its alternatives and what is
//! repeated how often. An expression with anything else in it is not read.

use crate::text::{digits_end, digits_len, digits_value, to_chars};
use vstd::prelude::*;

verus! {

/// What stands before a place in an expression, as far as it matters to a repetition that follows.
#[derive(Debug, Clone, Copy, PartialEq, Eq, Structural)]
pub enum Before {
    /// Nothing that can be repeated.
    Nothing,
    /// Something that matches in one way.
    Single,
    /// A group that can match in several ways.
    Choice,
    /// A repetition.
    Repeated,
    /// A counted repetition.
    Counted,
    /// A repetition that is marked as lazy or possessive.
    Marked,
}

/// The most ways to match that an expression may have.
pub const MOST_WAYS: u32 = 1_000_000;

/// A place in an expression: the ways to match of what stands before it in its group.
#[derive(Debug, Clone, Copy, PartialEq, Eq)]
pub struct Place {
    /// Those of the alternatives that are complete.
    pub others: u64,
    /// Those of the alternative at hand, without its last item.
    pub earlier: u64,
    /// Those of the last item.
    pub last: u64,
}

/// The ways to match of a group up to a place: those of its alternatives add up, and those of the
/// items of an alternative multiply.
pub open spec fn ways(p: Place) -> nat {
    (p.others + p.earlier * p.last) as nat
}

/// The start of a group.
pub open spec fn start() -> Place {
    Place { others: 0, earlier: 1, last: 1 }
}

/// Whether a place can be gone on from: so far there are no more ways to match than there may be.
pub open spec fn is_small(others: nat, earlier: nat, last: nat) -> bool {
    others <= MOST_WAYS && earlier <= MOST_WAYS && last <= MOST_WAYS && others + earlier * last
        <= MOST_WAYS
}

/// A letter that stands for a class, a position or a control character behind a backslash.
pub open spec fn is_simple_escape(c: char) -> bool {
    ||| c == 'd' || c == 'D' || c == 'w' || c == 'W' || c == 's' || c == 'S' || c == 'h' || c == 'H'
    ||| c == 'b' || c == 'B' || c == 'A' || c == 'z' || c == 'Z' || c == 'n' || c == 't' || c == 'r'
    ||| c == 'f' || c == 'v' || c == 'a' || c == 'e' || c == 'x' || c == 'u'
}

/// A letter of the Latin alphabet without diacritics.
pub open spec fn is_letter(c: char) -> bool {
    'a' <= c <= 'z' || 'A' <= c <= 'Z'
}

/// How many letters, digits and underscores stand at the start of `s`.
pub open spec fn name_len(s: Seq<char>) -> nat
    decreases s.len(),
{
    if s.len() > 0 && (is_letter(s[0]) || '0' <= s[0] <= '9' || s[0] == '_') {
        1 + name_len(s.skip(1))
    } else {
        0
    }
}

/// How many characters an escape at the start of `s` has; none where it is not read.
pub open spec fn escape_len(s: Seq<char>) -> Option<nat> {
    if s.len() < 2 {
        None
    } else if !is_letter(s[1]) || (is_simple_escape(s[1]) && !(s.len() > 2 && s[2] == '{')) {
        Some(2)
    } else if (s[1] == 'p' || s[1] == 'P' || s[1] == 'x') && s.len() > 2 && s[2] == '{' {
        let n = name_len(s.skip(3));
        if n + 3 < s.len() && s[n as int + 3] == '}' {
            Some(n + 4)
        } else {
            None
        }
    } else if is_simple_escape(s[1]) && s[1] != 'x' && s[1] != 'u' {
        Some(2)
    } else {
        None
    }
}

/// How many characters a named class such as `[:alpha:]` at the start of `s` has.
pub open spec fn named_class_len(s: Seq<char>) -> Option<nat> {
    let n = name_len(s.skip(2));
    if s.len() > 2 && s[1] == ':' && 0 < n <= 6 && n + 3 < s.len() && s[n as int + 2] == ':'
        && s[n as int + 3] == ']' {
        Some(n + 4)
    } else {
        None
    }
}

/// How many characters of `s` are the rest of a bracketed class with so many open brackets; none
/// where it is not read.
pub open spec fn class_rest(s: Seq<char>, depth: nat) -> Option<nat>
    decreases s.len(),
{
    if s.len() == 0 {
        None
    } else if s[0] == ']' {
        if depth <= 1 {
            Some(1)
        } else {
            plus(class_rest(s.skip(1), (depth - 1) as nat), 1)
        }
    } else if s[0] == '\\' {
        match escape_len(s) {
            Some(n) => if 0 < n <= s.len() {
                plus(class_rest(s.skip(n as int), depth), n)
            } else {
                None
            },
            None => None,
        }
    } else if s[0] == '[' {
        if s.len() > 1 && s[1] == ':' {
            match named_class_len(s) {
                Some(n) => if 0 < n <= s.len() {
                    plus(class_rest(s.skip(n as int), depth), n)
                } else {
                    None
                },
                None => None,
            }
        } else {
            let n = class_opening(s);
            if n < s.len() && s[n as int] != ']' {
                plus(class_rest(s.skip(n as int), depth + 1), n)
            } else {
                None
            }
        }
    } else {
        plus(class_rest(s.skip(1), depth), 1)
    }
}

/// A length that may be missing, and more.
pub open spec fn plus(n: Option<nat>, more: nat) -> Option<nat> {
    match n {
        Some(n) => Some(n + more),
        None => None,
    }
}

/// How many characters open a bracketed class at the start of `s`.
pub open spec fn class_opening(s: Seq<char>) -> nat {
    if s.len() > 1 && s[1] == '^' {
        2
    } else {
        1
    }
}

/// How many characters a bracketed class at the start of `s` has; none where it is not read.
pub open spec fn class_len(s: Seq<char>) -> Option<nat> {
    let n = class_opening(s);
    if n < s.len() && s[n as int] != ']' {
        plus(class_rest(s.skip(n as int), 1), n)
    } else {
        None
    }
}

/// A count in braces.
pub struct Count {
    /// How many characters it has.
    pub len: nat,
    /// The least number of times.
    pub low: nat,
    /// The greatest number of times; none where there is no limit.
    pub high: Option<nat>,
}

/// The count in braces at the start of `s`, with no more than six digits to a bound; none where it
/// is not read.
pub open spec fn count_at(s: Seq<char>) -> Option<Count> {
    let low = digits_len(s.skip(1));
    let least = digits_value(s.subrange(1, low as int + 1));
    if low > 6 || low == 0 || s.len() < low + 2 {
        None
    } else if s[low as int + 1] == '}' {
        Some(Count { len: low + 2, low: least, high: Some(least) })
    } else if s[low as int + 1] == ',' {
        let high = digits_len(s.skip(low as int + 2));
        if high > 6 || s.len() < low + high + 3 || s[low as int + high + 2] != '}' {
            None
        } else if high == 0 {
            Some(Count { len: low + 3, low: least, high: None })
        } else {
            Some(
                Count {
                    len: low + high + 3,
                    low: least,
                    high: Some(
                        digits_value(s.subrange(low as int + 2, low as int + high + 2)),
                    ),
                },
            )
        }
    } else {
        None
    }
}

/// `w` multiplied by itself so many times.
pub open spec fn power(w: nat, times: nat) -> nat
    decreases times,
{
    if times == 0 {
        1
    } else {
        w * power(w, (times - 1) as nat)
    }
}

/// The ways to match of an item with the ways `w` that is repeated so often, on a text of `n`
/// characters; none where there is no telling. An item that matches in one way can be repeated as
/// often as the text is long. One that matches in several ways has so many ways in each of its
/// turns, which multiply; `w` to the power of one more than the greatest number of turns is more
/// than those of all numbers of turns together.
pub open spec fn repeated_ways(w: nat, n: nat, low: nat, high: Option<nat>) -> Option<nat> {
    if w <= 1 {
        if high == Some(low) {
            Some(w)
        } else {
            Some(
                n + 2 + low + (match high {
                    Some(h) => h,
                    None => 0,
                }),
            )
        }
    } else {
        match high {
            Some(h) => if h > 18 {
                None
            } else if h == low {
                Some(power(w, h))
            } else {
                Some(power(w, h + 1))
            },
            None => None,
        }
    }
}

/// How many characters open a group at the start of `s`, and whether it only looks ahead or is cut
/// once it matched; none where it is not read.
pub open spec fn group_at(s: Seq<char>) -> Option<(nat, bool)> {
    if s.len() < 2 || s[1] == '*' {
        None
    } else if s[1] != '?' {
        Some((1, false))
    } else if s.len() < 3 {
        None
    } else if s[2] == ':' {
        Some((3, false))
    } else if s[2] == '=' || s[2] == '!' || s[2] == '>' {
        Some((3, true))
    } else if s[2] == '<' && s.len() > 3 && is_letter(s[3]) {
        let n = name_len(s.skip(3));
        if n + 3 < s.len() && s[n as int + 3] == '>' {
            Some((n + 4, false))
        } else {
            None
        }
    } else {
        None
    }
}

/// A mark that stands for itself.
pub open spec fn is_mark(c: char) -> bool {
    ||| c == ' ' || c == '-' || c == ',' || c == ':' || c == ';' || c == '/' || c == '@' || c == '&'
    ||| c == '=' || c == '%' || c == '!' || c == '~' || c == '"'
}

/// A mark that stands for itself behind a backslash.
pub open spec fn is_escaped_mark(c: char) -> bool {
    ||| c == '.' || c == '-' || c == '/' || c == '+' || c == '*' || c == '?' || c == '|' || c == '$'
    ||| c == '(' || c == ')' || c == '[' || c == ']' || c == '{' || c == '}' || c == '^' || c == ':'
}

/// How many characters an item at the start of `s` has that matches one mark or one white space;
/// zero where there is none.
pub open spec fn mark_len(s: Seq<char>) -> nat {
    if s.len() > 0 && is_mark(s[0]) {
        1
    } else if s.len() > 1 && s[0] == '\\' && (is_escaped_mark(s[1]) || s[1] == 's') {
        2
    } else {
        0
    }
}

/// How many characters the items at the start of `s` have that match marks or white space.
pub open spec fn marks_len(s: Seq<char>) -> nat
    decreases s.len(),
{
    let n = mark_len(s);
    if 0 < n <= s.len() {
        n + marks_len(s.skip(n as int))
    } else {
        0
    }
}

/// A letter, a digit or an underscore.
pub open spec fn is_word(c: char) -> bool {
    is_letter(c) || '0' <= c <= '9' || c == '_'
}

/// How many characters of `s` are the rest of a bracketed class of letters, digits and underscores
/// and ranges of them; zero where it is not one, or closes with nothing in it.
pub open spec fn word_class_rest(s: Seq<char>, empty: bool) -> nat
    decreases s.len(),
{
    if s.len() == 0 {
        0
    } else if s[0] == ']' && !empty {
        1
    } else if is_word(s[0]) {
        let len: nat = if s.len() > 2 && s[1] == '-' && is_word(s[2]) {
            3
        } else {
            1
        };
        let rest = word_class_rest(s.skip(len as int), false);
        if rest > 0 {
            rest + len
        } else {
            0
        }
    } else {
        0
    }
}

/// How many characters an item at the start of `s` has that matches one letter, digit or
/// underscore; zero where there is none.
pub open spec fn word_len(s: Seq<char>) -> nat {
    if s.len() > 1 && s[0] == '\\' && (s[1] == 'd' || s[1] == 'w') {
        2
    } else if s.len() > 0 && is_word(s[0]) {
        1
    } else if s.len() > 0 && s[0] == '[' {
        let rest = word_class_rest(s.skip(1), true);
        if rest > 0 {
            rest + 1
        } else {
            0
        }
    } else {
        0
    }
}

/// How many characters the item at the start of `s` has that matches letters, digits and
/// underscores, with its repetition; zero where there is none.
pub open spec fn words_len(s: Seq<char>) -> nat {
    let n = word_len(s);
    let rest = s.skip(n as int);
    if n == 0 || n > s.len() {
        0
    } else if rest.len() > 0 && (rest[0] == '*' || rest[0] == '+' || rest[0] == '?') {
        n + 1
    } else if rest.len() > 0 && rest[0] == '{' {
        match count_at(rest) {
            Some(c) => n + c.len,
            None => 0,
        }
    } else {
        n
    }
}

/// How many characters of `s` are what a list repeats, marks before or behind words; zero where it
/// is not that.
#[verifier::opaque]
pub open spec fn list_item_len(s: Seq<char>) -> nat {
    let marks = marks_len(s);
    if 0 < marks <= s.len() {
        let words = words_len(s.skip(marks as int));
        if words > 0 {
            marks + words
        } else {
            0
        }
    } else {
        let words = words_len(s);
        if 0 < words <= s.len() && marks_len(s.skip(words as int)) > 0 {
            words + marks_len(s.skip(words as int))
        } else {
            0
        }
    }
}

/// How many characters a repeated group at the start of `s` has that matches a list such as
/// `-ab-cd`; zero where it is not one.
///
/// Its turns can be told apart by their marks, which no word holds: where a word stops early, the
/// next turn fails at once. So there are at most two ways to go on for each character of the text.
#[verifier::opaque]
pub open spec fn list_len(s: Seq<char>) -> nat {
    let opening: nat = if s.len() > 2 && s[1] == '?' && s[2] == ':' {
        3
    } else {
        1
    };
    if s.len() < opening {
        0
    } else {
        let n = opening + list_item_len(s.skip(opening as int));
        if n > opening && n + 1 < s.len() && s[n as int] == ')' && (s[n as int + 1] == '*' || s[
        n as int + 1] == '+') {
            n + 2
        } else {
            0
        }
    }
}

/// A group around a place: where it stands, and whether it only looks ahead or is cut once it
/// matched.
#[derive(Debug, Clone, Copy, PartialEq, Eq)]
pub struct Group {
    pub place: Place,
    pub cut: bool,
}

/// Whether the rest `s` of an expression leaves no more ways to match a text of `n` characters than
/// there may be, from a place in a group on, which stands in the open groups.
///
/// A matcher goes back at most once for each place where it had another way to go on, and there are
/// fewer such places than ways to match: an alternative adds one place and its own ways, an option
/// adds one place and one way, and in a sequence the places of each item stand once for every way
/// to match what comes before it.
pub open spec fn rest_is_bounded(
    s: Seq<char>,
    n: nat,
    open: Seq<Group>,
    p: Place,
    before: Before,
) -> bool
    decreases s.len(),
{
    if s.len() == 0 {
        open.len() == 0
    } else if s[0] == '(' && 0 < list_len(s) <= s.len() {
        let earlier = p.earlier * p.last;
        is_small(p.others as nat, earlier as nat, 2 * (n + 2)) && rest_is_bounded(
            s.skip(list_len(s) as int),
            n,
            open,
            Place { others: p.others, earlier: earlier as u64, last: (2 * (n + 2)) as u64 },
            Before::Marked,
        )
    } else if s[0] == '(' {
        match group_at(s) {
            Some((len, cut)) => {
                let earlier = p.earlier * p.last;
                0 < len <= s.len() && is_small(p.others as nat, earlier as nat, 1)
                    && rest_is_bounded(
                    s.skip(len as int),
                    n,
                    open.push(
                        Group {
                            place: Place {
                                others: p.others,
                                earlier: earlier as u64,
                                last: 1,
                            },
                            cut,
                        },
                    ),
                    start(),
                    Before::Nothing,
                )
            },
            None => false,
        }
    } else if s[0] == ')' {
        if open.len() == 0 {
            false
        } else {
            let g = open.last();
            let inner = if g.cut {
                ways(p) + 1
            } else {
                ways(p)
            };
            is_small(g.place.others as nat, g.place.earlier as nat, inner) && rest_is_bounded(
                s.skip(1),
                n,
                open.drop_last(),
                Place { others: g.place.others, earlier: g.place.earlier, last: inner as u64 },
                if inner <= 1 {
                    Before::Single
                } else {
                    Before::Choice
                },
            )
        }
    } else if s[0] == '|' {
        is_small(ways(p), 1, 1) && rest_is_bounded(
            s.skip(1),
            n,
            open,
            Place { others: ways(p) as u64, earlier: 1, last: 1 },
            Before::Nothing,
        )
    } else if s[0] == '*' || s[0] == '+' {
        if before == Before::Single {
            is_small(p.others as nat, p.earlier as nat, n + 2) && rest_is_bounded(
                s.skip(1),
                n,
                open,
                Place { last: (n + 2) as u64, ..p },
                Before::Repeated,
            )
        } else {
            before == Before::Repeated && s[0] == '+' && rest_is_bounded(
                s.skip(1),
                n,
                open,
                p,
                Before::Marked,
            )
        }
    } else if s[0] == '?' {
        before != Before::Nothing && before != Before::Marked && is_small(
            p.others as nat,
            p.earlier as nat,
            (p.last + 1) as nat,
        ) && rest_is_bounded(
            s.skip(1),
            n,
            open,
            Place { last: (p.last + 1) as u64, ..p },
            if before == Before::Single || before == Before::Choice {
                Before::Repeated
            } else {
                Before::Marked
            },
        )
    } else if s[0] == '{' {
        match count_at(s) {
            Some(c) => match repeated_ways(p.last as nat, n, c.low, c.high) {
                Some(last) => (before == Before::Single || before == Before::Choice) && 0 < c.len
                    <= s.len() && is_small(p.others as nat, p.earlier as nat, last)
                    && rest_is_bounded(
                    s.skip(c.len as int),
                    n,
                    open,
                    Place { last: last as u64, ..p },
                    Before::Counted,
                ),
                None => false,
            },
            None => false,
        }
    } else {
        let len = if s[0] == '[' {
            class_len(s)
        } else if s[0] == '\\' {
            escape_len(s)
        } else {
            Some(1)
        };
        let earlier = p.earlier * p.last;
        match len {
            Some(len) => 0 < len <= s.len() && is_small(p.others as nat, earlier as nat, 1)
                && rest_is_bounded(
                s.skip(len as int),
                n,
                open,
                Place { others: p.others, earlier: earlier as u64, last: 1 },
                Before::Single,
            ),
            None => false,
        }
    }
}

/// Whether an expression is read and leaves no more ways to match a text of `n` characters than
/// there may be.
pub open spec fn is_bounded(pattern: Seq<char>, n: nat) -> bool {
    rest_is_bounded(pattern, n, seq![], start(), Before::Nothing)
}

fn small(others: u64, earlier: u64, last: u64) -> (b: bool)
    ensures
        b == is_small(others as nat, earlier as nat, last as nat),
{
    let most: u64 = MOST_WAYS as u64;
    if others > most || earlier > most || last > most {
        return false;
    }
    assert(earlier * last <= 1_000_000 * 1_000_000) by (nonlinear_arith)
        requires
            0 <= earlier <= 1_000_000,
            0 <= last <= 1_000_000,
    ;
    others + earlier * last <= most
}

/// A place that can be gone on from.
pub open spec fn is_good(p: Place) -> bool {
    is_small(p.others as nat, p.earlier as nat, p.last as nat)
}

/// The start of a group.
fn first_place() -> (p: Place)
    ensures
        p == start(),
        is_good(p),
{
    assert(1u64 * 1u64 == 1u64) by (nonlinear_arith);
    Place { others: 0, earlier: 1, last: 1 }
}

fn simple_escape(c: char) -> (b: bool)
    ensures
        b == is_simple_escape(c),
{
    c == 'd' || c == 'D' || c == 'w' || c == 'W' || c == 's' || c == 'S' || c == 'h' || c == 'H' || c
        == 'b' || c == 'B' || c == 'A' || c == 'z' || c == 'Z' || c == 'n' || c == 't' || c == 'r'
        || c == 'f' || c == 'v' || c == 'a' || c == 'e' || c == 'x' || c == 'u'
}

fn letter(c: char) -> (b: bool)
    ensures
        b == is_letter(c),
{
    ('a' <= c && c <= 'z') || ('A' <= c && c <= 'Z')
}

/// Where the letters, digits and underscores at `i` end.
fn name_end(v: &[char], i: usize) -> (j: usize)
    requires
        i <= v@.len(),
    ensures
        i <= j <= v@.len(),
        name_len(v@.skip(i as int)) == j - i,
{
    let n: usize = v.len();
    let mut j: usize = i;
    while j < n && (letter(v[j]) || ('0' <= v[j] && v[j] <= '9') || v[j] == '_')
        invariant
            i <= j <= n == v@.len(),
            name_len(v@.skip(i as int)) == j - i + name_len(v@.skip(j as int)),
        decreases n - j,
    {
        assert(v@.skip(j as int).skip(1) =~= v@.skip(j + 1));
        j = j + 1;
    }
    j
}

/// Where an escape at `i` ends.
fn escape_end(v: &[char], i: usize) -> (r: Option<usize>)
    requires
        i < v@.len(),
    ensures
        match r {
            Some(j) => i < j <= v@.len() && escape_len(v@.skip(i as int)) == Some((j - i) as nat),
            None => escape_len(v@.skip(i as int)) is None,
        },
{
    let n: usize = v.len();
    let ghost s = v@.skip(i as int);
    if n - i < 2 {
        return None;
    }
    let c = v[i + 1];
    let brace = n - i > 2 && v[i + 2] == '{';
    if !letter(c) || (simple_escape(c) && !brace) {
        Some(i + 2)
    } else if (c == 'p' || c == 'P' || c == 'x') && brace {
        assert(s.skip(3) =~= v@.skip(i + 3));
        let j: usize = name_end(v, i + 3);
        if j < n && v[j] == '}' {
            Some(j + 1)
        } else {
            None
        }
    } else if simple_escape(c) && c != 'x' && c != 'u' {
        Some(i + 2)
    } else {
        None
    }
}

/// Where a named class at `i` ends.
fn named_class_end(v: &[char], i: usize) -> (r: Option<usize>)
    requires
        i < v@.len(),
    ensures
        match r {
            Some(j) => i < j <= v@.len() && named_class_len(v@.skip(i as int)) == Some(
                (j - i) as nat,
            ),
            None => named_class_len(v@.skip(i as int)) is None,
        },
{
    let n: usize = v.len();
    let ghost s = v@.skip(i as int);
    if n - i <= 2 || v[i + 1] != ':' {
        return None;
    }
    assert(s.skip(2) =~= v@.skip(i + 2));
    let j: usize = name_end(v, i + 2);
    if j > i + 2 && j - i - 2 <= 6 && n - j > 1 && v[j] == ':' && v[j + 1] == ']' {
        Some(j + 2)
    } else {
        None
    }
}

fn opening_of_class(v: &[char], i: usize) -> (n: usize)
    requires
        i < v@.len(),
    ensures
        n == class_opening(v@.skip(i as int)),
{
    if v.len() - i > 1 && v[i + 1] == '^' {
        2
    } else {
        1
    }
}

/// Where the rest of a bracketed class at `i` with one open bracket ends.
fn class_rest_end(v: &[char], i: usize) -> (r: Option<usize>)
    requires
        i <= v@.len(),
    ensures
        match r {
            Some(j) => i < j <= v@.len() && class_rest(v@.skip(i as int), 1) == Some(
                (j - i) as nat,
            ),
            None => class_rest(v@.skip(i as int), 1) is None,
        },
{
    let n: usize = v.len();
    let mut depth: usize = 1;
    let mut j: usize = i;
    while j < n
        invariant
            i <= j <= n == v@.len(),
            1 <= depth <= j - i + 1,
            class_rest(v@.skip(i as int), 1) == plus(
                class_rest(v@.skip(j as int), depth as nat),
                (j - i) as nat,
            ),
        decreases n - j,
    {
        let ghost s = v@.skip(j as int);
        assert(s.skip(1) =~= v@.skip(j + 1));
        if v[j] == ']' {
            if depth <= 1 {
                return Some(j + 1);
            }
            depth = depth - 1;
            j = j + 1;
        } else if v[j] == '\\' {
            match escape_end(v, j) {
                Some(k) => {
                    assert(s.skip(k - j) =~= v@.skip(k as int));
                    j = k;
                },
                None => {
                    return None;
                },
            }
        } else if v[j] == '[' {
            if n - j > 1 && v[j + 1] == ':' {
                match named_class_end(v, j) {
                    Some(k) => {
                        assert(s.skip(k - j) =~= v@.skip(k as int));
                        j = k;
                    },
                    None => {
                        return None;
                    },
                }
            } else {
                let opening: usize = opening_of_class(v, j);
                if opening < n - j && v[j + opening] != ']' {
                    assert(s.skip(opening as int) =~= v@.skip(j + opening));
                    depth = depth + 1;
                    j = j + opening;
                } else {
                    return None;
                }
            }
        } else {
            j = j + 1;
        }
    }
    None
}

/// Where a bracketed class at `i` ends.
fn class_end(v: &[char], i: usize) -> (r: Option<usize>)
    requires
        i < v@.len(),
    ensures
        match r {
            Some(j) => i < j <= v@.len() && class_len(v@.skip(i as int)) == Some((j - i) as nat),
            None => class_len(v@.skip(i as int)) is None,
        },
{
    let opening: usize = opening_of_class(v, i);
    if opening < v.len() - i && v[i + opening] != ']' {
        assert(v@.skip(i as int).skip(opening as int) =~= v@.skip(i + opening));
        class_rest_end(v, i + opening)
    } else {
        None
    }
}

/// The value of up to six decimal digits.
fn small_value(digits: &[char]) -> (value: u64)
    requires
        digits@.len() <= 6,
        forall|k: int| 0 <= k < digits@.len() ==> '0' <= #[trigger] digits@[k] <= '9',
    ensures
        value == digits_value(digits@),
        value < 1_000_000,
{
    let n: usize = digits.len();
    let mut value: u64 = 0;
    let mut limit: u64 = 1;
    let mut i: usize = 0;
    assert(digits@.take(0) =~= seq![]);
    while i < n
        invariant
            0 <= i <= n == digits@.len(),
            n <= 6,
            forall|k: int| 0 <= k < digits@.len() ==> '0' <= #[trigger] digits@[k] <= '9',
            value == digits_value(digits@.take(i as int)),
            value < limit,
            limit == power_of_ten(i as nat),
        decreases n - i,
    {
        let c = digits[i];
        let ghost now = digits@.take(i + 1);
        assert('0' <= digits@[i as int] <= '9');
        assert(now.drop_last() =~= digits@.take(i as int));
        assert(now.last() == c);
        proof {
            reveal_with_fuel(power_of_ten, 8);
        }
        value = value * 10 + (c as u32 - '0' as u32) as u64;
        limit = limit * 10;
        i = i + 1;
    }
    assert(digits@.take(n as int) =~= digits@);
    proof {
        reveal_with_fuel(power_of_ten, 8);
    }
    value
}

spec fn power_of_ten(n: nat) -> nat
    decreases n,
{
    if n == 0 {
        1
    } else {
        10 * power_of_ten((n - 1) as nat)
    }
}

/// Where a count in braces at `i` ends, and its bounds.
fn count_end(v: &[char], i: usize) -> (r: Option<(usize, u64, Option<u64>)>)
    requires
        i < v@.len(),
    ensures
        match r {
            Some((j, low, high)) => {
                &&& i < j <= v@.len()
                &&& low < 1_000_000
                &&& high matches Some(h) ==> h < 1_000_000
                &&& count_at(v@.skip(i as int)) == Some(
                    Count {
                        len: (j - i) as nat,
                        low: low as nat,
                        high: match high {
                            Some(h) => Some(h as nat),
                            None => None,
                        },
                    },
                )
            },
            None => count_at(v@.skip(i as int)) is None,
        },
{
    let ghost s = v@.skip(i as int);
    let n: usize = v.len();
    assert(s.skip(1) =~= v@.skip(i + 1));
    let low: usize = digits_end(v, i + 1);
    if low - i - 1 > 6 || low == i + 1 || low >= n {
        return None;
    }
    let least: u64 = small_value(&v[i + 1..low]);
    assert(v@.subrange(i + 1, low as int) =~= s.subrange(1, low - i));
    if v[low] == '}' {
        return Some((low + 1, least, Some(least)));
    }
    if v[low] != ',' {
        return None;
    }
    assert(s.skip(low - i + 1) =~= v@.skip(low + 1));
    let high: usize = digits_end(v, low + 1);
    if high - low - 1 > 6 || high >= n || v[high] != '}' {
        return None;
    }
    if high == low + 1 {
        return Some((high + 1, least, None));
    }
    let greatest: u64 = small_value(&v[low + 1..high]);
    assert(v@.subrange(low + 1, high as int) =~= s.subrange(low - i + 1, high - i));
    Some((high + 1, least, Some(greatest)))
}

/// Where what opens a group at `i` ends, and whether the group is cut once it matched.
fn group_end(v: &[char], i: usize) -> (r: Option<(usize, bool)>)
    requires
        i < v@.len(),
    ensures
        match r {
            Some((j, cut)) => i < j <= v@.len() && group_at(v@.skip(i as int)) == Some(
                ((j - i) as nat, cut),
            ),
            None => group_at(v@.skip(i as int)) is None,
        },
{
    let n: usize = v.len();
    let ghost s = v@.skip(i as int);
    if n - i < 2 || v[i + 1] == '*' {
        None
    } else if v[i + 1] != '?' {
        Some((i + 1, false))
    } else if n - i < 3 {
        None
    } else if v[i + 2] == ':' {
        Some((i + 3, false))
    } else if v[i + 2] == '=' || v[i + 2] == '!' || v[i + 2] == '>' {
        Some((i + 3, true))
    } else if v[i + 2] == '<' && n - i > 3 && letter(v[i + 3]) {
        assert(s.skip(3) =~= v@.skip(i + 3));
        let j: usize = name_end(v, i + 3);
        if j < n && v[j] == '>' {
            Some((j + 1, false))
        } else {
            None
        }
    } else {
        None
    }
}

fn mark(c: char) -> (b: bool)
    ensures
        b == is_mark(c),
{
    c == ' ' || c == '-' || c == ',' || c == ':' || c == ';' || c == '/' || c == '@' || c == '&' || c
        == '=' || c == '%' || c == '!' || c == '~' || c == '"'
}

fn escaped_mark(c: char) -> (b: bool)
    ensures
        b == is_escaped_mark(c),
{
    c == '.' || c == '-' || c == '/' || c == '+' || c == '*' || c == '?' || c == '|' || c == '$' || c
        == '(' || c == ')' || c == '[' || c == ']' || c == '{' || c == '}' || c == '^' || c == ':'
}

fn word(c: char) -> (b: bool)
    ensures
        b == is_word(c),
{
    letter(c) || ('0' <= c && c <= '9') || c == '_'
}

/// Where the items at `i` end that match marks or white space.
fn marks_end(v: &[char], i: usize) -> (j: usize)
    requires
        i <= v@.len(),
    ensures
        i <= j <= v@.len(),
        marks_len(v@.skip(i as int)) == j - i,
{
    let n: usize = v.len();
    let mut j: usize = i;
    while j < n
        invariant
            i <= j <= n == v@.len(),
            marks_len(v@.skip(i as int)) == j - i + marks_len(v@.skip(j as int)),
        decreases n - j,
    {
        let ghost s = v@.skip(j as int);
        assert(s.skip(1) =~= v@.skip(j + 1));
        if mark(v[j]) {
            j = j + 1;
        } else if n - j > 1 && v[j] == '\\' && (escaped_mark(v[j + 1]) || v[j + 1] == 's') {
            assert(s.skip(2) =~= v@.skip(j + 2));
            j = j + 2;
        } else {
            return j;
        }
    }
    j
}

/// Where the rest of a bracketed class of letters, digits and underscores at `i` ends.
fn word_class_end(v: &[char], i: usize) -> (r: Option<usize>)
    requires
        i <= v@.len(),
    ensures
        match r {
            Some(j) => i < j <= v@.len() && word_class_rest(v@.skip(i as int), true) == j - i,
            None => word_class_rest(v@.skip(i as int), true) == 0,
        },
{
    let n: usize = v.len();
    let mut j: usize = i;
    while j < n
        invariant
            i <= j <= n == v@.len(),
            word_class_rest(v@.skip(i as int), true) == (if word_class_rest(
                v@.skip(j as int),
                j == i,
            ) > 0 {
                word_class_rest(v@.skip(j as int), j == i) + (j - i)
            } else {
                0
            }),
        decreases n - j,
    {
        let ghost s = v@.skip(j as int);
        assert(s.skip(1) =~= v@.skip(j + 1));
        if v[j] == ']' {
            if j > i {
                return Some(j + 1);
            }
            return None;
        }
        if !word(v[j]) {
            return None;
        }
        if n - j > 2 && v[j + 1] == '-' && word(v[j + 2]) {
            assert(s.skip(3) =~= v@.skip(j + 3));
            j = j + 3;
        } else {
            j = j + 1;
        }
    }
    None
}

/// Where the item at `i` ends that matches letters, digits and underscores, with its repetition.
fn words_end(v: &[char], i: usize) -> (r: Option<usize>)
    requires
        i <= v@.len(),
    ensures
        match r {
            Some(j) => i < j <= v@.len() && words_len(v@.skip(i as int)) == j - i,
            None => words_len(v@.skip(i as int)) == 0,
        },
{
    let n: usize = v.len();
    let ghost s = v@.skip(i as int);
    let j: usize = if n - i > 1 && v[i] == '\\' && (v[i + 1] == 'd' || v[i + 1] == 'w') {
        i + 2
    } else if n - i > 0 && word(v[i]) {
        i + 1
    } else if n - i > 0 && v[i] == '[' {
        assert(s.skip(1) =~= v@.skip(i + 1));
        match word_class_end(v, i + 1) {
            Some(j) => j,
            None => {
                return None;
            },
        }
    } else {
        return None;
    };
    assert(s.skip(j - i) =~= v@.skip(j as int));
    if j < n && (v[j] == '*' || v[j] == '+' || v[j] == '?') {
        Some(j + 1)
    } else if j < n && v[j] == '{' {
        match count_end(v, j) {
            Some((k, _, _)) => Some(k),
            None => None,
        }
    } else {
        Some(j)
    }
}

/// Where what a list repeats ends, which starts at `i`.
fn list_item_end(v: &[char], i: usize) -> (r: Option<usize>)
    requires
        i <= v@.len(),
    ensures
        match r {
            Some(j) => i < j <= v@.len() && list_item_len(v@.skip(i as int)) == j - i,
            None => list_item_len(v@.skip(i as int)) == 0,
        },
{
    proof {
        reveal(list_item_len);
    }
    let ghost s = v@.skip(i as int);
    let marks: usize = marks_end(v, i);
    if marks > i {
        assert(s.skip(marks - i) =~= v@.skip(marks as int));
        words_end(v, marks)
    } else {
        match words_end(v, i) {
            Some(words) => {
                assert(s.skip(words - i) =~= v@.skip(words as int));
                let end: usize = marks_end(v, words);
                if end > words {
                    Some(end)
                } else {
                    None
                }
            },
            None => None,
        }
    }
}

/// Where a repeated group at `i` ends that matches a list.
fn list_end(v: &[char], i: usize) -> (r: Option<usize>)
    requires
        i < v@.len(),
    ensures
        match r {
            Some(j) => i < j <= v@.len() && list_len(v@.skip(i as int)) == j - i,
            None => list_len(v@.skip(i as int)) == 0,
        },
{
    let n: usize = v.len();
    let ghost s = v@.skip(i as int);
    let opening: usize = if n - i > 2 && v[i + 1] == '?' && v[i + 2] == ':' {
        3
    } else {
        1
    };
    let start: usize = i + opening;
    assert(s.skip(opening as int) =~= v@.skip(start as int));
    proof {
        reveal(list_len);
    }
    match list_item_end(v, start) {
        Some(end) => {
            if n - end > 1 && v[end] == ')' && (v[end + 1] == '*' || v[end + 1] == '+') {
                Some(end + 2)
            } else {
                None
            }
        },
        None => None,
    }
}

proof fn lemma_power_grows(w: nat, a: nat, b: nat)
    requires
        w >= 1,
        a <= b,
    ensures
        1 <= power(w, a) <= power(w, b),
    decreases b,
{
    if b > 0 {
        if a < b {
            lemma_power_grows(w, a, (b - 1) as nat);
            assert(power(w, (b - 1) as nat) <= w * power(w, (b - 1) as nat)) by (nonlinear_arith)
                requires
                    w >= 1,
            ;
        } else {
            lemma_power_grows(w, (a - 1) as nat, (b - 1) as nat);
            assert(1 <= w * power(w, (b - 1) as nat)) by (nonlinear_arith)
                requires
                    w >= 1,
                    power(w, (b - 1) as nat) >= 1,
            ;
        }
    }
}

/// `w` multiplied by itself so many times, if that is no more than there may be.
fn power_of(w: u64, times: u64) -> (r: Option<u64>)
    requires
        1 <= w <= MOST_WAYS,
    ensures
        match r {
            Some(p) => p == power(w as nat, times as nat) && 1 <= p <= MOST_WAYS,
            None => power(w as nat, times as nat) > MOST_WAYS,
        },
{
    let mut p: u64 = 1;
    let mut i: u64 = 0;
    while i < times
        invariant
            0 <= i <= times,
            1 <= w <= 1_000_000,
            p == power(w as nat, i as nat),
            1 <= p <= 1_000_000,
        decreases times - i,
    {
        assert(w * p <= 1_000_000 * 1_000_000) by (nonlinear_arith)
            requires
                0 <= w <= 1_000_000,
                0 <= p <= 1_000_000,
        ;
        assert(1 <= w * p) by (nonlinear_arith)
            requires
                1 <= w,
                1 <= p,
        ;
        p = w * p;
        i = i + 1;
        if p > MOST_WAYS as u64 {
            proof {
                lemma_power_grows(w as nat, i as nat, times as nat);
            }
            return None;
        }
    }
    Some(p)
}

/// The ways to match of an item that is repeated so often, if they are no more than there may be.
fn ways_of_repeated(w: u64, n: usize, low: u64, high: Option<u64>) -> (r: Option<u64>)
    requires
        1 <= w <= MOST_WAYS,
        low < 1_000_000,
        high matches Some(h) ==> h < 1_000_000,
    ensures
        ({
            let told = repeated_ways(
                w as nat,
                n as nat,
                low as nat,
                match high {
                    Some(h) => Some(h as nat),
                    None => None,
                },
            );
            match r {
                Some(p) => told == Some(p as nat) && 1 <= p <= MOST_WAYS,
                None => told matches Some(t) ==> t > MOST_WAYS,
            }
        }),
{
    if w <= 1 {
        match high {
            Some(h) => {
                if h == low {
                    Some(w)
                } else if n as u128 + 2 + low as u128 + h as u128 <= MOST_WAYS as u128 {
                    Some(n as u64 + 2 + low + h)
                } else {
                    None
                }
            },
            None => {
                if n as u128 + 2 + low as u128 <= MOST_WAYS as u128 {
                    Some(n as u64 + 2 + low)
                } else {
                    None
                }
            },
        }
    } else {
        match high {
            Some(h) => {
                if h > 18 {
                    None
                } else if h == low {
                    power_of(w, h)
                } else {
                    power_of(w, h + 1)
                }
            },
            None => None,
        }
    }
}

/// Whether an expression is read and leaves no more ways to match a text of `n` characters than
/// there may be.
pub fn is_regex_bounded(pattern: &str, n: usize) -> (b: bool)
    ensures
        b == is_bounded(pattern@, n as nat),
{
    let chars = to_chars(pattern);
    let v = chars.as_slice();
    let end: usize = v.len();
    let mut open: Vec<Group> = Vec::new();
    let mut p = first_place();
    let mut before = Before::Nothing;
    let mut i: usize = 0;
    assert(v@.skip(0) =~= v@);
    assert(open@ =~= seq![]);
    while i < end
        invariant
            0 <= i <= end == v@.len(),
            is_good(p),
            p.earlier >= 1,
            p.last >= 1,
            before == Before::Single ==> p.last == 1,
            forall|k: int|
                0 <= k < open@.len() ==> is_good((#[trigger] open@[k]).place)
                    && open@[k].place.earlier >= 1,
            is_bounded(pattern@, n as nat) == rest_is_bounded(
                v@.skip(i as int),
                n as nat,
                open@,
                p,
                before,
            ),
        decreases end - i,
    {
        let ghost s = v@.skip(i as int);
        let ghost groups = open@;
        let c = v[i];
        assert(s[0] == c);
        assert(s.skip(1) =~= v@.skip(i + 1));
        assert(p.earlier * p.last <= 1_000_000);
        assert(p.earlier * p.last >= 1) by (nonlinear_arith)
            requires
                p.earlier >= 1,
                p.last >= 1,
        ;
        let list = if c == '(' {
            list_end(v, i)
        } else {
            None
        };
        if let Some(j) = list {
            let earlier: u64 = p.earlier * p.last;
            if n > MOST_WAYS as usize || !small(p.others, earlier, 2 * (n as u64 + 2)) {
                return false;
            }
            assert(s.skip(j - i) =~= v@.skip(j as int));
            p = Place { others: p.others, earlier, last: 2 * (n as u64 + 2) };
            before = Before::Marked;
            i = j;
        } else if c == '(' {
            match group_end(v, i) {
                Some((j, cut)) => {
                    let earlier: u64 = p.earlier * p.last;
                    if !small(p.others, earlier, 1) {
                        return false;
                    }
                    assert(s.skip(j - i) =~= v@.skip(j as int));
                    open.push(Group { place: Place { others: p.others, earlier, last: 1 }, cut });
                    p = first_place();
                    before = Before::Nothing;
                    i = j;
                },
                None => {
                    return false;
                },
            }
        } else if c == ')' {
            match open.pop() {
                Some(g) => {
                    assert(open@ =~= groups.drop_last());
                    assert(g == groups[groups.len() - 1]);
                    let own: u64 = p.others + p.earlier * p.last;
                    let inner: u64 = if g.cut {
                        own + 1
                    } else {
                        own
                    };
                    if !small(g.place.others, g.place.earlier, inner) {
                        return false;
                    }
                    p = Place { others: g.place.others, earlier: g.place.earlier, last: inner };
                    before = if inner <= 1 {
                        Before::Single
                    } else {
                        Before::Choice
                    };
                    i = i + 1;
                },
                None => {
                    return false;
                },
            }
        } else if c == '|' {
            let own: u64 = p.others + p.earlier * p.last;
            if !small(own, 1, 1) {
                return false;
            }
            p = Place { others: own, earlier: 1, last: 1 };
            before = Before::Nothing;
            i = i + 1;
        } else if c == '*' || c == '+' {
            if before == Before::Single {
                if n > MOST_WAYS as usize || !small(p.others, p.earlier, n as u64 + 2) {
                    return false;
                }
                p = Place { others: p.others, earlier: p.earlier, last: n as u64 + 2 };
                before = Before::Repeated;
            } else if before == Before::Repeated && c == '+' {
                before = Before::Marked;
            } else {
                return false;
            }
            i = i + 1;
        } else if c == '?' {
            if before == Before::Nothing || before == Before::Marked || !small(
                p.others,
                p.earlier,
                p.last + 1,
            ) {
                return false;
            }
            p = Place { others: p.others, earlier: p.earlier, last: p.last + 1 };
            before = if before == Before::Single || before == Before::Choice {
                Before::Repeated
            } else {
                Before::Marked
            };
            i = i + 1;
        } else if c == '{' {
            if before != Before::Single && before != Before::Choice {
                return false;
            }
            match count_end(v, i) {
                Some((j, low, high)) => {
                    assert(s.skip(j - i) =~= v@.skip(j as int));
                    match ways_of_repeated(p.last, n, low, high) {
                        Some(last) => {
                            if !small(p.others, p.earlier, last) {
                                return false;
                            }
                            p = Place { others: p.others, earlier: p.earlier, last };
                            before = Before::Counted;
                            i = j;
                        },
                        None => {
                            return false;
                        },
                    }
                },
                None => {
                    return false;
                },
            }
        } else {
            let next = if c == '[' {
                class_end(v, i)
            } else if c == '\\' {
                escape_end(v, i)
            } else {
                Some(i + 1)
            };
            match next {
                Some(j) => {
                    let earlier: u64 = p.earlier * p.last;
                    if !small(p.others, earlier, 1) {
                        return false;
                    }
                    assert(s.skip(j - i) =~= v@.skip(j as int));
                    p = Place { others: p.others, earlier, last: 1 };
                    before = Before::Single;
                    i = j;
                },
                None => {
                    return false;
                },
            }
        }
    }
    assert(v@.skip(end as int) =~= seq![]);
    open.len() == 0
}

} // verus!
