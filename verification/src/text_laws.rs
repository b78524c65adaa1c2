//! What holds of decimal numbers and of tables.

use crate::table::filed;
use crate::text::{decimal, digits_value};
use vstd::prelude::*;

verus! {

/// A number is written with the digits from `0` to `9`, the last of which is its remainder by ten,
/// and without a zero in front.
pub proof fn law_numbers_are_written_in_decimal(n: nat)
    ensures
        decimal(0) == seq!['0'],
        decimal(1) == seq!['1'],
        decimal(2) == seq!['2'],
        decimal(3) == seq!['3'],
        decimal(4) == seq!['4'],
        decimal(5) == seq!['5'],
        decimal(6) == seq!['6'],
        decimal(7) == seq!['7'],
        decimal(8) == seq!['8'],
        decimal(9) == seq!['9'],
        n >= 10 ==> decimal(n) == decimal(n / 10) + decimal(n % 10),
{
    if n >= 10 {
        assert(decimal(n) =~= decimal(n / 10) + decimal(n % 10));
    }
}

/// A number that was written is read back, and no two numbers are written alike.
pub proof fn law_written_numbers_are_read_back(n: nat, m: nat)
    ensures
        decimal(n).len() > 0,
        forall|i: int| 0 <= i < decimal(n).len() ==> '0' <= #[trigger] decimal(n)[i] <= '9',
        n > 0 ==> decimal(n)[0] != '0',
        digits_value(decimal(n)) == n,
        n != m ==> decimal(n) != decimal(m),
{
    lemma_read_back(n);
    lemma_read_back(m);
}

proof fn lemma_read_back(n: nat)
    ensures
        decimal(n).len() > 0,
        forall|i: int| 0 <= i < decimal(n).len() ==> '0' <= #[trigger] decimal(n)[i] <= '9',
        n > 0 ==> decimal(n)[0] != '0',
        digits_value(decimal(n)) == n,
    decreases n,
{
    let s = decimal(n);
    let none: Seq<char> = seq![];
    if n < 10 {
        assert(s.drop_last() =~= none);
        assert(digits_value(none) == 0);
    } else {
        lemma_read_back(n / 10);
        assert(s.drop_last() =~= decimal(n / 10));
        assert forall|i: int| 0 <= i < s.len() implies '0' <= #[trigger] s[i] <= '9' by {
            if i < s.len() - 1 {
                assert(s[i] == decimal(n / 10)[i]);
            }
        }
        assert(s[0] == decimal(n / 10)[0]);
    }
}

/// Digits are read from the first to the last, each in a place ten times less than that before it.
pub proof fn law_digits_are_read_in_their_places(s: Seq<char>, c: char)
    requires
        '0' <= c <= '9',
    ensures
        digits_value(seq![]) == 0,
        digits_value(s.push(c)) == 10 * digits_value(s) + (c as int - '0' as int),
{
    assert(s.push(c).drop_last() =~= s);
}

/// What is filed last under a text counts, and what is filed under other texts stays.
pub proof fn law_the_last_entry_counts<V: View>(
    entries: Seq<(String, V)>,
    entry: (String, V),
    other: Seq<char>,
)
    ensures
        filed(Seq::<(String, V)>::empty()) == Map::<Seq<char>, V::V>::empty(),
        filed(entries.push(entry)).contains_key(entry.0@),
        filed(entries.push(entry))[entry.0@] == entry.1@,
        other != entry.0@ ==> filed(entries.push(entry)).contains_key(other) == filed(
            entries,
        ).contains_key(other) && filed(entries.push(entry))[other] == filed(entries)[other],
{
    assert(entries.push(entry).drop_last() =~= entries);
}

} // verus!
