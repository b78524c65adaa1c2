//! What holds of field definitions whatever the names in them.

use crate::parser::{
    error_text, field_key, is_word, is_word_char, is_word_start, punctuation, token_key, tokens,
    word_len, FieldErrorKind, FieldKeyView, TokenView,
};
use crate::text::{is_white_space, trim_end, trim_start, trimmed};
use vstd::prelude::*;

verus! {

proof fn lemma_word_len_of_word(w: Seq<char>, rest: Seq<char>)
    requires
        forall|i: int| 0 <= i < w.len() ==> is_word_char(#[trigger] w[i]),
        rest.len() == 0 || !is_word_char(rest[0]),
    ensures
        word_len(w + rest) == w.len(),
    decreases w.len(),
{
    let s = w + rest;
    if w.len() > 0 {
        assert(s[0] == w[0]);
        assert(s.drop_first() =~= w.drop_first() + rest);
        lemma_word_len_of_word(w.drop_first(), rest);
    } else {
        assert(s =~= rest);
    }
}

/// A word in front of what does not go on with it is a token of its own.
proof fn lemma_tokens_word(w: Seq<char>, rest: Seq<char>)
    requires
        is_word(w),
        rest.len() == 0 || !is_word_char(rest[0]),
    ensures
        tokens(w + rest) == seq![TokenView::Word(w)] + tokens(rest),
{
    let s = w + rest;
    lemma_word_len_of_word(w, rest);
    assert(s[0] == w[0]);
    assert(s.take(w.len() as int) =~= w);
    assert(s.skip(w.len() as int) =~= rest);
}

/// A mark in front of anything is a token of its own.
proof fn lemma_tokens_mark(c: char, rest: Seq<char>)
    requires
        punctuation(c) is Some,
    ensures
        tokens(seq![c] + rest) == seq![punctuation(c)->0] + tokens(rest),
{
    let s = seq![c] + rest;
    assert(s.drop_first() =~= rest);
}

proof fn lemma_nothing_to_trim(s: Seq<char>)
    requires
        s.len() > 0,
        !is_white_space(s[0]),
        !is_white_space(s.last()),
    ensures
        trimmed(s) == s,
{
}

/// The path of a key is a definition of it: filing a rule under the path and reading the path as
/// a definition gives the same key.
pub proof fn law_path_defines_key(key: FieldKeyView)
    requires
        key.is_definable(),
    ensures
        field_key(key.path()) == Ok::<FieldKeyView, FieldErrorKind>(key),
{
    reveal_strlit("event");
    reveal_strlit("retry");
    reveal_strlit(".");
    reveal_strlit(".*");
    let f = key.field;
    let empty = Seq::<char>::empty();
    match key.event_type {
        Some(t) => {
            law_notations_agree(f, t);
        },
        None => {
            if f == "event"@ || f == "retry"@ {
                lemma_nothing_to_trim(f);
            } else {
                lemma_untyped_notations(f);
            }
        },
    }
}

proof fn lemma_untyped_notations(f: Seq<char>)
    requires
        is_word(f),
    ensures
        field_key(f + "[*]"@) == Ok::<FieldKeyView, FieldErrorKind>(
            FieldKeyView { field: f, event_type: None },
        ),
        field_key(f + ".*"@) == Ok::<FieldKeyView, FieldErrorKind>(
            FieldKeyView { field: f, event_type: None },
        ),
{
    reveal_strlit("event");
    reveal_strlit("retry");
    reveal_strlit("[*]");
    reveal_strlit(".*");
    let empty = Seq::<char>::empty();
    // f[*]
    let s1 = f + "[*]"@;
    assert("[*]"@ =~= seq!['['] + (seq!['*'] + (seq![']'] + empty)));
    lemma_tokens_mark(']', empty);
    lemma_tokens_mark('*', seq![']'] + empty);
    lemma_tokens_mark('[', seq!['*'] + (seq![']'] + empty));
    lemma_tokens_word(f, "[*]"@);
    lemma_nothing_to_trim(s1);
    assert(s1.last() == ']');
    assert("event"@.last() == 't');
    assert("retry"@.last() == 'y');
    assert(tokens(empty) =~= seq![]);
    assert(tokens(s1) =~= seq![
        TokenView::Word(f),
        TokenView::LBracket,
        TokenView::Asterisk,
        TokenView::RBracket,
    ]);
    // f.*
    let s2 = f + ".*"@;
    assert(".*"@ =~= seq!['.'] + (seq!['*'] + empty));
    lemma_tokens_mark('*', empty);
    lemma_tokens_mark('.', seq!['*'] + empty);
    lemma_tokens_word(f, ".*"@);
    lemma_nothing_to_trim(s2);
    assert(s2.last() == '*');
    assert(tokens(s2) =~= seq![TokenView::Word(f), TokenView::Dot, TokenView::Asterisk]);
}

/// The notations of a field agree: `f[t]`, `f[t][*]`, `f.t.*` and `f.t` are the field `f` of the
/// events of type `t`, and `f[*]`, `f.*` and `f` are the field `f` of the events without a type.
pub proof fn law_notations_agree(f: Seq<char>, t: Seq<char>)
    requires
        is_word(f),
        is_word(t),
    ensures
        ({
            let typed = Ok::<FieldKeyView, FieldErrorKind>(
                FieldKeyView { field: f, event_type: Some(t) },
            );
            let untyped = Ok::<FieldKeyView, FieldErrorKind>(
                FieldKeyView { field: f, event_type: None },
            );
            &&& field_key(f + "["@ + t + "]"@) == typed
            &&& field_key(f + "["@ + t + "][*]"@) == typed
            &&& field_key(f + "."@ + t + ".*"@) == typed
            &&& field_key(f + "."@ + t) == typed
            &&& field_key(f + "[*]"@) == untyped
            &&& field_key(f + ".*"@) == untyped
            &&& field_key(f) == untyped
        }),
{
    lemma_untyped_notations(f);
    reveal_strlit("event");
    reveal_strlit("retry");
    reveal_strlit("[");
    reveal_strlit("]");
    reveal_strlit("][*]");
    reveal_strlit(".");
    reveal_strlit(".*");
    let empty = Seq::<char>::empty();
    assert(tokens(empty) =~= seq![]);
    assert("event"@.last() == 't');
    assert("retry"@.last() == 'y');
    // f[t]
    let s1 = f + "["@ + t + "]"@;
    let e1 = seq![']'] + empty;
    assert(s1 =~= f + (seq!['['] + (t + e1)));
    lemma_tokens_mark(']', empty);
    lemma_tokens_word(t, e1);
    lemma_tokens_mark('[', t + e1);
    lemma_tokens_word(f, seq!['['] + (t + e1));
    assert(s1.last() == ']');
    lemma_nothing_to_trim(s1);
    assert(tokens(s1) =~= seq![
        TokenView::Word(f),
        TokenView::LBracket,
        TokenView::Word(t),
        TokenView::RBracket,
    ]);
    // f[t][*]
    let s2 = f + "["@ + t + "][*]"@;
    let e2 = seq![']'] + (seq!['['] + (seq!['*'] + (seq![']'] + empty)));
    assert(s2 =~= f + (seq!['['] + (t + e2)));
    lemma_tokens_mark('*', seq![']'] + empty);
    lemma_tokens_mark('[', seq!['*'] + (seq![']'] + empty));
    lemma_tokens_mark(']', seq!['['] + (seq!['*'] + (seq![']'] + empty)));
    lemma_tokens_word(t, e2);
    lemma_tokens_mark('[', t + e2);
    lemma_tokens_word(f, seq!['['] + (t + e2));
    assert(s2.last() == ']');
    lemma_nothing_to_trim(s2);
    assert(tokens(s2) =~= seq![
        TokenView::Word(f),
        TokenView::LBracket,
        TokenView::Word(t),
        TokenView::RBracket,
        TokenView::LBracket,
        TokenView::Asterisk,
        TokenView::RBracket,
    ]);
    // f.t.*
    let s3 = f + "."@ + t + ".*"@;
    let e3 = seq!['.'] + (seq!['*'] + empty);
    assert(s3 =~= f + (seq!['.'] + (t + e3)));
    lemma_tokens_mark('*', empty);
    lemma_tokens_mark('.', seq!['*'] + empty);
    lemma_tokens_word(t, e3);
    lemma_tokens_mark('.', t + e3);
    lemma_tokens_word(f, seq!['.'] + (t + e3));
    assert(s3.last() == '*');
    lemma_nothing_to_trim(s3);
    assert(tokens(s3) =~= seq![
        TokenView::Word(f),
        TokenView::Dot,
        TokenView::Word(t),
        TokenView::Dot,
        TokenView::Asterisk,
    ]);
    // f.t
    let s4 = f + "."@ + t;
    assert(s4 =~= f + (seq!['.'] + (t + empty)));
    lemma_tokens_word(t, empty);
    lemma_tokens_mark('.', t + empty);
    lemma_tokens_word(f, seq!['.'] + (t + empty));
    assert(s4[f.len() as int] == '.');
    assert(s4.last() == t.last());
    lemma_nothing_to_trim(s4);
    assert(tokens(s4) =~= seq![TokenView::Word(f), TokenView::Dot, TokenView::Word(t)]);
    // f
    assert(f + empty =~= f);
    lemma_tokens_word(f, empty);
    lemma_nothing_to_trim(f);
    assert(tokens(f) =~= seq![TokenView::Word(f)]);
}

proof fn lemma_word_len_chars(s: Seq<char>)
    ensures
        word_len(s) <= s.len(),
        forall|i: int| 0 <= i < word_len(s) ==> is_word_char(#[trigger] s[i]),
    decreases s.len(),
{
    if s.len() > 0 && is_word_char(s[0]) {
        let t = s.drop_first();
        lemma_word_len_chars(t);
        assert forall|i: int| 0 <= i < word_len(s) implies is_word_char(#[trigger] s[i]) by {
            if i > 0 {
                assert(s[i] == t[i - 1]);
            }
        }
    }
}

proof fn lemma_tokens_are_words(s: Seq<char>)
    ensures
        forall|i: int|
            0 <= i < tokens(s).len() ==> ((#[trigger] tokens(s)[i]) matches TokenView::Word(w)
                ==> is_word(w)),
    decreases s.len(),
{
    if s.len() == 0 {
    } else if is_word_start(s[0]) {
        lemma_word_len_chars(s);
        let n = word_len(s) as int;
        lemma_tokens_are_words(s.skip(n));
        assert(is_word(s.take(n)));
        assert forall|i: int| 0 <= i < tokens(s).len() implies ((
        #[trigger] tokens(s)[i]) matches TokenView::Word(w) ==> is_word(w)) by {
            if i > 0 {
                assert(tokens(s)[i] == tokens(s.skip(n))[i - 1]);
            }
        }
    } else {
        lemma_tokens_are_words(s.drop_first());
        match punctuation(s[0]) {
            Some(t) => {
                assert forall|i: int| 0 <= i < tokens(s).len() implies ((
                #[trigger] tokens(s)[i]) matches TokenView::Word(w) ==> is_word(w)) by {
                    if i > 0 {
                        assert(tokens(s)[i] == tokens(s.drop_first())[i - 1]);
                    }
                }
            },
            None => {},
        }
    }
}

/// The names in a key that a definition gives are words.
pub proof fn law_defined_keys_hold_words(s: Seq<char>)
    ensures
        field_key(s) matches Ok(key) ==> key.is_definable(),
{
    reveal_strlit("event");
    reveal_strlit("retry");
    let t = trimmed(s);
    lemma_tokens_are_words(t);
    assert(is_word("event"@));
    assert(is_word("retry"@));
    if !(t == "event"@ || t == "retry"@) && tokens(t).len() > 0 {
        let first = tokens(t)[0];
        if tokens(t).len() > 2 {
            let third = tokens(t)[2];
        }
    }
}

proof fn lemma_trim_start_skips(a: Seq<char>, s: Seq<char>)
    requires
        forall|i: int| 0 <= i < a.len() ==> is_white_space(#[trigger] a[i]),
    ensures
        trim_start(a + s) == trim_start(s),
    decreases a.len(),
{
    if a.len() > 0 {
        assert((a + s)[0] == a[0]);
        assert((a + s).drop_first() =~= a.drop_first() + s);
        lemma_trim_start_skips(a.drop_first(), s);
    } else {
        assert(a + s =~= s);
    }
}

proof fn lemma_trim_end_skips(s: Seq<char>, b: Seq<char>)
    requires
        forall|i: int| 0 <= i < b.len() ==> is_white_space(#[trigger] b[i]),
    ensures
        trim_end(s + b) == trim_end(s),
    decreases b.len(),
{
    if b.len() > 0 {
        assert((s + b).last() == b.last());
        assert((s + b).drop_last() =~= s + b.drop_last());
        lemma_trim_end_skips(s, b.drop_last());
    } else {
        assert(s + b =~= s);
    }
}

proof fn lemma_trim_start_before(s: Seq<char>, b: Seq<char>)
    requires
        forall|i: int| 0 <= i < b.len() ==> is_white_space(#[trigger] b[i]),
    ensures
        trim_end(trim_start(s + b)) == trim_end(trim_start(s)),
    decreases s.len(),
{
    if s.len() == 0 {
        assert(s + b =~= b + s);
        lemma_trim_start_skips(b, s);
    } else if is_white_space(s[0]) {
        assert((s + b).drop_first() =~= s.drop_first() + b);
        lemma_trim_start_before(s.drop_first(), b);
    } else {
        lemma_trim_end_skips(s, b);
    }
}

/// White space around a definition makes no difference.
pub proof fn law_white_space_around_makes_no_difference(a: Seq<char>, s: Seq<char>, b: Seq<char>)
    requires
        forall|i: int| 0 <= i < a.len() ==> is_white_space(#[trigger] a[i]),
        forall|i: int| 0 <= i < b.len() ==> is_white_space(#[trigger] b[i]),
    ensures
        field_key(a + s + b) == field_key(s),
{
    assert(a + s + b =~= a + (s + b));
    lemma_trim_start_skips(a, s + b);
    lemma_trim_start_before(s, b);
}

/// Names are letters, digits and underscores and do not begin with a digit; each of the notations
/// `f[t]`, `f[t][*]`, `f.t.*` and `f.t` is read as the field `f` of the events of type `t`, and
/// each of `f[*]`, `f.*` and `f` as the field `f` of the events without a type.
pub proof fn law_names_are_read(f: Seq<char>, t: Seq<char>)
    requires
        f.len() > 0,
        t.len() > 0,
        !('0' <= f[0] <= '9'),
        !('0' <= t[0] <= '9'),
        forall|i: int|
            0 <= i < f.len() ==> ('a' <= #[trigger] f[i] <= 'z' || 'A' <= f[i] <= 'Z' || '0' <= f[i]
                <= '9' || f[i] == '_'),
        forall|i: int|
            0 <= i < t.len() ==> ('a' <= #[trigger] t[i] <= 'z' || 'A' <= t[i] <= 'Z' || '0' <= t[i]
                <= '9' || t[i] == '_'),
    ensures
        field_key(f + "["@ + t + "]"@) == Ok::<FieldKeyView, FieldErrorKind>(
            FieldKeyView { field: f, event_type: Some(t) },
        ),
        field_key(f + "["@ + t + "][*]"@) == Ok::<FieldKeyView, FieldErrorKind>(
            FieldKeyView { field: f, event_type: Some(t) },
        ),
        field_key(f + "."@ + t + ".*"@) == Ok::<FieldKeyView, FieldErrorKind>(
            FieldKeyView { field: f, event_type: Some(t) },
        ),
        field_key(f + "."@ + t) == Ok::<FieldKeyView, FieldErrorKind>(
            FieldKeyView { field: f, event_type: Some(t) },
        ),
        field_key(f + "[*]"@) == Ok::<FieldKeyView, FieldErrorKind>(
            FieldKeyView { field: f, event_type: None },
        ),
        field_key(f + ".*"@) == Ok::<FieldKeyView, FieldErrorKind>(
            FieldKeyView { field: f, event_type: None },
        ),
        field_key(f) == Ok::<FieldKeyView, FieldErrorKind>(
            FieldKeyView { field: f, event_type: None },
        ),
{
    law_notations_agree(f, t);
}

/// The names that a definition gives are letters, digits and underscores, at least one, and do not
/// begin with a digit.
pub proof fn law_names_hold_letters_digits_and_underscores(s: Seq<char>, key: FieldKeyView)
    requires
        field_key(s) == Ok::<FieldKeyView, FieldErrorKind>(key),
    ensures
        key.field.len() > 0 && !('0' <= key.field[0] <= '9'),
        forall|i: int|
            0 <= i < key.field.len() ==> ('a' <= #[trigger] key.field[i] <= 'z' || 'A'
                <= key.field[i] <= 'Z' || '0' <= key.field[i] <= '9' || key.field[i] == '_'),
        key.event_type matches Some(t) ==> t.len() > 0 && !('0' <= t[0] <= '9') && forall|i: int|
            0 <= i < t.len() ==> ('a' <= #[trigger] t[i] <= 'z' || 'A' <= t[i] <= 'Z' || '0' <= t[i]
                <= '9' || t[i] == '_'),
{
    law_defined_keys_hold_words(s);
    assert(is_word(key.field));
    assert(is_word_char(key.field[0]));
}

/// A name: letters, digits and underscores, not a digit first.
pub open spec fn is_name(s: Seq<char>) -> bool {
    &&& s.len() > 0
    &&& !('0' <= s[0] <= '9')
    &&& forall|i: int|
        0 <= i < s.len() ==> ('a' <= #[trigger] s[i] <= 'z' || 'A' <= s[i] <= 'Z' || '0' <= s[i]
            <= '9' || s[i] == '_')
}

/// Characters that can stand neither in a name nor for a mark of a definition.
pub open spec fn is_gap(s: Seq<char>) -> bool {
    forall|i: int|
        0 <= i < s.len() ==> !('a' <= #[trigger] s[i] <= 'z' || 'A' <= s[i] <= 'Z' || '0' <= s[i]
            <= '9' || s[i] == '_' || s[i] == '[' || s[i] == ']' || s[i] == '*' || s[i] == '.')
}

proof fn lemma_tokens_gap(g: Seq<char>, rest: Seq<char>)
    requires
        is_gap(g),
    ensures
        tokens(g + rest) == tokens(rest),
    decreases g.len(),
{
    if g.len() > 0 {
        let s = g + rest;
        assert(s[0] == g[0]);
        assert(s.drop_first() =~= g.drop_first() + rest);
        assert forall|i: int| 0 <= i < g.drop_first().len() implies !('a' <= #[trigger]
            g.drop_first()[i] <= 'z' || 'A' <= g.drop_first()[i] <= 'Z' || '0' <= g.drop_first()[i]
            <= '9' || g.drop_first()[i] == '_' || g.drop_first()[i] == '[' || g.drop_first()[i]
            == ']' || g.drop_first()[i] == '*' || g.drop_first()[i] == '.') by {
            assert(g.drop_first()[i] == g[i + 1]);
        }
        lemma_tokens_gap(g.drop_first(), rest);
    } else {
        assert(g + rest =~= rest);
    }
}

proof fn lemma_tokens_trim_end(s: Seq<char>)
    ensures
        tokens(trim_end(s)) == tokens(s),
    decreases s.len(),
{
    if s.len() > 0 && is_white_space(s.last()) {
        lemma_tokens_trim_end(s.drop_last());
        lemma_tokens_drop_space(s);
    }
}

proof fn lemma_tokens_drop_space(s: Seq<char>)
    requires
        s.len() > 0,
        is_white_space(s.last()),
    ensures
        tokens(s.drop_last()) == tokens(s),
    decreases s.len(),
{
    let init = s.drop_last();
    if init.len() == 0 {
        assert(s.drop_first() =~= init);
        assert(tokens(init) =~= seq![]);
    } else if is_word_start(s[0]) {
        let n = word_len(init) as int;
        lemma_word_len_chars(init);
        let w = init.take(n);
        let rest = init.skip(n);
        assert(init =~= w + rest);
        lemma_word_len_stops(init);
        assert(is_word(w)) by {
            assert(n > 0);
        }
        let last = rest.push(s.last());
        assert(s =~= w + last);
        if rest.len() > 0 {
            assert(last[0] == rest[0]);
        }
        lemma_tokens_word(w, rest);
        lemma_tokens_word(w, last);
        lemma_tokens_drop_space(last);
        assert(last.drop_last() =~= rest);
    } else {
        let last = s.drop_first();
        lemma_tokens_drop_space(last);
        assert(last.drop_last() =~= init.drop_first());
        assert(init[0] == s[0]);
    }
}

proof fn lemma_word_len_stops(s: Seq<char>)
    ensures
        word_len(s) < s.len() ==> !is_word_char(s[word_len(s) as int]),
    decreases s.len(),
{
    if s.len() > 0 && is_word_char(s[0]) {
        lemma_word_len_stops(s.drop_first());
    }
}

proof fn lemma_tokens_trim_start(s: Seq<char>)
    ensures
        tokens(trim_start(s)) == tokens(s),
    decreases s.len(),
{
    if s.len() > 0 && is_white_space(s[0]) {
        lemma_tokens_trim_start(s.drop_first());
    }
}

/// What a definition gives is what its tokens give.
proof fn lemma_key_of_tokens(s: Seq<char>)
    ensures
        field_key(s) == token_key(tokens(s)),
{
    let t = trimmed(s);
    lemma_tokens_trim_start(s);
    lemma_tokens_trim_end(trim_start(s));
    if t == "event"@ || t == "retry"@ {
        reveal_strlit("event");
        reveal_strlit("retry");
        let empty = Seq::<char>::empty();
        assert(is_word(t));
        assert(t + empty =~= t);
        lemma_tokens_word(t, empty);
        assert(tokens(empty) =~= seq![]);
        assert(tokens(t) =~= seq![TokenView::Word(t)]);
    }
}

proof fn lemma_name_is_word(s: Seq<char>)
    requires
        is_name(s),
    ensures
        is_word(s),
{
}

/// The tokens of a definition are its names and its marks in their order. Every other character,
/// and a digit that no name goes on with, only separates them.
pub proof fn law_tokens_are_names_and_marks(name: Seq<char>, c: char, rest: Seq<char>)
    ensures
        tokens(seq![]) == Seq::<TokenView>::empty(),
        is_name(name) && (rest.len() == 0 || !('a' <= rest[0] <= 'z' || 'A' <= rest[0] <= 'Z' || '0'
            <= rest[0] <= '9' || rest[0] == '_')) ==> tokens(name + rest) == seq![
            TokenView::Word(name),
        ] + tokens(rest),
        tokens(seq!['['] + rest) == seq![TokenView::LBracket] + tokens(rest),
        tokens(seq![']'] + rest) == seq![TokenView::RBracket] + tokens(rest),
        tokens(seq!['*'] + rest) == seq![TokenView::Asterisk] + tokens(rest),
        tokens(seq!['.'] + rest) == seq![TokenView::Dot] + tokens(rest),
        !('a' <= c <= 'z' || 'A' <= c <= 'Z' || c == '_' || c == '[' || c == ']' || c == '*' || c
            == '.') ==> tokens(seq![c] + rest) == tokens(rest),
{
    if is_name(name) && (rest.len() == 0 || !is_word_char(rest[0])) {
        lemma_name_is_word(name);
        lemma_tokens_word(name, rest);
    }
    lemma_tokens_mark('[', rest);
    lemma_tokens_mark(']', rest);
    lemma_tokens_mark('*', rest);
    lemma_tokens_mark('.', rest);
    assert((seq![c] + rest).drop_first() =~= rest);
}

/// What the tokens of a definition give: a name alone, or a name and a type or a wildcard behind a
/// dot or in brackets, and what is missing where they do not give that. White space around the
/// definition is no part of it.
pub proof fn law_tokens_give_the_key(s: Seq<char>)
    ensures
        ({
            let t = tokens(s);
            let n = t.len();
            field_key(s) == (if n == 0 {
                Err(FieldErrorKind::Empty)
            } else if !(t[0] is Word) {
                Err(FieldErrorKind::NoFieldName)
            } else {
                let field = t[0]->Word_0;
                let untyped = Ok::<FieldKeyView, FieldErrorKind>(
                    (FieldKeyView { field, event_type: None }),
                );
                if n == 1 {
                    untyped
                } else if t[1] == TokenView::Dot {
                    if n == 2 {
                        Err(FieldErrorKind::NoEventTypeAfterDot)
                    } else if t[2] == TokenView::Asterisk {
                        untyped
                    } else if !(t[2] is Word) {
                        Err(FieldErrorKind::NoEventTypeAfterDot)
                    } else if n > 3 && t[3] == TokenView::Dot && (n == 4 || t[4]
                        != TokenView::Asterisk) {
                        Err(FieldErrorKind::NoAsterisk)
                    } else {
                        Ok((FieldKeyView { field, event_type: Some(t[2]->Word_0) }))
                    }
                } else if t[1] == TokenView::LBracket {
                    if n == 2 {
                        Err(FieldErrorKind::NoEventType)
                    } else if t[2] != TokenView::Asterisk && !(t[2] is Word) {
                        Err(FieldErrorKind::BadEventType)
                    } else if n == 3 || t[3] != TokenView::RBracket {
                        Err(FieldErrorKind::NoClosingBracket)
                    } else if t[2] == TokenView::Asterisk {
                        untyped
                    } else if n > 4 && t[4] == TokenView::LBracket && (n == 5 || t[5]
                        != TokenView::Asterisk) {
                        Err(FieldErrorKind::NoWildcard)
                    } else if n > 4 && t[4] == TokenView::LBracket && (n == 6 || t[6]
                        != TokenView::RBracket) {
                        Err(FieldErrorKind::NoClosingBracket)
                    } else {
                        Ok((FieldKeyView { field, event_type: Some(t[2]->Word_0) }))
                    }
                } else {
                    Err(FieldErrorKind::Invalid)
                }
            })
        }),
{
    lemma_key_of_tokens(s);
}

/// What follows a complete definition is ignored, whatever it is. Behind `f[t]` that holds of what
/// opens no bracket.
pub proof fn law_what_follows_a_definition_is_ignored(
    f: Seq<char>,
    t: Seq<char>,
    rest: Seq<char>,
)
    requires
        is_name(f),
        is_name(t),
    ensures
        field_key(f + "[*]"@ + rest) == Ok::<FieldKeyView, FieldErrorKind>(
            FieldKeyView { field: f, event_type: None },
        ),
        field_key(f + ".*"@ + rest) == Ok::<FieldKeyView, FieldErrorKind>(
            FieldKeyView { field: f, event_type: None },
        ),
        field_key(f + "["@ + t + "][*]"@ + rest) == Ok::<FieldKeyView, FieldErrorKind>(
            FieldKeyView { field: f, event_type: Some(t) },
        ),
        field_key(f + "."@ + t + ".*"@ + rest) == Ok::<FieldKeyView, FieldErrorKind>(
            FieldKeyView { field: f, event_type: Some(t) },
        ),
        !rest.contains('[') ==> field_key(f + "["@ + t + "]"@ + rest) == Ok::<
            FieldKeyView,
            FieldErrorKind,
        >(FieldKeyView { field: f, event_type: Some(t) }),
{
    reveal_strlit("[*]");
    reveal_strlit(".*");
    reveal_strlit("[");
    reveal_strlit("]");
    reveal_strlit("][*]");
    reveal_strlit(".");
    lemma_name_is_word(f);
    lemma_name_is_word(t);
    assert(field_key(f + "[*]"@ + rest) == Ok::<FieldKeyView, FieldErrorKind>(
        FieldKeyView { field: f, event_type: None },
    )) by {
        lemma_wildcard_then(f, rest);
        lemma_key_of_tokens(f + "[*]"@ + rest);
    }
    assert(field_key(f + ".*"@ + rest) == Ok::<FieldKeyView, FieldErrorKind>(
        FieldKeyView { field: f, event_type: None },
    )) by {
        lemma_dotted_then(f, rest);
        lemma_key_of_tokens(f + ".*"@ + rest);
    }
    assert(field_key(f + "["@ + t + "][*]"@ + rest) == Ok::<FieldKeyView, FieldErrorKind>(
        FieldKeyView { field: f, event_type: Some(t) },
    )) by {
        let open = seq!['['] + (seq!['*'] + (seq![']'] + rest));
        let shut = seq![']'] + open;
        let all = f + (seq!['['] + (t + shut));
        lemma_tokens_mark(']', rest);
        lemma_tokens_mark('*', seq![']'] + rest);
        lemma_tokens_mark('[', seq!['*'] + (seq![']'] + rest));
        lemma_tokens_mark(']', open);
        lemma_tokens_word(t, shut);
        lemma_tokens_mark('[', t + shut);
        lemma_tokens_word(f, seq!['['] + (t + shut));
        assert(f + "["@ + t + "][*]"@ + rest =~= all);
        lemma_key_of_tokens(all);
    }
    assert(field_key(f + "."@ + t + ".*"@ + rest) == Ok::<FieldKeyView, FieldErrorKind>(
        FieldKeyView { field: f, event_type: Some(t) },
    )) by {
        let dot = seq!['.'] + (seq!['*'] + rest);
        let all = f + (seq!['.'] + (t + dot));
        lemma_tokens_mark('*', rest);
        lemma_tokens_mark('.', seq!['*'] + rest);
        lemma_tokens_word(t, dot);
        lemma_tokens_mark('.', t + dot);
        lemma_tokens_word(f, seq!['.'] + (t + dot));
        assert(f + "."@ + t + ".*"@ + rest =~= all);
        lemma_key_of_tokens(all);
    }
    if !rest.contains('[') {
        let close = seq![']'] + rest;
        let all = f + (seq!['['] + (t + close));
        lemma_tokens_mark(']', rest);
        lemma_tokens_word(t, close);
        lemma_tokens_mark('[', t + close);
        lemma_tokens_word(f, seq!['['] + (t + close));
        assert(f + "["@ + t + "]"@ + rest =~= all);
        lemma_key_of_tokens(all);
        lemma_no_bracket_token(rest);
        if tokens(rest).len() > 0 {
            assert(tokens(all)[4] == tokens(rest)[0]);
        }
    }
}

proof fn lemma_wildcard_then(f: Seq<char>, rest: Seq<char>)
    requires
        is_word(f),
    ensures
        tokens(f + "[*]"@ + rest) == seq![
            TokenView::Word(f),
            TokenView::LBracket,
            TokenView::Asterisk,
            TokenView::RBracket,
        ] + tokens(rest),
{
    reveal_strlit("[*]");
    let close = seq![']'] + rest;
    let star = seq!['*'] + close;
    let open = seq!['['] + star;
    lemma_tokens_mark(']', rest);
    lemma_tokens_mark('*', close);
    lemma_tokens_mark('[', star);
    lemma_tokens_word(f, open);
    assert(f + "[*]"@ + rest =~= f + open);
    assert(tokens(f + open) =~= seq![
        TokenView::Word(f),
        TokenView::LBracket,
        TokenView::Asterisk,
        TokenView::RBracket,
    ] + tokens(rest));
}

proof fn lemma_dotted_then(f: Seq<char>, rest: Seq<char>)
    requires
        is_word(f),
    ensures
        tokens(f + ".*"@ + rest) == seq![
            TokenView::Word(f),
            TokenView::Dot,
            TokenView::Asterisk,
        ] + tokens(rest),
{
    reveal_strlit(".*");
    let star = seq!['*'] + rest;
    let dot = seq!['.'] + star;
    lemma_tokens_mark('*', rest);
    lemma_tokens_mark('.', star);
    lemma_tokens_word(f, dot);
    assert(f + ".*"@ + rest =~= f + dot);
    assert(tokens(f + dot) =~= seq![TokenView::Word(f), TokenView::Dot, TokenView::Asterisk]
        + tokens(rest));
}

proof fn lemma_no_bracket_token(s: Seq<char>)
    requires
        !s.contains('['),
    ensures
        tokens(s).len() > 0 ==> tokens(s)[0] != TokenView::LBracket,
    decreases s.len(),
{
    if s.len() > 0 {
        assert(s.contains(s[0]));
        let r = s.drop_first();
        assert(!r.contains('[')) by {
            assert forall|i: int| 0 <= i < r.len() implies r[i] != '[' by {
                assert(s.contains(s[i + 1]));
            }
        }
        lemma_no_bracket_token(r);
        lemma_word_len_chars(s);
    }
}

/// What stands between the names and the marks only separates them.
pub proof fn law_gaps_make_no_difference(f: Seq<char>, t: Seq<char>, gap: Seq<char>)
    requires
        is_name(f),
        is_name(t),
        is_gap(gap),
    ensures
        field_key(gap + f + gap + "["@ + gap + t + gap + "]"@ + gap) == Ok::<
            FieldKeyView,
            FieldErrorKind,
        >(FieldKeyView { field: f, event_type: Some(t) }),
        field_key(gap + f + gap + "."@ + gap + t + gap + "."@ + gap + "*"@ + gap) == Ok::<
            FieldKeyView,
            FieldErrorKind,
        >(FieldKeyView { field: f, event_type: Some(t) }),
        field_key(gap + f + gap + "["@ + gap + "*"@ + gap + "]"@ + gap) == Ok::<
            FieldKeyView,
            FieldErrorKind,
        >(FieldKeyView { field: f, event_type: None }),
{
    lemma_gaps_in_brackets(f, t, gap);
    lemma_gaps_at_dots(f, t, gap);
    lemma_gaps_at_wildcard(f, gap);
}

proof fn lemma_gaps_in_brackets(f: Seq<char>, t: Seq<char>, gap: Seq<char>)
    requires
        is_name(f),
        is_name(t),
        is_gap(gap),
    ensures
        field_key(gap + f + gap + "["@ + gap + t + gap + "]"@ + gap) == Ok::<
            FieldKeyView,
            FieldErrorKind,
        >(FieldKeyView { field: f, event_type: Some(t) }),
{
    reveal_strlit("[");
    reveal_strlit("]");
    lemma_name_is_word(f);
    lemma_name_is_word(t);
    let empty = Seq::<char>::empty();
    assert(tokens(empty) =~= seq![]);
    assert(gap + empty =~= gap);
    lemma_tokens_gap(gap, empty);
    let close = seq![']'] + gap;
    lemma_tokens_mark(']', gap);
    lemma_tokens_gap(gap, close);
    lemma_tokens_word(t, gap + close);
    lemma_tokens_gap(gap, t + (gap + close));
    let open = seq!['['] + (gap + (t + (gap + close)));
    lemma_tokens_mark('[', gap + (t + (gap + close)));
    lemma_tokens_gap(gap, open);
    lemma_tokens_word(f, gap + open);
    lemma_tokens_gap(gap, f + (gap + open));
    let all = gap + (f + (gap + open));
    assert(tokens(all) =~= seq![
        TokenView::Word(f),
        TokenView::LBracket,
        TokenView::Word(t),
        TokenView::RBracket,
    ]);
    assert(gap + f + gap + "["@ + gap + t + gap + "]"@ + gap =~= all);
    lemma_key_of_tokens(all);
}

proof fn lemma_gaps_at_dots(f: Seq<char>, t: Seq<char>, gap: Seq<char>)
    requires
        is_name(f),
        is_name(t),
        is_gap(gap),
    ensures
        field_key(gap + f + gap + "."@ + gap + t + gap + "."@ + gap + "*"@ + gap) == Ok::<
            FieldKeyView,
            FieldErrorKind,
        >(FieldKeyView { field: f, event_type: Some(t) }),
{
    reveal_strlit(".");
    reveal_strlit("*");
    lemma_name_is_word(f);
    lemma_name_is_word(t);
    let empty = Seq::<char>::empty();
    assert(tokens(empty) =~= seq![]);
    assert(gap + empty =~= gap);
    lemma_tokens_gap(gap, empty);
    let star = seq!['*'] + gap;
    lemma_tokens_mark('*', gap);
    lemma_tokens_gap(gap, star);
    let dot = seq!['.'] + (gap + star);
    lemma_tokens_mark('.', gap + star);
    lemma_tokens_gap(gap, dot);
    lemma_tokens_word(t, gap + dot);
    lemma_tokens_gap(gap, t + (gap + dot));
    let first = seq!['.'] + (gap + (t + (gap + dot)));
    lemma_tokens_mark('.', gap + (t + (gap + dot)));
    lemma_tokens_gap(gap, first);
    lemma_tokens_word(f, gap + first);
    lemma_tokens_gap(gap, f + (gap + first));
    let all = gap + (f + (gap + first));
    assert(tokens(all) =~= seq![
        TokenView::Word(f),
        TokenView::Dot,
        TokenView::Word(t),
        TokenView::Dot,
        TokenView::Asterisk,
    ]);
    assert(gap + f + gap + "."@ + gap + t + gap + "."@ + gap + "*"@ + gap =~= all);
    lemma_key_of_tokens(all);
}

proof fn lemma_gaps_at_wildcard(f: Seq<char>, gap: Seq<char>)
    requires
        is_name(f),
        is_gap(gap),
    ensures
        field_key(gap + f + gap + "["@ + gap + "*"@ + gap + "]"@ + gap) == Ok::<
            FieldKeyView,
            FieldErrorKind,
        >(FieldKeyView { field: f, event_type: None }),
{
    reveal_strlit("[");
    reveal_strlit("]");
    reveal_strlit("*");
    lemma_name_is_word(f);
    let empty = Seq::<char>::empty();
    assert(tokens(empty) =~= seq![]);
    assert(gap + empty =~= gap);
    lemma_tokens_gap(gap, empty);
    let close = seq![']'] + gap;
    lemma_tokens_mark(']', gap);
    lemma_tokens_gap(gap, close);
    let wild = seq!['*'] + (gap + close);
    lemma_tokens_mark('*', gap + close);
    lemma_tokens_gap(gap, wild);
    let brackets = seq!['['] + (gap + wild);
    lemma_tokens_mark('[', gap + wild);
    lemma_tokens_gap(gap, brackets);
    lemma_tokens_word(f, gap + brackets);
    lemma_tokens_gap(gap, f + (gap + brackets));
    let all = gap + (f + (gap + brackets));
    assert(tokens(all) =~= seq![
        TokenView::Word(f),
        TokenView::LBracket,
        TokenView::Asterisk,
        TokenView::RBracket,
    ]);
    assert(gap + f + gap + "["@ + gap + "*"@ + gap + "]"@ + gap =~= all);
    lemma_key_of_tokens(all);
}

/// A definition is empty if and only if it has neither a letter nor an underscore nor a mark.
pub proof fn law_empty_definitions_hold_nothing(s: Seq<char>)
    ensures
        field_key(s) == Err::<FieldKeyView, FieldErrorKind>(FieldErrorKind::Empty) <==> forall|
            i: int,
        |
            0 <= i < s.len() ==> !('a' <= #[trigger] s[i] <= 'z' || 'A' <= s[i] <= 'Z' || s[i] == '_'
                || s[i] == '[' || s[i] == ']' || s[i] == '*' || s[i] == '.'),
{
    lemma_key_of_tokens(s);
    lemma_no_tokens(s);
}

proof fn lemma_no_tokens(s: Seq<char>)
    ensures
        tokens(s).len() == 0 <==> forall|i: int|
            0 <= i < s.len() ==> !('a' <= #[trigger] s[i] <= 'z' || 'A' <= s[i] <= 'Z' || s[i] == '_'
                || s[i] == '[' || s[i] == ']' || s[i] == '*' || s[i] == '.'),
    decreases s.len(),
{
    if s.len() > 0 {
        let r = s.drop_first();
        lemma_no_tokens(r);
        lemma_word_len_chars(s);
        if is_word_start(s[0]) || punctuation(s[0]) is Some {
            assert(tokens(s).len() > 0);
        } else {
            assert(tokens(s) == tokens(r));
            if tokens(r).len() == 0 {
                assert forall|i: int| 0 <= i < s.len() implies !('a' <= #[trigger] s[i] <= 'z'
                    || 'A' <= s[i] <= 'Z' || s[i] == '_' || s[i] == '[' || s[i] == ']' || s[i]
                    == '*' || s[i] == '.') by {
                    if i > 0 {
                        assert(s[i] == r[i - 1]);
                    }
                }
            } else {
                let i = choose|i: int|
                    0 <= i < r.len() && ('a' <= #[trigger] r[i] <= 'z' || 'A' <= r[i] <= 'Z' || r[i]
                        == '_' || r[i] == '[' || r[i] == ']' || r[i] == '*' || r[i] == '.');
                assert(s[i + 1] == r[i]);
            }
        }
    }
}

/// A definition must begin with the name of a field, and a bracket or a dot must follow it.
pub proof fn law_definitions_begin_with_a_name(
    f: Seq<char>,
    t: Seq<char>,
    gap: Seq<char>,
    rest: Seq<char>,
)
    requires
        is_name(f),
        is_name(t),
        is_gap(gap),
    ensures
        field_key(gap + "["@ + rest) == Err::<FieldKeyView, FieldErrorKind>(
            FieldErrorKind::NoFieldName,
        ),
        field_key(gap + "]"@ + rest) == Err::<FieldKeyView, FieldErrorKind>(
            FieldErrorKind::NoFieldName,
        ),
        field_key(gap + "*"@ + rest) == Err::<FieldKeyView, FieldErrorKind>(
            FieldErrorKind::NoFieldName,
        ),
        field_key(gap + "."@ + rest) == Err::<FieldKeyView, FieldErrorKind>(
            FieldErrorKind::NoFieldName,
        ),
        field_key(f + gap + "]"@ + rest) == Err::<FieldKeyView, FieldErrorKind>(
            FieldErrorKind::Invalid,
        ),
        field_key(f + gap + "*"@ + rest) == Err::<FieldKeyView, FieldErrorKind>(
            FieldErrorKind::Invalid,
        ),
        gap.len() > 0 ==> field_key(f + gap + t) == Err::<FieldKeyView, FieldErrorKind>(
            FieldErrorKind::Invalid,
        ),
{
    reveal_strlit("[");
    reveal_strlit("]");
    reveal_strlit(".");
    reveal_strlit("*");
    lemma_name_is_word(f);
    lemma_name_is_word(t);
    let empty = Seq::<char>::empty();
    assert(tokens(empty) =~= seq![]);
    lemma_tokens_mark('[', rest);
    lemma_tokens_mark(']', rest);
    lemma_tokens_mark('*', rest);
    lemma_tokens_mark('.', rest);
    let a = seq!['['] + rest;
    let b = seq![']'] + rest;
    let c = seq!['*'] + rest;
    let d = seq!['.'] + rest;
    lemma_tokens_gap(gap, a);
    lemma_tokens_gap(gap, b);
    lemma_tokens_gap(gap, c);
    lemma_tokens_gap(gap, d);
    assert(gap + "["@ + rest =~= gap + a);
    assert(gap + "]"@ + rest =~= gap + b);
    assert(gap + "*"@ + rest =~= gap + c);
    assert(gap + "."@ + rest =~= gap + d);
    lemma_key_of_tokens(gap + a);
    lemma_key_of_tokens(gap + b);
    lemma_key_of_tokens(gap + c);
    lemma_key_of_tokens(gap + d);
    lemma_tokens_word(f, gap + b);
    lemma_tokens_word(f, gap + c);
    assert(f + gap + "]"@ + rest =~= f + (gap + b));
    assert(f + gap + "*"@ + rest =~= f + (gap + c));
    lemma_key_of_tokens(f + (gap + b));
    lemma_key_of_tokens(f + (gap + c));
    if gap.len() > 0 {
        assert(t + empty =~= t);
        lemma_tokens_word(t, empty);
        lemma_tokens_gap(gap, t);
        assert((gap + t)[0] == gap[0]);
        lemma_tokens_word(f, gap + t);
        assert(f + gap + t =~= f + (gap + t));
        lemma_key_of_tokens(f + (gap + t));
    }
}

/// A definition that breaks off is refused for what is missing.
pub proof fn law_incomplete_definitions_are_refused(f: Seq<char>, t: Seq<char>)
    requires
        is_name(f),
        is_name(t),
    ensures
        field_key(f + "["@) == Err::<FieldKeyView, FieldErrorKind>(FieldErrorKind::NoEventType),
        field_key(f + "[]"@) == Err::<FieldKeyView, FieldErrorKind>(FieldErrorKind::BadEventType),
        field_key(f + "[*"@) == Err::<FieldKeyView, FieldErrorKind>(
            FieldErrorKind::NoClosingBracket,
        ),
        field_key(f + "["@ + t) == Err::<FieldKeyView, FieldErrorKind>(
            FieldErrorKind::NoClosingBracket,
        ),
        field_key(f + "["@ + t + "]["@) == Err::<FieldKeyView, FieldErrorKind>(
            FieldErrorKind::NoWildcard,
        ),
        field_key(f + "["@ + t + "][*"@) == Err::<FieldKeyView, FieldErrorKind>(
            FieldErrorKind::NoClosingBracket,
        ),
        field_key(f + "."@) == Err::<FieldKeyView, FieldErrorKind>(
            FieldErrorKind::NoEventTypeAfterDot,
        ),
        field_key(f + ".["@) == Err::<FieldKeyView, FieldErrorKind>(
            FieldErrorKind::NoEventTypeAfterDot,
        ),
        field_key(f + "."@ + t + "."@) == Err::<FieldKeyView, FieldErrorKind>(
            FieldErrorKind::NoAsterisk,
        ),
{
    reveal_strlit("[");
    reveal_strlit("[]");
    reveal_strlit("[*");
    reveal_strlit("][");
    reveal_strlit("][*");
    reveal_strlit(".");
    reveal_strlit(".[");
    lemma_name_is_word(f);
    lemma_name_is_word(t);
    let empty = Seq::<char>::empty();
    assert(tokens(empty) =~= seq![]);
    let open = seq!['['] + empty;
    let shut = seq![']'] + empty;
    let star = seq!['*'] + empty;
    let dot = seq!['.'] + empty;
    lemma_tokens_mark('[', empty);
    lemma_tokens_mark(']', empty);
    lemma_tokens_mark('*', empty);
    lemma_tokens_mark('.', empty);
    lemma_tokens_mark('[', shut);
    lemma_tokens_mark('[', star);
    lemma_tokens_mark('.', open);
    lemma_tokens_word(f, open);
    assert(f + "["@ =~= f + open);
    lemma_key_of_tokens(f + open);
    lemma_tokens_word(f, seq!['['] + shut);
    assert(f + "[]"@ =~= f + (seq!['['] + shut));
    lemma_key_of_tokens(f + (seq!['['] + shut));
    lemma_tokens_word(f, seq!['['] + star);
    assert(f + "[*"@ =~= f + (seq!['['] + star));
    lemma_key_of_tokens(f + (seq!['['] + star));
    lemma_tokens_word(t, empty);
    lemma_tokens_mark('[', t + empty);
    lemma_tokens_word(f, seq!['['] + (t + empty));
    assert(f + "["@ + t =~= f + (seq!['['] + (t + empty)));
    lemma_key_of_tokens(f + (seq!['['] + (t + empty)));
    let again = seq![']'] + open;
    lemma_tokens_mark(']', open);
    lemma_tokens_word(t, again);
    lemma_tokens_mark('[', t + again);
    lemma_tokens_word(f, seq!['['] + (t + again));
    assert(f + "["@ + t + "]["@ =~= f + (seq!['['] + (t + again)));
    lemma_key_of_tokens(f + (seq!['['] + (t + again)));
    let wild = seq![']'] + (seq!['['] + star);
    lemma_tokens_mark(']', seq!['['] + star);
    lemma_tokens_word(t, wild);
    lemma_tokens_mark('[', t + wild);
    lemma_tokens_word(f, seq!['['] + (t + wild));
    assert(f + "["@ + t + "][*"@ =~= f + (seq!['['] + (t + wild)));
    lemma_key_of_tokens(f + (seq!['['] + (t + wild)));
    lemma_tokens_word(f, dot);
    assert(f + "."@ =~= f + dot);
    lemma_key_of_tokens(f + dot);
    lemma_tokens_word(f, seq!['.'] + open);
    assert(f + ".["@ =~= f + (seq!['.'] + open));
    lemma_key_of_tokens(f + (seq!['.'] + open));
    lemma_tokens_word(t, dot);
    lemma_tokens_mark('.', t + dot);
    lemma_tokens_word(f, seq!['.'] + (t + dot));
    assert(f + "."@ + t + "."@ =~= f + (seq!['.'] + (t + dot)));
    lemma_key_of_tokens(f + (seq!['.'] + (t + dot)));
}

/// A key is filed under its names and a wildcard with dots between them; `event` and `retry` are
/// filed under their names.
pub proof fn law_paths_are_written_with_dots(f: Seq<char>, t: Seq<char>)
    ensures
        (FieldKeyView { field: f, event_type: Some(t) }).path() == f + "."@ + t + ".*"@,
        f != "event"@ && f != "retry"@ ==> (FieldKeyView { field: f, event_type: None }).path() == f
            + ".*"@,
        (FieldKeyView { field: "event"@, event_type: None }).path() == "event"@,
        (FieldKeyView { field: "retry"@, event_type: None }).path() == "retry"@,
        (FieldKeyView { field: f, event_type: Some(t) }).bracketed() == f + "["@ + t + "][*]"@,
        (FieldKeyView { field: f, event_type: None }).bracketed() == f + "[*]"@,
{
}

/// A refusal names what is wrong and shows the definition in quotes.
pub proof fn law_refusals_show_the_definition(d: Seq<char>)
    ensures
        error_text(FieldErrorKind::Empty, d) == "Empty field definition: '"@ + d + "'"@,
        error_text(FieldErrorKind::NoFieldName, d) == "Expected field name in '"@ + d + "'"@,
        error_text(FieldErrorKind::Invalid, d) == "Invalid field definition: '"@ + d + "'"@,
        error_text(FieldErrorKind::NoEventType, d) == "Expected event type in '"@ + d + "'"@,
        error_text(FieldErrorKind::BadEventType, d) == "Expected event type in field definition: '"@
            + d + "'"@,
        error_text(FieldErrorKind::NoClosingBracket, d) == "Expected ']' in field definition: '"@
            + d + "'"@,
        error_text(FieldErrorKind::NoWildcard, d) == "Expected '[*]' in field definition: '"@ + d
            + "'"@,
        error_text(FieldErrorKind::NoEventTypeAfterDot, d) == "Expected event type after '.' in '"@
            + d + "'"@,
        error_text(FieldErrorKind::NoAsterisk, d)
            == "Expected '*' after '.' in field definition: '"@ + d + "'"@,
{
}

/// The characters that Unicode counts as white space.
pub open spec fn is_blank(c: char) -> bool {
    '\u{9}' <= c <= '\u{d}' || c == ' ' || c == '\u{85}' || c == '\u{a0}' || c == '\u{1680}'
        || '\u{2000}' <= c <= '\u{200a}' || c == '\u{2028}' || c == '\u{2029}' || c == '\u{202f}'
        || c == '\u{205f}' || c == '\u{3000}'
}

/// White space around a text is taken off, and nothing else is.
pub proof fn law_trimming_takes_off_blanks(a: Seq<char>, s: Seq<char>, b: Seq<char>)
    requires
        forall|i: int| 0 <= i < a.len() ==> is_blank(#[trigger] a[i]),
        forall|i: int| 0 <= i < b.len() ==> is_blank(#[trigger] b[i]),
        s.len() > 0 ==> !is_blank(s[0]) && !is_blank(s.last()),
    ensures
        trimmed(a + s + b) == s,
        field_key(a + s + b) == field_key(s),
{
    law_white_space_around_makes_no_difference(a, s, b);
    assert(a + s + b =~= a + (s + b));
    lemma_trim_start_skips(a, s + b);
    lemma_trim_start_before(s, b);
    if s.len() > 0 {
        lemma_nothing_to_trim(s);
    } else {
        assert(trim_end(trim_start(s)) =~= s);
    }
}

} // verus!
