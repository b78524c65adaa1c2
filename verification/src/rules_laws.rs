//! What holds of rules, of those that are asked for and of what they report.

use crate::formats::{does_ask, does_rest_ask, Ask};
use crate::regex::{rest_is_bounded, Before, Place};
use crate::rules::{
    answer_to, built_rule, can_fail_with, filed_rules, has_safe_indexes, is_determined,
    is_matchable, is_safe_index, listed_rules, match_failure, open_questions, rule_of, with_rule,
    AnswerView, AttributeView, QuestionView, RequestedRuleView, RuleErrorView, RuleView,
};
use crate::text::{digits_len, digits_value};
use vstd::prelude::*;

verus! {

/// The rules of a list are built in their order, each from its type and its values, and the first
/// that cannot be had is reported.
pub proof fn law_requested_rules_are_built_in_their_order(
    rules: Seq<RequestedRuleView>,
    r: RequestedRuleView,
)
    ensures
        listed_rules(seq![]) == Ok::<_, RuleErrorView>(Seq::<RuleView>::empty()),
        listed_rules(rules.push(r)) == (match listed_rules(rules) {
            Ok(earlier) => match rule_of(r.rule_type, r.values) {
                Ok(rule) => Ok::<_, RuleErrorView>(earlier.push(rule)),
                Err(e) => Err(e),
            },
            Err(e) => Err(e),
        }),
{
    assert(rules.push(r).drop_last() =~= rules);
}

/// Every list of rules that is asked for is filed under its key as a whole; where several have one
/// key, it is the last of them.
pub proof fn law_every_requested_list_is_filed(
    lists: Seq<(Seq<char>, Seq<RequestedRuleView>)>,
    i: int,
)
    requires
        filed_rules(lists) is Ok,
        0 <= i < lists.len(),
    ensures
        listed_rules(lists[i].1) is Ok,
        filed_rules(lists)->Ok_0.contains_key(lists[i].0),
        (forall|j: int| i < j < lists.len() ==> (#[trigger] lists[j]).0 != lists[i].0)
            ==> filed_rules(lists)->Ok_0[lists[i].0] == listed_rules(lists[i].1)->Ok_0,
    decreases lists.len(),
{
    let init = lists.drop_last();
    if i < init.len() {
        assert(init[i] == lists[i]);
        law_every_requested_list_is_filed(init, i);
        if forall|j: int| i < j < lists.len() ==> (#[trigger] lists[j]).0 != lists[i].0 {
            assert forall|j: int| i < j < init.len() implies (#[trigger] init[j]).0
                != init[i].0 by {
                assert(init[j] == lists[j]);
            }
            assert(lists[lists.len() - 1].0 != lists[i].0);
        }
    } else {
        assert(lists[i] == lists.last());
    }
}

/// The lists are read in their order, the first that cannot be had is reported, and nothing is
/// filed but them.
pub proof fn law_requested_lists_are_read_in_their_order(
    lists: Seq<(Seq<char>, Seq<RequestedRuleView>)>,
    key: Seq<char>,
    rules: Seq<RequestedRuleView>,
)
    ensures
        filed_rules(seq![]) == Ok::<_, RuleErrorView>(Map::<Seq<char>, Seq<RuleView>>::empty()),
        filed_rules(lists.push((key, rules))) == (match filed_rules(lists) {
            Ok(earlier) => match listed_rules(rules) {
                Ok(built) => Ok::<_, RuleErrorView>(earlier.insert(key, built)),
                Err(e) => Err(e),
            },
            Err(e) => Err(e),
        }),
{
    assert(lists.push((key, rules)).drop_last() =~= lists);
}

/// A rule is built from its values with its type in the place of any other, and keeps them; only of
/// rules on variants, keys and values there are some that are not read.
pub proof fn law_rules_are_built_from_their_type_and_values(
    t: Seq<char>,
    values: Map<Seq<char>, AttributeView>,
)
    ensures
        ({
            let all = values.insert("match"@, AttributeView::Text(t));
            let built = built_rule(all, usize::BITS as int);
            match rule_of(t, values) {
                Ok(rule) => rule.attributes == all && built == Ok::<_, Seq<char>>(rule.name),
                Err(RuleErrorView::Refused(text)) => built == Err::<Seq<char>, _>(text),
                Err(RuleErrorView::Unreadable) => t == "arrayContains"@ || t == "array-contains"@
                    || t == "eachKey"@ || t == "each-key"@ || t == "eachValue"@ || t
                    == "each-value"@,
            }
        }),
        rule_of(t, values) is Err && rule_of(t, values)->Err_0 is Unreadable ==> (
        values.contains_key("variants"@) && (values["variants"@] matches AttributeView::Json(j)
            && may_hide_an_index(j))) || (values.contains_key("rules"@) && (
        values["rules"@] matches AttributeView::Json(j) && may_hide_an_index(j))),
{
    lemma_nested_names();
    reveal_strlit("match");
    reveal_strlit("variants");
    reveal_strlit("rules");
    assert("match"@[0] == 'm' && "rules"@[0] == 'r');
    assert("match"@.len() != "variants"@.len());
    if values.contains_key("variants"@) {
        if let AttributeView::Json(j) = values["variants"@] {
            lemma_indexes_are_safe(j);
        }
    }
    if values.contains_key("rules"@) {
        if let AttributeView::Json(j) = values["rules"@] {
            lemma_indexes_are_safe(j);
        }
    }
}

/// Whether JSON has a backslash, or a digit or a character beyond ASCII right behind an opening
/// bracket.
pub open spec fn may_hide_an_index(j: Seq<char>) -> bool {
    j.contains('\\') || exists|i: int|
        0 <= i < j.len() - 1 && #[trigger] j[i] == '[' && ('0' <= j[i + 1] <= '9' || j[i + 1]
            >= '\u{80}')
}

proof fn lemma_indexes_are_safe(j: Seq<char>)
    ensures
        !has_safe_indexes(j) ==> may_hide_an_index(j),
{
    if !may_hide_an_index(j) {
        assert forall|i: int| 0 <= i < j.len() implies (#[trigger] j[i] == '[' ==> is_safe_index(
            j.skip(i + 1),
        )) && (j[i] == '\\' ==> !(i + 1 < j.len() && j[i + 1] == 'u')) by {
            assert(j.contains(j[i]));
            let s = j.skip(i + 1);
            if j[i] == '[' && s.len() > 0 {
                assert(s[0] == j[i + 1]);
                assert(digits_len(s) == 0);
            }
        }
    }
}

proof fn lemma_nested_names()
    ensures
        forall|t: Seq<char>|
            (#[trigger] crate::rules::rule_name(t) == Some("array-contains"@) ==> t
                == "arrayContains"@ || t == "array-contains"@) && (crate::rules::rule_name(t)
                == Some("each-key"@) ==> t == "eachKey"@ || t == "each-key"@) && (
            crate::rules::rule_name(t) == Some("each-value"@) ==> t == "eachValue"@ || t
                == "each-value"@),
{
    reveal_strlit("array-contains");
    reveal_strlit("each-key");
    reveal_strlit("each-value");
    reveal_strlit("decimal");
    reveal_strlit("min-type");
    reveal_strlit("max-type");
    reveal_strlit("datetime");
    reveal_strlit("content-type");
    reveal_strlit("status-code");
    reveal_strlit("not-empty");
    assert("each-key"@[0] == 'e' && "min-type"@[0] == 'm' && "max-type"@[0] == 'm'
        && "datetime"@[0] == 'd');
}

/// One more rule is filed behind those that are there, and what is filed under other keys stays.
pub proof fn law_rules_are_filed_behind_each_other(
    table: Map<Seq<char>, Seq<RuleView>>,
    key: Seq<char>,
    rule: RuleView,
    other: Seq<char>,
)
    ensures
        with_rule(table, key, rule).contains_key(key),
        table.contains_key(key) ==> with_rule(table, key, rule)[key] == table[key].push(rule),
        !table.contains_key(key) ==> with_rule(table, key, rule)[key] == seq![rule],
        other != key ==> with_rule(table, key, rule).contains_key(other) == table.contains_key(
            other,
        ) && with_rule(table, key, rule)[other] == table[other],
{
    assert(Seq::<RuleView>::empty().push(rule) =~= seq![rule]);
}

/// Of several answers to a question the last one stands.
pub proof fn law_the_last_answer_stands(
    answers: Seq<AnswerView>,
    answer: AnswerView,
    q: QuestionView,
)
    ensures
        answer_to(seq![], q) is None,
        answer_to(answers.push(answer), q) == (if answer.question == q {
            Some(answer.failure)
        } else {
            answer_to(answers, q)
        }),
{
    assert(answers.push(answer).drop_last() =~= answers);
}

/// A rule raises a question where it is not certain to come to an end on the text and no answer is
/// there: with the two texts, the rule's name and the regular expression or format that it goes by,
/// which for dates and times stands under `format` or else under the type of the rule.
pub proof fn law_only_unanswered_rules_are_asked_about(
    expected: Seq<char>,
    actual: Seq<char>,
    rules: Seq<RuleView>,
    rule: RuleView,
    setting: Seq<char>,
    answers: Seq<AnswerView>,
)
    ensures
        open_questions(expected, actual, seq![], answers) == Seq::<QuestionView>::empty(),
        is_matchable(rule, actual) ==> open_questions(expected, actual, rules.push(rule), answers)
            == open_questions(expected, actual, rules, answers),
        !is_matchable(rule, actual) && rule.name == "regex"@ && rule.attributes.contains_key(
            "regex"@,
        ) ==> {
            let q = (QuestionView {
                expected,
                actual,
                rule: "regex"@,
                setting: rule.attributes["regex"@],
            });
            if answer_to(answers, q) is Some {
                open_questions(expected, actual, rules.push(rule), answers) == open_questions(
                    expected,
                    actual,
                    rules,
                    answers,
                )
            } else {
                open_questions(expected, actual, rules.push(rule), answers) == open_questions(
                    expected,
                    actual,
                    rules,
                    answers,
                ).push(q)
            }
        },
        !is_matchable(rule, actual) && rule.name != "regex"@ && rule.attributes.contains_key(setting)
            && (setting == "format"@ || (!rule.attributes.contains_key("format"@)
            && rule.attributes.contains_key("match"@) && rule.attributes["match"@]
            == AttributeView::Text(setting))) ==> {
            let q = (QuestionView {
                expected,
                actual,
                rule: rule.name,
                setting: rule.attributes[setting],
            });
            if answer_to(answers, q) is Some {
                open_questions(expected, actual, rules.push(rule), answers) == open_questions(
                    expected,
                    actual,
                    rules,
                    answers,
                )
            } else {
                open_questions(expected, actual, rules.push(rule), answers) == open_questions(
                    expected,
                    actual,
                    rules,
                    answers,
                ).push(q)
            }
        },
{
    assert(rules.push(rule).drop_last() =~= rules);
}

/// Only rules on regular expressions, dates and times are ever asked about.
pub proof fn law_other_rules_are_always_tried(rule: RuleView, actual: Seq<char>)
    requires
        rule.name != "regex"@,
        rule.name != "date"@,
        rule.name != "time"@,
        rule.name != "datetime"@,
    ensures
        is_matchable(rule, actual),
{
}

/// A regular expression of letters and digits alone is always tried, and so is a format that asks
/// neither for a year nor for the fraction of a second.
pub proof fn law_plain_settings_are_always_tried(
    rule: RuleView,
    setting: Seq<char>,
    actual: Seq<char>,
)
    ensures
        rule.name == "regex"@ && rule.attributes.contains_key("regex"@)
            && rule.attributes["regex"@] == AttributeView::Text(setting) && (forall|i: int|
            0 <= i < setting.len() ==> ('a' <= #[trigger] setting[i] <= 'z' || 'A' <= setting[i]
                <= 'Z' || '0' <= setting[i] <= '9')) ==> is_matchable(rule, actual),
        (rule.name == "date"@ || rule.name == "time"@ || rule.name == "datetime"@)
            && rule.attributes.contains_key("format"@) && rule.attributes["format"@]
            == AttributeView::Text(setting) && !setting.contains('S') && !setting.contains('y')
            && !setting.contains('Y') && !setting.contains('u') ==> is_matchable(rule, actual),
{
    reveal_strlit("regex");
    reveal_strlit("date");
    reveal_strlit("time");
    reveal_strlit("datetime");
    assert("regex"@.len() == 5 && "date"@.len() == 4 && "time"@.len() == 4 && "datetime"@.len() == 8);
    if forall|i: int|
        0 <= i < setting.len() ==> ('a' <= #[trigger] setting[i] <= 'z' || 'A' <= setting[i] <= 'Z'
            || '0' <= setting[i] <= '9') {
        lemma_literal_is_bounded(setting, actual.len(), Before::Nothing);
    }
    if !setting.contains('S') && !setting.contains('y') && !setting.contains('Y')
        && !setting.contains('u') {
        lemma_asks_for_nothing(Ask::LongFraction, setting, false);
        lemma_asks_for_nothing(Ask::LongYear, setting, false);
    }
}

proof fn lemma_literal_is_bounded(s: Seq<char>, n: nat, before: Before)
    requires
        forall|i: int|
            0 <= i < s.len() ==> ('a' <= #[trigger] s[i] <= 'z' || 'A' <= s[i] <= 'Z' || '0' <= s[i]
                <= '9'),
    ensures
        rest_is_bounded(s, n, seq![], (Place { others: 0, earlier: 1, last: 1 }), before),
    decreases s.len(),
{
    if s.len() > 0 {
        let r = s.skip(1);
        assert forall|i: int| 0 <= i < r.len() implies ('a' <= #[trigger] r[i] <= 'z' || 'A' <= r[i]
            <= 'Z' || '0' <= r[i] <= '9') by {
            assert(r[i] == s[i + 1]);
        }
        assert(s[0] == s[0]);
        lemma_literal_is_bounded(r, n, Before::Single);
        assert(1u64 * 1u64 == 1u64) by (nonlinear_arith);
    }
}

proof fn lemma_asks_for_nothing(ask: Ask, s: Seq<char>, quoted: bool)
    requires
        ask == Ask::LongFraction || ask == Ask::LongYear,
        !s.contains('S'),
        !s.contains('y'),
        !s.contains('Y'),
        !s.contains('u'),
    ensures
        !does_rest_ask(ask, s, quoted),
        !does_ask(ask, s) || quoted,
    decreases s.len(),
{
    if s.len() > 0 {
        assert(s.contains(s[0]));
        assert forall|k: int| 0 < k <= s.len() implies {
            let r = #[trigger] s.skip(k);
            !r.contains('S') && !r.contains('y') && !r.contains('Y') && !r.contains('u')
        } by {
            let r = s.skip(k);
            assert forall|i: int| 0 <= i < r.len() implies s.contains(#[trigger] r[i]) by {
                assert(r[i] == s[i + k]);
            }
        }
        if s[0] == '\'' {
            lemma_asks_for_nothing(ask, s.skip(1), !quoted);
        } else if quoted {
            lemma_asks_for_nothing(ask, s.skip(1), quoted);
        } else {
            let n = crate::formats::run_len(s);
            if 0 < n <= s.len() {
                lemma_asks_for_nothing(ask, s.skip(n as int), quoted);
            }
        }
    }
    if !quoted {
        assert(!does_rest_ask(ask, s, false));
    }
}

/// The outcome of a rule depends on the texts and the rule alone, but for rules on content types
/// and on variants, and rules on keys and values with nested rules.
pub proof fn law_most_rules_have_one_outcome(rule: RuleView)
    requires
        rule.name != "content-type"@,
        rule.name != "array-contains"@,
        (rule.name == "each-key"@ || rule.name == "each-value"@) ==> !rule.attributes.contains_key(
            "rules"@,
        ),
    ensures
        is_determined(rule),
{
}

/// What a value is held to by rules that read it in a plain way: equality compares it, a boolean,
/// an integer and a value that is not empty must be such, what is to be included must occur in it,
/// a rule on the type takes every value and a null rule none.
pub proof fn law_plain_rules_read_the_value(
    expected: Seq<char>,
    actual: Seq<char>,
    rule: RuleView,
    answers: Seq<AnswerView>,
    failure: Option<Seq<char>>,
    digits: Seq<char>,
)
    requires
        can_fail_with(expected, actual, rule, answers, failure),
    ensures
        rule.name == "type"@ || rule.name == "min-type"@ || rule.name == "max-type"@ || rule.name
            == "min-max-type"@ ==> failure is None,
        rule.name == "equality"@ || rule.name == "values"@ ==> failure == (if expected == actual {
            None
        } else {
            Some("Expected '"@ + actual + "' to be equal to '"@ + expected + "'"@)
        }),
        rule.name == "boolean"@ ==> failure == (if actual == "true"@ || actual == "false"@ {
            None
        } else {
            Some("Expected '"@ + actual + "' (String) to match a boolean"@)
        }),
        rule.name == "not-empty"@ ==> failure == (if actual.len() > 0 {
            None
        } else {
            Some("Expected '' (String) to not be empty"@)
        }),
        rule.name == "null"@ ==> failure == Some(
            "Unable to match '"@ + expected + "' using Null"@,
        ),
        rule.name == "integer"@ && ((actual == digits && !(actual.len() > 0 && actual[0] == '+'))
            || actual == seq!['+'] + digits) ==> {
            &&& failure is None <==> digits.len() > 0 && digits_value(digits) <= u64::MAX && (
            forall|i: int| 0 <= i < digits.len() ==> '0' <= #[trigger] digits[i] <= '9')
            &&& failure matches Some(text) ==> text == "Expected '"@ + actual
                + "' to match an integer number"@
        },
        rule.name == "include"@ && rule.attributes.contains_key("value"@) ==> (
        rule.attributes["value"@] matches AttributeView::Text(part) ==> failure == (if exists|i: int|
            0 <= i <= actual.len() - part.len() && #[trigger] actual.subrange(i, i + part.len())
                == part {
            None
        } else {
            Some("Expected '"@ + actual + "' to include '"@ + part + "'"@)
        })),
{
    lemma_plain_names();
    if actual == seq!['+'] + digits {
        assert(actual.drop_first() =~= digits);
    }
}

/// What a rule that is tried reports, where its outcome is determined and the value is not read in
/// a plain way, is what the engine reports for the two texts and the rule's attributes.
pub proof fn law_tried_rules_report_what_the_engine_finds(
    expected: Seq<char>,
    actual: Seq<char>,
    rule: RuleView,
    answers: Seq<AnswerView>,
    failure: Option<Seq<char>>,
)
    requires
        rule.name == "regex"@ || rule.name == "date"@ || rule.name == "time"@ || rule.name
            == "datetime"@ || rule.name == "number"@ || rule.name == "decimal"@,
        is_matchable(rule, actual),
        can_fail_with(expected, actual, rule, answers, failure),
    ensures
        failure == match_failure(expected, actual, rule.attributes, usize::BITS as int),
{
    lemma_plain_names();
    lemma_engine_names();
}

proof fn lemma_plain_names()
    ensures
        "type"@ != "regex"@ && "type"@ != "date"@ && "type"@ != "time"@ && "type"@ != "datetime"@
            && "type"@ != "content-type"@ && "type"@ != "array-contains"@ && "type"@ != "each-key"@
            && "type"@ != "each-value"@ && "type"@ != "number"@ && "type"@ != "decimal"@
            && "type"@ != "min-type"@ && "type"@ != "max-type"@ && "type"@ != "min-max-type"@
            && "type"@ != "equality"@ && "type"@ != "values"@ && "type"@ != "boolean"@
            && "type"@ != "not-empty"@ && "type"@ != "integer"@ && "type"@ != "null"@
            && "type"@ != "include"@,
        "min-type"@ != "regex"@ && "min-type"@ != "date"@ && "min-type"@ != "time"@
            && "min-type"@ != "datetime"@ && "min-type"@ != "content-type"@
            && "min-type"@ != "array-contains"@ && "min-type"@ != "each-key"@
            && "min-type"@ != "each-value"@ && "min-type"@ != "number"@
            && "min-type"@ != "decimal"@ && "min-type"@ != "type"@ && "min-type"@ != "max-type"@
            && "min-type"@ != "min-max-type"@ && "min-type"@ != "equality"@
            && "min-type"@ != "values"@ && "min-type"@ != "boolean"@ && "min-type"@ != "not-empty"@
            && "min-type"@ != "integer"@ && "min-type"@ != "null"@ && "min-type"@ != "include"@,
        "max-type"@ != "regex"@ && "max-type"@ != "date"@ && "max-type"@ != "time"@
            && "max-type"@ != "datetime"@ && "max-type"@ != "content-type"@
            && "max-type"@ != "array-contains"@ && "max-type"@ != "each-key"@
            && "max-type"@ != "each-value"@ && "max-type"@ != "number"@
            && "max-type"@ != "decimal"@ && "max-type"@ != "type"@ && "max-type"@ != "min-type"@
            && "max-type"@ != "min-max-type"@ && "max-type"@ != "equality"@
            && "max-type"@ != "values"@ && "max-type"@ != "boolean"@ && "max-type"@ != "not-empty"@
            && "max-type"@ != "integer"@ && "max-type"@ != "null"@ && "max-type"@ != "include"@,
        "min-max-type"@ != "regex"@ && "min-max-type"@ != "date"@ && "min-max-type"@ != "time"@
            && "min-max-type"@ != "datetime"@ && "min-max-type"@ != "content-type"@
            && "min-max-type"@ != "array-contains"@ && "min-max-type"@ != "each-key"@
            && "min-max-type"@ != "each-value"@ && "min-max-type"@ != "number"@
            && "min-max-type"@ != "decimal"@ && "min-max-type"@ != "type"@
            && "min-max-type"@ != "min-type"@ && "min-max-type"@ != "max-type"@
            && "min-max-type"@ != "equality"@ && "min-max-type"@ != "values"@
            && "min-max-type"@ != "boolean"@ && "min-max-type"@ != "not-empty"@
            && "min-max-type"@ != "integer"@ && "min-max-type"@ != "null"@
            && "min-max-type"@ != "include"@,
        "equality"@ != "regex"@ && "equality"@ != "date"@ && "equality"@ != "time"@
            && "equality"@ != "datetime"@ && "equality"@ != "content-type"@
            && "equality"@ != "array-contains"@ && "equality"@ != "each-key"@
            && "equality"@ != "each-value"@ && "equality"@ != "number"@
            && "equality"@ != "decimal"@ && "equality"@ != "type"@ && "equality"@ != "min-type"@
            && "equality"@ != "max-type"@ && "equality"@ != "min-max-type"@
            && "equality"@ != "values"@ && "equality"@ != "boolean"@ && "equality"@ != "not-empty"@
            && "equality"@ != "integer"@ && "equality"@ != "null"@ && "equality"@ != "include"@,
        "values"@ != "regex"@ && "values"@ != "date"@ && "values"@ != "time"@
            && "values"@ != "datetime"@ && "values"@ != "content-type"@
            && "values"@ != "array-contains"@ && "values"@ != "each-key"@
            && "values"@ != "each-value"@ && "values"@ != "number"@ && "values"@ != "decimal"@
            && "values"@ != "type"@ && "values"@ != "min-type"@ && "values"@ != "max-type"@
            && "values"@ != "min-max-type"@ && "values"@ != "equality"@ && "values"@ != "boolean"@
            && "values"@ != "not-empty"@ && "values"@ != "integer"@ && "values"@ != "null"@
            && "values"@ != "include"@,
        "boolean"@ != "regex"@ && "boolean"@ != "date"@ && "boolean"@ != "time"@
            && "boolean"@ != "datetime"@ && "boolean"@ != "content-type"@
            && "boolean"@ != "array-contains"@ && "boolean"@ != "each-key"@
            && "boolean"@ != "each-value"@ && "boolean"@ != "number"@ && "boolean"@ != "decimal"@
            && "boolean"@ != "type"@ && "boolean"@ != "min-type"@ && "boolean"@ != "max-type"@
            && "boolean"@ != "min-max-type"@ && "boolean"@ != "equality"@
            && "boolean"@ != "values"@ && "boolean"@ != "not-empty"@ && "boolean"@ != "integer"@
            && "boolean"@ != "null"@ && "boolean"@ != "include"@,
        "not-empty"@ != "regex"@ && "not-empty"@ != "date"@ && "not-empty"@ != "time"@
            && "not-empty"@ != "datetime"@ && "not-empty"@ != "content-type"@
            && "not-empty"@ != "array-contains"@ && "not-empty"@ != "each-key"@
            && "not-empty"@ != "each-value"@ && "not-empty"@ != "number"@
            && "not-empty"@ != "decimal"@ && "not-empty"@ != "type"@ && "not-empty"@ != "min-type"@
            && "not-empty"@ != "max-type"@ && "not-empty"@ != "min-max-type"@
            && "not-empty"@ != "equality"@ && "not-empty"@ != "values"@
            && "not-empty"@ != "boolean"@ && "not-empty"@ != "integer"@ && "not-empty"@ != "null"@
            && "not-empty"@ != "include"@,
        "integer"@ != "regex"@ && "integer"@ != "date"@ && "integer"@ != "time"@
            && "integer"@ != "datetime"@ && "integer"@ != "content-type"@
            && "integer"@ != "array-contains"@ && "integer"@ != "each-key"@
            && "integer"@ != "each-value"@ && "integer"@ != "number"@ && "integer"@ != "decimal"@
            && "integer"@ != "type"@ && "integer"@ != "min-type"@ && "integer"@ != "max-type"@
            && "integer"@ != "min-max-type"@ && "integer"@ != "equality"@
            && "integer"@ != "values"@ && "integer"@ != "boolean"@ && "integer"@ != "not-empty"@
            && "integer"@ != "null"@ && "integer"@ != "include"@,
        "null"@ != "regex"@ && "null"@ != "date"@ && "null"@ != "time"@ && "null"@ != "datetime"@
            && "null"@ != "content-type"@ && "null"@ != "array-contains"@ && "null"@ != "each-key"@
            && "null"@ != "each-value"@ && "null"@ != "number"@ && "null"@ != "decimal"@
            && "null"@ != "type"@ && "null"@ != "min-type"@ && "null"@ != "max-type"@
            && "null"@ != "min-max-type"@ && "null"@ != "equality"@ && "null"@ != "values"@
            && "null"@ != "boolean"@ && "null"@ != "not-empty"@ && "null"@ != "integer"@
            && "null"@ != "include"@,
        "include"@ != "regex"@ && "include"@ != "date"@ && "include"@ != "time"@
            && "include"@ != "datetime"@ && "include"@ != "content-type"@
            && "include"@ != "array-contains"@ && "include"@ != "each-key"@
            && "include"@ != "each-value"@ && "include"@ != "number"@ && "include"@ != "decimal"@
            && "include"@ != "type"@ && "include"@ != "min-type"@ && "include"@ != "max-type"@
            && "include"@ != "min-max-type"@ && "include"@ != "equality"@
            && "include"@ != "values"@ && "include"@ != "boolean"@ && "include"@ != "not-empty"@
            && "include"@ != "integer"@ && "include"@ != "null"@,
{
    reveal_strlit("regex");
    reveal_strlit("date");
    reveal_strlit("time");
    reveal_strlit("datetime");
    reveal_strlit("content-type");
    reveal_strlit("array-contains");
    reveal_strlit("each-key");
    reveal_strlit("each-value");
    reveal_strlit("number");
    reveal_strlit("decimal");
    reveal_strlit("type");
    reveal_strlit("min-type");
    reveal_strlit("max-type");
    reveal_strlit("min-max-type");
    reveal_strlit("equality");
    reveal_strlit("values");
    reveal_strlit("boolean");
    reveal_strlit("not-empty");
    reveal_strlit("integer");
    reveal_strlit("null");
    reveal_strlit("include");
    assert("regex"@.len() == 5);
    assert("date"@.len() == 4);
    assert("time"@.len() == 4);
    assert("datetime"@.len() == 8);
    assert("content-type"@.len() == 12);
    assert("array-contains"@.len() == 14);
    assert("each-key"@.len() == 8);
    assert("each-value"@.len() == 10);
    assert("number"@.len() == 6);
    assert("decimal"@.len() == 7);
    assert("type"@.len() == 4);
    assert("min-type"@.len() == 8);
    assert("max-type"@.len() == 8);
    assert("min-max-type"@.len() == 12);
    assert("equality"@.len() == 8);
    assert("values"@.len() == 6);
    assert("boolean"@.len() == 7);
    assert("not-empty"@.len() == 9);
    assert("integer"@.len() == 7);
    assert("null"@.len() == 4);
    assert("include"@.len() == 7);
    assert("type"@[0] == 't' && "date"@[0] == 'd');
    assert("type"@[1] == 'y' && "time"@[1] == 'i');
    assert("type"@[0] == 't' && "null"@[0] == 'n');
    assert("min-type"@[0] == 'm' && "datetime"@[0] == 'd');
    assert("min-type"@[0] == 'm' && "each-key"@[0] == 'e');
    assert("min-type"@[1] == 'i' && "max-type"@[1] == 'a');
    assert("min-type"@[0] == 'm' && "equality"@[0] == 'e');
    assert("max-type"@[0] == 'm' && "datetime"@[0] == 'd');
    assert("max-type"@[0] == 'm' && "each-key"@[0] == 'e');
    assert("max-type"@[1] == 'a' && "min-type"@[1] == 'i');
    assert("max-type"@[0] == 'm' && "equality"@[0] == 'e');
    assert("min-max-type"@[0] == 'm' && "content-type"@[0] == 'c');
    assert("equality"@[0] == 'e' && "datetime"@[0] == 'd');
    assert("equality"@[1] == 'q' && "each-key"@[1] == 'a');
    assert("equality"@[0] == 'e' && "min-type"@[0] == 'm');
    assert("equality"@[0] == 'e' && "max-type"@[0] == 'm');
    assert("values"@[0] == 'v' && "number"@[0] == 'n');
    assert("boolean"@[0] == 'b' && "decimal"@[0] == 'd');
    assert("boolean"@[0] == 'b' && "integer"@[0] == 'i');
    assert("boolean"@[0] == 'b' && "include"@[0] == 'i');
    assert("integer"@[0] == 'i' && "decimal"@[0] == 'd');
    assert("integer"@[0] == 'i' && "boolean"@[0] == 'b');
    assert("integer"@[2] == 't' && "include"@[2] == 'c');
    assert("null"@[0] == 'n' && "date"@[0] == 'd');
    assert("null"@[0] == 'n' && "time"@[0] == 't');
    assert("null"@[0] == 'n' && "type"@[0] == 't');
    assert("include"@[0] == 'i' && "decimal"@[0] == 'd');
    assert("include"@[0] == 'i' && "boolean"@[0] == 'b');
    assert("include"@[2] == 'c' && "integer"@[2] == 't');
}

proof fn lemma_engine_names()
    ensures
        "regex"@ != "date"@ && "regex"@ != "time"@ && "regex"@ != "datetime"@
            && "regex"@ != "content-type"@ && "regex"@ != "array-contains"@
            && "regex"@ != "each-key"@ && "regex"@ != "each-value"@ && "regex"@ != "number"@
            && "regex"@ != "decimal"@ && "regex"@ != "type"@ && "regex"@ != "min-type"@
            && "regex"@ != "max-type"@ && "regex"@ != "min-max-type"@ && "regex"@ != "equality"@
            && "regex"@ != "values"@ && "regex"@ != "boolean"@ && "regex"@ != "not-empty"@
            && "regex"@ != "integer"@ && "regex"@ != "null"@ && "regex"@ != "include"@,
        "date"@ != "regex"@ && "date"@ != "time"@ && "date"@ != "datetime"@
            && "date"@ != "content-type"@ && "date"@ != "array-contains"@ && "date"@ != "each-key"@
            && "date"@ != "each-value"@ && "date"@ != "number"@ && "date"@ != "decimal"@
            && "date"@ != "type"@ && "date"@ != "min-type"@ && "date"@ != "max-type"@
            && "date"@ != "min-max-type"@ && "date"@ != "equality"@ && "date"@ != "values"@
            && "date"@ != "boolean"@ && "date"@ != "not-empty"@ && "date"@ != "integer"@
            && "date"@ != "null"@ && "date"@ != "include"@,
        "time"@ != "regex"@ && "time"@ != "date"@ && "time"@ != "datetime"@
            && "time"@ != "content-type"@ && "time"@ != "array-contains"@ && "time"@ != "each-key"@
            && "time"@ != "each-value"@ && "time"@ != "number"@ && "time"@ != "decimal"@
            && "time"@ != "type"@ && "time"@ != "min-type"@ && "time"@ != "max-type"@
            && "time"@ != "min-max-type"@ && "time"@ != "equality"@ && "time"@ != "values"@
            && "time"@ != "boolean"@ && "time"@ != "not-empty"@ && "time"@ != "integer"@
            && "time"@ != "null"@ && "time"@ != "include"@,
        "datetime"@ != "regex"@ && "datetime"@ != "date"@ && "datetime"@ != "time"@
            && "datetime"@ != "content-type"@ && "datetime"@ != "array-contains"@
            && "datetime"@ != "each-key"@ && "datetime"@ != "each-value"@
            && "datetime"@ != "number"@ && "datetime"@ != "decimal"@ && "datetime"@ != "type"@
            && "datetime"@ != "min-type"@ && "datetime"@ != "max-type"@
            && "datetime"@ != "min-max-type"@ && "datetime"@ != "equality"@
            && "datetime"@ != "values"@ && "datetime"@ != "boolean"@ && "datetime"@ != "not-empty"@
            && "datetime"@ != "integer"@ && "datetime"@ != "null"@ && "datetime"@ != "include"@,
        "number"@ != "regex"@ && "number"@ != "date"@ && "number"@ != "time"@
            && "number"@ != "datetime"@ && "number"@ != "content-type"@
            && "number"@ != "array-contains"@ && "number"@ != "each-key"@
            && "number"@ != "each-value"@ && "number"@ != "decimal"@ && "number"@ != "type"@
            && "number"@ != "min-type"@ && "number"@ != "max-type"@ && "number"@ != "min-max-type"@
            && "number"@ != "equality"@ && "number"@ != "values"@ && "number"@ != "boolean"@
            && "number"@ != "not-empty"@ && "number"@ != "integer"@ && "number"@ != "null"@
            && "number"@ != "include"@,
        "decimal"@ != "regex"@ && "decimal"@ != "date"@ && "decimal"@ != "time"@
            && "decimal"@ != "datetime"@ && "decimal"@ != "content-type"@
            && "decimal"@ != "array-contains"@ && "decimal"@ != "each-key"@
            && "decimal"@ != "each-value"@ && "decimal"@ != "number"@ && "decimal"@ != "type"@
            && "decimal"@ != "min-type"@ && "decimal"@ != "max-type"@
            && "decimal"@ != "min-max-type"@ && "decimal"@ != "equality"@
            && "decimal"@ != "values"@ && "decimal"@ != "boolean"@ && "decimal"@ != "not-empty"@
            && "decimal"@ != "integer"@ && "decimal"@ != "null"@ && "decimal"@ != "include"@,
{
    reveal_strlit("regex");
    reveal_strlit("date");
    reveal_strlit("time");
    reveal_strlit("datetime");
    reveal_strlit("content-type");
    reveal_strlit("array-contains");
    reveal_strlit("each-key");
    reveal_strlit("each-value");
    reveal_strlit("number");
    reveal_strlit("decimal");
    reveal_strlit("type");
    reveal_strlit("min-type");
    reveal_strlit("max-type");
    reveal_strlit("min-max-type");
    reveal_strlit("equality");
    reveal_strlit("values");
    reveal_strlit("boolean");
    reveal_strlit("not-empty");
    reveal_strlit("integer");
    reveal_strlit("null");
    reveal_strlit("include");
    assert("regex"@.len() == 5);
    assert("date"@.len() == 4);
    assert("time"@.len() == 4);
    assert("datetime"@.len() == 8);
    assert("content-type"@.len() == 12);
    assert("array-contains"@.len() == 14);
    assert("each-key"@.len() == 8);
    assert("each-value"@.len() == 10);
    assert("number"@.len() == 6);
    assert("decimal"@.len() == 7);
    assert("type"@.len() == 4);
    assert("min-type"@.len() == 8);
    assert("max-type"@.len() == 8);
    assert("min-max-type"@.len() == 12);
    assert("equality"@.len() == 8);
    assert("values"@.len() == 6);
    assert("boolean"@.len() == 7);
    assert("not-empty"@.len() == 9);
    assert("integer"@.len() == 7);
    assert("null"@.len() == 4);
    assert("include"@.len() == 7);
    assert("date"@[0] == 'd' && "time"@[0] == 't');
    assert("date"@[0] == 'd' && "type"@[0] == 't');
    assert("date"@[0] == 'd' && "null"@[0] == 'n');
    assert("time"@[0] == 't' && "date"@[0] == 'd');
    assert("time"@[1] == 'i' && "type"@[1] == 'y');
    assert("time"@[0] == 't' && "null"@[0] == 'n');
    assert("datetime"@[0] == 'd' && "each-key"@[0] == 'e');
    assert("datetime"@[0] == 'd' && "min-type"@[0] == 'm');
    assert("datetime"@[0] == 'd' && "max-type"@[0] == 'm');
    assert("datetime"@[0] == 'd' && "equality"@[0] == 'e');
    assert("number"@[0] == 'n' && "values"@[0] == 'v');
    assert("decimal"@[0] == 'd' && "boolean"@[0] == 'b');
    assert("decimal"@[0] == 'd' && "integer"@[0] == 'i');
    assert("decimal"@[0] == 'd' && "include"@[0] == 'i');
}

} // verus!
