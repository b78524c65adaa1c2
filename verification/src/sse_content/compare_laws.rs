//! What holds of comparing event streams as a whole.

use crate::parser::{field_key, FieldErrorKind, FieldKeyView};
use crate::parser_laws::{law_notations_agree, law_path_defines_key};
use crate::rules::{
    accepts_any_text, answer_to, can_fail_with, has_rules, is_determined, is_matchable, is_settled,
    notations, open_questions, question_of, refuses_any_text, rule_failure, rule_setting,
    rules_under, AnswerView, FieldReportView, QuestionView, RuleView,
};
use crate::sse_content::compare::{
    all_questions, all_reports, can_report_field, comparison, count_mismatches, data_mismatches,
    event_mismatches, event_questions, event_report, failure_mismatches, field_questions,
    first_mismatches, first_questions, held_mismatches, id_mismatches, is_comparison, key_of,
    mismatches_of, no_answers, paired, reported_mismatches, retry_mismatches, stream_questions,
    type_mismatches, CompareContentsResponse, EventReportView, MismatchView,
};
use crate::sse_content::event::{events_of, EventView};
use vstd::prelude::*;

verus! {

/// Whether a field that is there on both sides is accepted: by every rule that reported on it, and
/// where there are no rules for it, by being equal.
pub open spec fn is_value_accepted(
    expected: Seq<char>,
    actual: Seq<char>,
    report: FieldReportView,
) -> bool {
    match report {
        Some(failures) => forall|i: int|
            0 <= i < failures.len() ==> (#[trigger] failures[i]) is None,
        None => expected == actual,
    }
}

/// Whether a field that may be missing in what came is accepted.
pub open spec fn is_optional_accepted(
    expected: Option<Seq<char>>,
    actual: Option<Seq<char>>,
    report: FieldReportView,
) -> bool {
    match (expected, actual) {
        (Some(e), Some(a)) => is_value_accepted(e, a, report),
        _ => true,
    }
}

/// Whether a field that must be there where it is expected is accepted.
pub open spec fn is_required_accepted(
    expected: Option<Seq<char>>,
    actual: Option<Seq<char>>,
    report: FieldReportView,
) -> bool {
    match (expected, actual) {
        (Some(e), Some(a)) => is_value_accepted(e, a, report),
        (Some(_), None) => false,
        _ => true,
    }
}

/// Whether an event is accepted for the one that was expected.
pub open spec fn is_event_accepted(
    exp: EventView,
    act: EventView,
    report: EventReportView,
) -> bool {
    &&& is_optional_accepted(exp.event, act.event, report.event)
    &&& is_required_accepted(exp.id, act.id, report.id)
    &&& is_required_accepted(exp.data, act.data, report.data)
    &&& is_optional_accepted(exp.retry, act.retry, report.retry)
}

proof fn lemma_failure_mismatches(
    expected: Seq<char>,
    actual: Seq<char>,
    failures: Seq<Option<Seq<char>>>,
    path: Seq<char>,
)
    ensures
        failure_mismatches(expected, actual, failures, path).len() == 0 <==> forall|i: int|
            0 <= i < failures.len() ==> (#[trigger] failures[i]) is None,
    decreases failures.len(),
{
    if failures.len() > 0 {
        let init = failures.drop_last();
        lemma_failure_mismatches(expected, actual, init, path);
        if failure_mismatches(expected, actual, failures, path).len() == 0 {
            assert forall|i: int| 0 <= i < failures.len() implies (
            #[trigger] failures[i]) is None by {
                if i < init.len() {
                    assert(init[i] == failures[i]);
                }
            }
        } else if forall|i: int| 0 <= i < failures.len() ==> (#[trigger] failures[i]) is None {
            assert forall|i: int| 0 <= i < init.len() implies (#[trigger] init[i]) is None by {
                assert(init[i] == failures[i]);
            }
        }
    }
}

proof fn lemma_held_mismatches(
    expected: Seq<char>,
    actual: Seq<char>,
    report: FieldReportView,
    unequal: Seq<char>,
    path: Seq<char>,
)
    ensures
        held_mismatches(expected, actual, report, unequal, path).len() == 0 <==> is_value_accepted(
            expected,
            actual,
            report,
        ),
{
    if let Some(failures) = report {
        lemma_failure_mismatches(expected, actual, failures, path);
    }
}

/// An event gives no mismatch if and only if each of its expected fields is accepted: the
/// identifier and the data must be there, the event type and the reconnection time may be missing.
pub proof fn law_event_without_mismatches(
    index: nat,
    exp: EventView,
    act: EventView,
    report: EventReportView,
)
    ensures
        event_mismatches(index, exp, act, report).len() == 0 <==> is_event_accepted(
            exp,
            act,
            report,
        ),
{
    assert forall|e: Seq<char>, a: Seq<char>, r: FieldReportView, u: Seq<char>, p: Seq<char>|
        (#[trigger] held_mismatches(e, a, r, u, p)).len() == 0 <==> is_value_accepted(e, a, r) by {
        lemma_held_mismatches(e, a, r, u, p);
    }
    let types = type_mismatches(index, exp, act, report.event);
    let ids = id_mismatches(index, exp, act, report.id);
    let data = data_mismatches(index, exp, act, report.data);
    let retries = retry_mismatches(index, exp, act, report.retry);
    assert(types.len() == 0 <==> is_optional_accepted(exp.event, act.event, report.event));
    assert(ids.len() == 0 <==> is_required_accepted(exp.id, act.id, report.id));
    assert(data.len() == 0 <==> is_required_accepted(exp.data, act.data, report.data));
    assert(retries.len() == 0 <==> is_optional_accepted(exp.retry, act.retry, report.retry));
}

/// Streams give no mismatch if and only if they have as many events as were expected and each of
/// them is accepted.
pub proof fn law_streams_without_mismatches(
    exp: Seq<EventView>,
    act: Seq<EventView>,
    reports: Seq<EventReportView>,
)
    requires
        reports.len() == paired(exp, act),
    ensures
        reported_mismatches(exp, act, reports).len() == 0 <==> {
            &&& exp.len() == act.len()
            &&& forall|i: int|
                0 <= i < exp.len() ==> is_event_accepted(exp[i], act[i], #[trigger] reports[i])
        },
{
    lemma_first_mismatches(exp, act, reports, paired(exp, act));
}

proof fn lemma_first_mismatches(
    exp: Seq<EventView>,
    act: Seq<EventView>,
    reports: Seq<EventReportView>,
    n: nat,
)
    requires
        n <= reports.len() == paired(exp, act),
    ensures
        first_mismatches(exp, act, reports, n).len() == 0 <==> forall|i: int|
            0 <= i < n ==> is_event_accepted(exp[i], act[i], #[trigger] reports[i]),
    decreases n,
{
    if n > 0 {
        let i = (n - 1) as nat;
        lemma_first_mismatches(exp, act, reports, i);
        law_event_without_mismatches(i, exp[i as int], act[i as int], reports[i as int]);
        assert(first_mismatches(exp, act, reports, n).len() == first_mismatches(
            exp,
            act,
            reports,
            i,
        ).len() + event_mismatches(i, exp[i as int], act[i as int], reports[i as int]).len());
    }
}

/// Without rules a stream matches itself, and no questions are to be answered.
pub proof fn law_stream_matches_itself(events: Seq<EventView>, answers: Seq<AnswerView>)
    ensures
        mismatches_of(Map::empty(), events, events, answers) == Seq::<MismatchView>::empty(),
        all_questions(Map::empty(), events, events, answers).len() == 0,
{
    let reports = all_reports(Map::empty(), events, events, answers);
    assert forall|i: int| 0 <= i < events.len() implies is_event_accepted(
        events[i],
        events[i],
        #[trigger] reports[i],
    ) by {
        assert(reports[i] == event_report(Map::empty(), events[i], events[i], answers));
        assert(!has_rules(Map::empty(), notations(key_of("event"@, None))));
    }
    law_streams_without_mismatches(events, events, reports);
    assert(mismatches_of(Map::empty(), events, events, answers) =~= Seq::empty());
    lemma_no_questions(events, events, answers, paired(events, events));
}

proof fn lemma_no_questions(
    exp: Seq<EventView>,
    act: Seq<EventView>,
    answers: Seq<AnswerView>,
    n: nat,
)
    ensures
        first_questions(Map::empty(), exp, act, answers, n).len() == 0,
    decreases n,
{
    if n > 0 {
        lemma_no_questions(exp, act, answers, (n - 1) as nat);
        assert forall|keys: Seq<Seq<char>>| (#[trigger] rules_under(Map::empty(), keys)).len()
            == 0 by {
            lemma_nothing_under(keys);
        }
        assert(event_questions(Map::empty(), exp[n - 1], act[n - 1], answers).len() == 0);
    }
}

proof fn lemma_nothing_under(keys: Seq<Seq<char>>)
    ensures
        rules_under(Map::empty(), keys).len() == 0,
    decreases keys.len(),
{
    if keys.len() > 0 {
        lemma_nothing_under(keys.drop_last());
    }
}

/// What was not expected makes no difference: events that agree in the expected fields give the
/// same mismatches.
pub proof fn law_unexpected_fields_make_no_difference(
    index: nat,
    exp: EventView,
    act: EventView,
    other: EventView,
    report: EventReportView,
)
    requires
        exp.event is Some ==> act.event == other.event,
        exp.id is Some ==> act.id == other.id,
        exp.data is Some ==> act.data == other.data,
        exp.retry is Some ==> act.retry == other.retry,
    ensures
        event_mismatches(index, exp, act, report) == event_mismatches(index, exp, other, report),
{
}

/// Another number of events than expected is always a mismatch, and the first one.
pub proof fn law_counts_are_compared_first(
    exp: Seq<EventView>,
    act: Seq<EventView>,
    reports: Seq<EventReportView>,
)
    requires
        exp.len() != act.len(),
    ensures
        reported_mismatches(exp, act, reports).len() > 0,
        reported_mismatches(exp, act, reports)[0] == count_mismatches(exp.len(), act.len())[0],
{
}

/// A field for which there are only rules on its type is accepted whatever it holds.
pub proof fn law_type_rules_accept_every_value(
    table: Map<Seq<char>, Seq<RuleView>>,
    key: FieldKeyView,
    expected: Seq<char>,
    actual: Seq<char>,
    answers: Seq<AnswerView>,
    report: FieldReportView,
)
    requires
        has_rules(table, notations(key)),
        forall|i: int|
            0 <= i < rules_under(table, notations(key)).len() ==> accepts_any_text(
                (#[trigger] rules_under(table, notations(key))[i]).name,
            ),
        can_report_field(table, key, Some(expected), Some(actual), answers, report),
    ensures
        is_value_accepted(expected, actual, report),
{
    let rules = rules_under(table, notations(key));
    let failures = report->0;
    assert forall|i: int| 0 <= i < failures.len() implies (#[trigger] failures[i]) is None by {
        assert(accepts_any_text(rules[i].name));
        assert(can_fail_with(expected, actual, rules[i], answers, failures[i]));
        lemma_plain_rule(rules[i]);
    }
}

/// Rules on the type and on equality are tried, and their outcome is determined.
proof fn lemma_plain_rule(rule: RuleView)
    requires
        accepts_any_text(rule.name) || rule.name == "equality"@,
    ensures
        rule_setting(rule) is None,
        is_determined(rule),
        !refuses_any_text(rule.name),
{
    reveal_strlit("type");
    reveal_strlit("min-type");
    reveal_strlit("max-type");
    reveal_strlit("min-max-type");
    reveal_strlit("equality");
    reveal_strlit("array-contains");
    reveal_strlit("each-key");
    reveal_strlit("each-value");
    reveal_strlit("content-type");
    reveal_strlit("regex");
    reveal_strlit("date");
    reveal_strlit("time");
    reveal_strlit("datetime");
    let name = rule.name;
    assert((name[0] == 't' && name[1] == 'y') || name[0] == 'm' || (name[0] == 'e' && name[1]
        == 'q'));
    assert("array-contains"@[0] == 'a' && "each-key"@[1] == 'a' && "each-value"@[1] == 'a'
        && "content-type"@[0] == 'c' && "regex"@[0] == 'r' && "date"@[0] == 'd' && "datetime"@[0]
        == 'd' && "time"@[1] == 'i');
    assert("each-key"@[0] == 'e' && "each-value"@[0] == 'e' && "time"@[0] == 't');
}

/// Rules are found under every notation of a field, and every notation defines the field it is for.
pub proof fn law_rules_are_found_under_every_notation(
    table: Map<Seq<char>, Seq<RuleView>>,
    key: FieldKeyView,
    i: int,
)
    requires
        key.is_definable(),
        0 <= i < notations(key).len(),
        table.contains_key(notations(key)[i]),
    ensures
        field_key(notations(key)[i]) == Ok::<FieldKeyView, FieldErrorKind>(key),
        has_rules(table, notations(key)),
        forall|k: int|
            0 <= k < table[notations(key)[i]].len() ==> rules_under(
                table,
                notations(key),
            ).contains(#[trigger] table[notations(key)[i]][k]),
{
    lemma_notations_define(key, i);
    lemma_rules_under(table, notations(key), i);
}

proof fn lemma_notations_define(key: FieldKeyView, i: int)
    requires
        key.is_definable(),
        0 <= i < notations(key).len(),
    ensures
        field_key(notations(key)[i]) == Ok::<FieldKeyView, FieldErrorKind>(key),
{
    law_path_defines_key(key);
    match key.event_type {
        Some(t) => law_notations_agree(key.field, t),
        None => law_notations_agree(key.field, key.field),
    }
}

proof fn lemma_rules_under(
    table: Map<Seq<char>, Seq<RuleView>>,
    keys: Seq<Seq<char>>,
    i: int,
)
    requires
        0 <= i < keys.len(),
        table.contains_key(keys[i]),
    ensures
        forall|k: int|
            0 <= k < table[keys[i]].len() ==> rules_under(table, keys).contains(
                #[trigger] table[keys[i]][k],
            ),
    decreases keys.len(),
{
    let init = keys.drop_last();
    let earlier = rules_under(table, init);
    let all = rules_under(table, keys);
    if i < init.len() {
        lemma_rules_under(table, init, i);
        assert(init[i] == keys[i]);
        assert forall|k: int| 0 <= k < table[keys[i]].len() implies all.contains(
            #[trigger] table[keys[i]][k],
        ) by {
            assert(earlier.contains(table[keys[i]][k]));
            let j = choose|j: int| 0 <= j < earlier.len() && earlier[j] == table[keys[i]][k];
            assert(all[j] == earlier[j]);
        }
    } else {
        assert forall|k: int| 0 <= k < table[keys[i]].len() implies all.contains(
            #[trigger] table[keys[i]][k],
        ) by {
            assert(all[earlier.len() + k] == table[keys[i]][k]);
        }
    }
}

/// The path of a field is one of its notations: rules that were set up for a definition, which are
/// filed under the path, are found for the field that it defines.
pub proof fn law_rules_are_found_under_the_path(
    table: Map<Seq<char>, Seq<RuleView>>,
    key: FieldKeyView,
)
    ensures
        notations(key).contains(key.path()),
        table.contains_key(key.path()) ==> has_rules(table, notations(key)),
{
    let n = notations(key);
    assert(n[n.len() - 1] == key.path());
}

/// No rules serve two fields: a notation of one field is never a notation of another, so that the
/// rules for events of one type are found neither for events of another type nor for events without
/// a type.
pub proof fn law_fields_share_no_notation(a: FieldKeyView, b: FieldKeyView, i: int, j: int)
    requires
        a.is_definable(),
        b.is_definable(),
        a != b,
        0 <= i < notations(a).len(),
        0 <= j < notations(b).len(),
    ensures
        notations(a)[i] != notations(b)[j],
{
    lemma_notations_define(a, i);
    lemma_notations_define(b, j);
}

/// A field for which the only rule is one on equality is accepted if and only if it is equal, as it
/// is without rules.
pub proof fn law_equality_rules_accept_equal_values(
    table: Map<Seq<char>, Seq<RuleView>>,
    key: FieldKeyView,
    expected: Seq<char>,
    actual: Seq<char>,
    answers: Seq<AnswerView>,
    report: FieldReportView,
)
    requires
        has_rules(table, notations(key)),
        rules_under(table, notations(key)).len() == 1,
        rules_under(table, notations(key))[0].name == "equality"@,
        can_report_field(table, key, Some(expected), Some(actual), answers, report),
    ensures
        is_value_accepted(expected, actual, report) <==> expected == actual,
{
    let rule = rules_under(table, notations(key))[0];
    let failures = report->0;
    lemma_plain_rule(rule);
    reveal_strlit("equality");
    reveal_strlit("type");
    reveal_strlit("min-type");
    reveal_strlit("max-type");
    reveal_strlit("min-max-type");
    assert(rule.name[0] == 'e' && "type"@[0] == 't' && "min-type"@[0] == 'm' && "max-type"@[0]
        == 'm' && "min-max-type"@[0] == 'm');
    assert(can_fail_with(expected, actual, rule, answers, failures[0]));
    assert(failures[0] == rule_failure(expected, actual, rule));
}

/// A rule that cannot safely be tried is taken to report what the answer to its question says.
pub proof fn law_answers_stand_for_rules_that_are_not_tried(
    expected: Seq<char>,
    actual: Seq<char>,
    rule: RuleView,
    answers: Seq<AnswerView>,
    failure: Option<Seq<char>>,
)
    requires
        !is_matchable(rule, actual),
        answer_to(answers, question_of(expected, actual, rule)) is Some,
    ensures
        is_settled(expected, actual, rule, answers),
        can_fail_with(expected, actual, rule, answers, failure) <==> Some(failure) == answer_to(
            answers,
            question_of(expected, actual, rule),
        ),
{
}

/// All the questions have answers.
pub open spec fn are_answered(answers: Seq<AnswerView>, questions: Seq<QuestionView>) -> bool {
    forall|i: int|
        0 <= i < questions.len() ==> answer_to(answers, #[trigger] questions[i]) is Some
}

proof fn lemma_parts_answered(
    answers: Seq<AnswerView>,
    a: Seq<QuestionView>,
    b: Seq<QuestionView>,
)
    requires
        are_answered(answers, a + b),
    ensures
        are_answered(answers, a),
        are_answered(answers, b),
{
    assert forall|i: int| 0 <= i < a.len() implies answer_to(answers, #[trigger] a[i]) is Some by {
        assert((a + b)[i] == a[i]);
    }
    assert forall|i: int| 0 <= i < b.len() implies answer_to(answers, #[trigger] b[i]) is Some by {
        assert((a + b)[a.len() + i] == b[i]);
    }
}

proof fn lemma_rules_answered(
    expected: Seq<char>,
    actual: Seq<char>,
    rules: Seq<RuleView>,
    answers: Seq<AnswerView>,
)
    requires
        are_answered(answers, open_questions(expected, actual, rules, no_answers())),
    ensures
        open_questions(expected, actual, rules, answers).len() == 0,
    decreases rules.len(),
{
    if rules.len() > 0 {
        let earlier = open_questions(expected, actual, rules.drop_last(), no_answers());
        let q = question_of(expected, actual, rules.last());
        if is_settled(expected, actual, rules.last(), no_answers()) {
            lemma_rules_answered(expected, actual, rules.drop_last(), answers);
        } else {
            assert(earlier.push(q) =~= earlier + seq![q]);
            lemma_parts_answered(answers, earlier, seq![q]);
            lemma_rules_answered(expected, actual, rules.drop_last(), answers);
            assert(seq![q][0] == q);
        }
    }
}

proof fn lemma_field_answered(
    table: Map<Seq<char>, Seq<RuleView>>,
    key: FieldKeyView,
    expected: Option<Seq<char>>,
    actual: Option<Seq<char>>,
    answers: Seq<AnswerView>,
)
    requires
        are_answered(answers, field_questions(table, key, expected, actual, no_answers())),
    ensures
        field_questions(table, key, expected, actual, answers).len() == 0,
{
    if let (Some(e), Some(a)) = (expected, actual) {
        lemma_rules_answered(e, a, rules_under(table, notations(key)), answers);
    }
}

proof fn lemma_events_answered(
    table: Map<Seq<char>, Seq<RuleView>>,
    exp: Seq<EventView>,
    act: Seq<EventView>,
    answers: Seq<AnswerView>,
    n: nat,
)
    requires
        are_answered(answers, first_questions(table, exp, act, no_answers(), n)),
    ensures
        first_questions(table, exp, act, answers, n).len() == 0,
    decreases n,
{
    if n > 0 {
        let none = no_answers();
        let (e, a) = (exp[n - 1], act[n - 1]);
        let event = field_questions(table, key_of("event"@, None), e.event, a.event, none);
        let id = field_questions(table, key_of("id"@, e.event), e.id, a.id, none);
        let data = field_questions(table, key_of("data"@, e.event), e.data, a.data, none);
        let retry = field_questions(table, key_of("retry"@, None), e.retry, a.retry, none);
        lemma_parts_answered(
            answers,
            first_questions(table, exp, act, none, (n - 1) as nat),
            event_questions(table, e, a, none),
        );
        lemma_parts_answered(answers, event + id + data, retry);
        lemma_parts_answered(answers, event + id, data);
        lemma_parts_answered(answers, event, id);
        lemma_field_answered(table, key_of("event"@, None), e.event, a.event, answers);
        lemma_field_answered(table, key_of("id"@, e.event), e.id, a.id, answers);
        lemma_field_answered(table, key_of("data"@, e.event), e.data, a.data, answers);
        lemma_field_answered(table, key_of("retry"@, None), e.retry, a.retry, answers);
        lemma_events_answered(table, exp, act, answers, (n - 1) as nat);
    }
}

/// Streams are compared once the questions that come up without any answers are answered, whatever
/// the streams, the rules and the answers are: no others come up.
pub proof fn law_answered_questions_are_the_last(
    expected: Seq<char>,
    actual: Seq<char>,
    table: Map<Seq<char>, Seq<RuleView>>,
    answers: Seq<AnswerView>,
)
    requires
        are_answered(answers, stream_questions(expected, actual, table, no_answers())),
    ensures
        stream_questions(expected, actual, table, answers).len() == 0,
{
    let (exp, act) = (events_of(expected), events_of(actual));
    lemma_events_answered(table, exp, act, answers, paired(exp, act));
}

/// The flag for fields that were not expected has no influence: a comparison can have the same
/// outcomes with it and without it, whatever the rules are.
pub proof fn law_allowing_unexpected_keys_makes_no_difference(
    expected: Seq<char>,
    actual: Seq<char>,
    table: Map<Seq<char>, Seq<RuleView>>,
    answers: Seq<AnswerView>,
    response: CompareContentsResponse,
)
    ensures
        is_comparison(expected, actual, true, table, answers, response) <==> is_comparison(
            expected,
            actual,
            false,
            table,
            answers,
            response,
        ),
        comparison(expected, actual, true, table, answers) == comparison(
            expected,
            actual,
            false,
            table,
            answers,
        ),
{
}

} // verus!
