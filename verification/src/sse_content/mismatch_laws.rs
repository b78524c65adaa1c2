//! What the mismatches of a comparison are, event by event and field by field.

use crate::parser::FieldKeyView;
use crate::rules::{
    can_fail_with, has_rules, is_determined, notations, open_questions, rules_under, AnswerView,
    FieldReportView, QuestionView, RuleView,
};
use crate::sse_content::compare::{
    all_questions, can_mismatch, can_report, can_report_all, can_report_field, event_mismatches,
    event_questions, failure_mismatches, first_mismatches, first_questions, is_comparison,
    is_table_determined, key_of, lemma_determined_reports, mismatches_of, paired, pathless,
    reported_mismatches, stream_questions, CompareContentsResponse, EventReportView, MismatchView,
};
use crate::sse_content::compare_laws::{is_event_accepted, law_streams_without_mismatches};
use crate::sse_content::event::{events_of, EventView};
use crate::text::decimal;
use vstd::prelude::*;
use vstd::utf8::encode_utf8;

verus! {

/// The rules that are filed under a key; none where nothing is.
pub open spec fn filed_at(table: Map<Seq<char>, Seq<RuleView>>, key: Seq<char>) -> Seq<RuleView> {
    if table.contains_key(key) {
        table[key]
    } else {
        seq![]
    }
}

/// Whether a field is reported on so by the rules: each says what it can say of the value, in their
/// order. Without a list of rules, and where the field is missing on one side, nothing is reported.
pub open spec fn is_report_by(
    rules: Seq<RuleView>,
    has_list: bool,
    expected: Option<Seq<char>>,
    actual: Option<Seq<char>>,
    answers: Seq<AnswerView>,
    report: FieldReportView,
) -> bool {
    if has_list && expected is Some && actual is Some {
        &&& report is Some
        &&& report->0.len() == rules.len()
        &&& forall|i: int|
            0 <= i < rules.len() ==> can_fail_with(
                expected->0,
                actual->0,
                #[trigger] rules[i],
                answers,
                report->0[i],
            )
    } else {
        report is None
    }
}

/// Every field of an expected event is held to its own rules and to no others. The data and the
/// identifier of an event of type `t` are held to those that are filed under `data[t][*]`,
/// `data[t]` and `data.t.*`, and under the same for `id`; those of an event without a type to those
/// under `data[*]` and `data.*`, and the same for `id`; the type to those under `event`, and the
/// reconnection time to those under `retry`.
pub proof fn law_fields_are_held_to_their_own_rules(
    table: Map<Seq<char>, Seq<RuleView>>,
    exp: EventView,
    act: EventView,
    answers: Seq<AnswerView>,
    report: EventReportView,
)
    ensures
        can_report(table, exp, act, answers, report) <==> {
            &&& is_report_by(
                filed_at(table, "event"@),
                table.contains_key("event"@),
                exp.event,
                act.event,
                answers,
                report.event,
            )
            &&& is_report_by(
                filed_at(table, "retry"@),
                table.contains_key("retry"@),
                exp.retry,
                act.retry,
                answers,
                report.retry,
            )
            &&& match exp.event {
                Some(t) => {
                    &&& is_report_by(
                        filed_at(table, "data["@ + t + "][*]"@) + filed_at(
                            table,
                            "data["@ + t + "]"@,
                        ) + filed_at(table, "data."@ + t + ".*"@),
                        table.contains_key("data["@ + t + "][*]"@) || table.contains_key(
                            "data["@ + t + "]"@,
                        ) || table.contains_key("data."@ + t + ".*"@),
                        exp.data,
                        act.data,
                        answers,
                        report.data,
                    )
                    &&& is_report_by(
                        filed_at(table, "id["@ + t + "][*]"@) + filed_at(table, "id["@ + t + "]"@)
                            + filed_at(table, "id."@ + t + ".*"@),
                        table.contains_key("id["@ + t + "][*]"@) || table.contains_key(
                            "id["@ + t + "]"@,
                        ) || table.contains_key("id."@ + t + ".*"@),
                        exp.id,
                        act.id,
                        answers,
                        report.id,
                    )
                },
                None => {
                    &&& is_report_by(
                        filed_at(table, "data[*]"@) + filed_at(table, "data.*"@),
                        table.contains_key("data[*]"@) || table.contains_key("data.*"@),
                        exp.data,
                        act.data,
                        answers,
                        report.data,
                    )
                    &&& is_report_by(
                        filed_at(table, "id[*]"@) + filed_at(table, "id.*"@),
                        table.contains_key("id[*]"@) || table.contains_key("id.*"@),
                        exp.id,
                        act.id,
                        answers,
                        report.id,
                    )
                },
            }
        },
{
    lemma_one_key(table, "event"@);
    lemma_one_key(table, "retry"@);
    lemma_keys_of("data"@, exp.event);
    lemma_keys_of("id"@, exp.event);
    lemma_two_keys(table, "data[*]"@, "data.*"@);
    lemma_two_keys(table, "id[*]"@, "id.*"@);
    if let Some(t) = exp.event {
        lemma_three_keys(table, "data["@ + t + "][*]"@, "data["@ + t + "]"@, "data."@ + t + ".*"@);
        lemma_three_keys(table, "id["@ + t + "][*]"@, "id["@ + t + "]"@, "id."@ + t + ".*"@);
    }
    lemma_field_reports(
        table,
        seq!["event"@],
        filed_at(table, "event"@),
        key_of("event"@, None),
        exp.event,
        act.event,
        answers,
        report.event,
    );
    lemma_field_reports(
        table,
        seq!["retry"@],
        filed_at(table, "retry"@),
        key_of("retry"@, None),
        exp.retry,
        act.retry,
        answers,
        report.retry,
    );
    match exp.event {
        Some(t) => {
            lemma_field_reports(
                table,
                seq!["data["@ + t + "][*]"@, "data["@ + t + "]"@, "data."@ + t + ".*"@],
                filed_at(table, "data["@ + t + "][*]"@) + filed_at(table, "data["@ + t + "]"@)
                    + filed_at(table, "data."@ + t + ".*"@),
                key_of("data"@, exp.event),
                exp.data,
                act.data,
                answers,
                report.data,
            );
            lemma_field_reports(
                table,
                seq!["id["@ + t + "][*]"@, "id["@ + t + "]"@, "id."@ + t + ".*"@],
                filed_at(table, "id["@ + t + "][*]"@) + filed_at(table, "id["@ + t + "]"@)
                    + filed_at(table, "id."@ + t + ".*"@),
                key_of("id"@, exp.event),
                exp.id,
                act.id,
                answers,
                report.id,
            );
        },
        None => {
            lemma_field_reports(
                table,
                seq!["data[*]"@, "data.*"@],
                filed_at(table, "data[*]"@) + filed_at(table, "data.*"@),
                key_of("data"@, exp.event),
                exp.data,
                act.data,
                answers,
                report.data,
            );
            lemma_field_reports(
                table,
                seq!["id[*]"@, "id.*"@],
                filed_at(table, "id[*]"@) + filed_at(table, "id.*"@),
                key_of("id"@, exp.event),
                exp.id,
                act.id,
                answers,
                report.id,
            );
        },
    }
}

proof fn lemma_field_reports(
    table: Map<Seq<char>, Seq<RuleView>>,
    keys: Seq<Seq<char>>,
    rules: Seq<RuleView>,
    key: FieldKeyView,
    expected: Option<Seq<char>>,
    actual: Option<Seq<char>>,
    answers: Seq<AnswerView>,
    report: FieldReportView,
)
    requires
        notations(key) == keys,
        rules_under(table, keys) == rules,
    ensures
        can_report_field(table, key, expected, actual, answers, report) <==> is_report_by(
            rules,
            has_rules(table, keys),
            expected,
            actual,
            answers,
            report,
        ),
{
}

proof fn lemma_one_key(table: Map<Seq<char>, Seq<RuleView>>, k: Seq<char>)
    ensures
        rules_under(table, seq![k]) == filed_at(table, k),
        has_rules(table, seq![k]) == table.contains_key(k),
{
    let keys = seq![k];
    assert(keys.drop_last() =~= seq![]);
    assert(rules_under(table, keys.drop_last()) =~= seq![]);
    assert(rules_under(table, keys) =~= filed_at(table, k));
    assert(keys[0] == k);
}

proof fn lemma_two_keys(table: Map<Seq<char>, Seq<RuleView>>, a: Seq<char>, b: Seq<char>)
    ensures
        rules_under(table, seq![a, b]) == filed_at(table, a) + filed_at(table, b),
        has_rules(table, seq![a, b]) == (table.contains_key(a) || table.contains_key(b)),
{
    let keys = seq![a, b];
    lemma_one_key(table, a);
    assert(keys.drop_last() =~= seq![a]);
    assert(rules_under(table, keys) =~= filed_at(table, a) + filed_at(table, b));
    assert(keys[0] == a && keys[1] == b);
}

proof fn lemma_three_keys(
    table: Map<Seq<char>, Seq<RuleView>>,
    a: Seq<char>,
    b: Seq<char>,
    c: Seq<char>,
)
    ensures
        rules_under(table, seq![a, b, c]) == filed_at(table, a) + filed_at(table, b) + filed_at(
            table,
            c,
        ),
        has_rules(table, seq![a, b, c]) == (table.contains_key(a) || table.contains_key(b)
            || table.contains_key(c)),
{
    let keys = seq![a, b, c];
    lemma_two_keys(table, a, b);
    assert(keys.drop_last() =~= seq![a, b]);
    assert(rules_under(table, keys) =~= filed_at(table, a) + filed_at(table, b) + filed_at(
        table,
        c,
    ));
    assert(keys[0] == a && keys[1] == b && keys[2] == c);
}

/// The notations of the fields, written out.
proof fn lemma_keys_of(field: Seq<char>, event_type: Option<Seq<char>>)
    requires
        field == "data"@ || field == "id"@,
    ensures
        notations(key_of("event"@, None)) == seq!["event"@],
        notations(key_of("retry"@, None)) == seq!["retry"@],
        field == "data"@ ==> notations(key_of(field, event_type)) == (match event_type {
            Some(t) => seq!["data["@ + t + "][*]"@, "data["@ + t + "]"@, "data."@ + t + ".*"@],
            None => seq!["data[*]"@, "data.*"@],
        }),
        field == "id"@ ==> notations(key_of(field, event_type)) == (match event_type {
            Some(t) => seq!["id["@ + t + "][*]"@, "id["@ + t + "]"@, "id."@ + t + ".*"@],
            None => seq!["id[*]"@, "id.*"@],
        }),
{
    reveal_strlit("event");
    reveal_strlit("retry");
    reveal_strlit("data");
    reveal_strlit("id");
    reveal_strlit("data[");
    reveal_strlit("id[");
    reveal_strlit("data.");
    reveal_strlit("id.");
    reveal_strlit("data[*]");
    reveal_strlit("id[*]");
    reveal_strlit("data.*");
    reveal_strlit("id.*");
    reveal_strlit("[");
    reveal_strlit("]");
    reveal_strlit("[*]");
    reveal_strlit("][*]");
    reveal_strlit(".");
    reveal_strlit(".*");
    let k = key_of(field, event_type);
    assert(field.len() != 5);
    match event_type {
        Some(t) => {
            if field == "data"@ {
                assert(k.bracketed() =~= "data["@ + t + "][*]"@);
                assert(k.field + "["@ + t + "]"@ =~= "data["@ + t + "]"@);
                assert(k.path() =~= "data."@ + t + ".*"@);
            } else {
                assert(k.bracketed() =~= "id["@ + t + "][*]"@);
                assert(k.field + "["@ + t + "]"@ =~= "id["@ + t + "]"@);
                assert(k.path() =~= "id."@ + t + ".*"@);
            }
        },
        None => {
            if field == "data"@ {
                assert(k.bracketed() =~= "data[*]"@);
                assert(k.path() =~= "data.*"@);
            } else {
                assert(k.bracketed() =~= "id[*]"@);
                assert(k.path() =~= "id.*"@);
            }
        },
    }
}

/// Events of a type are not held to what is filed for events without a type, nor to what is filed
/// for other types: two tables that agree under the keys for the type give the same reports.
pub proof fn law_only_the_rules_for_the_type_matter(
    one: Map<Seq<char>, Seq<RuleView>>,
    other: Map<Seq<char>, Seq<RuleView>>,
    t: Seq<char>,
    exp: EventView,
    act: EventView,
    answers: Seq<AnswerView>,
    report: EventReportView,
)
    requires
        exp.event == Some(t),
        forall|k: Seq<char>|
            (k == "event"@ || k == "retry"@ || k == "data["@ + t + "][*]"@ || k == "data["@ + t
                + "]"@ || k == "data."@ + t + ".*"@ || k == "id["@ + t + "][*]"@ || k == "id["@ + t
                + "]"@ || k == "id."@ + t + ".*"@) ==> #[trigger] one.contains_key(k)
                == other.contains_key(k) && one[k] == other[k],
    ensures
        can_report(one, exp, act, answers, report) <==> can_report(
            other,
            exp,
            act,
            answers,
            report,
        ),
{
    law_fields_are_held_to_their_own_rules(one, exp, act, answers, report);
    law_fields_are_held_to_their_own_rules(other, exp, act, answers, report);
    assert forall|k: Seq<char>|
        (k == "event"@ || k == "retry"@ || k == "data["@ + t + "][*]"@ || k == "data["@ + t + "]"@
            || k == "data."@ + t + ".*"@ || k == "id["@ + t + "][*]"@ || k == "id["@ + t + "]"@ || k
            == "id."@ + t + ".*"@) implies #[trigger] filed_at(one, k) == filed_at(other, k) by {
        assert(one.contains_key(k) == other.contains_key(k));
    }
    assert(one.contains_key("event"@) == other.contains_key("event"@));
    assert(one.contains_key("retry"@) == other.contains_key("retry"@));
    assert(one.contains_key("data["@ + t + "][*]"@) == other.contains_key("data["@ + t + "][*]"@));
    assert(one.contains_key("data["@ + t + "]"@) == other.contains_key("data["@ + t + "]"@));
    assert(one.contains_key("data."@ + t + ".*"@) == other.contains_key("data."@ + t + ".*"@));
    assert(one.contains_key("id["@ + t + "][*]"@) == other.contains_key("id["@ + t + "][*]"@));
    assert(one.contains_key("id["@ + t + "]"@) == other.contains_key("id["@ + t + "]"@));
    assert(one.contains_key("id."@ + t + ".*"@) == other.contains_key("id."@ + t + ".*"@));
    let data = seq!["data["@ + t + "][*]"@, "data["@ + t + "]"@, "data."@ + t + ".*"@];
    let id = seq!["id["@ + t + "][*]"@, "id["@ + t + "]"@, "id."@ + t + ".*"@];
    assert(filed_at(one, data[0]) == filed_at(other, data[0]));
    assert(filed_at(one, data[1]) == filed_at(other, data[1]));
    assert(filed_at(one, data[2]) == filed_at(other, data[2]));
    assert(filed_at(one, id[0]) == filed_at(other, id[0]));
    assert(filed_at(one, id[1]) == filed_at(other, id[1]));
    assert(filed_at(one, id[2]) == filed_at(other, id[2]));
    assert(filed_at(one, "event"@) == filed_at(other, "event"@));
    assert(filed_at(one, "retry"@) == filed_at(other, "retry"@));
}

/// The data of an event of a type for which nothing is filed, whatever is filed for others, are
/// accepted if and only if they are equal, and so is the identifier.
pub proof fn law_without_rules_for_the_type_values_must_be_equal(
    table: Map<Seq<char>, Seq<RuleView>>,
    t: Seq<char>,
    exp: EventView,
    act: EventView,
    answers: Seq<AnswerView>,
    report: EventReportView,
)
    requires
        exp.event == Some(t),
        can_report(table, exp, act, answers, report),
    ensures
        !table.contains_key("data["@ + t + "][*]"@) && !table.contains_key("data["@ + t + "]"@)
            && !table.contains_key("data."@ + t + ".*"@) ==> {
            &&& report.data is None
            &&& is_event_accepted(exp, act, report) ==> (exp.data is Some ==> act.data == exp.data)
        },
        !table.contains_key("id["@ + t + "][*]"@) && !table.contains_key("id["@ + t + "]"@)
            && !table.contains_key("id."@ + t + ".*"@) ==> {
            &&& report.id is None
            &&& is_event_accepted(exp, act, report) ==> (exp.id is Some ==> act.id == exp.id)
        },
{
    law_fields_are_held_to_their_own_rules(table, exp, act, answers, report);
}

/// The mismatch of a value that is there on both sides.
pub open spec fn mismatch_at(
    expected: Seq<char>,
    actual: Option<Seq<char>>,
    text: Seq<char>,
    path: Seq<char>,
) -> MismatchView {
    MismatchView {
        expected: Some(encode_utf8(expected)),
        actual: match actual {
            Some(a) => Some(encode_utf8(a)),
            None => None,
        },
        mismatch: text,
        path,
        diff: ""@,
        mismatch_type: ""@,
    }
}

/// Every rule that a value fails gives one mismatch with what it reports, in the order of the
/// rules, and no other rule gives one.
pub proof fn law_every_failed_rule_gives_one_mismatch(
    expected: Seq<char>,
    actual: Seq<char>,
    failures: Seq<Option<Seq<char>>>,
    failure: Option<Seq<char>>,
    path: Seq<char>,
)
    ensures
        failure_mismatches(expected, actual, seq![], path) == Seq::<MismatchView>::empty(),
        failure_mismatches(expected, actual, failures.push(failure), path) == failure_mismatches(
            expected,
            actual,
            failures,
            path,
        ) + (match failure {
            Some(text) => seq![mismatch_at(expected, Some(actual), text, path)],
            None => seq![],
        }),
{
    let all = failures.push(failure);
    assert(all.drop_last() =~= failures);
    let earlier = failure_mismatches(expected, actual, failures, path);
    match failure {
        Some(text) => {
            assert(failure_mismatches(expected, actual, all, path) =~= earlier + seq![
                mismatch_at(expected, Some(actual), text, path),
            ]);
        },
        None => {
            assert(earlier + seq![] =~= earlier);
        },
    }
}

/// The mismatches of an event are those of its type, its identifier, its data and its reconnection
/// time, in this order. A field with rules gives those of the rules that it fails, one without
/// rules gives one where it is not equal, an identifier or data that are missing give one, and a
/// type or a reconnection time that is missing gives none.
pub proof fn law_event_mismatches_name_the_field(
    index: nat,
    exp: EventView,
    act: EventView,
    report: EventReportView,
)
    ensures
        ({
            let at = "event["@ + decimal(index) + "]."@;
            event_mismatches(index, exp, act, report) == (match (exp.event, act.event) {
                (Some(e), Some(a)) => match report.event {
                    Some(failures) => failure_mismatches(e, a, failures, at + "event"@),
                    None => if e == a {
                        seq![]
                    } else {
                        seq![
                            mismatch_at(
                                e,
                                Some(a),
                                "Expected event type '"@ + e + "', but got '"@ + a + "'"@,
                                at + "event"@,
                            ),
                        ]
                    },
                },
                _ => seq![],
            }) + (match (exp.id, act.id) {
                (Some(e), Some(a)) => match report.id {
                    Some(failures) => failure_mismatches(e, a, failures, at + "id"@),
                    None => if e == a {
                        seq![]
                    } else {
                        seq![
                            mismatch_at(
                                e,
                                Some(a),
                                "Expected id '"@ + e + "', but got '"@ + a + "'"@,
                                at + "id"@,
                            ),
                        ]
                    },
                },
                (Some(e), None) => seq![
                    mismatch_at(
                        e,
                        None,
                        "Expected id '"@ + e + "', but event has no id"@,
                        at + "id"@,
                    ),
                ],
                _ => seq![],
            }) + (match (exp.data, act.data) {
                (Some(e), Some(a)) => match report.data {
                    Some(failures) => failure_mismatches(e, a, failures, at + "data"@),
                    None => if e == a {
                        seq![]
                    } else {
                        seq![
                            mismatch_at(
                                e,
                                Some(a),
                                "Data mismatch: Expected data '"@ + e + "', but got '"@ + a + "'"@,
                                at + "data"@,
                            ),
                        ]
                    },
                },
                (Some(e), None) => seq![
                    mismatch_at(
                        e,
                        None,
                        "Expected data '"@ + e + "', but event has no data"@,
                        at + "data"@,
                    ),
                ],
                _ => seq![],
            }) + (match (exp.retry, act.retry) {
                (Some(e), Some(a)) => match report.retry {
                    Some(failures) => failure_mismatches(e, a, failures, at + "retry"@),
                    None => if e == a {
                        seq![]
                    } else {
                        seq![
                            mismatch_at(
                                e,
                                Some(a),
                                "Expected retry '"@ + e + "', but got '"@ + a + "'"@,
                                at + "retry"@,
                            ),
                        ]
                    },
                },
                _ => seq![],
            })
        }),
{
}

proof fn lemma_first_mismatches_of_more(
    exp: Seq<EventView>,
    act: Seq<EventView>,
    reports: Seq<EventReportView>,
    more_exp: Seq<EventView>,
    more_act: Seq<EventView>,
    more_reports: Seq<EventReportView>,
    n: nat,
)
    requires
        n <= exp.len(),
        n <= act.len(),
        n <= reports.len(),
    ensures
        first_mismatches(exp + more_exp, act + more_act, reports + more_reports, n)
            == first_mismatches(exp, act, reports, n),
    decreases n,
{
    if n > 0 {
        lemma_first_mismatches_of_more(
            exp,
            act,
            reports,
            more_exp,
            more_act,
            more_reports,
            (n - 1) as nat,
        );
        assert((exp + more_exp)[n - 1] == exp[n - 1]);
        assert((act + more_act)[n - 1] == act[n - 1]);
        assert((reports + more_reports)[n - 1] == reports[n - 1]);
    }
}

/// Events are compared pair by pair: one more pair adds its own mismatches behind those of the
/// pairs before it, whatever these are, and no events at all give none.
pub proof fn law_every_pair_of_events_is_compared(
    table: Map<Seq<char>, Seq<RuleView>>,
    exp: Seq<EventView>,
    act: Seq<EventView>,
    e: EventView,
    a: EventView,
    answers: Seq<AnswerView>,
    mismatches: Seq<MismatchView>,
)
    requires
        exp.len() == act.len(),
    ensures
        can_mismatch(table, seq![], seq![], answers, mismatches) <==> mismatches == Seq::<
            MismatchView,
        >::empty(),
        can_mismatch(table, exp.push(e), act.push(a), answers, mismatches) <==> exists|
            earlier: Seq<MismatchView>,
            report: EventReportView,
        |
            #![trigger can_mismatch(table, exp, act, answers, earlier), can_report(table, e, a, answers, report)]
            can_mismatch(table, exp, act, answers, earlier) && can_report(
                table,
                e,
                a,
                answers,
                report,
            ) && mismatches == earlier + event_mismatches(exp.len(), e, a, report),
{
    lemma_no_events_no_mismatches(table, answers, mismatches);
    let n = exp.len();
    let (all_exp, all_act) = (exp.push(e), act.push(a));
    assert(all_exp =~= exp + seq![e]);
    assert(all_act =~= act + seq![a]);
    if can_mismatch(table, all_exp, all_act, answers, mismatches) {
        let reports = choose|reports: Seq<EventReportView>|
            can_report_all(table, all_exp, all_act, answers, reports) && mismatches
                == #[trigger] reported_mismatches(all_exp, all_act, reports);
        let before = reports.drop_last();
        let report = reports[n as int];
        assert(reports =~= before + seq![report]);
        assert(can_report(table, all_exp[n as int], all_act[n as int], answers, report));
        assert forall|i: int| 0 <= i < before.len() implies can_report(
            table,
            exp[i],
            act[i],
            answers,
            #[trigger] before[i],
        ) by {
            assert(before[i] == reports[i]);
            assert(can_report(table, all_exp[i], all_act[i], answers, reports[i]));
        }
        let earlier = reported_mismatches(exp, act, before);
        assert(can_report_all(table, exp, act, answers, before));
        assert(can_mismatch(table, exp, act, answers, earlier));
        lemma_first_mismatches_of_more(exp, act, before, seq![e], seq![a], seq![report], n);
        assert(mismatches =~= earlier + event_mismatches(n, e, a, report));
    }
    if exists|earlier: Seq<MismatchView>, report: EventReportView|
        #![trigger can_mismatch(table, exp, act, answers, earlier), can_report(table, e, a, answers, report)]
        can_mismatch(table, exp, act, answers, earlier) && can_report(
            table,
            e,
            a,
            answers,
            report,
        ) && mismatches == earlier + event_mismatches(n, e, a, report) {
        let (earlier, report) = choose|earlier: Seq<MismatchView>, report: EventReportView|
            #![trigger can_mismatch(table, exp, act, answers, earlier), can_report(table, e, a, answers, report)]
            can_mismatch(table, exp, act, answers, earlier) && can_report(
                table,
                e,
                a,
                answers,
                report,
            ) && mismatches == earlier + event_mismatches(n, e, a, report);
        let before = choose|reports: Seq<EventReportView>|
            can_report_all(table, exp, act, answers, reports) && earlier
                == #[trigger] reported_mismatches(exp, act, reports);
        let reports = before.push(report);
        assert(reports =~= before + seq![report]);
        assert forall|i: int| 0 <= i < reports.len() implies can_report(
            table,
            all_exp[i],
            all_act[i],
            answers,
            #[trigger] reports[i],
        ) by {
            if i < n {
                assert(can_report(table, exp[i], act[i], answers, before[i]));
            }
        }
        lemma_first_mismatches_of_more(exp, act, before, seq![e], seq![a], seq![report], n);
        assert(mismatches =~= reported_mismatches(all_exp, all_act, reports));
        assert(can_report_all(table, all_exp, all_act, answers, reports));
    }
}

proof fn lemma_no_events_no_mismatches(
    table: Map<Seq<char>, Seq<RuleView>>,
    answers: Seq<AnswerView>,
    mismatches: Seq<MismatchView>,
)
    ensures
        can_mismatch(table, seq![], seq![], answers, mismatches) <==> mismatches == Seq::<
            MismatchView,
        >::empty(),
{
    let none: Seq<EventView> = seq![];
    let reports: Seq<EventReportView> = seq![];
    assert forall|r: Seq<EventReportView>| #[trigger] reported_mismatches(none, none, r)
        == Seq::<MismatchView>::empty() by {
        assert(reported_mismatches(none, none, r) =~= Seq::<MismatchView>::empty());
    }
    assert(can_report_all(table, none, none, answers, reports));
    assert(reported_mismatches(none, none, reports) == Seq::<MismatchView>::empty());
}

/// Another number of events than expected gives one mismatch with both numbers in front of those of
/// the pairs that there are.
pub proof fn law_another_number_of_events_is_a_mismatch(
    table: Map<Seq<char>, Seq<RuleView>>,
    exp: Seq<EventView>,
    act: Seq<EventView>,
    answers: Seq<AnswerView>,
    mismatches: Seq<MismatchView>,
    n: int,
)
    requires
        n == exp.len() < act.len() || n == act.len() < exp.len(),
    ensures
        can_mismatch(table, exp, act, answers, mismatches) <==> {
            &&& mismatches.len() > 0
            &&& mismatches[0] == mismatch_at(
                decimal(exp.len()) + " events"@,
                Some(decimal(act.len()) + " events"@),
                "Expected "@ + decimal(exp.len()) + " SSE events, but got "@ + decimal(act.len()),
                ""@,
            )
            &&& can_mismatch(table, exp.take(n), act.take(n), answers, mismatches.drop_first())
        },
{
    assert(n == paired(exp, act));
    let (some_exp, some_act) = (exp.take(n), act.take(n));
    assert(exp =~= some_exp + exp.skip(n));
    assert(act =~= some_act + act.skip(n));
    let count = seq![
        mismatch_at(
            decimal(exp.len()) + " events"@,
            Some(decimal(act.len()) + " events"@),
            "Expected "@ + decimal(exp.len()) + " SSE events, but got "@ + decimal(act.len()),
            ""@,
        ),
    ];
    assert forall|reports: Seq<EventReportView>|
        reports.len() == n implies #[trigger] reported_mismatches(exp, act, reports) == count
        + reported_mismatches(some_exp, some_act, reports) by {
        lemma_first_mismatches_of_more(
            some_exp,
            some_act,
            reports,
            exp.skip(n),
            act.skip(n),
            seq![],
            n as nat,
        );
        assert(reports + seq![] =~= reports);
        assert(reported_mismatches(exp, act, reports) =~= count + reported_mismatches(
            some_exp,
            some_act,
            reports,
        ));
    }
    assert forall|reports: Seq<EventReportView>|
        #[trigger] can_report_all(table, exp, act, answers, reports) <==> can_report_all(
            table,
            some_exp,
            some_act,
            answers,
            reports,
        ) by {
        if can_report_all(table, exp, act, answers, reports) {
            assert forall|i: int| 0 <= i < reports.len() implies can_report(
                table,
                some_exp[i],
                some_act[i],
                answers,
                #[trigger] reports[i],
            ) by {
                assert(can_report(table, exp[i], act[i], answers, reports[i]));
            }
        }
        if can_report_all(table, some_exp, some_act, answers, reports) {
            assert forall|i: int| 0 <= i < reports.len() implies can_report(
                table,
                exp[i],
                act[i],
                answers,
                #[trigger] reports[i],
            ) by {
                assert(can_report(table, some_exp[i], some_act[i], answers, reports[i]));
            }
        }
    }
    if can_mismatch(table, exp, act, answers, mismatches) {
        let reports = choose|reports: Seq<EventReportView>|
            can_report_all(table, exp, act, answers, reports) && mismatches
                == #[trigger] reported_mismatches(exp, act, reports);
        let rest = reported_mismatches(some_exp, some_act, reports);
        assert(can_report_all(table, some_exp, some_act, answers, reports));
        assert(can_mismatch(table, some_exp, some_act, answers, rest));
        assert(mismatches == count + rest);
        assert(mismatches.drop_first() =~= rest);
    }
    if mismatches.len() > 0 && mismatches[0] == count[0] && can_mismatch(
        table,
        some_exp,
        some_act,
        answers,
        mismatches.drop_first(),
    ) {
        let rest = mismatches.drop_first();
        let reports = choose|reports: Seq<EventReportView>|
            can_report_all(table, some_exp, some_act, answers, reports) && rest
                == #[trigger] reported_mismatches(some_exp, some_act, reports);
        assert(can_report_all(table, exp, act, answers, reports));
        assert(mismatches =~= count + rest);
        assert(mismatches == reported_mismatches(exp, act, reports));
    }
}

/// Streams that give no mismatch have as many events; every expected identifier and all expected
/// data are there, and where nothing is filed for them, they are equal.
pub proof fn law_streams_without_mismatches_agree(
    table: Map<Seq<char>, Seq<RuleView>>,
    exp: Seq<EventView>,
    act: Seq<EventView>,
    answers: Seq<AnswerView>,
)
    requires
        can_mismatch(table, exp, act, answers, seq![]),
    ensures
        exp.len() == act.len(),
        forall|i: int|
            0 <= i < exp.len() ==> {
                &&& (#[trigger] exp[i]).id is Some ==> act[i].id is Some
                &&& exp[i].data is Some ==> act[i].data is Some
                &&& exp[i].event is Some && act[i].event is Some && !table.contains_key("event"@)
                    ==> exp[i].event == act[i].event
                &&& exp[i].retry is Some && act[i].retry is Some && !table.contains_key("retry"@)
                    ==> exp[i].retry == act[i].retry
                &&& exp[i].data is Some && exp[i].event is None && !table.contains_key("data[*]"@)
                    && !table.contains_key("data.*"@) ==> exp[i].data == act[i].data
                &&& exp[i].id is Some && exp[i].event is None && !table.contains_key("id[*]"@)
                    && !table.contains_key("id.*"@) ==> exp[i].id == act[i].id
                &&& exp[i].event matches Some(t) ==> {
                    &&& exp[i].data is Some && !table.contains_key("data["@ + t + "][*]"@)
                        && !table.contains_key("data["@ + t + "]"@) && !table.contains_key(
                        "data."@ + t + ".*"@,
                    ) ==> exp[i].data == act[i].data
                    &&& exp[i].id is Some && !table.contains_key("id["@ + t + "][*]"@)
                        && !table.contains_key("id["@ + t + "]"@) && !table.contains_key(
                        "id."@ + t + ".*"@,
                    ) ==> exp[i].id == act[i].id
                }
            },
{
    let none: Seq<MismatchView> = seq![];
    let reports = choose|reports: Seq<EventReportView>|
        can_report_all(table, exp, act, answers, reports) && none == #[trigger] reported_mismatches(
            exp,
            act,
            reports,
        );
    law_streams_without_mismatches(exp, act, reports);
    assert forall|i: int| 0 <= i < exp.len() implies {
        &&& (#[trigger] exp[i]).id is Some ==> act[i].id is Some
        &&& exp[i].data is Some ==> act[i].data is Some
        &&& exp[i].event is Some && act[i].event is Some && !table.contains_key("event"@)
            ==> exp[i].event == act[i].event
        &&& exp[i].retry is Some && act[i].retry is Some && !table.contains_key("retry"@)
            ==> exp[i].retry == act[i].retry
        &&& exp[i].data is Some && exp[i].event is None && !table.contains_key("data[*]"@)
            && !table.contains_key("data.*"@) ==> exp[i].data == act[i].data
        &&& exp[i].id is Some && exp[i].event is None && !table.contains_key("id[*]"@)
            && !table.contains_key("id.*"@) ==> exp[i].id == act[i].id
        &&& exp[i].event matches Some(t) ==> {
            &&& exp[i].data is Some && !table.contains_key("data["@ + t + "][*]"@)
                && !table.contains_key("data["@ + t + "]"@) && !table.contains_key(
                "data."@ + t + ".*"@,
            ) ==> exp[i].data == act[i].data
            &&& exp[i].id is Some && !table.contains_key("id["@ + t + "][*]"@)
                && !table.contains_key("id["@ + t + "]"@) && !table.contains_key(
                "id."@ + t + ".*"@,
            ) ==> exp[i].id == act[i].id
        }
    } by {
        assert(is_event_accepted(exp[i], act[i], reports[i]));
        assert(can_report(table, exp[i], act[i], answers, reports[i]));
        law_fields_are_held_to_their_own_rules(table, exp[i], act[i], answers, reports[i]);
    }
}

/// The questions of one more pair of events stand behind those of the pairs before it, and events
/// without a counterpart raise none.
pub proof fn law_every_pair_of_events_is_asked_about(
    table: Map<Seq<char>, Seq<RuleView>>,
    exp: Seq<EventView>,
    act: Seq<EventView>,
    e: EventView,
    a: EventView,
    more: Seq<EventView>,
    answers: Seq<AnswerView>,
)
    requires
        exp.len() == act.len(),
    ensures
        all_questions(table, seq![], seq![], answers) == Seq::<QuestionView>::empty(),
        all_questions(table, exp.push(e), act.push(a), answers) == all_questions(
            table,
            exp,
            act,
            answers,
        ) + event_questions(table, e, a, answers),
        all_questions(table, exp + more, act, answers) == all_questions(table, exp, act, answers),
        all_questions(table, exp, act + more, answers) == all_questions(table, exp, act, answers),
{
    let none: Seq<EventView> = seq![];
    assert(exp.push(e) =~= exp + seq![e]);
    assert(act.push(a) =~= act + seq![a]);
    assert(exp + none =~= exp);
    assert(act + none =~= act);
    lemma_questions_of_more(table, exp, act, seq![e], seq![a], answers, exp.len());
    lemma_questions_of_more(table, exp, act, more, none, answers, exp.len());
    lemma_questions_of_more(table, exp, act, none, more, answers, exp.len());
}

proof fn lemma_questions_of_more(
    table: Map<Seq<char>, Seq<RuleView>>,
    exp: Seq<EventView>,
    act: Seq<EventView>,
    more_exp: Seq<EventView>,
    more_act: Seq<EventView>,
    answers: Seq<AnswerView>,
    n: nat,
)
    requires
        n <= exp.len(),
        n <= act.len(),
    ensures
        first_questions(table, exp + more_exp, act + more_act, answers, n) == first_questions(
            table,
            exp,
            act,
            answers,
            n,
        ),
    decreases n,
{
    if n > 0 {
        lemma_questions_of_more(table, exp, act, more_exp, more_act, answers, (n - 1) as nat);
        assert((exp + more_exp)[n - 1] == exp[n - 1]);
        assert((act + more_act)[n - 1] == act[n - 1]);
    }
}

/// The questions of the rules for a field; none where it is missing on one side.
pub open spec fn questions_by(
    rules: Seq<RuleView>,
    expected: Option<Seq<char>>,
    actual: Option<Seq<char>>,
    answers: Seq<AnswerView>,
) -> Seq<QuestionView> {
    if expected is Some && actual is Some {
        open_questions(expected->0, actual->0, rules, answers)
    } else {
        seq![]
    }
}

/// The questions on an event are those of the rules that its fields are held to: of its type, its
/// identifier, its data and its reconnection time, in this order.
pub proof fn law_events_are_asked_about_by_their_own_rules(
    table: Map<Seq<char>, Seq<RuleView>>,
    e: EventView,
    a: EventView,
    answers: Seq<AnswerView>,
)
    ensures
        event_questions(table, e, a, answers) == ({
            let id = match e.event {
                Some(t) => filed_at(table, "id["@ + t + "][*]"@) + filed_at(
                    table,
                    "id["@ + t + "]"@,
                ) + filed_at(table, "id."@ + t + ".*"@),
                None => filed_at(table, "id[*]"@) + filed_at(table, "id.*"@),
            };
            let data = match e.event {
                Some(t) => filed_at(table, "data["@ + t + "][*]"@) + filed_at(
                    table,
                    "data["@ + t + "]"@,
                ) + filed_at(table, "data."@ + t + ".*"@),
                None => filed_at(table, "data[*]"@) + filed_at(table, "data.*"@),
            };
            questions_by(filed_at(table, "event"@), e.event, a.event, answers) + questions_by(
                id,
                e.id,
                a.id,
                answers,
            ) + questions_by(data, e.data, a.data, answers) + questions_by(
                filed_at(table, "retry"@),
                e.retry,
                a.retry,
                answers,
            )
        }),
{
    lemma_one_key(table, "event"@);
    lemma_one_key(table, "retry"@);
    lemma_keys_of("data"@, e.event);
    lemma_keys_of("id"@, e.event);
    match e.event {
        Some(t) => {
            lemma_three_keys(
                table,
                "data["@ + t + "][*]"@,
                "data["@ + t + "]"@,
                "data."@ + t + ".*"@,
            );
            lemma_three_keys(table, "id["@ + t + "][*]"@, "id["@ + t + "]"@, "id."@ + t + ".*"@);
        },
        None => {
            lemma_two_keys(table, "data[*]"@, "data.*"@);
            lemma_two_keys(table, "id[*]"@, "id.*"@);
        },
    }
}

/// The response to a comparison of streams has no error and lists, under the empty path and under
/// no other, mismatches that all the events of the two streams can give. Its questions are theirs
/// too.
pub proof fn law_responses_list_the_mismatches_of_the_streams(
    expected: Seq<char>,
    actual: Seq<char>,
    allow_unexpected_keys: bool,
    table: Map<Seq<char>, Seq<RuleView>>,
    answers: Seq<AnswerView>,
    r: CompareContentsResponse,
)
    ensures
        is_comparison(expected, actual, allow_unexpected_keys, table, answers, r) <==> {
            &&& r.error@ == ""@
            &&& r.results@.dom() =~= set![""@]
            &&& can_mismatch(
                table,
                events_of(expected),
                events_of(actual),
                answers,
                r.results@[""@],
            )
            &&& is_table_determined(table) ==> r.results@[""@] == mismatches_of(
                table,
                events_of(expected),
                events_of(actual),
                answers,
            )
        },
        stream_questions(expected, actual, table, answers) == all_questions(
            table,
            events_of(expected),
            events_of(actual),
            answers,
        ),
{
    assert forall|m: Seq<MismatchView>|
        #[trigger] pathless(m)[""@] == m && pathless(m).dom() =~= set![""@] by {}
    if r.results@.dom() =~= set![""@] {
        assert(r.results@ =~= pathless(r.results@[""@]));
    }
}

/// Where the outcome of every rule that is filed is determined, events give one list of mismatches.
pub proof fn law_determined_rules_give_one_outcome(
    table: Map<Seq<char>, Seq<RuleView>>,
    exp: Seq<EventView>,
    act: Seq<EventView>,
    answers: Seq<AnswerView>,
    one: Seq<MismatchView>,
    other: Seq<MismatchView>,
)
    requires
        forall|k: Seq<char>, i: int|
            table.contains_key(k) && 0 <= i < table[k].len() ==> is_determined(
                #[trigger] table[k][i],
            ),
        can_mismatch(table, exp, act, answers, one),
        can_mismatch(table, exp, act, answers, other),
    ensures
        one == other,
        one == mismatches_of(table, exp, act, answers),
        is_table_determined(table),
{
    let a = choose|reports: Seq<EventReportView>|
        can_report_all(table, exp, act, answers, reports) && one == #[trigger] reported_mismatches(
            exp,
            act,
            reports,
        );
    let b = choose|reports: Seq<EventReportView>|
        can_report_all(table, exp, act, answers, reports) && other
            == #[trigger] reported_mismatches(exp, act, reports);
    assert(is_table_determined(table));
    lemma_determined_reports(table, exp, act, answers, a);
    lemma_determined_reports(table, exp, act, answers, b);
}

} // verus!
