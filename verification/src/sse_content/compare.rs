//! Comparing the events that came with the events that were expected.

use crate::parser::{FieldKey, FieldKeyView};
use crate::rules::{
    answer_views, can_report_text, failure_views, has_rules, hold_to_rules, is_determined, notations,
    open_questions, question_views, report_view, rules_under, told_failure, Answer, AnswerView,
    FieldReport, FieldReportView, Question, QuestionView, RuleList, RuleView,
};
use crate::sse_content::event::{event_views, events_of, EventView, SseEvent};
use crate::table::Table;
use crate::text::{copy_text, decimal, decimal_text, same_text, text_view, utf8_bytes};
use vstd::prelude::*;
use vstd::utf8::encode_utf8;

verus! {

/// A difference between what was expected and what came.
#[derive(Debug, Clone, PartialEq, Eq)]
pub struct ContentMismatch {
    /// What was expected.
    pub expected: Option<Vec<u8>>,
    /// What came.
    pub actual: Option<Vec<u8>>,
    /// The difference in words.
    pub mismatch: String,
    /// Where it is.
    pub path: String,
    /// The difference as a diff.
    pub diff: String,
    /// The part of the interaction that it is in.
    pub mismatch_type: String,
}

/// A mismatch with its bytes and texts as sequences.
#[verifier::ext_equal]
pub struct MismatchView {
    pub expected: Option<Seq<u8>>,
    pub actual: Option<Seq<u8>>,
    pub mismatch: Seq<char>,
    pub path: Seq<char>,
    pub diff: Seq<char>,
    pub mismatch_type: Seq<char>,
}

/// Bytes that may be missing, as a sequence.
pub open spec fn bytes_view(bytes: Option<Vec<u8>>) -> Option<Seq<u8>> {
    match bytes {
        Some(b) => Some(b@),
        None => None,
    }
}

impl View for ContentMismatch {
    type V = MismatchView;

    open spec fn view(&self) -> MismatchView {
        MismatchView {
            expected: bytes_view(self.expected),
            actual: bytes_view(self.actual),
            mismatch: self.mismatch@,
            path: self.path@,
            diff: self.diff@,
            mismatch_type: self.mismatch_type@,
        }
    }
}

/// The views of the mismatches in a sequence.
pub open spec fn mismatch_views(mismatches: Seq<ContentMismatch>) -> Seq<MismatchView> {
    mismatches.map_values(|m: ContentMismatch| m@)
}

/// What the rules reported of each field of an event.
#[derive(Debug, Clone, PartialEq, Eq)]
pub struct EventReport {
    pub event: FieldReport,
    pub id: FieldReport,
    pub data: FieldReport,
    pub retry: FieldReport,
}

/// A report on an event with its texts as sequences of characters.
#[verifier::ext_equal]
pub struct EventReportView {
    pub event: FieldReportView,
    pub id: FieldReportView,
    pub data: FieldReportView,
    pub retry: FieldReportView,
}

impl View for EventReport {
    type V = EventReportView;

    open spec fn view(&self) -> EventReportView {
        EventReportView {
            event: report_view(self.event),
            id: report_view(self.id),
            data: report_view(self.data),
            retry: report_view(self.retry),
        }
    }
}

/// The views of the reports in a sequence.
pub open spec fn report_views(reports: Seq<EventReport>) -> Seq<EventReportView> {
    reports.map_values(|r: EventReport| r@)
}

/// The path of a field of the event with the index.
pub open spec fn event_path(index: nat, field: Seq<char>) -> Seq<char> {
    "event["@ + decimal(index) + "]."@ + field
}

/// The mismatch of a field that has another value than expected.
pub open spec fn value_mismatch(
    expected: Seq<char>,
    actual: Seq<char>,
    text: Seq<char>,
    path: Seq<char>,
) -> MismatchView {
    MismatchView {
        expected: Some(encode_utf8(expected)),
        actual: Some(encode_utf8(actual)),
        mismatch: text,
        path,
        diff: ""@,
        mismatch_type: ""@,
    }
}

/// The mismatch of a field that is missing.
pub open spec fn missing_mismatch(
    expected: Seq<char>,
    text: Seq<char>,
    path: Seq<char>,
) -> MismatchView {
    MismatchView {
        expected: Some(encode_utf8(expected)),
        actual: None,
        mismatch: text,
        path,
        diff: ""@,
        mismatch_type: ""@,
    }
}

/// The mismatches of a field that rules reported on: one for each rule that it failed.
pub open spec fn failure_mismatches(
    expected: Seq<char>,
    actual: Seq<char>,
    failures: Seq<Option<Seq<char>>>,
    path: Seq<char>,
) -> Seq<MismatchView>
    decreases failures.len(),
{
    if failures.len() == 0 {
        seq![]
    } else {
        let earlier = failure_mismatches(expected, actual, failures.drop_last(), path);
        match failures.last() {
            Some(text) => earlier.push(value_mismatch(expected, actual, text, path)),
            None => earlier,
        }
    }
}

/// The mismatches of a field: those that rules reported, and where there are no rules for it, the
/// one of unequal values.
pub open spec fn held_mismatches(
    expected: Seq<char>,
    actual: Seq<char>,
    report: FieldReportView,
    unequal: Seq<char>,
    path: Seq<char>,
) -> Seq<MismatchView> {
    match report {
        Some(failures) => failure_mismatches(expected, actual, failures, path),
        None => if expected == actual {
            seq![]
        } else {
            seq![value_mismatch(expected, actual, unequal, path)]
        },
    }
}

/// The message for a value that differs from the expected one.
pub open spec fn unequal_text(
    lead: Seq<char>,
    expected: Seq<char>,
    actual: Seq<char>,
) -> Seq<char> {
    lead + expected + "', but got '"@ + actual + "'"@
}

/// The mismatches of the event type. It may be missing.
pub open spec fn type_mismatches(
    index: nat,
    exp: EventView,
    act: EventView,
    report: FieldReportView,
) -> Seq<MismatchView> {
    match (exp.event, act.event) {
        (Some(e), Some(a)) => held_mismatches(
            e,
            a,
            report,
            unequal_text("Expected event type '"@, e, a),
            event_path(index, "event"@),
        ),
        _ => seq![],
    }
}

/// The mismatches of the identifier. It must be there where one is expected.
pub open spec fn id_mismatches(
    index: nat,
    exp: EventView,
    act: EventView,
    report: FieldReportView,
) -> Seq<MismatchView> {
    match (exp.id, act.id) {
        (Some(e), Some(a)) => held_mismatches(
            e,
            a,
            report,
            unequal_text("Expected id '"@, e, a),
            event_path(index, "id"@),
        ),
        (Some(e), None) => seq![
            missing_mismatch(
                e,
                "Expected id '"@ + e + "', but event has no id"@,
                event_path(index, "id"@),
            ),
        ],
        _ => seq![],
    }
}

/// The mismatches of the data. They must be there where some are expected.
pub open spec fn data_mismatches(
    index: nat,
    exp: EventView,
    act: EventView,
    report: FieldReportView,
) -> Seq<MismatchView> {
    match (exp.data, act.data) {
        (Some(e), Some(a)) => held_mismatches(
            e,
            a,
            report,
            unequal_text("Data mismatch: Expected data '"@, e, a),
            event_path(index, "data"@),
        ),
        (Some(e), None) => seq![
            missing_mismatch(
                e,
                "Expected data '"@ + e + "', but event has no data"@,
                event_path(index, "data"@),
            ),
        ],
        _ => seq![],
    }
}

/// The mismatches of the reconnection time. It may be missing.
pub open spec fn retry_mismatches(
    index: nat,
    exp: EventView,
    act: EventView,
    report: FieldReportView,
) -> Seq<MismatchView> {
    match (exp.retry, act.retry) {
        (Some(e), Some(a)) => held_mismatches(
            e,
            a,
            report,
            unequal_text("Expected retry '"@, e, a),
            event_path(index, "retry"@),
        ),
        _ => seq![],
    }
}

/// The mismatches of the events with the index.
pub open spec fn event_mismatches(
    index: nat,
    exp: EventView,
    act: EventView,
    report: EventReportView,
) -> Seq<MismatchView> {
    type_mismatches(index, exp, act, report.event) + id_mismatches(index, exp, act, report.id)
        + data_mismatches(index, exp, act, report.data) + retry_mismatches(
        index,
        exp,
        act,
        report.retry,
    )
}

/// The mismatches of the first `n` events.
pub open spec fn first_mismatches(
    exp: Seq<EventView>,
    act: Seq<EventView>,
    reports: Seq<EventReportView>,
    n: nat,
) -> Seq<MismatchView>
    decreases n,
{
    if n == 0 {
        seq![]
    } else {
        let i = (n - 1) as nat;
        first_mismatches(exp, act, reports, i) + event_mismatches(
            i,
            exp[i as int],
            act[i as int],
            reports[i as int],
        )
    }
}

/// How many events stand on both sides.
pub open spec fn paired(exp: Seq<EventView>, act: Seq<EventView>) -> nat {
    if exp.len() <= act.len() {
        exp.len()
    } else {
        act.len()
    }
}

/// The mismatch of the numbers of events.
pub open spec fn count_mismatches(expected: nat, actual: nat) -> Seq<MismatchView> {
    if expected == actual {
        seq![]
    } else {
        seq![
            value_mismatch(
                decimal(expected) + " events"@,
                decimal(actual) + " events"@,
                "Expected "@ + decimal(expected) + " SSE events, but got "@ + decimal(actual),
                ""@,
            ),
        ]
    }
}

/// The mismatches of events with what was expected, where rules reported so on each of them.
pub open spec fn reported_mismatches(
    exp: Seq<EventView>,
    act: Seq<EventView>,
    reports: Seq<EventReportView>,
) -> Seq<MismatchView> {
    count_mismatches(exp.len(), act.len()) + first_mismatches(exp, act, reports, paired(exp, act))
}

/// The key of a field of events with the type.
pub open spec fn key_of(field: Seq<char>, event_type: Option<Seq<char>>) -> FieldKeyView {
    FieldKeyView { field, event_type }
}

/// Whether the rules for a field can report so. Only a field that is there on both sides is held to
/// rules.
pub open spec fn can_report_field(
    table: Map<Seq<char>, Seq<RuleView>>,
    key: FieldKeyView,
    expected: Option<Seq<char>>,
    actual: Option<Seq<char>>,
    answers: Seq<AnswerView>,
    report: FieldReportView,
) -> bool {
    match (expected, actual) {
        (Some(e), Some(a)) => can_report_text(table, key, e, a, answers, report),
        _ => report is None,
    }
}

/// Whether the rules can report so on an event. The identifier and the data are held to the rules
/// for the type that was expected.
pub open spec fn can_report(
    table: Map<Seq<char>, Seq<RuleView>>,
    exp: EventView,
    act: EventView,
    answers: Seq<AnswerView>,
    report: EventReportView,
) -> bool {
    &&& can_report_field(
        table,
        key_of("event"@, None),
        exp.event,
        act.event,
        answers,
        report.event,
    )
    &&& can_report_field(table, key_of("id"@, exp.event), exp.id, act.id, answers, report.id)
    &&& can_report_field(
        table,
        key_of("data"@, exp.event),
        exp.data,
        act.data,
        answers,
        report.data,
    )
    &&& can_report_field(
        table,
        key_of("retry"@, None),
        exp.retry,
        act.retry,
        answers,
        report.retry,
    )
}

/// Whether the rules can report so on all the events that stand on both sides.
pub open spec fn can_report_all(
    table: Map<Seq<char>, Seq<RuleView>>,
    exp: Seq<EventView>,
    act: Seq<EventView>,
    answers: Seq<AnswerView>,
    reports: Seq<EventReportView>,
) -> bool {
    &&& reports.len() == paired(exp, act)
    &&& forall|i: int|
        0 <= i < reports.len() ==> can_report(table, exp[i], act[i], answers, #[trigger] reports[i])
}

/// Whether the mismatches are some that the rules can give.
pub open spec fn can_mismatch(
    table: Map<Seq<char>, Seq<RuleView>>,
    exp: Seq<EventView>,
    act: Seq<EventView>,
    answers: Seq<AnswerView>,
    mismatches: Seq<MismatchView>,
) -> bool {
    exists|reports: Seq<EventReportView>|
        can_report_all(table, exp, act, answers, reports) && mismatches
            == #[trigger] reported_mismatches(exp, act, reports)
}

/// Whether the outcome of every rule depends on the texts and the rule alone.
pub open spec fn is_table_determined(table: Map<Seq<char>, Seq<RuleView>>) -> bool {
    forall|k: Seq<char>, i: int|
        table.contains_key(k) && 0 <= i < table[k].len() ==> is_determined(#[trigger] table[k][i])
}

/// What the rules for a field report.
pub open spec fn field_report(
    table: Map<Seq<char>, Seq<RuleView>>,
    key: FieldKeyView,
    expected: Option<Seq<char>>,
    actual: Option<Seq<char>>,
    answers: Seq<AnswerView>,
) -> FieldReportView {
    match (expected, actual) {
        (Some(e), Some(a)) => if has_rules(table, notations(key)) {
            Some(
                rules_under(table, notations(key)).map_values(
                    |r: RuleView| told_failure(e, a, r, answers),
                ),
            )
        } else {
            None
        },
        _ => None,
    }
}

/// What the rules report on an event.
pub open spec fn event_report(
    table: Map<Seq<char>, Seq<RuleView>>,
    exp: EventView,
    act: EventView,
    answers: Seq<AnswerView>,
) -> EventReportView {
    EventReportView {
        event: field_report(table, key_of("event"@, None), exp.event, act.event, answers),
        id: field_report(table, key_of("id"@, exp.event), exp.id, act.id, answers),
        data: field_report(table, key_of("data"@, exp.event), exp.data, act.data, answers),
        retry: field_report(table, key_of("retry"@, None), exp.retry, act.retry, answers),
    }
}

/// What the rules report on the events that stand on both sides.
pub open spec fn all_reports(
    table: Map<Seq<char>, Seq<RuleView>>,
    exp: Seq<EventView>,
    act: Seq<EventView>,
    answers: Seq<AnswerView>,
) -> Seq<EventReportView> {
    Seq::new(paired(exp, act), |i: int| event_report(table, exp[i], act[i], answers))
}

/// The mismatches of events with what was expected, where the outcome of every rule is determined.
pub open spec fn mismatches_of(
    table: Map<Seq<char>, Seq<RuleView>>,
    exp: Seq<EventView>,
    act: Seq<EventView>,
    answers: Seq<AnswerView>,
) -> Seq<MismatchView> {
    reported_mismatches(exp, act, all_reports(table, exp, act, answers))
}

/// The questions to be answered before a field can be held to the rules for it.
pub open spec fn field_questions(
    table: Map<Seq<char>, Seq<RuleView>>,
    key: FieldKeyView,
    expected: Option<Seq<char>>,
    actual: Option<Seq<char>>,
    answers: Seq<AnswerView>,
) -> Seq<QuestionView> {
    match (expected, actual) {
        (Some(e), Some(a)) => open_questions(e, a, rules_under(table, notations(key)), answers),
        _ => seq![],
    }
}

/// The questions to be answered before an event can be held to the rules.
pub open spec fn event_questions(
    table: Map<Seq<char>, Seq<RuleView>>,
    exp: EventView,
    act: EventView,
    answers: Seq<AnswerView>,
) -> Seq<QuestionView> {
    field_questions(table, key_of("event"@, None), exp.event, act.event, answers)
        + field_questions(table, key_of("id"@, exp.event), exp.id, act.id, answers)
        + field_questions(table, key_of("data"@, exp.event), exp.data, act.data, answers)
        + field_questions(table, key_of("retry"@, None), exp.retry, act.retry, answers)
}

/// The questions to be answered before the first `n` events can be held to the rules.
pub open spec fn first_questions(
    table: Map<Seq<char>, Seq<RuleView>>,
    exp: Seq<EventView>,
    act: Seq<EventView>,
    answers: Seq<AnswerView>,
    n: nat,
) -> Seq<QuestionView>
    decreases n,
{
    if n == 0 {
        seq![]
    } else {
        first_questions(table, exp, act, answers, (n - 1) as nat) + event_questions(
            table,
            exp[n - 1],
            act[n - 1],
            answers,
        )
    }
}

/// The questions to be answered before events can be compared. There are none but of rules that
/// cannot safely be tried.
pub open spec fn all_questions(
    table: Map<Seq<char>, Seq<RuleView>>,
    exp: Seq<EventView>,
    act: Seq<EventView>,
    answers: Seq<AnswerView>,
) -> Seq<QuestionView> {
    first_questions(table, exp, act, answers, paired(exp, act))
}

fn mismatch_of(
    expected: &str,
    actual: Option<&str>,
    mismatch: String,
    path: &str,
) -> (m: ContentMismatch)
    ensures
        m@ == (match actual {
            Some(a) => value_mismatch(expected@, a@, mismatch@, path@),
            None => missing_mismatch(expected@, mismatch@, path@),
        }),
{
    ContentMismatch {
        expected: Some(utf8_bytes(expected)),
        actual: match actual {
            Some(a) => Some(utf8_bytes(a)),
            None => None,
        },
        mismatch,
        path: path.to_owned(),
        diff: "".to_owned(),
        mismatch_type: "".to_owned(),
    }
}

fn path_of(index: usize, field: &str) -> (path: String)
    ensures
        path@ == event_path(index as nat, field@),
{
    let mut path = "event[".to_owned();
    path.append(&decimal_text(index));
    path.append("].");
    path.append(field);
    path
}

fn text_of_unequal(lead: &str, expected: &str, actual: &str) -> (text: String)
    ensures
        text@ == unequal_text(lead@, expected@, actual@),
{
    let mut text = lead.to_owned();
    text.append(expected);
    text.append("', but got '");
    text.append(actual);
    text.append("'");
    text
}

/// Adds the mismatches of a field that is there on both sides.
fn add_held(
    out: &mut Vec<ContentMismatch>,
    expected: &str,
    actual: &str,
    report: &FieldReport,
    unequal: String,
    path: &str,
)
    ensures
        mismatch_views(final(out)@) == mismatch_views(old(out)@) + held_mismatches(
            expected@,
            actual@,
            report_view(*report),
            unequal@,
            path@,
        ),
{
    let ghost before = mismatch_views(out@);
    match report {
        Some(failures) => {
            let ghost views = failure_views(failures@);
            let n: usize = failures.len();
            let mut i: usize = 0;
            assert(before + failure_mismatches(expected@, actual@, views.take(0), path@)
                =~= before);
            while i < n
                invariant
                    0 <= i <= n == failures@.len(),
                    views == failure_views(failures@),
                    mismatch_views(out@) == before + failure_mismatches(
                        expected@,
                        actual@,
                        views.take(i as int),
                        path@,
                    ),
                decreases n - i,
            {
                let ghost earlier = mismatch_views(out@);
                assert(views.take(i + 1).drop_last() =~= views.take(i as int));
                match copy_text(&failures[i]) {
                    Some(text) => {
                        let m = mismatch_of(expected, Some(actual), text, path);
                        out.push(m);
                        assert(mismatch_views(out@) =~= earlier.push(m@));
                    },
                    None => {},
                }
                assert(mismatch_views(out@) =~= before + failure_mismatches(
                    expected@,
                    actual@,
                    views.take(i + 1),
                    path@,
                ));
                i = i + 1;
            }
            assert(views.take(n as int) =~= views);
        },
        None => {
            if same_text(expected, actual) {
                assert(before + Seq::<MismatchView>::empty() =~= before);
            } else {
                let m = mismatch_of(expected, Some(actual), unequal, path);
                out.push(m);
                assert(mismatch_views(out@) =~= before + seq![m@]);
            }
        },
    }
}

/// Adds the mismatch of a field that is missing.
fn add_missing(
    out: &mut Vec<ContentMismatch>,
    expected: &str,
    lead: &str,
    end: &str,
    path: &str,
)
    ensures
        mismatch_views(final(out)@) == mismatch_views(old(out)@) + seq![
            missing_mismatch(expected@, lead@ + expected@ + end@, path@),
        ],
{
    let ghost before = mismatch_views(out@);
    let mut text = lead.to_owned();
    text.append(expected);
    text.append(end);
    let m = mismatch_of(expected, None, text, path);
    out.push(m);
    assert(mismatch_views(out@) =~= before + seq![m@]);
}

/// The mismatches of the events with the index, where rules reported so on them.
pub fn mismatches_of_event(
    index: usize,
    exp: &SseEvent,
    act: &SseEvent,
    report: &EventReport,
) -> (mismatches: Vec<ContentMismatch>)
    ensures
        mismatch_views(mismatches@) == event_mismatches(index as nat, exp@, act@, report@),
{
    let mut out: Vec<ContentMismatch> = Vec::new();
    let ghost i = index as nat;
    let ghost types = type_mismatches(i, exp@, act@, report@.event);
    let ghost ids = id_mismatches(i, exp@, act@, report@.id);
    let ghost data = data_mismatches(i, exp@, act@, report@.data);
    let ghost retries = retry_mismatches(i, exp@, act@, report@.retry);
    assert(mismatch_views(out@) =~= seq![]);
    match (&exp.event, &act.event) {
        (Some(e), Some(a)) => {
            let unequal = text_of_unequal("Expected event type '", e, a);
            add_held(&mut out, e, a, &report.event, unequal, &path_of(index, "event"));
        },
        _ => {},
    }
    assert(mismatch_views(out@) =~= types);
    match &exp.id {
        Some(e) => match &act.id {
            Some(a) => {
                let unequal = text_of_unequal("Expected id '", e, a);
                add_held(&mut out, e, a, &report.id, unequal, &path_of(index, "id"));
            },
            None => {
                let path = path_of(index, "id");
                add_missing(&mut out, e, "Expected id '", "', but event has no id", &path);
            },
        },
        None => {},
    }
    assert(mismatch_views(out@) =~= types + ids);
    match &exp.data {
        Some(e) => match &act.data {
            Some(a) => {
                let unequal = text_of_unequal("Data mismatch: Expected data '", e, a);
                add_held(&mut out, e, a, &report.data, unequal, &path_of(index, "data"));
            },
            None => {
                let path = path_of(index, "data");
                add_missing(&mut out, e, "Expected data '", "', but event has no data", &path);
            },
        },
        None => {},
    }
    assert(mismatch_views(out@) =~= types + ids + data);
    match (&exp.retry, &act.retry) {
        (Some(e), Some(a)) => {
            let unequal = text_of_unequal("Expected retry '", e, a);
            add_held(&mut out, e, a, &report.retry, unequal, &path_of(index, "retry"));
        },
        _ => {},
    }
    assert(mismatch_views(out@) =~= types + ids + data + retries);
    out
}

fn report_on_field(
    rules: &Table<RuleList>,
    field: &str,
    event_type: &Option<String>,
    expected: &Option<String>,
    actual: &Option<String>,
    answers: &Vec<Answer>,
) -> (r: (FieldReport, Vec<Question>))
    ensures
        question_views(r.1@) == field_questions(
            rules@,
            key_of(field@, text_view(*event_type)),
            text_view(*expected),
            text_view(*actual),
            answer_views(answers@),
        ),
        r.1@.len() == 0 ==> can_report_field(
            rules@,
            key_of(field@, text_view(*event_type)),
            text_view(*expected),
            text_view(*actual),
            answer_views(answers@),
            report_view(r.0),
        ),
{
    match (expected, actual) {
        (Some(e), Some(a)) => {
            let key = FieldKey { field: field.to_owned(), event_type: copy_text(event_type) };
            assert(key@ == key_of(field@, text_view(*event_type)));
            hold_to_rules(rules, &key, e, a, answers)
        },
        _ => {
            let none: Vec<Question> = Vec::new();
            assert(question_views(none@) =~= seq![]);
            (None, none)
        },
    }
}

/// Adds questions behind those that are there.
fn ask_more(questions: &mut Vec<Question>, more: Vec<Question>)
    ensures
        question_views(final(questions)@) == question_views(old(questions)@) + question_views(more@),
        final(questions)@.len() == old(questions)@.len() + more@.len(),
{
    let ghost before = question_views(questions@);
    let mut more = more;
    let ghost added = question_views(more@);
    questions.append(&mut more);
    assert(question_views(questions@) =~= before + added);
}

/// Holds an event to the rules: what they report, and the questions to be answered first. The
/// report counts only where there are no questions.
pub fn report_on_event(
    rules: &Table<RuleList>,
    exp: &SseEvent,
    act: &SseEvent,
    answers: &Vec<Answer>,
) -> (r: (EventReport, Vec<Question>))
    ensures
        question_views(r.1@) == event_questions(rules@, exp@, act@, answer_views(answers@)),
        r.1@.len() == 0 ==> can_report(rules@, exp@, act@, answer_views(answers@), r.0@),
{
    let none: Option<String> = None;
    let (event, mut questions) = report_on_field(
        rules,
        "event",
        &none,
        &exp.event,
        &act.event,
        answers,
    );
    let (id, more) = report_on_field(rules, "id", &exp.event, &exp.id, &act.id, answers);
    ask_more(&mut questions, more);
    let (data, more) = report_on_field(rules, "data", &exp.event, &exp.data, &act.data, answers);
    ask_more(&mut questions, more);
    let (retry, more) = report_on_field(rules, "retry", &none, &exp.retry, &act.retry, answers);
    ask_more(&mut questions, more);
    (EventReport { event, id, data, retry }, questions)
}

fn text_of_count(n: usize) -> (text: String)
    ensures
        text@ == decimal(n as nat) + " events"@,
{
    let mut text = decimal_text(n);
    text.append(" events");
    text
}

/// The mismatches of events with what was expected, where rules reported so on each of them.
pub fn mismatches_of_events(
    expected: &Vec<SseEvent>,
    actual: &Vec<SseEvent>,
    reports: &Vec<EventReport>,
) -> (mismatches: Vec<ContentMismatch>)
    requires
        reports@.len() == paired(event_views(expected@), event_views(actual@)),
    ensures
        mismatch_views(mismatches@) == reported_mismatches(
            event_views(expected@),
            event_views(actual@),
            report_views(reports@),
        ),
{
    let ghost exp = event_views(expected@);
    let ghost act = event_views(actual@);
    let ghost views = report_views(reports@);
    let ghost counted = count_mismatches(exp.len(), act.len());
    let mut out: Vec<ContentMismatch> = Vec::new();
    assert(mismatch_views(out@) =~= seq![]);
    if expected.len() != actual.len() {
        let mut text = "Expected ".to_owned();
        text.append(&decimal_text(expected.len()));
        text.append(" SSE events, but got ");
        text.append(&decimal_text(actual.len()));
        let came = text_of_count(actual.len());
        let m = mismatch_of(&text_of_count(expected.len()), Some(&came), text, "");
        out.push(m);
        assert(mismatch_views(out@) =~= seq![m@]);
    }
    assert(mismatch_views(out@) =~= counted + first_mismatches(exp, act, views, 0));
    let n: usize = reports.len();
    let mut i: usize = 0;
    while i < n
        invariant
            0 <= i <= n == reports@.len(),
            n == paired(exp, act),
            exp == event_views(expected@),
            act == event_views(actual@),
            views == report_views(reports@),
            mismatch_views(out@) == counted + first_mismatches(exp, act, views, i as nat),
        decreases n - i,
    {
        let ghost before = mismatch_views(out@);
        let mut more = mismatches_of_event(i, &expected[i], &actual[i], &reports[i]);
        let ghost found = mismatch_views(more@);
        out.append(&mut more);
        assert(mismatch_views(out@) =~= before + found);
        assert(counted + first_mismatches(exp, act, views, (i + 1) as nat) =~= before + found);
        i = i + 1;
    }
    out
}

/// Where the outcome of every rule is determined, so are the reports.
pub(crate) proof fn lemma_determined_reports(
    table: Map<Seq<char>, Seq<RuleView>>,
    exp: Seq<EventView>,
    act: Seq<EventView>,
    answers: Seq<AnswerView>,
    reports: Seq<EventReportView>,
)
    requires
        is_table_determined(table),
        can_report_all(table, exp, act, answers, reports),
    ensures
        reports == all_reports(table, exp, act, answers),
{
    assert forall|i: int| 0 <= i < reports.len() implies #[trigger] reports[i] == event_report(
        table,
        exp[i],
        act[i],
        answers,
    ) by {
        let (e, a, r) = (exp[i], act[i], reports[i]);
        assert(can_report(table, e, a, answers, r));
        lemma_determined_field(table, key_of("event"@, None), e.event, a.event, answers, r.event);
        lemma_determined_field(table, key_of("id"@, e.event), e.id, a.id, answers, r.id);
        lemma_determined_field(table, key_of("data"@, e.event), e.data, a.data, answers, r.data);
        lemma_determined_field(table, key_of("retry"@, None), e.retry, a.retry, answers, r.retry);
    }
    assert(reports =~= all_reports(table, exp, act, answers));
}

proof fn lemma_determined_field(
    table: Map<Seq<char>, Seq<RuleView>>,
    key: FieldKeyView,
    expected: Option<Seq<char>>,
    actual: Option<Seq<char>>,
    answers: Seq<AnswerView>,
    report: FieldReportView,
)
    requires
        is_table_determined(table),
        can_report_field(table, key, expected, actual, answers, report),
    ensures
        report == field_report(table, key, expected, actual, answers),
{
    lemma_determined_rules(table, notations(key));
    if let (Some(e), Some(a)) = (expected, actual) {
        if let Some(failures) = report {
            let rules = rules_under(table, notations(key));
            assert forall|i: int| 0 <= i < rules.len() implies #[trigger] failures[i]
                == told_failure(e, a, rules[i], answers) by {
                assert(is_determined(rules[i]));
            }
            assert(failures =~= rules.map_values(|r: RuleView| told_failure(e, a, r, answers)));
        }
    }
}

proof fn lemma_determined_rules(table: Map<Seq<char>, Seq<RuleView>>, keys: Seq<Seq<char>>)
    requires
        is_table_determined(table),
    ensures
        forall|i: int|
            0 <= i < rules_under(table, keys).len() ==> is_determined(
                #[trigger] rules_under(table, keys)[i],
            ),
    decreases keys.len(),
{
    if keys.len() > 0 {
        lemma_determined_rules(table, keys.drop_last());
        if table.contains_key(keys.last()) {
            let earlier = rules_under(table, keys.drop_last());
            let last = table[keys.last()];
            assert forall|i: int| 0 <= i < rules_under(table, keys).len() implies is_determined(
                #[trigger] rules_under(table, keys)[i],
            ) by {
                if i < earlier.len() {
                    assert(rules_under(table, keys)[i] == earlier[i]);
                } else {
                    assert(rules_under(table, keys)[i] == last[i - earlier.len()]);
                }
            }
        }
    }
}

/// Compares events with what was expected. Each field of an expected event is held to the rules for
/// it; where there are none, it must be equal. Of a rule that cannot safely be tried the answer to
/// its question stands; where that is missing, the questions to be answered are given back.
pub fn compare_events(
    expected: &Vec<SseEvent>,
    actual: &Vec<SseEvent>,
    rules: &Table<RuleList>,
    answers: &Vec<Answer>,
) -> (r: Result<Vec<ContentMismatch>, Vec<Question>>)
    ensures
        ({
            let exp = event_views(expected@);
            let act = event_views(actual@);
            let told = answer_views(answers@);
            match r {
                Ok(mismatches) => {
                    &&& all_questions(rules@, exp, act, told).len() == 0
                    &&& can_mismatch(rules@, exp, act, told, mismatch_views(mismatches@))
                    &&& is_table_determined(rules@) ==> mismatch_views(mismatches@)
                        == mismatches_of(rules@, exp, act, told)
                },
                Err(questions) => {
                    &&& question_views(questions@) == all_questions(rules@, exp, act, told)
                    &&& question_views(questions@).len() > 0
                },
            }
        }),
{
    let ghost exp = event_views(expected@);
    let ghost act = event_views(actual@);
    let ghost told = answer_views(answers@);
    let n: usize = if expected.len() <= actual.len() {
        expected.len()
    } else {
        actual.len()
    };
    let mut reports: Vec<EventReport> = Vec::new();
    let mut questions: Vec<Question> = Vec::new();
    let mut i: usize = 0;
    assert(question_views(questions@) =~= seq![]);
    while i < n
        invariant
            0 <= i <= n == paired(exp, act),
            exp == event_views(expected@),
            act == event_views(actual@),
            told == answer_views(answers@),
            question_views(questions@) == first_questions(rules@, exp, act, told, i as nat),
            reports@.len() == i,
            questions@.len() == 0 ==> forall|k: int|
                0 <= k < i ==> can_report(
                    rules@,
                    exp[k],
                    act[k],
                    told,
                    #[trigger] report_views(reports@)[k],
                ),
        decreases n - i,
    {
        let ghost before = report_views(reports@);
        assert(exp[i as int] == expected@[i as int]@);
        assert(act[i as int] == actual@[i as int]@);
        let (report, more) = report_on_event(rules, &expected[i], &actual[i], answers);
        reports.push(report);
        ask_more(&mut questions, more);
        assert(report_views(reports@) =~= before.push(report@));
        i = i + 1;
    }
    assert(question_views(questions@).len() == questions@.len());
    if questions.len() > 0 {
        return Err(questions);
    }
    proof {
        assert(can_report_all(rules@, exp, act, told, report_views(reports@)));
        if is_table_determined(rules@) {
            lemma_determined_reports(rules@, exp, act, told, report_views(reports@));
        }
    }
    Ok(mismatches_of_events(expected, actual, &reports))
}

/// No answers.
pub open spec fn no_answers() -> Seq<AnswerView> {
    seq![]
}

/// Compares events with what was expected, by rules that can all be tried safely.
pub fn compare_sse_events(
    expected: &Vec<SseEvent>,
    actual: &Vec<SseEvent>,
    rules: &Table<RuleList>,
) -> (mismatches: Vec<ContentMismatch>)
    requires
        all_questions(rules@, event_views(expected@), event_views(actual@), no_answers()).len() == 0,
    ensures
        can_mismatch(
            rules@,
            event_views(expected@),
            event_views(actual@),
            no_answers(),
            mismatch_views(mismatches@),
        ),
        is_table_determined(rules@) ==> mismatch_views(mismatches@) == mismatches_of(
            rules@,
            event_views(expected@),
            event_views(actual@),
            no_answers(),
        ),
{
    let answers: Vec<Answer> = Vec::new();
    assert(answer_views(answers@) =~= no_answers());
    match compare_events(expected, actual, rules, &answers) {
        Ok(mismatches) => mismatches,
        Err(_) => {
            assert(false);
            Vec::new()
        },
    }
}

/// The mismatches of a part of the content.
#[derive(Debug, Clone, PartialEq, Eq)]
pub struct ContentMismatches {
    /// The mismatches.
    pub mismatches: Vec<ContentMismatch>,
}

impl View for ContentMismatches {
    type V = Seq<MismatchView>;

    open spec fn view(&self) -> Seq<MismatchView> {
        mismatch_views(self.mismatches@)
    }
}

/// The outcome of a comparison.
#[derive(Debug, Clone, PartialEq, Eq)]
pub struct CompareContentsResponse {
    /// Why nothing could be compared; empty where it could.
    pub error: String,
    /// The mismatches, filed under the path of the part that they are in.
    pub results: Table<ContentMismatches>,
}

/// The results with mismatches that are filed under no path.
pub open spec fn pathless(mismatches: Seq<MismatchView>) -> Map<Seq<char>, Seq<MismatchView>> {
    Map::empty().insert(""@, mismatches)
}

/// An outcome with mismatches that are filed under no path.
pub(crate) fn pathless_response(mismatches: Vec<ContentMismatch>) -> (r: CompareContentsResponse)
    ensures
        r.error@ == ""@,
        r.results@ == pathless(mismatch_views(mismatches@)),
{
    let mut results: Table<ContentMismatches> = Table::new();
    results.insert("".to_owned(), ContentMismatches { mismatches });
    CompareContentsResponse { error: "".to_owned(), results }
}

/// The questions to be answered before a stream can be compared with the stream that was expected.
pub open spec fn stream_questions(
    expected: Seq<char>,
    actual: Seq<char>,
    table: Map<Seq<char>, Seq<RuleView>>,
    answers: Seq<AnswerView>,
) -> Seq<QuestionView> {
    all_questions(table, events_of(expected), events_of(actual), answers)
}

/// Whether a comparison of streams can have the outcome: its mismatches are some that the rules can
/// give, and where the outcome of every rule is determined, they are determined too.
pub open spec fn is_comparison(
    expected: Seq<char>,
    actual: Seq<char>,
    allow_unexpected_keys: bool,
    table: Map<Seq<char>, Seq<RuleView>>,
    answers: Seq<AnswerView>,
    r: CompareContentsResponse,
) -> bool {
    &&& r.error@ == ""@
    &&& exists|mismatches: Seq<MismatchView>|
        r.results@ == #[trigger] pathless(mismatches) && can_mismatch(
            table,
            events_of(expected),
            events_of(actual),
            answers,
            mismatches,
        )
    &&& is_table_determined(table) ==> r.results@ == comparison(
        expected,
        actual,
        allow_unexpected_keys,
        table,
        answers,
    )
}

/// The results of comparing streams, where the outcome of every rule is determined. Fields that
/// were not expected are never mismatches.
pub open spec fn comparison(
    expected: Seq<char>,
    actual: Seq<char>,
    allow_unexpected_keys: bool,
    table: Map<Seq<char>, Seq<RuleView>>,
    answers: Seq<AnswerView>,
) -> Map<Seq<char>, Seq<MismatchView>> {
    pathless(mismatches_of(table, events_of(expected), events_of(actual), answers))
}

/// Compares a stream with the stream that was expected. Fields that were not expected are never
/// mismatches, so nothing depends on whether they are allowed. Of a rule that cannot safely be
/// tried the answer to its question stands; where that is missing, the questions to be answered are
/// given back.
pub fn compare_sse_contents(
    expected_sse: &str,
    actual_sse: &str,
    allow_unexpected_keys: bool,
    rules: &Table<RuleList>,
    answers: &Vec<Answer>,
) -> (r: Result<CompareContentsResponse, Vec<Question>>)
    ensures
        match r {
            Ok(response) => {
                &&& stream_questions(
                    expected_sse@,
                    actual_sse@,
                    rules@,
                    answer_views(answers@),
                ).len() == 0
                &&& is_comparison(
                    expected_sse@,
                    actual_sse@,
                    allow_unexpected_keys,
                    rules@,
                    answer_views(answers@),
                    response,
                )
            },
            Err(questions) => {
                &&& question_views(questions@) == stream_questions(
                    expected_sse@,
                    actual_sse@,
                    rules@,
                    answer_views(answers@),
                )
                &&& question_views(questions@).len() > 0
            },
        },
{
    let expected = SseEvent::parse(expected_sse);
    let actual = SseEvent::parse(actual_sse);
    match compare_events(&expected, &actual, rules, answers) {
        Ok(mismatches) => Ok(pathless_response(mismatches)),
        Err(questions) => Err(questions),
    }
}

} // verus!
