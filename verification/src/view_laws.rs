//! That the values which contracts speak of show all there is in what the functions take and give.

use crate::definition::{config_view, Config, FieldValue, FieldValueView};
use crate::parser::{FieldKey, FieldKeyView};
use crate::plugin::{
    content_of, interaction_fields, list_items, Body, ConfigItem, ConfigValue, ItemView,
    PluginConfiguration,
};
use crate::rules::{
    answer_views, question_views, report_view, requested_list_views, rule_views, Answer, Attribute,
    AttributeView, FieldReport, Question, RequestedList, RequestedRule, RuleError, RuleErrorView,
    RuleList, Rule,
};
use crate::sse_content::compare::{
    bytes_view, mismatch_views, report_views, ContentMismatch, EventReport,
};
use crate::sse_content::event::{event_views, lines, SseEvent};
use crate::sse_content::event_laws::{lemma_lines_append, lemma_one_line};
use crate::sse_content::generate::{
    drawn_views, open_views, outcome_view, requested_views, told_views, DrawnEvent, OpenDraw,
    RequestedGenerator, Told,
};
use crate::sse_content::setup::{
    configuration_view, configured_views, defined_views, setup_views, Configuration,
    ConfiguredField, DefinedField, FieldSetup, Interaction,
};
use crate::text::{text_view, texts};
use vstd::prelude::*;

verus! {

/// Texts and bytes that may be missing are shown as they are.
pub proof fn law_optional_values_are_shown(t: Option<String>, b: Option<Vec<u8>>)
    ensures
        t matches Some(s) ==> text_view(t) == Some(s@),
        t is None ==> text_view(t) is None,
        b matches Some(v) ==> bytes_view(b) == Some(v@),
        b is None ==> bytes_view(b) is None,
{
}

/// Events, keys and mismatches are shown with all their fields.
pub proof fn law_events_and_mismatches_are_shown(e: SseEvent, k: FieldKey, m: ContentMismatch)
    ensures
        e@.id == text_view(e.id),
        e@.event == text_view(e.event),
        e@.data == text_view(e.data),
        e@.retry == text_view(e.retry),
        k@ == (FieldKeyView { field: k.field@, event_type: text_view(k.event_type) }),
        m@.expected == bytes_view(m.expected),
        m@.actual == bytes_view(m.actual),
        m@.mismatch == m.mismatch@,
        m@.path == m.path@,
        m@.diff == m.diff@,
        m@.mismatch_type == m.mismatch_type@,
{
}

/// Sequences are shown item by item, in their order.
pub proof fn law_sequences_are_shown_item_by_item(
    events: Seq<SseEvent>,
    mismatches: Seq<ContentMismatch>,
    reports: Seq<EventReport>,
    strings: Seq<String>,
    questions: Seq<Question>,
    answers: Seq<Answer>,
    told: Seq<Told>,
    draws: Seq<OpenDraw>,
    drawn: Seq<DrawnEvent>,
    i: int,
)
    ensures
        event_views(events).len() == events.len(),
        0 <= i < events.len() ==> event_views(events)[i] == events[i]@,
        mismatch_views(mismatches).len() == mismatches.len(),
        0 <= i < mismatches.len() ==> mismatch_views(mismatches)[i] == mismatches[i]@,
        report_views(reports).len() == reports.len(),
        0 <= i < reports.len() ==> report_views(reports)[i] == reports[i]@,
        texts(strings).len() == strings.len(),
        0 <= i < strings.len() ==> texts(strings)[i] == strings[i]@,
        question_views(questions).len() == questions.len(),
        0 <= i < questions.len() ==> question_views(questions)[i] == questions[i]@,
        answer_views(answers).len() == answers.len(),
        0 <= i < answers.len() ==> answer_views(answers)[i] == answers[i]@,
        told_views(told).len() == told.len(),
        0 <= i < told.len() ==> told_views(told)[i] == told[i]@,
        open_views(draws).len() == draws.len(),
        0 <= i < draws.len() ==> open_views(draws)[i] == draws[i]@,
        drawn_views(drawn).len() == drawn.len(),
        0 <= i < drawn.len() ==> drawn_views(drawn)[i] == drawn[i]@,
{
}

/// Requests for rules and generators, and what is set up, are shown item by item and field by
/// field.
pub proof fn law_requests_are_shown(
    lists: Seq<RequestedList>,
    generators: Seq<RequestedGenerator>,
    fields: Seq<ConfiguredField>,
    defined: Seq<DefinedField>,
    setups: Seq<FieldSetup>,
    i: int,
    j: int,
)
    ensures
        requested_list_views(lists).len() == lists.len(),
        0 <= i < lists.len() ==> {
            let list = requested_list_views(lists)[i];
            &&& list.0 == lists[i].0@
            &&& list.1.len() == lists[i].1@.len()
            &&& 0 <= j < list.1.len() ==> list.1[j].rule_type == lists[i].1@[j].rule_type@
                && list.1[j].values == lists[i].1@[j].values@
        },
        requested_views(generators).len() == generators.len(),
        0 <= i < generators.len() ==> {
            let g = requested_views(generators)[i];
            &&& g.key == generators[i].key@
            &&& g.generator_type == generators[i].generator_type@
            &&& generators[i].values matches Some(values) ==> g.values == Some(values@)
            &&& generators[i].values is None ==> g.values is None
        },
        configured_views(fields).len() == fields.len(),
        0 <= i < fields.len() ==> configured_views(fields)[i] == (fields[i].0@, fields[i].1@),
        defined_views(defined).len() == defined.len(),
        0 <= i < defined.len() ==> {
            let f = defined_views(defined)[i];
            f.name == defined[i].name@ && f.key == defined[i].key@ && f.definition
                == defined[i].definition@
        },
        setup_views(setups).len() == setups.len(),
        0 <= i < setups.len() ==> {
            let f = setup_views(setups)[i];
            &&& f.name == setups[i].name@ && f.key == setups[i].key@ && f.value == setups[i].value@
            &&& f.rule == config_view(setups[i].rule)
            &&& f.generator == config_view(setups[i].generator)
        },
{
}

/// Configurations, attributes and values are shown as they are.
pub proof fn law_values_are_shown(
    c: Config,
    some: Option<Config>,
    a: Attribute,
    v: FieldValue,
    config: Configuration,
    x: Interaction,
)
    ensures
        c@.name == c.name@,
        c@.values == c.values@,
        some matches Some(c) ==> config_view(some) == Some(c@),
        some is None ==> config_view(some) is None,
        a matches Attribute::Text(t) ==> a@ == AttributeView::Text(t@),
        a matches Attribute::Json(j) ==> a@ == AttributeView::Json(j@),
        v matches FieldValue::Text(t) ==> v@ == FieldValueView::Text(t@),
        v is Missing <==> v@ is Missing,
        v is Null <==> v@ is Null,
        v is Number <==> v@ is Number,
        v is Bool <==> v@ is Bool,
        v is Struct <==> v@ is Struct,
        v is List <==> v@ is List,
        config matches Some(fields) ==> configuration_view(config) == Some(
            configured_views(fields@),
        ),
        config is None ==> configuration_view(config) is None,
        x@.content_type == x.content_type@,
        x@.content == x.content@,
        x@.rules == x.rules@,
        x@.generators == x.generators@,
        x@.interaction_markup == x.interaction_markup@,
{
}

/// Questions, answers, draws and reports are shown as they are.
pub proof fn law_questions_and_draws_are_shown(
    q: Question,
    a: Answer,
    t: Told,
    d: OpenDraw,
    e: DrawnEvent,
    o: Option<Result<String, String>>,
    r: EventReport,
    f: FieldReport,
    x: RuleError,
    i: int,
)
    ensures
        q@.expected == q.expected@ && q@.actual == q.actual@ && q@.rule == q.rule@ && q@.setting
            == q.setting@,
        a@.question == a.question@ && a@.failure == text_view(a.failure),
        t@.retry == outcome_view(t.retry) && t@.data == outcome_view(t.data) && t@.id
            == outcome_view(t.id),
        d@.event == d.event && d@.field == d.field@ && d@.generator == d.generator@,
        e@.event == e.event@,
        e.retry matches Some(v) ==> e@.retry == Some(v@),
        e.data matches Some(v) ==> e@.data == Some(v@),
        e.id matches Some(v) ==> e@.id == Some(v@),
        e.retry is None ==> e@.retry is None,
        e.data is None ==> e@.data is None,
        e.id is None ==> e@.id is None,
        o matches Some(Ok(s)) ==> outcome_view(o) == Some(Ok::<_, Seq<char>>(s@)),
        o matches Some(Err(s)) ==> outcome_view(o) == Some(Err::<Seq<char>, _>(s@)),
        o is None ==> outcome_view(o) is None,
        r@.event == report_view(r.event) && r@.id == report_view(r.id) && r@.data == report_view(
            r.data,
        ) && r@.retry == report_view(r.retry),
        f is None ==> report_view(f) is None,
        f matches Some(v) ==> {
            &&& report_view(f) matches Some(w) && w.len() == v@.len() && (0 <= i < v@.len() ==> w[i]
                == text_view(v@[i]))
        },
        x matches RuleError::Refused(s) ==> x@ == RuleErrorView::Refused(s@),
        x matches RuleError::Unreadable ==> x@ == RuleErrorView::Unreadable,
{
}

/// Rules that are asked for and lists of rules are shown as they are.
pub proof fn law_rules_are_shown(r: RequestedRule, l: RuleList, rules: Seq<Rule>, i: int)
    ensures
        r@.rule_type == r.rule_type@ && r@.values == r.values@,
        l@ == rule_views(l.rules@),
        rule_views(rules).len() == rules.len(),
        0 <= i < rules.len() ==> rule_views(rules)[i] == rules[i]@,
{
}

/// Of a body its content is shown, and of a configuration what is kept with the interaction: each
/// field by its name, and where it is a list, its items.
pub proof fn law_bodies_and_configurations_are_shown(
    b: Option<Body>,
    c: Option<PluginConfiguration>,
    v: ConfigValue,
    item: ConfigItem,
    i: int,
)
    ensures
        b matches Some(body) ==> content_of(b) == bytes_view(body.content),
        b is None ==> content_of(b) is None,
        c is None ==> interaction_fields(c).len() == 0,
        c matches Some(config) ==> match config.interaction_configuration {
            Some(fields) => {
                &&& interaction_fields(c).len() == fields@.len()
                &&& 0 <= i < fields@.len() ==> interaction_fields(c)[i].0 == fields@[i].0@
                    && interaction_fields(c)[i].1 == list_items(fields@[i].1)
            },
            None => interaction_fields(c).len() == 0,
        },
        v matches ConfigValue::List(items) ==> {
            &&& list_items(v) matches Some(views) && views.len() == items@.len() && (0 <= i
                < items@.len() ==> views[i] == items@[i]@)
        },
        !(v is List) ==> list_items(v) is None,
        item matches ConfigItem::Struct(values) ==> item@ == ItemView::Struct(values@),
        item matches ConfigItem::Other ==> item@ == ItemView::Other,
{
}

/// The lines of a text are the parts between its line feeds.
pub proof fn law_lines_are_the_parts_between_line_feeds(a: Seq<char>, b: Seq<char>)
    ensures
        !a.contains('\n') ==> lines(a) == seq![a],
        lines(a + "\n"@ + b) == lines(a) + lines(b),
{
    if !a.contains('\n') {
        lemma_one_line(a);
    }
    lemma_lines_append(a, b);
}

} // verus!
