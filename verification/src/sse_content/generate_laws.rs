//! What holds of generating event streams as a whole.

use crate::definition::ConfigView;
use crate::generators::{can_give, draw_failure, is_drawable, is_generator, DrawnView};
use crate::parser::{error_text, field_key, FieldErrorKind, FieldKeyView};
use crate::sse_content::event::{
    after_line, events_of, field_line, line_events, lines, more_data, no_event, pending, EventView,
};
use crate::sse_content::event_laws::{
    fits_line, is_writable, keeps_value, law_events_read_can_be_written, lemma_label,
    lemma_lines_append, lemma_lines_make_text, lemma_nothing_to_read, lemma_one_line,
    lemma_read_blank, lemma_read_event, lemma_read_field, lemma_read_id, lemma_read_retry,
    lemma_regroup, more_lines,
};
use crate::sse_content::generate::{
    are_drawn_events, draws_nothing, drawn_views, event_with, events_after, events_failure,
    generated_data, generated_event, generated_line, generated_lines, generated_stream,
    generation_draws, generation_error, is_drawn, is_drawn_event, is_generatable, is_generated,
    is_refused, lead, lookup_key, open_draws, open_event, open_field, requested_generators, told_at,
    DrawnEventView, GeneratedContent, OpenDrawView, RequestedView, ToldView,
};
use crate::text::{trimmed, utf8_error};
use vstd::prelude::*;
use vstd::utf8::{decode_utf8, encode_utf8, valid_utf8};

verus! {

/// All the generators that are asked for are for the reconnection time.
pub open spec fn are_for_retry(generators: Seq<RequestedView>) -> bool {
    forall|i: int|
        0 <= i < generators.len() ==> (field_key((#[trigger] generators[i]).key) matches Ok(key)
            && key.field == "retry"@)
}

/// Generators for the reconnection time are not for other fields.
proof fn lemma_filed_for_retry(
    generators: Seq<RequestedView>,
    field: Seq<char>,
    event_type: Option<Seq<char>>,
)
    requires
        are_for_retry(generators),
        field == "data"@ || field == "id"@,
    ensures
        requested_generators(generators) matches Ok(table) ==> !table.contains_key(
            lookup_key(field, event_type),
        ),
    decreases generators.len(),
{
    if generators.len() > 0 {
        let init = generators.drop_last();
        assert forall|i: int| 0 <= i < init.len() implies (field_key((#[trigger] init[i]).key)
            matches Ok(key) && key.field == "retry"@) by {
            assert(init[i] == generators[i]);
        }
        lemma_filed_for_retry(init, field, event_type);
        let g = generators[generators.len() - 1];
        if let Ok(key) = field_key(g.key) {
            reveal_strlit("retry");
            reveal_strlit("data");
            reveal_strlit("id");
            assert(key.path()[0] == 'r');
            assert(lookup_key(field, event_type)[0] == field[0]);
        }
    }
}

/// Where generators are asked for only for the reconnection time, drawing changes no other field of
/// an event, and the reconnection time becomes what its generator gave. An event without one gets
/// none.
pub proof fn law_a_retry_generator_changes_nothing_else(
    generators: Seq<RequestedView>,
    e: EventView,
    told: ToldView,
    drawn: DrawnEventView,
)
    requires
        are_for_retry(generators),
        requested_generators(generators) is Ok,
        is_drawn_event(requested_generators(generators)->Ok_0, e, told, drawn),
    ensures
        drawn.event == (EventView { retry: drawn.event.retry, ..e }),
        is_drawn(requested_generators(generators)->Ok_0, "retry"@, e.retry) ==> drawn.retry is Some
            && drawn.retry->0.generator == requested_generators(generators)->Ok_0["retry"@]
            && drawn.event.retry == Some(drawn.retry->0.text),
        !is_drawn(requested_generators(generators)->Ok_0, "retry"@, e.retry) ==> drawn.event
            == e,
{
    lemma_filed_for_retry(generators, "data"@, e.event);
    lemma_filed_for_retry(generators, "id"@, e.event);
}

/// Where generators are asked for only for the reconnection time, and give values that one line can
/// hold, the generated stream holds the events of the content in their order, each with nothing but
/// its reconnection time drawn.
pub proof fn law_retry_generation_is_read_back(
    generators: Seq<RequestedView>,
    content: Seq<char>,
    told: Seq<ToldView>,
    drawn: Seq<DrawnEventView>,
)
    requires
        are_for_retry(generators),
        requested_generators(generators) is Ok,
        are_drawn_events(
            requested_generators(generators)->Ok_0,
            events_of(content),
            told,
            drawn,
        ),
        forall|i: int|
            0 <= i < drawn.len() ==> ((#[trigger] drawn[i]).retry matches Some(d) ==> fits_line(
                d.text,
            )),
    ensures
        events_of(generated_stream(events_after(drawn))) == events_after(drawn),
        events_after(drawn).len() == events_of(content).len(),
        forall|i: int|
            0 <= i < drawn.len() ==> #[trigger] events_after(drawn)[i] == (EventView {
                retry: drawn[i].event.retry,
                ..events_of(content)[i]
            }),
        forall|i: int|
            0 <= i < drawn.len() ==> ((#[trigger] events_after(drawn)[i]).retry is Some
                <==> events_of(content)[i].retry is Some),
{
    let events = events_of(content);
    let after = events_after(drawn);
    law_events_read_can_be_written(content);
    assert forall|i: int| 0 <= i < after.len() implies {
        &&& #[trigger] after[i] == (EventView { retry: drawn[i].event.retry, ..events[i] })
        &&& after[i].retry is Some <==> events[i].retry is Some
        &&& is_writable(after[i])
        &&& after[i] != no_event()
    } by {
        assert(is_drawn_event(
            requested_generators(generators)->Ok_0,
            events[i],
            told_at(told, i),
            drawn[i],
        ));
        law_a_retry_generator_changes_nothing_else(
            generators,
            events[i],
            told_at(told, i),
            drawn[i],
        );
        assert(events[i] != no_event() && is_writable(events[i]));
        if after[i].retry is None {
            assert(after[i] =~= events[i]);
        }
    }
    law_generated_stream_is_read_back(after);
}

/// Where no generators are asked for, nothing is drawn and nothing is to be told.
pub proof fn law_nothing_is_drawn_without_generators(
    events: Seq<EventView>,
    told: Seq<ToldView>,
)
    ensures
        requested_generators(seq![]) is Ok,
        draws_nothing(requested_generators(seq![])->Ok_0, events),
        open_draws(requested_generators(seq![])->Ok_0, events, told) == Seq::<
            OpenDrawView,
        >::empty(),
        events_failure(requested_generators(seq![])->Ok_0, events, told) is None,
    decreases events.len(),
{
    if events.len() > 0 {
        law_nothing_is_drawn_without_generators(events.drop_last(), told);
    }
}

/// Where every draw is certain to come to an end, what is told makes no difference.
pub proof fn law_certain_draws_are_not_told(
    table: Map<Seq<char>, ConfigView>,
    events: Seq<EventView>,
    told: Seq<ToldView>,
    drawn: Seq<DrawnEventView>,
)
    requires
        open_draws(table, events, seq![]).len() == 0,
    ensures
        open_draws(table, events, told).len() == 0,
        events_failure(table, events, told) == events_failure(table, events, seq![]),
        are_drawn_events(table, events, told, drawn) <==> are_drawn_events(
            table,
            events,
            seq![],
            drawn,
        ),
    decreases events.len(),
{
    if events.len() > 0 {
        let init = events.drop_last();
        let n = events.len() - 1;
        if drawn.len() == events.len() {
            let before = drawn.drop_last();
            law_certain_draws_are_not_told(table, init, told, before);
            assert forall|t: Seq<ToldView>|
                #![trigger are_drawn_events(table, events, t, drawn)]
                are_drawn_events(table, events, t, drawn) == (are_drawn_events(
                    table,
                    init,
                    t,
                    before,
                ) && is_drawn_event(table, events[n], told_at(t, n), drawn[n])) by {
                if are_drawn_events(table, init, t, before) && is_drawn_event(
                    table,
                    events[n],
                    told_at(t, n),
                    drawn[n],
                ) {
                    assert forall|i: int| 0 <= i < events.len() implies is_drawn_event(
                        table,
                        #[trigger] events[i],
                        told_at(t, i),
                        drawn[i],
                    ) by {
                        if i < n {
                            assert(init[i] == events[i]);
                        }
                    }
                }
                if are_drawn_events(table, events, t, drawn) {
                    assert forall|i: int| 0 <= i < init.len() implies is_drawn_event(
                        table,
                        #[trigger] init[i],
                        told_at(t, i),
                        before[i],
                    ) by {
                        assert(init[i] == events[i]);
                    }
                    assert(is_drawn_event(table, events[n], told_at(t, n), drawn[n]));
                }
            }
        } else {
            law_certain_draws_are_not_told(table, init, told, drawn);
        }
    }
}

/// What is told of an open draw.
pub open spec fn told_of(told: Seq<ToldView>, d: OpenDrawView) -> Option<
    Result<Seq<char>, Seq<char>>,
> {
    let t = told_at(told, d.event);
    if d.field == "retry"@ {
        t.retry
    } else if d.field == "data"@ {
        t.data
    } else {
        t.id
    }
}

/// All the draws are told.
pub open spec fn are_told(told: Seq<ToldView>, draws: Seq<OpenDrawView>) -> bool {
    forall|i: int| 0 <= i < draws.len() ==> told_of(told, #[trigger] draws[i]) is Some
}

proof fn lemma_parts_told(told: Seq<ToldView>, a: Seq<OpenDrawView>, b: Seq<OpenDrawView>)
    requires
        are_told(told, a + b),
    ensures
        are_told(told, a),
        are_told(told, b),
{
    assert forall|i: int| 0 <= i < a.len() implies told_of(told, #[trigger] a[i]) is Some by {
        assert((a + b)[i] == a[i]);
    }
    assert forall|i: int| 0 <= i < b.len() implies told_of(told, #[trigger] b[i]) is Some by {
        assert((a + b)[a.len() + i] == b[i]);
    }
}

/// Content is generated once the draws that are open without anything told are told, whatever the
/// generators and the events are: no others are open.
pub proof fn law_told_draws_are_the_last(
    table: Map<Seq<char>, ConfigView>,
    events: Seq<EventView>,
    told: Seq<ToldView>,
)
    requires
        are_told(told, open_draws(table, events, seq![])),
    ensures
        open_draws(table, events, told).len() == 0,
    decreases events.len(),
{
    if events.len() > 0 {
        let i = events.len() - 1;
        let e = events.last();
        let (data_key, id_key) = (lookup_key("data"@, e.event), lookup_key("id"@, e.event));
        let retry = open_field(table, i, "retry"@, "retry"@, e.retry, None);
        let data = open_field(table, i, "data"@, data_key, e.data, None);
        let id = open_field(table, i, "id"@, id_key, e.id, None);
        reveal_strlit("retry");
        reveal_strlit("data");
        reveal_strlit("id");
        lemma_parts_told(
            told,
            open_draws(table, events.drop_last(), seq![]),
            open_event(table, i, e, told_at(seq![], i)),
        );
        lemma_parts_told(told, retry + data, id);
        lemma_parts_told(told, retry, data);
        law_told_draws_are_the_last(table, events.drop_last(), told);
        let t = told_at(told, i);
        if retry.len() > 0 {
            assert(told_of(told, retry[0]) is Some);
        }
        if data.len() > 0 {
            assert(told_of(told, data[0]) is Some);
            assert("data"@.len() != "retry"@.len());
        }
        if id.len() > 0 {
            assert(told_of(told, id[0]) is Some);
            assert("id"@.len() != "retry"@.len());
            assert("id"@.len() != "data"@.len());
        }
        assert(open_event(table, i, e, t).len() == 0);
    }
}

/// The label that a value is written behind.
spec fn label_for(name: Seq<char>, v: Seq<char>) -> Seq<char> {
    name + lead(v)
}

proof fn lemma_labels(v: Seq<char>)
    ensures
        label_for("retry:"@, v) == "retry: "@ || label_for("retry:"@, v) == "retry:"@,
        label_for("event:"@, v) == "event: "@ || label_for("event:"@, v) == "event:"@,
        label_for("data:"@, v) == "data: "@ || label_for("data:"@, v) == "data:"@,
        label_for("id:"@, v) == "id: "@ || label_for("id:"@, v) == "id:"@,
        keeps_value(label_for("retry:"@, v), v),
        keeps_value(label_for("event:"@, v), v),
        keeps_value(label_for("data:"@, v), v),
        keeps_value(label_for("id:"@, v), v),
{
    reveal_strlit("retry: ");
    reveal_strlit("retry:");
    reveal_strlit("event: ");
    reveal_strlit("event:");
    reveal_strlit("data: ");
    reveal_strlit("data:");
    reveal_strlit("id: ");
    reveal_strlit("id:");
    reveal_strlit(" ");
    if v.len() > 0 && v[0] == ' ' {
        assert(label_for("retry:"@, v) =~= "retry: "@);
        assert(label_for("event:"@, v) =~= "event: "@);
        assert(label_for("data:"@, v) =~= "data: "@);
        assert(label_for("id:"@, v) =~= "id: "@);
    } else {
        assert(label_for("retry:"@, v) =~= "retry:"@);
        assert(label_for("event:"@, v) =~= "event:"@);
        assert(label_for("data:"@, v) =~= "data:"@);
        assert(label_for("id:"@, v) =~= "id:"@);
    }
}

/// A line with a space after the colon only where the value needs one.
proof fn lemma_generated_line(name: Seq<char>, value: Option<Seq<char>>)
    ensures
        generated_line(name, value) == (match value {
            Some(v) => field_line(label_for(name, v), Some(v)),
            None => field_line(name, None),
        }),
{
}

/// The label that a value that may be missing is written behind.
spec fn label_of(name: Seq<char>, value: Option<Seq<char>>) -> Seq<char> {
    match value {
        Some(v) => label_for(name, v),
        None => name,
    }
}

proof fn lemma_read_generated_lines(ls: Seq<Seq<char>>, rest: Seq<char>, e: EventView)
    requires
        forall|i: int| 0 <= i < ls.len() ==> fits_line(#[trigger] ls[i]),
    ensures
        line_events(lines(generated_lines("data:"@, ls) + rest), e) == line_events(
            lines(rest),
            EventView { data: more_lines(e.data, ls), ..e },
        ),
    decreases ls.len(),
{
    if ls.len() == 0 {
        assert(generated_lines("data:"@, ls) + rest =~= rest);
    } else {
        let r = ls.drop_first();
        let v = ls[0];
        let label = label_for("data:"@, v);
        let tail = generated_lines("data:"@, r) + rest;
        lemma_labels(v);
        assert(fits_line(ls[0]));
        lemma_read_field(label, v, tail, e);
        lemma_label(label, v, e);
        assert(after_line(e, label + v) == (EventView { data: more_data(e.data, v), ..e })) by {
            reveal_strlit("data: ");
            reveal_strlit("data:");
            reveal_strlit("id: ");
            reveal_strlit("retry: ");
            reveal_strlit("event: ");
            reveal_strlit("id:");
            reveal_strlit("retry:");
            reveal_strlit("event:");
            assert(label[0] == 'd');
        }
        lemma_generated_line("data:"@, Some(v));
        assert(generated_lines("data:"@, ls) + rest =~= generated_line("data:"@, Some(v)) + tail);
        assert forall|i: int| 0 <= i < r.len() implies fits_line(#[trigger] r[i]) by {
            assert(r[i] == ls[i + 1]);
        }
        lemma_read_generated_lines(r, rest, EventView { data: more_data(e.data, v), ..e });
    }
}

proof fn lemma_generated_event_is_read_back(e: EventView, rest: Seq<char>)
    requires
        is_writable(e),
    ensures
        events_of(generated_event(e) + rest) == pending(e) + events_of(rest),
{
    let end = "\n"@ + rest;
    let id = generated_line("id:"@, e.id) + end;
    let data = generated_data(e.data) + id;
    let event = generated_line("event:"@, e.event) + data;
    lemma_regroup(
        generated_line("retry:"@, e.retry),
        generated_line("event:"@, e.event),
        generated_data(e.data),
        generated_line("id:"@, e.id),
        "\n"@,
        rest,
    );
    lemma_generated_line("retry:"@, e.retry);
    lemma_generated_line("event:"@, e.event);
    lemma_generated_line("id:"@, e.id);
    if let Some(v) = e.retry {
        lemma_labels(v);
    }
    if let Some(v) = e.event {
        lemma_labels(v);
    }
    if let Some(v) = e.id {
        lemma_labels(v);
    }
    let e0 = no_event();
    let e1 = EventView { retry: e.retry, ..e0 };
    let e2 = EventView { event: e.event, ..e1 };
    let e3 = EventView { data: e.data, ..e2 };
    lemma_read_retry(label_of("retry:"@, e.retry), e.retry, event, e0);
    lemma_read_event(label_of("event:"@, e.event), e.event, data, e1);
    match e.data {
        Some(d) => {
            lemma_read_generated_lines(lines(d), id, e2);
            lemma_lines_make_text(None, d);
        },
        None => {
            assert(data =~= id);
        },
    }
    lemma_read_id(label_of("id:"@, e.id), e.id, end, e3);
    lemma_read_blank(rest, e);
}

proof fn lemma_generated_stream_is_read_back(events: Seq<EventView>, rest: Seq<char>)
    requires
        forall|i: int| 0 <= i < events.len() ==> is_writable(#[trigger] events[i]),
        forall|i: int| 0 <= i < events.len() ==> #[trigger] events[i] != no_event(),
    ensures
        events_of(generated_stream(events) + rest) == events + events_of(rest),
    decreases events.len(),
{
    if events.len() == 0 {
        assert(generated_stream(events) + rest =~= rest);
        assert(events + events_of(rest) =~= events_of(rest));
    } else {
        let init = events.drop_last();
        let last = events.last();
        let tail = generated_event(last) + rest;
        assert(generated_stream(events) + rest =~= generated_stream(init) + tail);
        assert forall|i: int| 0 <= i < init.len() implies is_writable(#[trigger] init[i]) && init[i]
            != no_event() by {
            assert(init[i] == events[i]);
        }
        lemma_generated_stream_is_read_back(init, tail);
        lemma_generated_event_is_read_back(last, rest);
        assert(init + (pending(last) + events_of(rest)) =~= events + events_of(rest));
    }
}

/// A generated stream is read back as the events it was written from.
pub proof fn law_generated_stream_is_read_back(events: Seq<EventView>)
    requires
        forall|i: int| 0 <= i < events.len() ==> is_writable(#[trigger] events[i]),
        forall|i: int| 0 <= i < events.len() ==> #[trigger] events[i] != no_event(),
    ensures
        events_of(generated_stream(events)) == events,
{
    let none: Seq<char> = seq![];
    lemma_generated_stream_is_read_back(events, none);
    lemma_nothing_to_read();
    assert(generated_stream(events) + none =~= generated_stream(events));
    assert(events + events_of(none) =~= events);
}

/// Where nothing is drawn, a generated stream holds the events of the stream that it is generated
/// from.
pub proof fn law_generating_keeps_the_events(content: Seq<char>)
    ensures
        events_of(generated_stream(events_of(content))) == events_of(content),
{
    law_events_read_can_be_written(content);
    law_generated_stream_is_read_back(events_of(content));
}

/// Every generator that is asked for is filed under the path of the field that its definition
/// gives. Where several are asked for under one path, it is the last of them that is filed, with
/// its type and its values.
pub proof fn law_every_requested_generator_is_filed(
    generators: Seq<RequestedView>,
    i: int,
    key: FieldKeyView,
)
    requires
        requested_generators(generators) is Ok,
        0 <= i < generators.len(),
        field_key(generators[i].key) == Ok::<FieldKeyView, FieldErrorKind>(key),
    ensures
        requested_generators(generators)->Ok_0.contains_key(key.path()),
        (forall|j: int, k: FieldKeyView|
            i < j < generators.len() && field_key((#[trigger] generators[j]).key) == Ok::<
                FieldKeyView,
                FieldErrorKind,
            >(k) ==> #[trigger] k.path() != key.path()) ==> {
            &&& generators[i].values is Some
            &&& requested_generators(generators)->Ok_0[key.path()] == (ConfigView {
                name: generators[i].generator_type,
                values: generators[i].values->0,
            })
        },
    decreases generators.len(),
{
    let init = generators.drop_last();
    if i < init.len() {
        assert(init[i] == generators[i]);
        law_every_requested_generator_is_filed(init, i, key);
        if forall|j: int, k: FieldKeyView|
            i < j < generators.len() && field_key((#[trigger] generators[j]).key) == Ok::<
                FieldKeyView,
                FieldErrorKind,
            >(k) ==> #[trigger] k.path() != key.path() {
            assert forall|j: int, k: FieldKeyView|
                i < j < init.len() && field_key((#[trigger] init[j]).key) == Ok::<
                    FieldKeyView,
                    FieldErrorKind,
                >(k) implies #[trigger] k.path() != key.path() by {
                assert(init[j] == generators[j]);
            }
            let last = generators[generators.len() - 1];
            assert(last == generators.last());
            let k = field_key(last.key)->Ok_0;
            assert(k.path() != key.path());
        }
    } else {
        assert(generators[i] == generators.last());
    }
}

/// A generator is only filed under the path of a field that one is asked for.
pub proof fn law_filed_generators_are_asked_for(generators: Seq<RequestedView>, path: Seq<char>)
    requires
        requested_generators(generators) is Ok,
        requested_generators(generators)->Ok_0.contains_key(path),
    ensures
        exists|i: int|
            0 <= i < generators.len() && (field_key((#[trigger] generators[i]).key) matches Ok(key)
                && key.path() == path),
    decreases generators.len(),
{
    if generators.len() > 0 {
        let init = generators.drop_last();
        let last = generators[generators.len() - 1];
        assert(last == generators.last());
        let key = field_key(last.key)->Ok_0;
        if key.path() != path {
            law_filed_generators_are_asked_for(init, path);
            let i = choose|i: int|
                0 <= i < init.len() && (field_key((#[trigger] init[i]).key) matches Ok(key)
                    && key.path() == path);
            assert(init[i] == generators[i]);
        }
    }
}

/// Requests are read in their order, and the first that cannot be had is reported: its definition
/// comes before its values, and those before its type.
pub proof fn law_requests_are_read_in_their_order(
    generators: Seq<RequestedView>,
    g: RequestedView,
)
    ensures
        requested_generators(seq![]) == Ok::<_, Seq<char>>(Map::<Seq<char>, ConfigView>::empty()),
        ({
            let all = requested_generators(generators.push(g));
            match requested_generators(generators) {
                Err(text) => all == Err::<Map<Seq<char>, ConfigView>, _>(text),
                Ok(earlier) => match field_key(g.key) {
                    Err(kind) => all == Err::<Map<Seq<char>, ConfigView>, _>(
                        error_text(kind, trimmed(g.key)),
                    ),
                    Ok(key) => match g.values {
                        None => all == Err::<Map<Seq<char>, ConfigView>, _>(
                            "Generator values were expected"@,
                        ),
                        Some(values) => {
                            let config = (ConfigView { name: g.generator_type, values });
                            if is_generator(config) {
                                all == Ok::<_, Seq<char>>(earlier.insert(key.path(), config))
                            } else {
                                all == Err::<Map<Seq<char>, ConfigView>, _>(
                                    "Failed to build generator of type "@ + g.generator_type,
                                )
                            }
                        },
                    },
                },
            }
        }),
{
    assert(generators.push(g).drop_last() =~= generators);
}

/// Whether this is a field after drawing under the key: where the field is there and a generator is
/// filed under the key, it is what that generator gave, or what is told where the generator is not
/// certain to come to an end, and otherwise it is as it was.
pub open spec fn is_field_after(
    table: Map<Seq<char>, ConfigView>,
    key: Seq<char>,
    before: Option<Seq<char>>,
    told: Option<Result<Seq<char>, Seq<char>>>,
    drawn: Option<DrawnView>,
    after: Option<Seq<char>>,
) -> bool {
    if before is Some && table.contains_key(key) {
        &&& drawn matches Some(d) && d.generator == table[key] && after == Some(d.text)
        &&& is_drawable(table[key]) ==> can_give(table[key], drawn->0.text)
        &&& !is_drawable(table[key]) ==> told == Some(Ok::<_, Seq<char>>(drawn->0.text))
    } else {
        drawn is None && after == before
    }
}

/// What is drawn for the fields of an event: the reconnection time by the generator for `retry`,
/// the data and the identifier by the generators for the event's type, or for the events without a
/// type where it has none. The type stays as it is.
pub proof fn law_fields_are_drawn_by_their_generators(
    table: Map<Seq<char>, ConfigView>,
    e: EventView,
    told: ToldView,
    drawn: DrawnEventView,
)
    ensures
        is_drawn_event(table, e, told, drawn) <==> {
            let data = match e.event {
                Some(t) => "data["@ + t + "][*]"@,
                None => "data[*]"@,
            };
            let id = match e.event {
                Some(t) => "id["@ + t + "][*]"@,
                None => "id[*]"@,
            };
            &&& is_field_after(table, "retry"@, e.retry, told.retry, drawn.retry, drawn.event.retry)
            &&& is_field_after(table, data, e.data, told.data, drawn.data, drawn.event.data)
            &&& is_field_after(table, id, e.id, told.id, drawn.id, drawn.event.id)
            &&& drawn.event.event == e.event
        },
{
    lemma_lookup_keys(e.event);
    let data = lookup_key("data"@, e.event);
    let id = lookup_key("id"@, e.event);
    if is_field_after(table, "retry"@, e.retry, told.retry, drawn.retry, drawn.event.retry)
        && is_field_after(table, data, e.data, told.data, drawn.data, drawn.event.data)
        && is_field_after(table, id, e.id, told.id, drawn.id, drawn.event.id) && drawn.event.event
        == e.event {
        assert(is_drawn_event(table, e, told, drawn));
    }
}

proof fn lemma_lookup_keys(event_type: Option<Seq<char>>)
    ensures
        lookup_key("data"@, event_type) == (match event_type {
            Some(t) => "data["@ + t + "][*]"@,
            None => "data[*]"@,
        }),
        lookup_key("id"@, event_type) == (match event_type {
            Some(t) => "id["@ + t + "][*]"@,
            None => "id[*]"@,
        }),
{
    reveal_strlit("data");
    reveal_strlit("id");
    reveal_strlit("[");
    reveal_strlit("[*]");
    reveal_strlit("][*]");
    reveal_strlit("data[");
    reveal_strlit("id[");
    reveal_strlit("data[*]");
    reveal_strlit("id[*]");
    match event_type {
        Some(t) => {
            assert(lookup_key("data"@, event_type) =~= "data["@ + t + "][*]"@);
            assert(lookup_key("id"@, event_type) =~= "id["@ + t + "][*]"@);
        },
        None => {
            assert(lookup_key("data"@, event_type) =~= "data[*]"@);
            assert(lookup_key("id"@, event_type) =~= "id[*]"@);
        },
    }
}

/// Events are drawn one by one, each by what is told of the event in its place.
pub proof fn law_every_event_is_drawn(
    table: Map<Seq<char>, ConfigView>,
    events: Seq<EventView>,
    e: EventView,
    told: Seq<ToldView>,
    drawn: Seq<DrawnEventView>,
    d: DrawnEventView,
)
    requires
        drawn.len() == events.len(),
    ensures
        are_drawn_events(table, seq![], told, seq![]),
        are_drawn_events(table, events.push(e), told, drawn.push(d)) <==> are_drawn_events(
            table,
            events,
            told,
            drawn,
        ) && is_drawn_event(
            table,
            e,
            if events.len() < told.len() {
                told[events.len() as int]
            } else {
                (ToldView { retry: None, data: None, id: None })
            },
            d,
        ),
        !are_drawn_events(table, events.push(e), told, drawn),
        events_after(drawn.push(d)) == events_after(drawn).push(d.event),
{
    let n = events.len() as int;
    let (all, after) = (events.push(e), drawn.push(d));
    assert(events_after(after) =~= events_after(drawn).push(d.event));
    if are_drawn_events(table, all, told, after) {
        assert(is_drawn_event(table, all[n], told_at(told, n), after[n]));
        assert forall|i: int| 0 <= i < events.len() implies is_drawn_event(
            table,
            #[trigger] events[i],
            told_at(told, i),
            drawn[i],
        ) by {
            assert(is_drawn_event(table, all[i], told_at(told, i), after[i]));
        }
    }
    if are_drawn_events(table, events, told, drawn) && is_drawn_event(
        table,
        e,
        told_at(told, n),
        d,
    ) {
        assert forall|i: int| 0 <= i < all.len() implies is_drawn_event(
            table,
            #[trigger] all[i],
            told_at(told, i),
            after[i],
        ) by {
            if i < n {
                assert(is_drawn_event(table, events[i], told_at(told, i), drawn[i]));
            }
        }
    }
}

/// Events are written one behind the other, each with its reconnection time, its type, a line for
/// each line of its data and its identifier, in this order, and a blank line. A value that begins
/// with a space gets one more in front of it.
pub proof fn law_events_are_written_in_their_order(events: Seq<EventView>, e: EventView)
    requires
        e.data matches Some(d) ==> !d.contains('\n'),
    ensures
        generated_stream(seq![]) == Seq::<char>::empty(),
        generated_stream(events.push(e)) == generated_stream(events) + (match e.retry {
            Some(v) => if v.len() > 0 && v[0] == ' ' {
                "retry: "@ + v + "\n"@
            } else {
                "retry:"@ + v + "\n"@
            },
            None => seq![],
        }) + (match e.event {
            Some(v) => if v.len() > 0 && v[0] == ' ' {
                "event: "@ + v + "\n"@
            } else {
                "event:"@ + v + "\n"@
            },
            None => seq![],
        }) + (match e.data {
            Some(v) => if v.len() > 0 && v[0] == ' ' {
                "data: "@ + v + "\n"@
            } else {
                "data:"@ + v + "\n"@
            },
            None => seq![],
        }) + (match e.id {
            Some(v) => if v.len() > 0 && v[0] == ' ' {
                "id: "@ + v + "\n"@
            } else {
                "id:"@ + v + "\n"@
            },
            None => seq![],
        }) + "\n"@,
{
    let all = events.push(e);
    assert(all.drop_last() =~= events);
    lemma_written_line("retry:"@, "retry: "@, e.retry);
    lemma_written_line("event:"@, "event: "@, e.event);
    lemma_written_line("data:"@, "data: "@, e.data);
    lemma_written_line("id:"@, "id: "@, e.id);
    lemma_written_data(e.data);
    lemma_joined(
        generated_stream(events),
        generated_line("retry:"@, e.retry),
        generated_line("event:"@, e.event),
        generated_line("data:"@, e.data),
        generated_line("id:"@, e.id),
        "\n"@,
    );
}

proof fn lemma_written_data(data: Option<Seq<char>>)
    requires
        data matches Some(d) ==> !d.contains('\n'),
    ensures
        generated_data(data) == generated_line("data:"@, data),
{
    if let Some(d) = data {
        lemma_one_line(d);
        let ls = lines(d);
        assert(ls =~= seq![d]);
        assert(ls.drop_first() =~= seq![]);
        assert(generated_lines("data:"@, ls.drop_first()) =~= seq![]);
        assert(generated_data(data) =~= generated_line("data:"@, data));
    }
}

proof fn lemma_joined(
    start: Seq<char>,
    a: Seq<char>,
    b: Seq<char>,
    c: Seq<char>,
    d: Seq<char>,
    end: Seq<char>,
)
    ensures
        start + (a + b + c + d + end) == start + a + b + c + d + end,
{
    assert(start + (a + b + c + d + end) =~= start + a + b + c + d + end);
}

proof fn lemma_written_line(label: Seq<char>, wide: Seq<char>, value: Option<Seq<char>>)
    requires
        (label == "retry:"@ && wide == "retry: "@) || (label == "event:"@ && wide == "event: "@) || (
        label == "data:"@ && wide == "data: "@) || (label == "id:"@ && wide == "id: "@),
    ensures
        generated_line(label, value) == (match value {
            Some(v) => if v.len() > 0 && v[0] == ' ' {
                wide + v + "\n"@
            } else {
                label + v + "\n"@
            },
            None => seq![],
        }),
{
    reveal_strlit("retry:");
    reveal_strlit("event:");
    reveal_strlit("data:");
    reveal_strlit("id:");
    reveal_strlit("retry: ");
    reveal_strlit("event: ");
    reveal_strlit("data: ");
    reveal_strlit("id: ");
    reveal_strlit(" ");
    assert(wide =~= label + " "@);
    if let Some(v) = value {
        if v.len() > 0 && v[0] == ' ' {
            assert(generated_line(label, value) =~= wide + v + "\n"@);
        } else {
            assert(generated_line(label, value) =~= label + v + "\n"@);
        }
    }
}

/// Data of several lines get a line for each: those of `first` and a line feed and `rest` get one
/// for `first` in front of those for `rest`.
pub proof fn law_every_line_of_the_data_is_written(
    events: Seq<EventView>,
    e: EventView,
    first: Seq<char>,
    rest: Seq<char>,
)
    requires
        !first.contains('\n'),
    ensures
        generated_data(Some(first + "\n"@ + rest)) == generated_data(Some(first)) + generated_data(
            Some(rest),
        ),
        generated_event(EventView { data: None, id: None, ..e }) == generated_line(
            "retry:"@,
            e.retry,
        ) + generated_line("event:"@, e.event) + "\n"@,
        generated_event(e) == generated_line("retry:"@, e.retry) + generated_line("event:"@, e.event)
            + generated_data(e.data) + generated_line("id:"@, e.id) + "\n"@,
        generated_stream(events.push(e)) == generated_stream(events) + generated_event(e),
{
    assert(events.push(e).drop_last() =~= events);
    lemma_lines_append(first, rest);
    lemma_one_line(first);
    let ls = lines(first + "\n"@ + rest);
    assert(ls =~= seq![first] + lines(rest));
    assert(ls.drop_first() =~= lines(rest));
    assert(lines(first).drop_first() =~= seq![]);
    assert(generated_lines("data:"@, seq![]) =~= seq![]);
    assert(generated_data(Some(first + "\n"@ + rest)) =~= generated_data(Some(first))
        + generated_data(Some(rest)));
    let bare = EventView { data: None, id: None, ..e };
    assert(generated_event(bare) =~= generated_line("retry:"@, e.retry) + generated_line(
        "event:"@,
        e.event,
    ) + "\n"@);
}

/// Content is generated from all the events of the content that is given, in their order, with what
/// was drawn for them.
pub proof fn law_generation_is_from_the_whole_content(
    generators: Seq<RequestedView>,
    bytes: Seq<u8>,
    told: Seq<ToldView>,
    g: GeneratedContent,
)
    ensures
        is_generated(generators, Some(bytes), told, g) ==> {
            let events = events_of(decode_utf8(bytes));
            let drawn = drawn_views(g.events@);
            &&& valid_utf8(bytes)
            &&& requested_generators(generators) is Ok
            &&& open_draws(requested_generators(generators)->Ok_0, events, told).len() == 0
            &&& events_failure(requested_generators(generators)->Ok_0, events, told) is None
            &&& are_drawn_events(requested_generators(generators)->Ok_0, events, told, drawn)
            &&& g.content@ == encode_utf8(generated_stream(events_after(drawn)))
            &&& g.content_type@ == "text/event-stream"@
        },
        valid_utf8(bytes) && requested_generators(generators) is Ok ==> {
            let events = events_of(decode_utf8(bytes));
            let table = requested_generators(generators)->Ok_0;
            &&& generation_draws(generators, Some(bytes), told) == open_draws(table, events, told)
            &&& generation_error(generators, Some(bytes), told) == events_failure(
                table,
                events,
                told,
            )
        },
{
}

/// A generator that cannot be had refuses the request whatever the content is, and with all of them
/// content that is no text does. Otherwise it is refused for the first draw that fails, once all
/// are told.
pub proof fn law_generators_are_refused_before_the_content(
    generators: Seq<RequestedView>,
    contents: Option<Seq<u8>>,
    bytes: Seq<u8>,
    told: Seq<ToldView>,
    text: Seq<char>,
)
    ensures
        requested_generators(generators) matches Err(e) ==> {
            &&& is_refused(generators, contents, told, text) <==> text == e
            &&& generation_draws(generators, contents, told).len() == 0
        },
        requested_generators(generators) is Ok && !valid_utf8(bytes) ==> {
            &&& is_refused(generators, Some(bytes), told, text) <==> text == utf8_error(bytes)
            &&& generation_draws(generators, Some(bytes), told).len() == 0
        },
        requested_generators(generators) is Ok && valid_utf8(bytes) && is_refused(
            generators,
            Some(bytes),
            told,
            text,
        ) ==> {
            let table = requested_generators(generators)->Ok_0;
            &&& open_draws(table, events_of(decode_utf8(bytes)), told).len() == 0
            &&& events_failure(table, events_of(decode_utf8(bytes)), told) == Some(text)
        },
{
}

/// The events fail in their order, and the fields of each in the order of the reconnection time,
/// the data and the identifier: the first that nothing can be drawn for is reported.
pub proof fn law_the_first_failure_is_reported(
    table: Map<Seq<char>, ConfigView>,
    events: Seq<EventView>,
    e: EventView,
    told: Seq<ToldView>,
)
    ensures
        events_failure(table, seq![], told) is None,
        events_failure(table, events, told) is Some ==> events_failure(table, events.push(e), told)
            == events_failure(table, events, told),
        events_failure(table, events, told) is None ==> events_failure(table, events.push(e), told)
            == ({
            let t = if events.len() < told.len() {
                told[events.len() as int]
            } else {
                (ToldView { retry: None, data: None, id: None })
            };
            let data = match e.event {
                Some(t) => "data["@ + t + "][*]"@,
                None => "data[*]"@,
            };
            let id = match e.event {
                Some(t) => "id["@ + t + "][*]"@,
                None => "id[*]"@,
            };
            let of_retry = failure_under(table, "retry"@, e.retry, t.retry);
            let of_data = failure_under(table, data, e.data, t.data);
            let of_id = failure_under(table, id, e.id, t.id);
            if of_retry is Some {
                of_retry
            } else if of_data is Some {
                of_data
            } else {
                of_id
            }
        }),
{
    assert(events.push(e).drop_last() =~= events);
    lemma_lookup_keys(e.event);
}

/// What is reported of a field that is there and that a generator is filed for under the key: what
/// the generator reports, or what is told where it is not certain to come to an end.
pub open spec fn failure_under(
    table: Map<Seq<char>, ConfigView>,
    key: Seq<char>,
    value: Option<Seq<char>>,
    told: Option<Result<Seq<char>, Seq<char>>>,
) -> Option<Seq<char>> {
    if value is Some && table.contains_key(key) {
        if is_drawable(table[key]) {
            draw_failure(table[key])
        } else {
            match told {
                Some(Err(text)) => Some(text),
                _ => None,
            }
        }
    } else {
        None
    }
}

/// The open draw of a field: it is there, a generator is filed for it under the key that is not
/// certain to come to an end, and nothing is told.
pub open spec fn draw_under(
    table: Map<Seq<char>, ConfigView>,
    event: int,
    field: Seq<char>,
    key: Seq<char>,
    value: Option<Seq<char>>,
    told: Option<Result<Seq<char>, Seq<char>>>,
) -> Seq<OpenDrawView> {
    if value is Some && table.contains_key(key) && !is_drawable(table[key]) && told is None {
        seq![OpenDrawView { event, field, generator: table[key] }]
    } else {
        seq![]
    }
}

/// The draws that are open are those of the events in their order.
pub proof fn law_every_open_draw_is_asked_for(
    table: Map<Seq<char>, ConfigView>,
    events: Seq<EventView>,
    e: EventView,
    told: Seq<ToldView>,
)
    ensures
        open_draws(table, seq![], told) == Seq::<OpenDrawView>::empty(),
        open_draws(table, events.push(e), told) == open_draws(table, events, told) + ({
            let n = events.len() as int;
            let t = if n < told.len() {
                told[n]
            } else {
                (ToldView { retry: None, data: None, id: None })
            };
            let data = match e.event {
                Some(t) => "data["@ + t + "][*]"@,
                None => "data[*]"@,
            };
            let id = match e.event {
                Some(t) => "id["@ + t + "][*]"@,
                None => "id[*]"@,
            };
            draw_under(table, n, "retry"@, "retry"@, e.retry, t.retry) + draw_under(
                table,
                n,
                "data"@,
                data,
                e.data,
                t.data,
            ) + draw_under(table, n, "id"@, id, e.id, t.id)
        }),
{
    assert(events.push(e).drop_last() =~= events);
    lemma_lookup_keys(e.event);
}

/// The fields of an event that a generator is filed for become what was drawn for them, where they
/// are there and something was drawn; all else stays.
pub proof fn law_drawn_texts_take_the_place_of_the_fields(
    table: Map<Seq<char>, ConfigView>,
    e: EventView,
    retry: Option<Seq<char>>,
    data: Option<Seq<char>>,
    id: Option<Seq<char>>,
)
    ensures
        ({
            let after = event_with(table, e, retry, data, id);
            let data_key = match e.event {
                Some(t) => "data["@ + t + "][*]"@,
                None => "data[*]"@,
            };
            let id_key = match e.event {
                Some(t) => "id["@ + t + "][*]"@,
                None => "id[*]"@,
            };
            &&& after.event == e.event
            &&& after.retry == (if e.retry is Some && retry is Some && table.contains_key(
                "retry"@,
            ) {
                retry
            } else {
                e.retry
            })
            &&& after.data == (if e.data is Some && data is Some && table.contains_key(data_key) {
                data
            } else {
                e.data
            })
            &&& after.id == (if e.id is Some && id is Some && table.contains_key(id_key) {
                id
            } else {
                e.id
            })
        }),
{
    lemma_lookup_keys(e.event);
}

/// Content can be generated from where it is there, and where a generator cannot be had it is not
/// looked at.
pub proof fn law_only_missing_content_keeps_from_generating(
    generators: Seq<RequestedView>,
    contents: Option<Seq<u8>>,
)
    ensures
        is_generatable(generators, contents) <==> contents is Some || requested_generators(
            generators,
        ) is Err,
{
}

} // verus!
