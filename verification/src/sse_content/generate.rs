//! Generating the content of an interaction: the events of a stream with newly drawn values.

use crate::definition::{Config, ConfigView};
use crate::generators::{
    always_draws, build_generator, can_draw, can_give, draw_failure, draw_value, is_drawable,
    is_generator, BuiltGenerator, Drawn, DrawnView,
};
use crate::parser::{error_text, field_key, parse_field, FieldKey, FieldKeyView};
use crate::rules::{Attribute, AttributeView};
use crate::sse_content::compare::bytes_view;
use crate::sse_content::event::{
    event_views, events_of, lines, split_lines, EventView, SseEvent,
};
use crate::table::Table;
use crate::text::{
    copy_text, from_utf8, text_view, texts, to_chars, trimmed, utf8_bytes, utf8_error,
};
use vstd::prelude::*;
use vstd::utf8::{decode_utf8, encode_utf8, valid_utf8};

verus! {

/// A generator as it is asked for.
#[derive(Debug, Clone, PartialEq, Eq)]
pub struct RequestedGenerator {
    /// The definition of the field that it is for.
    pub key: String,
    /// The type of generator.
    pub generator_type: String,
    /// Its values.
    pub values: Option<Table<Attribute>>,
}

/// A requested generator with its texts as sequences of characters.
pub struct RequestedView {
    pub key: Seq<char>,
    pub generator_type: Seq<char>,
    pub values: Option<Map<Seq<char>, AttributeView>>,
}

impl View for RequestedGenerator {
    type V = RequestedView;

    open spec fn view(&self) -> RequestedView {
        RequestedView {
            key: self.key@,
            generator_type: self.generator_type@,
            values: match self.values {
                Some(values) => Some(values@),
                None => None,
            },
        }
    }
}

/// The views of the requested generators in a sequence.
pub open spec fn requested_views(generators: Seq<RequestedGenerator>) -> Seq<RequestedView> {
    generators.map_values(|g: RequestedGenerator| g@)
}

/// The configuration of a requested generator that has values.
pub open spec fn requested_config(g: RequestedView) -> ConfigView {
    ConfigView { name: g.generator_type, values: g.values->0 }
}

/// The generators that were asked for, filed under the paths of their fields, or the message on the
/// first that cannot be had.
pub open spec fn requested_generators(generators: Seq<RequestedView>) -> Result<
    Map<Seq<char>, ConfigView>,
    Seq<char>,
>
    decreases generators.len(),
{
    if generators.len() == 0 {
        Ok(Map::empty())
    } else {
        let g = generators.last();
        match requested_generators(generators.drop_last()) {
            Ok(earlier) => match field_key(g.key) {
                Ok(key) => if g.values is None {
                    Err("Generator values were expected"@)
                } else if !is_generator(requested_config(g)) {
                    Err("Failed to build generator of type "@ + g.generator_type)
                } else {
                    Ok(earlier.insert(key.path(), requested_config(g)))
                },
                Err(kind) => Err(error_text(kind, trimmed(g.key))),
            },
            Err(text) => Err(text),
        }
    }
}

proof fn lemma_first_error_stands(generators: Seq<RequestedView>, n: int)
    requires
        0 <= n <= generators.len(),
        requested_generators(generators.take(n)) is Err,
    ensures
        requested_generators(generators) == requested_generators(generators.take(n)),
    decreases generators.len() - n,
{
    if n < generators.len() {
        assert(generators.take(n + 1).drop_last() =~= generators.take(n));
        lemma_first_error_stands(generators, n + 1);
    } else {
        assert(generators.take(n) =~= generators);
    }
}

/// Builds the generators that are asked for.
pub fn build_generators(generators: Vec<RequestedGenerator>) -> (r: Result<
    Table<BuiltGenerator>,
    String,
>)
    ensures
        match r {
            Ok(table) => requested_generators(requested_views(generators@)) == Ok::<_, Seq<char>>(
                table@,
            ),
            Err(text) => requested_generators(requested_views(generators@)) == Err::<
                Map<Seq<char>, ConfigView>,
                _,
            >(text@),
        },
{
    let ghost views = requested_views(generators@);
    let mut table: Table<BuiltGenerator> = Table::new();
    assert(views.take(0) =~= seq![]);
    for g in it: generators
        invariant
            it.seq() == generators@,
            views == requested_views(generators@),
            requested_generators(views.take(it.index() as int)) == Ok::<_, Seq<char>>(table@),
    {
        let ghost i = it.index() as int;
        let ghost now = views.take(i + 1);
        assert(now.drop_last() =~= views.take(i));
        assert(now.last() == g@);
        proof {
            if requested_generators(now) is Err {
                lemma_first_error_stands(views, i + 1);
            }
        }
        match parse_field(&g.key) {
            Ok(key) => match g.values {
                Some(values) => {
                    let mut text = "Failed to build generator of type ".to_owned();
                    text.append(&g.generator_type);
                    match build_generator(Config { name: g.generator_type, values }) {
                        Some(built) => {
                            table.insert(key.path(), built);
                        },
                        None => {
                            return Err(text);
                        },
                    }
                },
                None => {
                    return Err("Generator values were expected".to_owned());
                },
            },
            Err(e) => {
                return Err(e.text());
            },
        }
    }
    assert(views.take(views.len() as int) =~= views);
    Ok(table)
}

/// The key that the generator for a field of an event is looked up with.
pub open spec fn lookup_key(field: Seq<char>, event_type: Option<Seq<char>>) -> Seq<char> {
    FieldKeyView { field, event_type }.bracketed()
}

/// Whether a new value is drawn for a field: it is there, and there is a generator for it.
pub open spec fn is_drawn(
    table: Map<Seq<char>, ConfigView>,
    key: Seq<char>,
    value: Option<Seq<char>>,
) -> bool {
    value is Some && table.contains_key(key)
}

/// What was drawn for the fields of an event elsewhere: a text, or why there is none.
#[derive(Debug, PartialEq, Eq)]
pub struct Told {
    /// For the reconnection time.
    pub retry: Option<Result<String, String>>,
    /// For the data.
    pub data: Option<Result<String, String>>,
    /// For the identifier.
    pub id: Option<Result<String, String>>,
}

/// What was drawn for the fields of an event elsewhere, with texts as sequences of characters.
#[verifier::ext_equal]
pub struct ToldView {
    pub retry: Option<Result<Seq<char>, Seq<char>>>,
    pub data: Option<Result<Seq<char>, Seq<char>>>,
    pub id: Option<Result<Seq<char>, Seq<char>>>,
}

/// What was drawn for a field elsewhere.
pub open spec fn outcome_view(t: Option<Result<String, String>>) -> Option<
    Result<Seq<char>, Seq<char>>,
> {
    match t {
        Some(Ok(text)) => Some(Ok(text@)),
        Some(Err(text)) => Some(Err(text@)),
        None => None,
    }
}

impl View for Told {
    type V = ToldView;

    open spec fn view(&self) -> ToldView {
        ToldView {
            retry: outcome_view(self.retry),
            data: outcome_view(self.data),
            id: outcome_view(self.id),
        }
    }
}

/// The views of what was drawn elsewhere for the events in a sequence.
pub open spec fn told_views(told: Seq<Told>) -> Seq<ToldView> {
    told.map_values(|t: Told| t@)
}

/// What was drawn elsewhere for the event at the index; nothing beyond the last that is told.
pub open spec fn told_at(told: Seq<ToldView>, i: int) -> ToldView {
    if i < told.len() {
        told[i]
    } else {
        ToldView { retry: None, data: None, id: None }
    }
}

/// A draw that is not certain to come to an end, and that was not told.
#[derive(Debug, PartialEq, Eq)]
pub struct OpenDraw {
    /// The index of the event.
    pub event: usize,
    /// The field that a value is drawn for.
    pub field: String,
    /// The generator.
    pub generator: Config,
}

/// An open draw with its texts as sequences of characters.
#[verifier::ext_equal]
pub struct OpenDrawView {
    pub event: int,
    pub field: Seq<char>,
    pub generator: ConfigView,
}

impl View for OpenDraw {
    type V = OpenDrawView;

    open spec fn view(&self) -> OpenDrawView {
        OpenDrawView {
            event: self.event as int,
            field: self.field@,
            generator: self.generator@,
        }
    }
}

/// The views of the open draws in a sequence.
pub open spec fn open_views(draws: Seq<OpenDraw>) -> Seq<OpenDrawView> {
    draws.map_values(|d: OpenDraw| d@)
}

/// The open draw for a field of an event, if its draw is open.
pub open spec fn open_field(
    table: Map<Seq<char>, ConfigView>,
    event: int,
    field: Seq<char>,
    key: Seq<char>,
    value: Option<Seq<char>>,
    told: Option<Result<Seq<char>, Seq<char>>>,
) -> Seq<OpenDrawView> {
    if is_drawn(table, key, value) && !is_drawable(table[key]) && told is None {
        seq![OpenDrawView { event, field, generator: table[key] }]
    } else {
        seq![]
    }
}

/// The open draws for the fields of an event.
pub open spec fn open_event(
    table: Map<Seq<char>, ConfigView>,
    event: int,
    e: EventView,
    told: ToldView,
) -> Seq<OpenDrawView> {
    open_field(table, event, "retry"@, "retry"@, e.retry, told.retry) + open_field(
        table,
        event,
        "data"@,
        lookup_key("data"@, e.event),
        e.data,
        told.data,
    ) + open_field(table, event, "id"@, lookup_key("id"@, e.event), e.id, told.id)
}

/// The open draws for the fields of all the events, in their order.
pub open spec fn open_draws(
    table: Map<Seq<char>, ConfigView>,
    events: Seq<EventView>,
    told: Seq<ToldView>,
) -> Seq<OpenDrawView>
    decreases events.len(),
{
    if events.len() == 0 {
        seq![]
    } else {
        let i = events.len() - 1;
        open_draws(table, events.drop_last(), told) + open_event(
            table,
            i,
            events.last(),
            told_at(told, i),
        )
    }
}

/// A field after drawing, where `drawn` was drawn for it.
pub open spec fn field_with(
    table: Map<Seq<char>, ConfigView>,
    key: Seq<char>,
    value: Option<Seq<char>>,
    drawn: Option<Seq<char>>,
) -> Option<Seq<char>> {
    if is_drawn(table, key, value) && drawn is Some {
        drawn
    } else {
        value
    }
}

/// An event after drawing, where these texts were drawn for its fields. Each field with a generator
/// has the text that was drawn for it, and all else stays.
pub open spec fn event_with(
    table: Map<Seq<char>, ConfigView>,
    e: EventView,
    retry: Option<Seq<char>>,
    data: Option<Seq<char>>,
    id: Option<Seq<char>>,
) -> EventView {
    EventView {
        retry: field_with(table, "retry"@, e.retry, retry),
        event: e.event,
        data: field_with(table, lookup_key("data"@, e.event), e.data, data),
        id: field_with(table, lookup_key("id"@, e.event), e.id, id),
    }
}

/// An event after drawing, with the values that were drawn for its fields.
#[derive(Debug)]
pub struct DrawnEvent {
    /// The event.
    pub event: SseEvent,
    /// What was drawn for the reconnection time.
    pub retry: Option<Drawn>,
    /// What was drawn for the data.
    pub data: Option<Drawn>,
    /// What was drawn for the identifier.
    pub id: Option<Drawn>,
}

/// A drawn event with its texts as sequences of characters.
#[verifier::ext_equal]
pub struct DrawnEventView {
    pub event: EventView,
    pub retry: Option<DrawnView>,
    pub data: Option<DrawnView>,
    pub id: Option<DrawnView>,
}

/// A drawn value that may be missing.
pub open spec fn drawn_view(d: Option<Drawn>) -> Option<DrawnView> {
    match d {
        Some(d) => Some(d@),
        None => None,
    }
}

/// The text of a drawn value that may be missing.
pub open spec fn drawn_text(d: Option<DrawnView>) -> Option<Seq<char>> {
    match d {
        Some(d) => Some(d.text),
        None => None,
    }
}

impl View for DrawnEvent {
    type V = DrawnEventView;

    open spec fn view(&self) -> DrawnEventView {
        DrawnEventView {
            event: self.event@,
            retry: drawn_view(self.retry),
            data: drawn_view(self.data),
            id: drawn_view(self.id),
        }
    }
}

/// The views of the drawn events in a sequence.
pub open spec fn drawn_views(events: Seq<DrawnEvent>) -> Seq<DrawnEventView> {
    events.map_values(|e: DrawnEvent| e@)
}

/// The events after drawing.
pub open spec fn events_after(drawn: Seq<DrawnEventView>) -> Seq<EventView> {
    drawn.map_values(|d: DrawnEventView| d.event)
}

/// Whether this can be drawn for a field: a value that its own generator gave, or the one that is
/// told where the generator is not certain to come to an end, and nothing for a field without a
/// generator.
pub open spec fn is_draw_for(
    table: Map<Seq<char>, ConfigView>,
    key: Seq<char>,
    value: Option<Seq<char>>,
    told: Option<Result<Seq<char>, Seq<char>>>,
    drawn: Option<DrawnView>,
) -> bool {
    if is_drawn(table, key, value) {
        drawn is Some && drawn->0.generator == table[key] && if is_drawable(table[key]) {
            can_give(table[key], drawn->0.text)
        } else {
            told == Some(Ok::<_, Seq<char>>(drawn->0.text))
        }
    } else {
        drawn is None
    }
}

/// Whether this is the event after drawing, with the values that were drawn for its fields.
pub open spec fn is_drawn_event(
    table: Map<Seq<char>, ConfigView>,
    e: EventView,
    told: ToldView,
    drawn: DrawnEventView,
) -> bool {
    &&& is_draw_for(table, "retry"@, e.retry, told.retry, drawn.retry)
    &&& is_draw_for(table, lookup_key("data"@, e.event), e.data, told.data, drawn.data)
    &&& is_draw_for(table, lookup_key("id"@, e.event), e.id, told.id, drawn.id)
    &&& drawn.event == event_with(
        table,
        e,
        drawn_text(drawn.retry),
        drawn_text(drawn.data),
        drawn_text(drawn.id),
    )
}

/// Whether these are the events after drawing, in their order.
pub open spec fn are_drawn_events(
    table: Map<Seq<char>, ConfigView>,
    events: Seq<EventView>,
    told: Seq<ToldView>,
    drawn: Seq<DrawnEventView>,
) -> bool {
    &&& drawn.len() == events.len()
    &&& forall|i: int|
        0 <= i < events.len() ==> is_drawn_event(
            table,
            #[trigger] events[i],
            told_at(told, i),
            drawn[i],
        )
}

/// What is reported where nothing can be drawn for a field.
pub open spec fn field_failure(
    table: Map<Seq<char>, ConfigView>,
    key: Seq<char>,
    value: Option<Seq<char>>,
    told: Option<Result<Seq<char>, Seq<char>>>,
) -> Option<Seq<char>> {
    if !is_drawn(table, key, value) {
        None
    } else if is_drawable(table[key]) {
        draw_failure(table[key])
    } else {
        match told {
            Some(Err(text)) => Some(text),
            _ => None,
        }
    }
}

/// What is reported where nothing can be drawn for a field of an event: the reconnection time comes
/// before the data, and the data before the identifier.
pub open spec fn event_failure(
    table: Map<Seq<char>, ConfigView>,
    e: EventView,
    told: ToldView,
) -> Option<Seq<char>> {
    let retry = field_failure(table, "retry"@, e.retry, told.retry);
    let data = field_failure(table, lookup_key("data"@, e.event), e.data, told.data);
    if retry is Some {
        retry
    } else if data is Some {
        data
    } else {
        field_failure(table, lookup_key("id"@, e.event), e.id, told.id)
    }
}

/// What is reported where nothing can be drawn for a field of some event, for the first such event.
pub open spec fn events_failure(
    table: Map<Seq<char>, ConfigView>,
    events: Seq<EventView>,
    told: Seq<ToldView>,
) -> Option<Seq<char>>
    decreases events.len(),
{
    if events.len() == 0 {
        None
    } else {
        let earlier = events_failure(table, events.drop_last(), told);
        if earlier is Some {
            earlier
        } else {
            event_failure(table, events.last(), told_at(told, events.len() - 1))
        }
    }
}

/// What is reported of a mock server that is not known.
pub open spec fn no_mock_server() -> Seq<char> {
    "MockServerURL: can not generate a value as there is no mock server details in the test context"@
}

/// Whether a generator can report so that it has nothing to give.
pub open spec fn can_report_so(c: ConfigView, text: Seq<char>) -> bool {
    &&& draw_failure(c) == Some(text)
    &&& !always_draws(c)
    &&& c.name == "MockServerURL"@ ==> text == no_mock_server()
}

/// Whether the generator for a field can report so, or it is told.
pub open spec fn can_fail_field(
    table: Map<Seq<char>, ConfigView>,
    key: Seq<char>,
    value: Option<Seq<char>>,
    told: Option<Result<Seq<char>, Seq<char>>>,
    text: Seq<char>,
) -> bool {
    is_drawn(table, key, value) && if is_drawable(table[key]) {
        can_report_so(table[key], text)
    } else {
        told == Some(Err::<Seq<char>, _>(text))
    }
}

/// Whether the generator for some field of an event can report so.
pub open spec fn can_fail_event(
    table: Map<Seq<char>, ConfigView>,
    e: EventView,
    told: ToldView,
    text: Seq<char>,
) -> bool {
    ||| can_fail_field(table, "retry"@, e.retry, told.retry, text)
    ||| can_fail_field(table, lookup_key("data"@, e.event), e.data, told.data, text)
    ||| can_fail_field(table, lookup_key("id"@, e.event), e.id, told.id, text)
}

/// Whether the generator for some field of some event can report so.
pub open spec fn can_fail_events(
    table: Map<Seq<char>, ConfigView>,
    events: Seq<EventView>,
    told: Seq<ToldView>,
    text: Seq<char>,
) -> bool {
    exists|i: int|
        0 <= i < events.len() && can_fail_event(
            table,
            #[trigger] events[i],
            told_at(told, i),
            text,
        )
}

/// Draws a value for a field that there is a generator for, or takes the one that is told where the
/// generator is not certain to come to an end.
fn draw_field(
    table: &Table<BuiltGenerator>,
    key: &str,
    value: &Option<String>,
    told: &Option<Result<String, String>>,
) -> (r: Result<Option<Drawn>, String>)
    requires
        is_drawn(table@, key@, text_view(*value)) && !is_drawable(table@[key@]) ==> told is Some,
    ensures
        match r {
            Ok(drawn) => field_failure(table@, key@, text_view(*value), outcome_view(*told)) is None
                && is_draw_for(
                table@,
                key@,
                text_view(*value),
                outcome_view(*told),
                drawn_view(drawn),
            ),
            Err(text) => field_failure(table@, key@, text_view(*value), outcome_view(*told)) == Some(
                text@,
            ) && can_fail_field(table@, key@, text_view(*value), outcome_view(*told), text@),
        },
{
    match value {
        Some(v) => match table.get(key) {
            Some(g) => {
                if can_draw(g.config()) {
                    match draw_value(g, v) {
                        Ok(drawn) => Ok(Some(drawn)),
                        Err(text) => Err(text),
                    }
                } else {
                    match told {
                        Some(Ok(text)) => Ok(Some(g.told(text))),
                        Some(Err(text)) => Err(text.clone()),
                        None => Ok(None),
                    }
                }
            },
            None => Ok(None),
        },
        None => Ok(None),
    }
}

fn key_to_look_up(field: &str, event_type: &Option<String>) -> (key: String)
    ensures
        key@ == lookup_key(field@, text_view(*event_type)),
{
    let key = FieldKey { field: field.to_owned(), event_type: copy_text(event_type) };
    assert(key@ == (FieldKeyView { field: field@, event_type: text_view(*event_type) }));
    key.bracketed()
}

/// A field after drawing, where `drawn` was drawn for it.
fn field_after(
    table: &Table<BuiltGenerator>,
    key: &str,
    value: &Option<String>,
    drawn: Option<String>,
) -> (r: Option<String>)
    ensures
        text_view(r) == field_with(table@, key@, text_view(*value), text_view(drawn)),
{
    if value.is_some() && table.get(key).is_some() && drawn.is_some() {
        drawn
    } else {
        copy_text(value)
    }
}

/// The event after drawing, where these texts were drawn for its fields.
pub fn with_drawn(
    table: &Table<BuiltGenerator>,
    e: &SseEvent,
    retry: Option<String>,
    data: Option<String>,
    id: Option<String>,
) -> (r: SseEvent)
    ensures
        r@ == event_with(table@, e@, text_view(retry), text_view(data), text_view(id)),
{
    SseEvent {
        retry: field_after(table, "retry", &e.retry, retry),
        event: copy_text(&e.event),
        data: field_after(table, &key_to_look_up("data", &e.event), &e.data, data),
        id: field_after(table, &key_to_look_up("id", &e.event), &e.id, id),
    }
}

fn text_of_drawn(d: &Option<Drawn>) -> (r: Option<String>)
    ensures
        text_view(r) == drawn_text(drawn_view(*d)),
{
    match d {
        Some(d) => Some(d.text()),
        None => None,
    }
}

/// Draws new values for the fields of an event that there are generators for, or takes those that
/// are told.
pub fn draw_event(table: &Table<BuiltGenerator>, e: &SseEvent, told: &Told) -> (r: Result<
    DrawnEvent,
    String,
>)
    requires
        open_event(table@, 0, e@, told@).len() == 0,
    ensures
        match r {
            Ok(drawn) => event_failure(table@, e@, told@) is None && is_drawn_event(
                table@,
                e@,
                told@,
                drawn@,
            ),
            Err(text) => event_failure(table@, e@, told@) == Some(text@) && can_fail_event(
                table@,
                e@,
                told@,
                text@,
            ),
        },
{
    let retry = match draw_field(table, "retry", &e.retry, &told.retry) {
        Ok(retry) => retry,
        Err(text) => {
            return Err(text);
        },
    };
    let data = match draw_field(
        table,
        &key_to_look_up("data", &e.event),
        &e.data,
        &told.data,
    ) {
        Ok(data) => data,
        Err(text) => {
            return Err(text);
        },
    };
    let id = match draw_field(table, &key_to_look_up("id", &e.event), &e.id, &told.id) {
        Ok(id) => id,
        Err(text) => {
            return Err(text);
        },
    };
    let event = with_drawn(
        table,
        e,
        text_of_drawn(&retry),
        text_of_drawn(&data),
        text_of_drawn(&id),
    );
    Ok(DrawnEvent { event, retry, data, id })
}

/// Lists the draw for a field of an event, if it is open.
fn list_open_field(
    draws: &mut Vec<OpenDraw>,
    table: &Table<BuiltGenerator>,
    event: usize,
    field: &str,
    key: &str,
    value: &Option<String>,
    told: &Option<Result<String, String>>,
)
    ensures
        open_views(final(draws)@) == open_views(old(draws)@) + open_field(
            table@,
            event as int,
            field@,
            key@,
            text_view(*value),
            outcome_view(*told),
        ),
{
    let ghost before = open_views(draws@);
    if value.is_some() && told.is_none() {
        if let Some(g) = table.get(key) {
            if !can_draw(g.config()) {
                let draw = OpenDraw { event, field: field.to_owned(), generator: g.config().copy() };
                draws.push(draw);
                assert(open_views(draws@) =~= before.push(draw@));
                assert(draw@ == (OpenDrawView { event: event as int, field: field@, generator: g@ }));
                assert(open_views(draws@) =~= before + seq![draw@]);
                return ;
            }
        }
    }
    assert(open_views(draws@) =~= before + seq![]);
}

fn nothing_told() -> (told: Told)
    ensures
        told@ == (ToldView { retry: None, data: None, id: None }),
{
    Told { retry: None, data: None, id: None }
}

/// Lists the open draws for the fields of the events, in their order.
pub fn list_open_draws(
    table: &Table<BuiltGenerator>,
    events: &Vec<SseEvent>,
    told: &Vec<Told>,
) -> (draws: Vec<OpenDraw>)
    ensures
        open_views(draws@) == open_draws(table@, event_views(events@), told_views(told@)),
{
    let ghost views = event_views(events@);
    let ghost tolds = told_views(told@);
    let n: usize = events.len();
    let mut draws: Vec<OpenDraw> = Vec::new();
    let mut i: usize = 0;
    let none = nothing_told();
    assert(views.take(0) =~= seq![]);
    assert(open_views(draws@) =~= seq![]);
    while i < n
        invariant
            0 <= i <= n == events@.len(),
            views == event_views(events@),
            tolds == told_views(told@),
            none@ == (ToldView { retry: None, data: None, id: None }),
            open_views(draws@) == open_draws(table@, views.take(i as int), tolds),
        decreases n - i,
    {
        let ghost before = open_views(draws@);
        let e = &events[i];
        let t = if i < told.len() {
            &told[i]
        } else {
            &none
        };
        assert(t@ == told_at(tolds, i as int));
        let data_key = key_to_look_up("data", &e.event);
        let id_key = key_to_look_up("id", &e.event);
        list_open_field(&mut draws, table, i, "retry", "retry", &e.retry, &t.retry);
        list_open_field(&mut draws, table, i, "data", &data_key, &e.data, &t.data);
        list_open_field(&mut draws, table, i, "id", &id_key, &e.id, &t.id);
        proof {
            let now = views.take(i + 1);
            assert(now.drop_last() =~= views.take(i as int));
            assert(now.last() == e@);
            assert(open_views(draws@) =~= before + open_event(table@, i as int, e@, t@));
        }
        i = i + 1;
    }
    assert(views.take(n as int) =~= views);
    draws
}

/// Where no draw is open, none is for any of the events.
proof fn lemma_no_open_event(
    table: Map<Seq<char>, ConfigView>,
    events: Seq<EventView>,
    told: Seq<ToldView>,
    i: int,
)
    requires
        open_draws(table, events, told).len() == 0,
        0 <= i < events.len(),
    ensures
        open_event(table, i, events[i], told_at(told, i)).len() == 0,
    decreases events.len(),
{
    if i < events.len() - 1 {
        lemma_no_open_event(table, events.drop_last(), told, i);
    }
}

/// What stands between a colon and a value: a space where the value begins with one, since readers
/// take one off.
pub open spec fn lead(value: Seq<char>) -> Seq<char> {
    if value.len() > 0 && value[0] == ' ' {
        " "@
    } else {
        seq![]
    }
}

/// The line of a field; no line for a field that is missing.
pub open spec fn generated_line(label: Seq<char>, value: Option<Seq<char>>) -> Seq<char> {
    match value {
        Some(v) => label + lead(v) + v + "\n"@,
        None => seq![],
    }
}

/// The lines `ls`, each behind the label.
pub open spec fn generated_lines(label: Seq<char>, ls: Seq<Seq<char>>) -> Seq<char>
    decreases ls.len(),
{
    if ls.len() == 0 {
        seq![]
    } else {
        generated_line(label, Some(ls[0])) + generated_lines(label, ls.drop_first())
    }
}

/// The lines of the data, one for each of theirs.
pub open spec fn generated_data(data: Option<Seq<char>>) -> Seq<char> {
    match data {
        Some(d) => generated_lines("data:"@, lines(d)),
        None => seq![],
    }
}

/// An event in the generated stream.
pub open spec fn generated_event(e: EventView) -> Seq<char> {
    generated_line("retry:"@, e.retry) + generated_line("event:"@, e.event) + generated_data(e.data)
        + generated_line("id:"@, e.id) + "\n"@
}

/// The generated stream with the events, in their order.
pub open spec fn generated_stream(events: Seq<EventView>) -> Seq<char>
    decreases events.len(),
{
    if events.len() == 0 {
        seq![]
    } else {
        generated_stream(events.drop_last()) + generated_event(events.last())
    }
}

fn put_line(out: &mut String, label: &str, value: &str)
    ensures
        final(out)@ == old(out)@ + generated_line(label@, Some(value@)),
{
    let v = to_chars(value);
    out.append(label);
    if v.len() > 0 && v[0] == ' ' {
        out.append(" ");
    }
    out.append(value);
    out.append("\n");
    assert(out@ =~= old(out)@ + generated_line(label@, Some(value@)));
}

fn put_optional_line(out: &mut String, label: &str, value: &Option<String>)
    ensures
        final(out)@ == old(out)@ + generated_line(label@, text_view(*value)),
{
    match value {
        Some(v) => put_line(out, label, v),
        None => {
            assert(out@ =~= old(out)@ + generated_line(label@, text_view(*value)));
        },
    }
}

fn put_data(out: &mut String, data: &Option<String>)
    ensures
        final(out)@ == old(out)@ + generated_data(text_view(*data)),
{
    match data {
        Some(d) => {
            let ghost whole = out@ + generated_lines("data:"@, lines(d@));
            let ls = split_lines(d);
            let ghost views = lines(d@);
            let n: usize = ls.len();
            let mut i: usize = 0;
            assert(views.skip(0) =~= views);
            while i < n
                invariant
                    0 <= i <= n == ls@.len(),
                    views == texts(ls@),
                    whole == out@ + generated_lines("data:"@, views.skip(i as int)),
                decreases n - i,
            {
                let ghost rest = views.skip(i as int);
                let ghost before = out@;
                assert(rest.drop_first() =~= views.skip(i + 1));
                put_line(out, "data:", &ls[i]);
                assert(out@ + generated_lines("data:"@, rest.drop_first()) =~= before
                    + generated_lines("data:"@, rest));
                i = i + 1;
            }
            assert(generated_lines("data:"@, views.skip(n as int)) =~= seq![]);
            assert(out@ =~= whole);
        },
        None => {
            assert(out@ =~= old(out)@ + generated_data(text_view(*data)));
        },
    }
}

/// Writes events as a generated stream.
pub fn write_events(events: &Vec<SseEvent>) -> (s: String)
    ensures
        s@ == generated_stream(event_views(events@)),
{
    let ghost views = event_views(events@);
    let n: usize = events.len();
    let mut out = String::new();
    let mut i: usize = 0;
    assert(views.take(0) =~= seq![]);
    while i < n
        invariant
            0 <= i <= n == events@.len(),
            views == event_views(events@),
            out@ == generated_stream(views.take(i as int)),
        decreases n - i,
    {
        let ghost before = out@;
        let e = &events[i];
        put_optional_line(&mut out, "retry:", &e.retry);
        put_optional_line(&mut out, "event:", &e.event);
        put_data(&mut out, &e.data);
        put_optional_line(&mut out, "id:", &e.id);
        out.append("\n");
        assert(out@ =~= before + generated_event(e@));
        assert(views.take(i + 1).drop_last() =~= views.take(i as int));
        i = i + 1;
    }
    assert(views.take(n as int) =~= views);
    out
}

/// Whether the bytes can be generated from the events, where these are the events after drawing.
pub open spec fn can_generate(
    table: Map<Seq<char>, ConfigView>,
    events: Seq<EventView>,
    told: Seq<ToldView>,
    drawn: Seq<DrawnEventView>,
    bytes: Seq<u8>,
) -> bool {
    &&& are_drawn_events(table, events, told, drawn)
    &&& bytes == encode_utf8(generated_stream(events_after(drawn)))
}

/// Whether nothing is drawn for any field of any event.
pub open spec fn draws_nothing(table: Map<Seq<char>, ConfigView>, events: Seq<EventView>) -> bool {
    forall|i: int| 0 <= i < events.len() ==> draws_nothing_for(table, #[trigger] events[i])
}

/// Whether nothing is drawn for any field of an event.
pub open spec fn draws_nothing_for(table: Map<Seq<char>, ConfigView>, e: EventView) -> bool {
    &&& !is_drawn(table, "retry"@, e.retry)
    &&& !is_drawn(table, lookup_key("data"@, e.event), e.data)
    &&& !is_drawn(table, lookup_key("id"@, e.event), e.id)
}

/// Where nothing is drawn, the events stay as they are, and nothing is reported.
proof fn lemma_nothing_drawn(
    table: Map<Seq<char>, ConfigView>,
    events: Seq<EventView>,
    told: Seq<ToldView>,
    drawn: Seq<DrawnEventView>,
)
    requires
        draws_nothing(table, events),
        are_drawn_events(table, events, told, drawn),
    ensures
        events_after(drawn) == events,
{
    assert forall|i: int| 0 <= i < events.len() implies #[trigger] events_after(drawn)[i]
        == events[i] by {
        assert(draws_nothing_for(table, events[i]));
        assert(is_drawn_event(table, events[i], told_at(told, i), drawn[i]));
    }
    assert(events_after(drawn) =~= events);
}

proof fn lemma_first_failure_stands(
    table: Map<Seq<char>, ConfigView>,
    events: Seq<EventView>,
    told: Seq<ToldView>,
    n: int,
)
    requires
        0 <= n <= events.len(),
        events_failure(table, events.take(n), told) is Some,
    ensures
        events_failure(table, events, told) == events_failure(table, events.take(n), told),
    decreases events.len() - n,
{
    if n < events.len() {
        assert(events.take(n + 1).drop_last() =~= events.take(n));
        lemma_first_failure_stands(table, events, told, n + 1);
    } else {
        assert(events.take(n) =~= events);
    }
}

/// Generated content.
#[derive(Debug)]
pub struct GeneratedContent {
    /// The stream.
    pub content: Vec<u8>,
    /// The content type.
    pub content_type: String,
    /// The events of the stream, with the values that were drawn for their fields.
    pub events: Vec<DrawnEvent>,
}

/// Why no content was generated.
#[derive(Debug, PartialEq, Eq)]
pub enum GenerationStop {
    /// The request is refused with the reason.
    Refused(String),
    /// The draws that are still to be told.
    Open(Vec<OpenDraw>),
}

/// Whether this can be generated from the events.
pub open spec fn is_generated_from(
    table: Map<Seq<char>, ConfigView>,
    events: Seq<EventView>,
    told: Seq<ToldView>,
    g: GeneratedContent,
) -> bool {
    &&& g.content_type@ == "text/event-stream"@
    &&& can_generate(table, events, told, drawn_views(g.events@), g.content@)
    &&& draws_nothing(table, events) ==> g.content@ == encode_utf8(generated_stream(events))
}

/// Draws new values for the fields of the events of a stream, and writes them as a stream.
pub fn generate_from(
    table: &Table<BuiltGenerator>,
    events: &Vec<SseEvent>,
    told: &Vec<Told>,
) -> (r: Result<GeneratedContent, GenerationStop>)
    ensures
        ({
            let views = event_views(events@);
            let tolds = told_views(told@);
            match r {
                Ok(g) => open_draws(table@, views, tolds) == Seq::<OpenDrawView>::empty()
                    && events_failure(table@, views, tolds) is None && is_generated_from(
                    table@,
                    views,
                    tolds,
                    g,
                ),
                Err(GenerationStop::Refused(text)) => open_draws(table@, views, tolds) == Seq::<
                    OpenDrawView,
                >::empty() && events_failure(table@, views, tolds) == Some(text@)
                    && can_fail_events(table@, views, tolds, text@),
                Err(GenerationStop::Open(draws)) => draws@.len() > 0 && open_views(draws@)
                    == open_draws(table@, views, tolds),
            }
        }),
{
    let open = list_open_draws(table, events, told);
    if open.len() > 0 {
        return Err(GenerationStop::Open(open));
    }
    let ghost views = event_views(events@);
    let ghost tolds = told_views(told@);
    let n: usize = events.len();
    let mut drawn: Vec<DrawnEvent> = Vec::new();
    let mut after: Vec<SseEvent> = Vec::new();
    let mut i: usize = 0;
    let none = nothing_told();
    assert(open_draws(table@, views, tolds) =~= seq![]);
    assert(views.take(0) =~= seq![]);
    assert(events_after(drawn_views(drawn@)) =~= event_views(after@));
    while i < n
        invariant
            0 <= i <= n == events@.len(),
            views == event_views(events@),
            tolds == told_views(told@),
            none@ == (ToldView { retry: None, data: None, id: None }),
            open_draws(table@, views, tolds) == Seq::<OpenDrawView>::empty(),
            events_failure(table@, views.take(i as int), tolds) is None,
            drawn@.len() == i,
            events_after(drawn_views(drawn@)) == event_views(after@),
            forall|k: int|
                0 <= k < i ==> is_drawn_event(
                    table@,
                    #[trigger] views[k],
                    told_at(tolds, k),
                    drawn_views(drawn@)[k],
                ),
        decreases n - i,
    {
        let ghost before = drawn_views(drawn@);
        let ghost texts_before = event_views(after@);
        let ghost now = views.take(i + 1);
        assert(now.drop_last() =~= views.take(i as int));
        assert(now.last() == events@[i as int]@);
        assert(views[i as int] == events@[i as int]@);
        let t = if i < told.len() {
            &told[i]
        } else {
            &none
        };
        assert(t@ == told_at(tolds, i as int));
        proof {
            lemma_no_open_event(table@, views, tolds, i as int);
        }
        match draw_event(table, &events[i], t) {
            Ok(e) => {
                let copy = e.event.copy();
                after.push(copy);
                drawn.push(e);
                assert(drawn_views(drawn@) =~= before.push(e@));
                assert(event_views(after@) =~= texts_before.push(copy@));
                assert(events_after(drawn_views(drawn@)) =~= event_views(after@));
            },
            Err(text) => {
                proof {
                    assert(can_fail_event(table@, views[i as int], told_at(tolds, i as int), text@));
                    lemma_first_failure_stands(table@, views, tolds, i + 1);
                }
                return Err(GenerationStop::Refused(text));
            },
        }
        i = i + 1;
    }
    assert(views.take(n as int) =~= views);
    let s = write_events(&after);
    proof {
        assert(are_drawn_events(table@, views, tolds, drawn_views(drawn@)));
        if draws_nothing(table@, views) {
            lemma_nothing_drawn(table@, views, tolds, drawn_views(drawn@));
        }
    }
    Ok(
        GeneratedContent {
            content: utf8_bytes(&s),
            content_type: "text/event-stream".to_owned(),
            events: drawn,
        },
    )
}

/// Whether there is content to generate from, where every generator that is asked for can be had.
pub open spec fn is_generatable(generators: Seq<RequestedView>, contents: Option<Seq<u8>>) -> bool {
    requested_generators(generators) is Ok ==> contents is Some
}

/// The draws that are still to be told: none where a generator cannot be had or the bytes are not
/// UTF-8.
pub open spec fn generation_draws(
    generators: Seq<RequestedView>,
    contents: Option<Seq<u8>>,
    told: Seq<ToldView>,
) -> Seq<OpenDrawView> {
    match requested_generators(generators) {
        Ok(table) => if valid_utf8(contents->0) {
            open_draws(table, events_of(decode_utf8(contents->0)), told)
        } else {
            seq![]
        },
        Err(_) => seq![],
    }
}

/// Why no content is generated. The generators come before the content: the first that cannot be
/// had is the reason, with all of them the bytes must be UTF-8, and of those the first event that
/// nothing can be drawn for is the reason.
pub open spec fn generation_error(
    generators: Seq<RequestedView>,
    contents: Option<Seq<u8>>,
    told: Seq<ToldView>,
) -> Option<Seq<char>> {
    match requested_generators(generators) {
        Ok(table) => if !valid_utf8(contents->0) {
            Some(utf8_error(contents->0))
        } else {
            events_failure(table, events_of(decode_utf8(contents->0)), told)
        },
        Err(text) => Some(text),
    }
}

/// Whether this can be generated where no reason stands against it.
pub open spec fn is_generated(
    generators: Seq<RequestedView>,
    contents: Option<Seq<u8>>,
    told: Seq<ToldView>,
    g: GeneratedContent,
) -> bool {
    &&& generation_draws(generators, contents, told) == Seq::<OpenDrawView>::empty()
    &&& generation_error(generators, contents, told) is None
    &&& is_generated_from(
        requested_generators(generators)->Ok_0,
        events_of(decode_utf8(contents->0)),
        told,
        g,
    )
}

/// Whether content is refused with the reason. Where the reason is that nothing can be drawn, it is
/// what a generator that may have nothing to give reports.
pub open spec fn is_refused(
    generators: Seq<RequestedView>,
    contents: Option<Seq<u8>>,
    told: Seq<ToldView>,
    text: Seq<char>,
) -> bool {
    &&& generation_draws(generators, contents, told) == Seq::<OpenDrawView>::empty()
    &&& generation_error(generators, contents, told) == Some(text)
    &&& requested_generators(generators) is Ok && valid_utf8(contents->0) ==> can_fail_events(
        requested_generators(generators)->Ok_0,
        events_of(decode_utf8(contents->0)),
        told,
        text,
    )
}

/// Generates content from a stream and the generators for its fields. What a generator gives that
/// is not certain to come to an end is to be told.
pub fn generate_sse_content(
    generators: Vec<RequestedGenerator>,
    contents: &Option<Vec<u8>>,
    told: &Vec<Told>,
) -> (r: Result<GeneratedContent, GenerationStop>)
    requires
        is_generatable(requested_views(generators@), bytes_view(*contents)),
    ensures
        match r {
            Ok(g) => is_generated(
                requested_views(generators@),
                bytes_view(*contents),
                told_views(told@),
                g,
            ),
            Err(GenerationStop::Refused(text)) => is_refused(
                requested_views(generators@),
                bytes_view(*contents),
                told_views(told@),
                text@,
            ),
            Err(GenerationStop::Open(draws)) => draws@.len() > 0 && open_views(draws@)
                == generation_draws(
                requested_views(generators@),
                bytes_view(*contents),
                told_views(told@),
            ),
        },
{
    let table = match build_generators(generators) {
        Ok(table) => table,
        Err(text) => {
            return Err(GenerationStop::Refused(text));
        },
    };
    let text = match from_utf8(contents.as_ref().unwrap()) {
        Ok(text) => text,
        Err(text) => {
            return Err(GenerationStop::Refused(text));
        },
    };
    generate_from(&table, &SseEvent::parse(&text), told)
}

} // verus!
