//! What holds of reading and writing event streams as a whole.

use crate::sse_content::event::{
    after_line, events_of, field_line, field_lines, field_value, formatted_events, labelled_lines,
    line_events, line_len, lines, more_data, no_event, pending, trim_cr, EventView,
};
use vstd::prelude::*;
use vstd::utf8::{
    decode_utf8, encode_utf8, encode_utf8_decode_utf8, encode_utf8_valid_utf8, valid_utf8,
};

verus! {

/// A value that one line can hold: it has no line feed, and no carriage return at its end.
pub open spec fn fits_line(v: Seq<char>) -> bool {
    &&& !v.contains('\n')
    &&& v.len() > 0 ==> v.last() != '\r'
}

/// A field that is missing or has a value that one line can hold.
pub open spec fn field_fits_line(v: Option<Seq<char>>) -> bool {
    v matches Some(v) ==> fits_line(v)
}

/// A field that is missing or has a value whose every line can be held by a line.
pub open spec fn field_fits_lines(v: Option<Seq<char>>) -> bool {
    v matches Some(v) ==> forall|i: int|
        0 <= i < lines(v).len() ==> fits_line(#[trigger] lines(v)[i])
}

/// An event that can be written: no field but the data has several lines, and no line of a value
/// ends with a carriage return.
pub open spec fn is_writable(e: EventView) -> bool {
    &&& field_fits_line(e.id)
    &&& field_fits_line(e.event)
    &&& field_fits_lines(e.data)
    &&& field_fits_line(e.retry)
}

/// The text with a carriage return before each line feed.
pub open spec fn with_crlf(s: Seq<char>) -> Seq<char>
    decreases s.len(),
{
    if s.len() == 0 {
        seq![]
    } else if s[0] == '\n' {
        "\r\n"@ + with_crlf(s.drop_first())
    } else {
        seq![s[0]] + with_crlf(s.drop_first())
    }
}

pub(crate) proof fn lemma_line_len(s: Seq<char>)
    ensures
        line_len(s) <= s.len(),
        line_len(s) < s.len() ==> s[line_len(s) as int] == '\n',
        !s.take(line_len(s) as int).contains('\n'),
        line_len(s) == s.len() <==> !s.contains('\n'),
    decreases s.len(),
{
    if s.len() == 0 || s[0] == '\n' {
        assert(s.take(0) =~= seq![]);
        if s.len() > 0 {
            assert(s.contains(s[0]));
        }
    } else {
        let r = s.drop_first();
        let n = line_len(r);
        lemma_line_len(r);
        assert forall|i: int| 0 <= i < n + 1 implies s[i] != '\n' by {
            if i > 0 {
                assert(r.take(n as int)[i - 1] == s[i]);
                assert(r.take(n as int).contains(r.take(n as int)[i - 1]));
            }
        }
        if n < r.len() {
            assert(s[n as int + 1] == '\n');
        }
    }
}

proof fn lemma_line_len_at(s: Seq<char>, n: int)
    requires
        0 <= n < s.len(),
        s[n] == '\n',
        forall|i: int| 0 <= i < n ==> s[i] != '\n',
    ensures
        line_len(s) == n,
    decreases n,
{
    if n > 0 {
        lemma_line_len_at(s.drop_first(), n - 1);
    }
}

/// The lines of two texts with a line feed between them.
pub(crate) proof fn lemma_lines_append(a: Seq<char>, b: Seq<char>)
    ensures
        lines(a + "\n"@ + b) == lines(a) + lines(b),
    decreases a.len(),
{
    reveal_strlit("\n");
    let s = a + "\n"@ + b;
    let n = line_len(a);
    lemma_line_len(a);
    assert forall|i: int| 0 <= i < n implies s[i] != '\n' by {
        assert(a.take(n as int)[i] == s[i]);
        assert(a.take(n as int).contains(a.take(n as int)[i]));
    }
    lemma_line_len_at(s, n as int);
    assert(s.take(n as int) =~= a.take(n as int));
    if n < a.len() {
        let r = a.skip(n as int + 1);
        lemma_lines_append(r, b);
        assert(s.skip(n as int + 1) =~= r + "\n"@ + b);
        assert(lines(s) =~= lines(a) + lines(b));
    } else {
        assert(a.take(n as int) =~= a);
        assert(s.skip(n as int + 1) =~= b);
        assert(lines(s) =~= lines(a) + lines(b));
    }
}

pub(crate) proof fn lemma_one_line(s: Seq<char>)
    requires
        !s.contains('\n'),
    ensures
        lines(s) == seq![s],
{
    lemma_line_len(s);
}

proof fn lemma_no_line_holds_a_line_feed(s: Seq<char>)
    ensures
        lines(s).len() > 0,
        forall|i: int| 0 <= i < lines(s).len() ==> !(#[trigger] lines(s)[i]).contains('\n'),
    decreases s.len(),
{
    lemma_line_len(s);
    let n = line_len(s);
    if n < s.len() {
        let r = s.skip(n as int + 1);
        lemma_no_line_holds_a_line_feed(r);
        assert forall|i: int| 0 <= i < lines(s).len() implies !(#[trigger] lines(s)[i]).contains(
            '\n',
        ) by {
            if i > 0 {
                assert(lines(s)[i] == lines(r)[i - 1]);
            }
        }
    }
}

/// Reading goes on after a line that is not blank.
proof fn lemma_read_line(line: Seq<char>, rest: Seq<char>, e: EventView)
    requires
        line.len() > 0,
        fits_line(line),
    ensures
        line_events(lines(line + "\n"@ + rest), e) == line_events(lines(rest), after_line(e, line)),
{
    lemma_lines_append(line, rest);
    lemma_one_line(line);
    let ls = lines(line + "\n"@ + rest);
    assert(ls[0] == line);
    assert(ls.drop_first() =~= lines(rest));
}

/// Reading ends the event at hand at a blank line.
pub(crate) proof fn lemma_read_blank(rest: Seq<char>, e: EventView)
    ensures
        line_events(lines("\n"@ + rest), e) == pending(e) + events_of(rest),
{
    reveal_strlit("\n");
    let none: Seq<char> = seq![];
    lemma_lines_append(none, rest);
    lemma_one_line(none);
    assert(none + "\n"@ + rest =~= "\n"@ + rest);
    let ls = lines("\n"@ + rest);
    assert(ls[0] == none);
    assert(ls.drop_first() =~= lines(rest));
    assert(trim_cr(none) == none);
}

/// Whether `label` is the name of a field, its colon and at most one space.
pub(crate) open spec fn is_label(label: Seq<char>) -> bool {
    ||| label == "id: "@
    ||| label == "retry: "@
    ||| label == "event: "@
    ||| label == "data: "@
    ||| label == "id:"@
    ||| label == "retry:"@
    ||| label == "event:"@
    ||| label == "data:"@
}

/// Whether a value behind the label is read as it was written.
pub(crate) open spec fn keeps_value(label: Seq<char>, v: Seq<char>) -> bool {
    label.last() == ' ' || field_value(v) == v
}

pub(crate) proof fn lemma_label(label: Seq<char>, v: Seq<char>, e: EventView)
    requires
        is_label(label),
        keeps_value(label, v),
    ensures
        label.len() > 0,
        !label.contains('\n'),
        label.last() != '\r',
        after_line(e, label + v) == (if label == "id: "@ || label == "id:"@ {
            EventView { id: Some(v), ..e }
        } else if label == "retry: "@ || label == "retry:"@ {
            EventView { retry: Some(v), ..e }
        } else if label == "event: "@ || label == "event:"@ {
            EventView { event: Some(v), ..e }
        } else {
            EventView { data: more_data(e.data, v), ..e }
        }),
{
    reveal_strlit("id: ");
    reveal_strlit("retry: ");
    reveal_strlit("event: ");
    reveal_strlit("data: ");
    reveal_strlit("id:");
    reveal_strlit("retry:");
    reveal_strlit("event:");
    reveal_strlit("data:");
    let line = label + v;
    assert(forall|i: int| 0 <= i < label.len() ==> line[i] == label[i]);
    if label == "id: "@ || label == "id:"@ {
        assert("id:"@ =~= line.subrange(0, 3));
        assert(field_value(line.skip(3)) =~= v);
    } else if label == "retry: "@ || label == "retry:"@ {
        assert("retry:"@ =~= line.subrange(0, 6));
        assert(line[0] == 'r');
        assert("id:"@[0] != line.subrange(0, 3)[0]);
        assert("event:"@[0] != line.subrange(0, 6)[0]);
        assert("data:"@[0] != line.subrange(0, 5)[0]);
        assert(field_value(line.skip(6)) =~= v);
    } else if label == "event: "@ || label == "event:"@ {
        assert("event:"@ =~= line.subrange(0, 6));
        assert("id:"@[0] != line.subrange(0, 3)[0]);
        assert(field_value(line.skip(6)) =~= v);
    } else {
        assert("data:"@ =~= line.subrange(0, 5));
        assert("id:"@[0] != line.subrange(0, 3)[0]);
        if line.len() >= 6 {
            assert("event:"@[0] != line.subrange(0, 6)[0]);
        }
        assert(field_value(line.skip(5)) =~= v);
    }
}

/// Reading the line of a field.
pub(crate) proof fn lemma_read_field(label: Seq<char>, v: Seq<char>, rest: Seq<char>, e: EventView)
    requires
        is_label(label),
        keeps_value(label, v),
        fits_line(v),
    ensures
        line_events(lines(field_line(label, Some(v)) + rest), e) == line_events(
            lines(rest),
            after_line(e, label + v),
        ),
{
    lemma_label(label, v, e);
    let line = label + v;
    assert(!line.contains('\n')) by {
        assert forall|i: int| 0 <= i < line.len() implies line[i] != '\n' by {
            if i < label.len() {
                assert(label.contains(label[i]));
            } else {
                assert(v.contains(v[i - label.len()]));
            }
        }
    }
    assert(line.last() == (if v.len() > 0 { v.last() } else { label.last() }));
    lemma_read_line(line, rest, e);
    assert(field_line(label, Some(v)) + rest =~= line + "\n"@ + rest);
}

/// The data of an event after more lines of it.
pub(crate) open spec fn more_lines(data: Option<Seq<char>>, ls: Seq<Seq<char>>) -> Option<Seq<char>>
    decreases ls.len(),
{
    if ls.len() == 0 {
        data
    } else {
        more_lines(more_data(data, ls[0]), ls.drop_first())
    }
}

pub(crate) proof fn lemma_lines_make_text(data: Option<Seq<char>>, s: Seq<char>)
    ensures
        more_lines(data, lines(s)) == more_data(data, s),
    decreases s.len(),
{
    let n = line_len(s);
    let ls = lines(s);
    lemma_line_len(s);
    if n < s.len() {
        reveal_strlit("\n");
        let line = s.take(n as int);
        let r = s.skip(n as int + 1);
        assert(ls.drop_first() =~= lines(r));
        lemma_lines_make_text(more_data(data, line), r);
        assert(s =~= line + "\n"@ + r);
        match data {
            Some(d) => {
                assert(d + "\n"@ + line + "\n"@ + r =~= d + "\n"@ + s);
            },
            None => {},
        }
    } else {
        assert(ls.drop_first() =~= seq![]);
        assert(more_lines(more_data(data, s), ls.drop_first()) == more_data(data, s));
    }
}

proof fn lemma_read_data_lines(ls: Seq<Seq<char>>, rest: Seq<char>, e: EventView)
    requires
        forall|i: int| 0 <= i < ls.len() ==> fits_line(#[trigger] ls[i]),
    ensures
        line_events(lines(labelled_lines("data: "@, ls) + rest), e) == line_events(
            lines(rest),
            EventView { data: more_lines(e.data, ls), ..e },
        ),
    decreases ls.len(),
{
    let label = "data: "@;
    if ls.len() == 0 {
        assert(labelled_lines(label, ls) + rest =~= rest);
    } else {
        let r = ls.drop_first();
        let tail = labelled_lines(label, r) + rest;
        reveal_strlit("data: ");
        assert(label.last() == ' ');
        assert(fits_line(ls[0]));
        lemma_read_field(label, ls[0], tail, e);
        lemma_label(label, ls[0], e);
        reveal_strlit("id: ");
        reveal_strlit("retry: ");
        reveal_strlit("event: ");
        reveal_strlit("id:");
        reveal_strlit("retry:");
        reveal_strlit("event:");
        assert(labelled_lines(label, ls) + rest =~= field_line(label, Some(ls[0])) + tail);
        assert forall|i: int| 0 <= i < r.len() implies fits_line(#[trigger] r[i]) by {
            assert(r[i] == ls[i + 1]);
        }
        lemma_read_data_lines(r, rest, EventView { data: more_data(e.data, ls[0]), ..e });
    }
}

/// The value of a field after its line, which may be missing.
pub(crate) open spec fn told(v: Option<Seq<char>>, before: Option<Seq<char>>) -> Option<Seq<char>> {
    if v is Some {
        v
    } else {
        before
    }
}

/// Whether a value that may be missing is read behind the label as it was written.
pub(crate) open spec fn is_read_as_written(label: Seq<char>, v: Option<Seq<char>>) -> bool {
    v matches Some(v) ==> keeps_value(label, v) && fits_line(v)
}

proof fn lemma_missing_line(label: Seq<char>, rest: Seq<char>)
    ensures
        field_line(label, None) + rest == rest,
{
    assert(field_line(label, None) + rest =~= rest);
}

pub(crate) proof fn lemma_read_id(
    label: Seq<char>,
    v: Option<Seq<char>>,
    rest: Seq<char>,
    e: EventView,
)
    requires
        label == "id: "@ || label == "id:"@,
        is_read_as_written(label, v),
    ensures
        line_events(lines(field_line(label, v) + rest), e) == line_events(
            lines(rest),
            EventView { id: told(v, e.id), ..e },
        ),
{
    match v {
        Some(v) => {
            lemma_label(label, v, e);
            lemma_read_field(label, v, rest, e);
        },
        None => lemma_missing_line(label, rest),
    }
}

pub(crate) proof fn lemma_read_retry(
    label: Seq<char>,
    v: Option<Seq<char>>,
    rest: Seq<char>,
    e: EventView,
)
    requires
        label == "retry: "@ || label == "retry:"@,
        is_read_as_written(label, v),
    ensures
        line_events(lines(field_line(label, v) + rest), e) == line_events(
            lines(rest),
            EventView { retry: told(v, e.retry), ..e },
        ),
{
    match v {
        Some(v) => {
            reveal_strlit("id: ");
            reveal_strlit("id:");
            reveal_strlit("retry: ");
            reveal_strlit("retry:");
            assert(label[0] == 'r');
            lemma_label(label, v, e);
            lemma_read_field(label, v, rest, e);
        },
        None => lemma_missing_line(label, rest),
    }
}

pub(crate) proof fn lemma_read_event(
    label: Seq<char>,
    v: Option<Seq<char>>,
    rest: Seq<char>,
    e: EventView,
)
    requires
        label == "event: "@ || label == "event:"@,
        is_read_as_written(label, v),
    ensures
        line_events(lines(field_line(label, v) + rest), e) == line_events(
            lines(rest),
            EventView { event: told(v, e.event), ..e },
        ),
{
    match v {
        Some(v) => {
            reveal_strlit("id: ");
            reveal_strlit("id:");
            reveal_strlit("retry: ");
            reveal_strlit("retry:");
            reveal_strlit("event: ");
            reveal_strlit("event:");
            assert(label[0] == 'e');
            lemma_label(label, v, e);
            lemma_read_field(label, v, rest, e);
        },
        None => lemma_missing_line(label, rest),
    }
}

proof fn lemma_read_data(label: Seq<char>, v: Option<Seq<char>>, rest: Seq<char>, e: EventView)
    requires
        label == "data: "@ || label == "data:"@,
        is_read_as_written(label, v),
        e.data is None,
    ensures
        line_events(lines(field_line(label, v) + rest), e) == line_events(
            lines(rest),
            EventView { data: v, ..e },
        ),
{
    match v {
        Some(v) => {
            reveal_strlit("id: ");
            reveal_strlit("id:");
            reveal_strlit("retry: ");
            reveal_strlit("retry:");
            reveal_strlit("event: ");
            reveal_strlit("event:");
            reveal_strlit("data: ");
            reveal_strlit("data:");
            assert(label[0] == 'd');
            lemma_label(label, v, e);
            lemma_read_field(label, v, rest, e);
        },
        None => lemma_missing_line(label, rest),
    }
}

pub(crate) proof fn lemma_regroup(
    a: Seq<char>,
    b: Seq<char>,
    c: Seq<char>,
    d: Seq<char>,
    end: Seq<char>,
    rest: Seq<char>,
)
    ensures
        a + b + c + d + end + rest == a + (b + (c + (d + (end + rest)))),
{
    assert(a + b + c + d + end + rest =~= a + (b + (c + (d + (end + rest)))));
}

/// What was written of an event is read back as that event, whatever stream follows it. Of an
/// event without fields nothing is read.
pub proof fn law_formatted_event_is_read_back(e: EventView, rest: Seq<char>)
    requires
        is_writable(e),
    ensures
        events_of(e.formatted()) == pending(e),
        events_of(e.formatted() + rest) == pending(e) + events_of(rest),
{
    lemma_formatted_event_is_read_back(e, rest);
    let none: Seq<char> = seq![];
    lemma_formatted_event_is_read_back(e, none);
    lemma_nothing_to_read();
    assert(e.formatted() + none =~= e.formatted());
    assert(pending(e) + events_of(none) =~= pending(e));
}

proof fn lemma_formatted_event_is_read_back(e: EventView, rest: Seq<char>)
    requires
        is_writable(e),
    ensures
        events_of(e.formatted() + rest) == pending(e) + events_of(rest),
{
    reveal_strlit("id: ");
    reveal_strlit("retry: ");
    reveal_strlit("event: ");
    let end = "\n"@ + rest;
    let data = field_lines("data: "@, e.data) + end;
    let event = field_line("event: "@, e.event) + data;
    let retry = field_line("retry: "@, e.retry) + event;
    lemma_regroup(
        field_line("id: "@, e.id),
        field_line("retry: "@, e.retry),
        field_line("event: "@, e.event),
        field_lines("data: "@, e.data),
        "\n"@,
        rest,
    );
    let e0 = no_event();
    let e1 = EventView { id: e.id, ..e0 };
    let e2 = EventView { retry: e.retry, ..e1 };
    let e3 = EventView { event: e.event, ..e2 };
    lemma_read_id("id: "@, e.id, retry, e0);
    lemma_read_retry("retry: "@, e.retry, event, e1);
    lemma_read_event("event: "@, e.event, data, e2);
    match e.data {
        Some(d) => {
            lemma_read_data_lines(lines(d), end, e3);
            lemma_lines_make_text(None, d);
        },
        None => {
            assert(data =~= end);
        },
    }
    lemma_read_blank(rest, e);
}

/// Events that were written as a stream are read back from its bytes, in their order.
pub proof fn law_formatted_content_is_read_back(events: Seq<EventView>)
    requires
        forall|i: int| 0 <= i < events.len() ==> is_writable(#[trigger] events[i]),
        forall|i: int| 0 <= i < events.len() ==> #[trigger] events[i] != no_event(),
    ensures
        valid_utf8(encode_utf8(formatted_events(events))),
        events_of(decode_utf8(encode_utf8(formatted_events(events)))) == events,
{
    let s = formatted_events(events);
    encode_utf8_valid_utf8(s);
    encode_utf8_decode_utf8(s);
    let none: Seq<char> = seq![];
    lemma_formatted_events_are_read_back(events, none);
    lemma_nothing_to_read();
    assert(s + none =~= s);
    assert(events + events_of(none) =~= events);
}

pub(crate) proof fn lemma_nothing_to_read()
    ensures
        events_of(seq![]) == Seq::<EventView>::empty(),
{
    let none: Seq<char> = seq![];
    lemma_one_line(none);
    assert(trim_cr(none) == none);
    assert(lines(none).drop_first() =~= seq![]);
    assert(line_events(lines(none).drop_first(), no_event()) =~= seq![]);
    assert(events_of(none) =~= seq![]);
}

proof fn lemma_formatted_events_are_read_back(events: Seq<EventView>, rest: Seq<char>)
    requires
        forall|i: int| 0 <= i < events.len() ==> is_writable(#[trigger] events[i]),
        forall|i: int| 0 <= i < events.len() ==> #[trigger] events[i] != no_event(),
    ensures
        events_of(formatted_events(events) + rest) == events + events_of(rest),
    decreases events.len(),
{
    if events.len() == 0 {
        assert(formatted_events(events) + rest =~= rest);
        assert(events + events_of(rest) =~= events_of(rest));
    } else {
        let init = events.drop_last();
        let last = events.last();
        let tail = last.formatted() + rest;
        assert(formatted_events(events) + rest =~= formatted_events(init) + tail);
        assert forall|i: int| 0 <= i < init.len() implies is_writable(#[trigger] init[i]) && init[i]
            != no_event() by {
            assert(init[i] == events[i]);
        }
        lemma_formatted_events_are_read_back(init, tail);
        lemma_formatted_event_is_read_back(last, rest);
        assert(init + (pending(last) + events_of(rest)) =~= events + events_of(rest));
    }
}

/// What `to_sse_string` writes of an event is read back as that event, where every value is on one
/// line and none begins with a space.
pub proof fn law_sse_string_is_read_back(e: EventView, rest: Seq<char>)
    requires
        is_writable(e),
        field_fits_line(e.data),
        e.id matches Some(v) ==> field_value(v) == v,
        e.event matches Some(v) ==> field_value(v) == v,
        e.data matches Some(v) ==> field_value(v) == v,
        e.retry matches Some(v) ==> field_value(v) == v,
    ensures
        events_of(e.sse_string() + rest) == pending(e) + events_of(rest),
{
    let end = "\n"@ + rest;
    let data = field_line("data:"@, e.data) + end;
    let event = field_line("event:"@, e.event) + data;
    let retry = field_line("retry:"@, e.retry) + event;
    lemma_regroup(
        field_line("id:"@, e.id),
        field_line("retry:"@, e.retry),
        field_line("event:"@, e.event),
        field_line("data:"@, e.data),
        "\n"@,
        rest,
    );
    let e0 = no_event();
    let e1 = EventView { id: e.id, ..e0 };
    let e2 = EventView { retry: e.retry, ..e1 };
    let e3 = EventView { event: e.event, ..e2 };
    lemma_read_id("id:"@, e.id, retry, e0);
    lemma_read_retry("retry:"@, e.retry, event, e1);
    lemma_read_event("event:"@, e.event, data, e2);
    lemma_read_data("data:"@, e.data, end, e3);
    lemma_read_blank(rest, e);
}

/// A blank line ends an event: what stands before it and what stands after it are read apart.
pub proof fn law_blank_line_separates_events(a: Seq<char>, b: Seq<char>)
    ensures
        events_of(a + "\n\n"@ + b) == events_of(a) + events_of(b),
{
    reveal_strlit("\n");
    reveal_strlit("\n\n");
    let tail = "\n"@ + b;
    assert(a + "\n\n"@ + b =~= a + "\n"@ + tail);
    lemma_lines_append(a, tail);
    let none: Seq<char> = seq![];
    lemma_lines_append(none, b);
    lemma_one_line(none);
    assert(none + "\n"@ + b =~= tail);
    assert(lines(tail) =~= seq![none] + lines(b));
    lemma_blank_line(lines(a), lines(b), no_event());
}

proof fn lemma_blank_line(x: Seq<Seq<char>>, y: Seq<Seq<char>>, e: EventView)
    ensures
        line_events(x + (seq![Seq::<char>::empty()] + y), e) == line_events(x, e) + line_events(
            y,
            no_event(),
        ),
    decreases x.len(),
{
    let all = x + (seq![Seq::<char>::empty()] + y);
    if x.len() == 0 {
        assert(all[0] =~= seq![]);
        assert(trim_cr(all[0]) == all[0]);
        assert(all.drop_first() =~= y);
    } else {
        let r = x.drop_first();
        let line = trim_cr(x[0]);
        assert(all.drop_first() =~= r + (seq![Seq::<char>::empty()] + y));
        if line.len() == 0 {
            lemma_blank_line(r, y, no_event());
            assert(line_events(all, e) =~= line_events(x, e) + line_events(y, no_event()));
        } else {
            lemma_blank_line(r, y, after_line(e, line));
        }
    }
}

/// A line that begins with a colon is a comment: without it the same events are read.
pub proof fn law_comments_make_no_difference(a: Seq<char>, comment: Seq<char>, b: Seq<char>)
    requires
        !comment.contains('\n'),
    ensures
        events_of(":"@ + comment + "\n"@ + b) == events_of(b),
        events_of(a + "\n:"@ + comment) == events_of(a),
        events_of(a + "\n:"@ + comment + "\n"@ + b) == events_of(a + "\n"@ + b),
{
    reveal_strlit("\n");
    reveal_strlit(":");
    reveal_strlit("\n:");
    let none: Seq<Seq<char>> = seq![];
    let line = ":"@ + comment;
    assert(!line.contains('\n')) by {
        assert forall|i: int| 0 <= i < line.len() implies line[i] != '\n' by {
            if i > 0 {
                assert(comment.contains(comment[i - 1]));
            }
        }
    }
    lemma_one_line(line);
    lemma_lines_append(line, b);
    lemma_lines_append(a, line);
    lemma_lines_append(a, b);
    lemma_lines_append(a, line + "\n"@ + b);
    assert(a + "\n:"@ + comment =~= a + "\n"@ + line);
    assert(a + "\n:"@ + comment + "\n"@ + b =~= a + "\n"@ + (line + "\n"@ + b));
    lemma_comment(none, line, lines(b), no_event());
    assert(none + (seq![line] + lines(b)) =~= seq![line] + lines(b));
    assert(none + lines(b) =~= lines(b));
    lemma_comment(lines(a), line, none, no_event());
    assert(lines(a) + (seq![line] + none) =~= lines(a) + seq![line]);
    assert(lines(a) + none =~= lines(a));
    lemma_comment(lines(a), line, lines(b), no_event());
}

proof fn lemma_comment(x: Seq<Seq<char>>, line: Seq<char>, y: Seq<Seq<char>>, e: EventView)
    requires
        line.len() > 0,
        line[0] == ':',
    ensures
        line_events(x + (seq![line] + y), e) == line_events(x + y, e),
    decreases x.len(),
{
    let all = x + (seq![line] + y);
    if x.len() == 0 {
        lemma_trim_cr(line);
        assert(all[0] == line);
        assert(all.drop_first() =~= y);
        assert(x + y =~= y);
    } else {
        let r = x.drop_first();
        let first = trim_cr(x[0]);
        assert(all.drop_first() =~= r + (seq![line] + y));
        assert((x + y).drop_first() =~= r + y);
        lemma_comment(r, line, y, no_event());
        lemma_comment(r, line, y, after_line(e, first));
    }
}

/// Trimming keeps the start of a line, and leaves it with no carriage return at its end.
proof fn lemma_trim_cr(line: Seq<char>)
    ensures
        trim_cr(line).is_prefix_of(line),
        trim_cr(line).len() > 0 ==> trim_cr(line).last() != '\r',
        line.len() > 0 && line[0] != '\r' ==> trim_cr(line).len() > 0 && trim_cr(line)[0]
            == line[0],
        trim_cr(line.push('\r')) == trim_cr(line),
    decreases line.len(),
{
    assert(line.push('\r').drop_last() =~= line);
    if line.len() > 0 && line.last() == '\r' {
        lemma_trim_cr(line.drop_last());
        let t = trim_cr(line);
        assert(t =~= line.subrange(0, t.len() as int));
    } else {
        assert(line =~= line.subrange(0, line.len() as int));
    }
}

/// Lines that end with a carriage return and a line feed are read as lines that end with a line
/// feed.
pub proof fn law_line_endings_make_no_difference(content: Seq<char>)
    ensures
        events_of(with_crlf(content)) == events_of(content),
{
    lemma_crlf_lines(content);
    lemma_same_trimmed_lines(lines(with_crlf(content)), lines(content), no_event());
}

proof fn lemma_crlf_prefix(line: Seq<char>, rest: Seq<char>)
    requires
        !line.contains('\n'),
    ensures
        with_crlf(line + rest) == line + with_crlf(rest),
    decreases line.len(),
{
    if line.len() == 0 {
        assert(line + rest =~= rest);
        assert(line + with_crlf(rest) =~= with_crlf(rest));
    } else {
        let r = line.drop_first();
        assert(line.contains(line[0]));
        assert(!r.contains('\n')) by {
            assert forall|i: int| 0 <= i < r.len() implies r[i] != '\n' by {
                assert(line.contains(line[i + 1]));
            }
        }
        lemma_crlf_prefix(r, rest);
        assert((line + rest).drop_first() =~= r + rest);
        assert(with_crlf(line + rest) =~= line + with_crlf(rest));
    }
}

proof fn lemma_crlf_lines(s: Seq<char>)
    ensures
        lines(with_crlf(s)).len() == lines(s).len(),
        forall|i: int|
            0 <= i < lines(s).len() ==> trim_cr(#[trigger] lines(with_crlf(s))[i]) == trim_cr(
                lines(s)[i],
            ),
    decreases s.len(),
{
    reveal_strlit("\n");
    reveal_strlit("\r\n");
    let n = line_len(s);
    lemma_line_len(s);
    let line = s.take(n as int);
    let rest = s.skip(n as int);
    assert(s =~= line + rest);
    lemma_crlf_prefix(line, rest);
    if n < s.len() {
        let r = s.skip(n as int + 1);
        assert(rest.drop_first() =~= r);
        assert(line + ("\r\n"@ + with_crlf(r)) =~= line.push('\r') + "\n"@ + with_crlf(r));
        lemma_lines_append(line.push('\r'), with_crlf(r));
        assert(!line.push('\r').contains('\n')) by {
            assert forall|i: int| 0 <= i < line.len() implies line[i] != '\n' by {
                assert(line.contains(line[i]));
            }
        }
        lemma_one_line(line.push('\r'));
        lemma_crlf_lines(r);
        lemma_trim_cr(line);
        let crlf = lines(with_crlf(s));
        assert(crlf =~= seq![line.push('\r')] + lines(with_crlf(r)));
        assert(lines(s) =~= seq![line] + lines(r));
        assert forall|i: int| 0 <= i < lines(s).len() implies trim_cr(#[trigger] crlf[i])
            == trim_cr(lines(s)[i]) by {
            if i > 0 {
                assert(crlf[i] == lines(with_crlf(r))[i - 1]);
            }
        }
    } else {
        assert(line =~= s);
        assert(rest =~= seq![]);
        assert(with_crlf(s) =~= s);
    }
}

proof fn lemma_same_trimmed_lines(x: Seq<Seq<char>>, y: Seq<Seq<char>>, e: EventView)
    requires
        x.len() == y.len(),
        forall|i: int| 0 <= i < y.len() ==> trim_cr(#[trigger] x[i]) == trim_cr(y[i]),
    ensures
        line_events(x, e) == line_events(y, e),
    decreases x.len(),
{
    if x.len() > 0 {
        assert(trim_cr(x[0]) == trim_cr(y[0]));
        assert forall|i: int| 0 <= i < x.drop_first().len() implies trim_cr(
            #[trigger] x.drop_first()[i],
        ) == trim_cr(y.drop_first()[i]) by {
            assert(trim_cr(x[i + 1]) == trim_cr(y[i + 1]));
        }
        lemma_same_trimmed_lines(x.drop_first(), y.drop_first(), no_event());
        lemma_same_trimmed_lines(x.drop_first(), y.drop_first(), after_line(e, trim_cr(x[0])));
    }
}

/// Every event that is read has a field, and can be written.
pub proof fn law_events_read_can_be_written(content: Seq<char>)
    ensures
        forall|i: int|
            0 <= i < events_of(content).len() ==> #[trigger] events_of(content)[i] != no_event()
                && is_writable(events_of(content)[i]),
{
    lemma_no_line_holds_a_line_feed(content);
    lemma_events_read_can_be_written(lines(content), no_event());
}

proof fn lemma_events_read_can_be_written(ls: Seq<Seq<char>>, e: EventView)
    requires
        is_writable(e),
        forall|i: int| 0 <= i < ls.len() ==> !(#[trigger] ls[i]).contains('\n'),
    ensures
        forall|i: int|
            0 <= i < line_events(ls, e).len() ==> #[trigger] line_events(ls, e)[i] != no_event()
                && is_writable(line_events(ls, e)[i]),
    decreases ls.len(),
{
    if ls.len() > 0 {
        let r = ls.drop_first();
        let line = trim_cr(ls[0]);
        assert forall|i: int| 0 <= i < r.len() implies !(#[trigger] r[i]).contains('\n') by {
            assert(r[i] == ls[i + 1]);
        }
        if line.len() == 0 {
            lemma_events_read_can_be_written(r, no_event());
            let first = pending(e);
            let others = line_events(r, no_event());
            assert forall|i: int| 0 <= i < line_events(ls, e).len() implies #[trigger] line_events(
                ls,
                e,
            )[i] != no_event() && is_writable(line_events(ls, e)[i]) by {
                if i < first.len() {
                    assert((first + others)[i] == first[i]);
                } else {
                    assert((first + others)[i] == others[i - first.len()]);
                }
            }
        } else {
            lemma_trim_cr(ls[0]);
            assert(!ls[0].contains('\n'));
            assert(!line.contains('\n')) by {
                assert forall|i: int| 0 <= i < line.len() implies line[i] != '\n' by {
                    assert(line == ls[0].subrange(0, line.len() as int));
                    assert(line[i] == ls[0][i]);
                    assert(ls[0].contains(ls[0][i]));
                }
            }
            lemma_writable_after_line(e, line);
            lemma_events_read_can_be_written(r, after_line(e, line));
        }
    }
}

proof fn lemma_suffix_fits_line(line: Seq<char>, n: int)
    requires
        0 <= n <= line.len(),
        fits_line(line),
    ensures
        fits_line(line.skip(n)),
{
    let v = line.skip(n);
    assert forall|i: int| 0 <= i < v.len() implies v[i] != '\n' by {
        assert(line.contains(line[i + n]));
    }
}

proof fn lemma_writable_after_line(e: EventView, line: Seq<char>)
    requires
        is_writable(e),
        line.len() > 0,
        fits_line(line),
    ensures
        is_writable(after_line(e, line)),
{
    reveal_strlit("id:");
    reveal_strlit("event:");
    reveal_strlit("data:");
    reveal_strlit("retry:");
    assert forall|n: int| 0 <= n <= line.len() implies fits_line(
        #[trigger] field_value(line.skip(n)),
    ) by {
        lemma_suffix_fits_line(line, n);
        if field_value(line.skip(n)) != line.skip(n) {
            lemma_suffix_fits_line(line.skip(n), 1);
            assert(line.skip(n).skip(1) =~= line.skip(n).drop_first());
        }
    }
    if line[0] != ':' && !"id:"@.is_prefix_of(line) && !"event:"@.is_prefix_of(line)
        && "data:"@.is_prefix_of(line) {
        let v = field_value(line.skip(5));
        assert(fits_line(v));
        lemma_one_line(v);
        if let Some(d) = e.data {
            lemma_lines_append(d, v);
            let ls = lines(d + "\n"@ + v);
            assert forall|i: int| 0 <= i < ls.len() implies fits_line(#[trigger] ls[i]) by {
                if i < lines(d).len() {
                    assert(ls[i] == lines(d)[i]);
                }
            }
        }
    }
}

/// To write what was read and to read it again changes nothing.
pub proof fn law_reading_is_stable(content: Seq<char>)
    ensures
        events_of(formatted_events(events_of(content))) == events_of(content),
{
    let events = events_of(content);
    law_events_read_can_be_written(content);
    law_formatted_content_is_read_back(events);
    encode_utf8_decode_utf8(formatted_events(events));
}

} // verus!
