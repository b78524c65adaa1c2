//! The events of an event stream, and the text that they are read from and written to.
//!
//! A stream is a sequence of lines. A line `id:`, `event:`, `data:` or `retry:` gives that field
//! of the event at hand, a line that begins with a colon is a comment, and a blank line ends the
//! event.

use crate::text::{
    copy_text, from_chars, from_utf8, has_prefix, text_view, texts, to_chars, utf8_bytes,
    utf8_error,
};
use vstd::prelude::*;
use vstd::utf8::{decode_utf8, encode_utf8, valid_utf8};

verus! {

/// One event of a stream.
#[derive(Debug, Clone, PartialEq, Eq)]
pub struct SseEvent {
    /// The identifier.
    pub id: Option<String>,
    /// The type.
    pub event: Option<String>,
    /// The payload.
    pub data: Option<String>,
    /// The reconnection time.
    pub retry: Option<String>,
}

/// An event with its fields as sequences of characters.
#[verifier::ext_equal]
pub struct EventView {
    pub id: Option<Seq<char>>,
    pub event: Option<Seq<char>>,
    pub data: Option<Seq<char>>,
    pub retry: Option<Seq<char>>,
}

impl View for SseEvent {
    type V = EventView;

    open spec fn view(&self) -> EventView {
        EventView {
            id: text_view(self.id),
            event: text_view(self.event),
            data: text_view(self.data),
            retry: text_view(self.retry),
        }
    }
}

/// The views of the events in a sequence.
pub open spec fn event_views(events: Seq<SseEvent>) -> Seq<EventView> {
    events.map_values(|e: SseEvent| e@)
}

/// An event that no line has told anything of.
pub open spec fn no_event() -> EventView {
    EventView { id: None, event: None, data: None, retry: None }
}

/// The event at hand where the stream ends it, if any line told something of it.
pub open spec fn pending(e: EventView) -> Seq<EventView> {
    if e == no_event() {
        seq![]
    } else {
        seq![e]
    }
}

/// How many characters stand before the first line feed.
pub open spec fn line_len(s: Seq<char>) -> nat
    decreases s.len(),
{
    if s.len() == 0 || s[0] == '\n' {
        0
    } else {
        1 + line_len(s.drop_first())
    }
}

/// The parts of `s` between its line feeds.
pub open spec fn lines(s: Seq<char>) -> Seq<Seq<char>>
    decreases s.len(),
{
    let n = line_len(s);
    if n < s.len() {
        seq![s.take(n as int)] + lines(s.skip(n as int + 1))
    } else {
        seq![s]
    }
}

/// `line` without the carriage returns it ends with.
pub open spec fn trim_cr(line: Seq<char>) -> Seq<char>
    decreases line.len(),
{
    if line.len() > 0 && line.last() == '\r' {
        trim_cr(line.drop_last())
    } else {
        line
    }
}

/// The value that follows a field's name and colon: a space in front of it is no part of it.
pub open spec fn field_value(rest: Seq<char>) -> Seq<char> {
    if rest.len() > 0 && rest[0] == ' ' {
        rest.drop_first()
    } else {
        rest
    }
}

/// The data of an event after one more line of it.
pub open spec fn more_data(data: Option<Seq<char>>, value: Seq<char>) -> Option<Seq<char>> {
    match data {
        Some(d) => Some(d + "\n"@ + value),
        None => Some(value),
    }
}

/// The event at hand after a line that is not blank. Comments and unknown fields change nothing.
pub open spec fn after_line(e: EventView, line: Seq<char>) -> EventView {
    if line[0] == ':' {
        e
    } else if "id:"@.is_prefix_of(line) {
        EventView { id: Some(field_value(line.skip(3))), ..e }
    } else if "event:"@.is_prefix_of(line) {
        EventView { event: Some(field_value(line.skip(6))), ..e }
    } else if "data:"@.is_prefix_of(line) {
        EventView { data: more_data(e.data, field_value(line.skip(5))), ..e }
    } else if "retry:"@.is_prefix_of(line) {
        EventView { retry: Some(field_value(line.skip(6))), ..e }
    } else {
        e
    }
}

/// The events that the lines `ls` give, where `e` is the event at hand.
pub open spec fn line_events(ls: Seq<Seq<char>>, e: EventView) -> Seq<EventView>
    decreases ls.len(),
{
    if ls.len() == 0 {
        pending(e)
    } else {
        let line = trim_cr(ls[0]);
        if line.len() == 0 {
            pending(e) + line_events(ls.drop_first(), no_event())
        } else {
            line_events(ls.drop_first(), after_line(e, line))
        }
    }
}

/// The events of a stream.
pub open spec fn events_of(content: Seq<char>) -> Seq<EventView> {
    line_events(lines(content), no_event())
}

/// The line of a field after its label, which is the name, the colon and what separates them from
/// the value; no line for a field that is missing.
pub open spec fn field_line(label: Seq<char>, value: Option<Seq<char>>) -> Seq<char> {
    match value {
        Some(v) => label + v + "\n"@,
        None => seq![],
    }
}

/// The lines `ls`, each behind the label.
pub open spec fn labelled_lines(label: Seq<char>, ls: Seq<Seq<char>>) -> Seq<char>
    decreases ls.len(),
{
    if ls.len() == 0 {
        seq![]
    } else {
        field_line(label, Some(ls[0])) + labelled_lines(label, ls.drop_first())
    }
}

/// The lines of a field whose value may have several.
pub open spec fn field_lines(label: Seq<char>, value: Option<Seq<char>>) -> Seq<char> {
    match value {
        Some(v) => labelled_lines(label, lines(v)),
        None => seq![],
    }
}

impl EventView {
    /// The event as a stream, with a space before each value and a line for each line of the data.
    pub open spec fn formatted(self) -> Seq<char> {
        field_line("id: "@, self.id) + field_line("retry: "@, self.retry) + field_line(
            "event: "@,
            self.event,
        ) + field_lines("data: "@, self.data) + "\n"@
    }

    /// The event as a stream, with each value as it is behind its colon.
    pub open spec fn sse_string(self) -> Seq<char> {
        field_line("id:"@, self.id) + field_line("retry:"@, self.retry) + field_line(
            "event:"@,
            self.event,
        ) + field_line("data:"@, self.data) + "\n"@
    }
}

/// Events as a stream, in their order.
pub open spec fn formatted_events(events: Seq<EventView>) -> Seq<char>
    decreases events.len(),
{
    if events.len() == 0 {
        seq![]
    } else {
        formatted_events(events.drop_last()) + events.last().formatted()
    }
}

/// The value of a field whose name and colon take the first `n` characters of the line.
fn value_of(line: &[char], n: usize) -> (value: String)
    requires
        n <= line@.len(),
    ensures
        value@ == field_value(line@.skip(n as int)),
{
    if n < line.len() && line[n] == ' ' {
        assert(line@.skip(n as int).drop_first() =~= line@.subrange(n + 1, line@.len() as int));
        from_chars(&line[n + 1..line.len()])
    } else {
        assert(line@.skip(n as int) =~= line@.subrange(n as int, line@.len() as int));
        from_chars(&line[n..line.len()])
    }
}

/// Where `line` ends without the carriage returns it ends with.
fn cr_end(line: &[char]) -> (n: usize)
    ensures
        n <= line@.len(),
        line@.take(n as int) == trim_cr(line@),
{
    let mut n: usize = line.len();
    assert(line@.take(n as int) =~= line@);
    while n > 0 && line[n - 1] == '\r'
        invariant
            n <= line@.len(),
            trim_cr(line@) == trim_cr(line@.take(n as int)),
        decreases n,
    {
        assert(line@.take(n as int).drop_last() =~= line@.take(n - 1));
        n = n - 1;
    }
    n
}

/// The line feed that ends the line at `start`, or the end of the text.
fn line_end(v: &[char], start: usize) -> (end: usize)
    requires
        start <= v@.len(),
    ensures
        start <= end <= v@.len(),
        line_len(v@.skip(start as int)) == end - start,
        end < v@.len() ==> v@[end as int] == '\n',
{
    let n: usize = v.len();
    let mut end: usize = start;
    assert(v@.skip(start as int) =~= v@.skip(end as int));
    while end < n && v[end] != '\n'
        invariant
            start <= end <= n == v@.len(),
            line_len(v@.skip(start as int)) == end - start + line_len(v@.skip(end as int)),
        decreases n - end,
    {
        assert(v@.skip(end as int).drop_first() =~= v@.skip(end + 1));
        end = end + 1;
    }
    end
}

/// Adds the line of a field.
fn put_field(out: &mut String, label: &str, value: &Option<String>)
    ensures
        final(out)@ == old(out)@ + field_line(label@, text_view(*value)),
{
    match value {
        Some(v) => {
            out.append(label);
            out.append(v);
            out.append("\n");
            assert(out@ =~= old(out)@ + field_line(label@, text_view(*value)));
        },
        None => {
            assert(out@ =~= old(out)@ + field_line(label@, text_view(*value)));
        },
    }
}

/// The parts of `s` between its line feeds.
pub fn split_lines(s: &str) -> (ls: Vec<String>)
    ensures
        texts(ls@) == lines(s@),
{
    let chars = to_chars(s);
    let v = chars.as_slice();
    let n: usize = v.len();
    let mut ls: Vec<String> = Vec::new();
    let mut start: usize = 0;
    let mut more = true;
    assert(v@.skip(0) =~= v@);
    assert(texts(ls@) + lines(v@.skip(0)) =~= lines(s@));
    while more
        invariant
            start <= n == v@.len(),
            more ==> texts(ls@) + lines(v@.skip(start as int)) == lines(s@),
            !more ==> texts(ls@) == lines(s@),
        decreases n - start + (if more { 1int } else { 0int }),
    {
        let ghost rest = v@.skip(start as int);
        let ghost before = texts(ls@);
        let end: usize = line_end(v, start);
        let line = from_chars(&v[start..end]);
        proof {
            assert(rest.take(end - start) =~= line@);
            if end < n {
                assert(rest.skip(end - start + 1) =~= v@.skip(end + 1));
                assert(lines(rest) =~= seq![line@] + lines(v@.skip(end + 1)));
            } else {
                assert(rest =~= line@);
                assert(lines(rest) =~= seq![line@]);
            }
        }
        ls.push(line);
        assert(texts(ls@) =~= before.push(line@));
        if end < n {
            start = end + 1;
            assert(texts(ls@) + lines(v@.skip(start as int)) =~= before + lines(rest));
        } else {
            more = false;
            assert(texts(ls@) =~= before + lines(rest));
        }
    }
    ls
}

/// Adds the lines of a field whose value may have several.
fn put_field_lines(out: &mut String, label: &str, value: &Option<String>)
    ensures
        final(out)@ == old(out)@ + field_lines(label@, text_view(*value)),
{
    match value {
        Some(value) => {
            let ghost whole = out@ + labelled_lines(label@, lines(value@));
            let ls = split_lines(value);
            let ghost views = lines(value@);
            let n: usize = ls.len();
            let mut i: usize = 0;
            assert(views.skip(0) =~= views);
            while i < n
                invariant
                    0 <= i <= n == ls@.len(),
                    views == texts(ls@),
                    whole == out@ + labelled_lines(label@, views.skip(i as int)),
                decreases n - i,
            {
                let ghost rest = views.skip(i as int);
                let ghost before = out@;
                assert(rest.drop_first() =~= views.skip(i + 1));
                let line = Some(ls[i].clone());
                put_field(out, label, &line);
                assert(out@ + labelled_lines(label@, rest.drop_first()) =~= before
                    + labelled_lines(label@, rest));
                i = i + 1;
            }
            assert(labelled_lines(label@, views.skip(n as int)) =~= seq![]);
            assert(out@ =~= whole);
        },
        None => {
            assert(out@ =~= old(out)@ + field_lines(label@, text_view(*value)));
        },
    }
}

impl SseEvent {
    /// An event that no line has told anything of.
    pub fn empty() -> (e: SseEvent)
        ensures
            e@ == no_event(),
    {
        SseEvent { id: None, event: None, data: None, retry: None }
    }

    /// Whether no line has told anything of the event.
    pub fn is_empty(&self) -> (b: bool)
        ensures
            b == (self@ == no_event()),
    {
        self.id.is_none() && self.event.is_none() && self.data.is_none() && self.retry.is_none()
    }

    /// An event with the same fields.
    pub fn copy(&self) -> (e: SseEvent)
        ensures
            e@ == self@,
    {
        SseEvent {
            id: copy_text(&self.id),
            event: copy_text(&self.event),
            data: copy_text(&self.data),
            retry: copy_text(&self.retry),
        }
    }

    /// Writes the event as a stream, with a space before each value and a line for each line of the
    /// data.
    pub fn format(&self) -> (s: String)
        ensures
            s@ == self@.formatted(),
    {
        let mut s = String::new();
        put_field(&mut s, "id: ", &self.id);
        put_field(&mut s, "retry: ", &self.retry);
        put_field(&mut s, "event: ", &self.event);
        put_field_lines(&mut s, "data: ", &self.data);
        s.append("\n");
        assert(s@ =~= self@.formatted());
        s
    }

    /// Writes the event as a stream, with each value as it is behind its colon.
    pub fn to_sse_string(&self) -> (s: String)
        ensures
            s@ == self@.sse_string(),
    {
        let mut s = String::new();
        put_field(&mut s, "id:", &self.id);
        put_field(&mut s, "retry:", &self.retry);
        put_field(&mut s, "event:", &self.event);
        put_field(&mut s, "data:", &self.data);
        s.append("\n");
        assert(s@ =~= self@.sse_string());
        s
    }

    /// Takes in a line that is not blank.
    fn take_line(&mut self, line: &[char])
        requires
            line@.len() > 0,
        ensures
            final(self)@ == after_line(old(self)@, line@),
    {
        proof {
            reveal_strlit("id:");
            reveal_strlit("event:");
            reveal_strlit("data:");
            reveal_strlit("retry:");
        }
        if line[0] == ':' {
        } else if has_prefix(line, "id:") {
            self.id = Some(value_of(line, 3));
        } else if has_prefix(line, "event:") {
            self.event = Some(value_of(line, 6));
        } else if has_prefix(line, "data:") {
            let value = value_of(line, 5);
            let data = match &self.data {
                Some(d) => {
                    let mut data = d.clone();
                    data.append("\n");
                    data.append(&value);
                    data
                },
                None => value,
            };
            self.data = Some(data);
        } else if has_prefix(line, "retry:") {
            self.retry = Some(value_of(line, 6));
        }
    }

    /// Reads the events of a stream.
    pub fn parse(content: &str) -> (events: Vec<SseEvent>)
        ensures
            event_views(events@) == events_of(content@),
    {
        let chars = to_chars(content);
        let v = chars.as_slice();
        let n: usize = v.len();
        let mut events: Vec<SseEvent> = Vec::new();
        let mut current = SseEvent::empty();
        let mut start: usize = 0;
        let mut more = true;
        assert(v@.skip(0) =~= v@);
        assert(event_views(events@) =~= seq![]);
        assert(events_of(v@) =~= event_views(events@) + line_events(
            lines(v@.skip(0)),
            current@,
        ));
        while more
            invariant
                start <= n == v@.len(),
                v@ == content@,
                more ==> events_of(v@) == event_views(events@) + line_events(
                    lines(v@.skip(start as int)),
                    current@,
                ),
                !more ==> events_of(v@) == event_views(events@) + pending(current@),
            decreases n - start + (if more { 1int } else { 0int }),
        {
            let ghost rest = v@.skip(start as int);
            let ghost before = event_views(events@);
            let ghost at_hand = current@;
            let end: usize = line_end(v, start);
            let line = &v[start..end];
            let cut: usize = cr_end(line);
            proof {
                assert(rest.take(end - start) =~= line@);
                if end < n {
                    assert(rest.skip(end - start + 1) =~= v@.skip(end + 1));
                    assert(lines(rest).drop_first() =~= lines(v@.skip(end + 1)));
                } else {
                    assert(rest =~= line@);
                    assert(lines(rest).drop_first() =~= seq![]);
                }
                assert(lines(rest)[0] == line@);
            }
            if cut == 0 {
                if !current.is_empty() {
                    events.push(current);
                    current = SseEvent::empty();
                    assert(event_views(events@) =~= before.push(at_hand));
                }
                assert(event_views(events@) =~= before + pending(at_hand));
            } else {
                current.take_line(&line[0..cut]);
                assert(line@.subrange(0, cut as int) =~= line@.take(cut as int));
            }
            if end < n {
                start = end + 1;
                assert(event_views(events@) + line_events(lines(v@.skip(start as int)), current@)
                    =~= before + line_events(lines(rest), at_hand));
            } else {
                more = false;
                assert(line_events(lines(rest).drop_first(), current@) == pending(current@));
                assert(event_views(events@) + pending(current@) =~= before + line_events(
                    lines(rest),
                    at_hand,
                ));
            }
        }
        let ghost before = event_views(events@);
        let ghost at_hand = current@;
        if !current.is_empty() {
            events.push(current);
            assert(event_views(events@) =~= before.push(at_hand));
        }
        assert(event_views(events@) =~= before + pending(at_hand));
        events
    }
}

/// Reads the events of a stream that is given as bytes. They must be UTF-8.
pub fn parse_sse_content(content: &[u8]) -> (r: Result<Vec<SseEvent>, String>)
    ensures
        match r {
            Ok(events) => valid_utf8(content@) && event_views(events@) == events_of(
                decode_utf8(content@),
            ),
            Err(e) => !valid_utf8(content@) && e@ == utf8_error(content@),
        },
{
    match from_utf8(content) {
        Ok(text) => Ok(SseEvent::parse(&text)),
        Err(e) => Err(e),
    }
}

/// Writes events as the bytes of a stream, in their order.
pub fn format_sse_content(events: &Vec<SseEvent>) -> (bytes: Vec<u8>)
    ensures
        bytes@ == encode_utf8(formatted_events(event_views(events@))),
{
    let n: usize = events.len();
    let mut s = String::new();
    let mut i: usize = 0;
    assert(event_views(events@).take(0) =~= seq![]);
    while i < n
        invariant
            0 <= i <= n == events@.len(),
            s@ == formatted_events(event_views(events@).take(i as int)),
        decreases n - i,
    {
        s.append(&events[i].format());
        assert(event_views(events@).take(i + 1).drop_last() =~= event_views(events@).take(
            i as int,
        ));
        i = i + 1;
    }
    assert(event_views(events@).take(n as int) =~= event_views(events@));
    utf8_bytes(&s)
}

} // verus!
