//! What each line of a stream says, whatever stands before it, and how events are written.

use crate::sse_content::event::{
    after_line, events_of, field_lines, formatted_events, labelled_lines, line_events, line_len,
    lines, no_event, pending, trim_cr, EventView,
};
use crate::sse_content::event_laws::{
    keeps_value, lemma_label, lemma_line_len, lemma_lines_append, lemma_nothing_to_read,
    lemma_one_line,
};
use vstd::prelude::*;

verus! {

/// Lines of one event: there is no blank line, and no line ends with a carriage return.
pub open spec fn is_block(a: Seq<char>) -> bool {
    &&& a.len() > 0
    &&& a[0] != '\n'
    &&& a.last() != '\n'
    &&& a.last() != '\r'
    &&& forall|i: int|
        0 <= i < a.len() - 1 ==> !((#[trigger] a[i] == '\n' || a[i] == '\r') && a[i + 1] == '\n')
}

/// The event that a block tells of; one without fields where it tells of none.
pub open spec fn told_event(events: Seq<EventView>) -> EventView {
    if events.len() > 0 {
        events[0]
    } else {
        EventView { id: None, event: None, data: None, retry: None }
    }
}

spec fn after_lines(e: EventView, ls: Seq<Seq<char>>) -> EventView
    decreases ls.len(),
{
    if ls.len() == 0 {
        e
    } else {
        after_lines(after_line(e, ls[0]), ls.drop_first())
    }
}

proof fn lemma_after_one_more(e: EventView, ls: Seq<Seq<char>>, l: Seq<char>)
    ensures
        after_lines(e, ls.push(l)) == after_line(after_lines(e, ls), l),
    decreases ls.len(),
{
    let all = ls.push(l);
    if ls.len() == 0 {
        assert(all.drop_first() =~= seq![]);
        assert(all[0] == l);
        assert(after_lines(after_line(e, l), all.drop_first()) == after_line(e, l));
    } else {
        assert(all.drop_first() =~= ls.drop_first().push(l));
        assert(all[0] == ls[0]);
        lemma_after_one_more(after_line(e, ls[0]), ls.drop_first(), l);
    }
}

proof fn lemma_block_events(ls: Seq<Seq<char>>, e: EventView)
    requires
        forall|i: int| 0 <= i < ls.len() ==> (#[trigger] ls[i]).len() > 0 && ls[i].last() != '\r',
    ensures
        line_events(ls, e) == pending(after_lines(e, ls)),
    decreases ls.len(),
{
    if ls.len() > 0 {
        let r = ls.drop_first();
        assert(ls[0].len() > 0);
        assert(trim_cr(ls[0]) == ls[0]);
        assert forall|i: int| 0 <= i < r.len() implies (#[trigger] r[i]).len() > 0 && r[i].last()
            != '\r' by {
            assert(r[i] == ls[i + 1]);
        }
        lemma_block_events(r, after_line(e, ls[0]));
    }
}

proof fn lemma_block_lines(a: Seq<char>)
    requires
        is_block(a),
    ensures
        forall|i: int|
            0 <= i < lines(a).len() ==> (#[trigger] lines(a)[i]).len() > 0 && lines(a)[i].last()
                != '\r',
    decreases a.len(),
{
    let n = line_len(a) as int;
    lemma_line_len(a);
    assert(n > 0);
    if n < a.len() {
        let r = a.skip(n + 1);
        assert(a[n] == '\n');
        assert(n + 1 < a.len()) by {
            if n + 1 == a.len() {
                assert(a.last() == a[n]);
            }
        }
        assert(r[0] == a[n + 1]);
        assert(r.last() == a.last());
        assert forall|i: int| 0 <= i < r.len() - 1 implies !((#[trigger] r[i] == '\n' || r[i]
            == '\r') && r[i + 1] == '\n') by {
            assert(r[i] == a[i + n + 1]);
            assert(r[i + 1] == a[i + n + 2]);
        }
        lemma_block_lines(r);
        assert(lines(a)[0] == a.take(n));
        assert(a.take(n).last() == a[n - 1]);
        assert(!(a[n - 1] == '\r' && a[n - 1 + 1] == '\n'));
        assert forall|i: int| 0 <= i < lines(a).len() implies (#[trigger] lines(a)[i]).len() > 0
            && lines(a)[i].last() != '\r' by {
            if i > 0 {
                assert(lines(a)[i] == lines(r)[i - 1]);
            }
        }
    } else {
        assert(lines(a) =~= seq![a]);
        assert(a.last() == a[a.len() - 1]);
    }
}

proof fn lemma_one_more_line(a: Seq<char>, l: Seq<char>)
    requires
        is_block(a),
        l.len() > 0,
        !l.contains('\n'),
        l.last() != '\r',
    ensures
        events_of(a).len() <= 1,
        events_of(a + "\n"@ + l) == pending(after_line(told_event(events_of(a)), l)),
        events_of(l) == pending(after_line(no_event(), l)),
{
    lemma_block_lines(a);
    lemma_block_events(lines(a), no_event());
    lemma_one_line(l);
    lemma_lines_append(a, l);
    let all = lines(a) + lines(l);
    assert(all =~= lines(a).push(l));
    assert forall|i: int| 0 <= i < all.len() implies (#[trigger] all[i]).len() > 0 && all[i].last()
        != '\r' by {
        if i < lines(a).len() {
            assert(all[i] == lines(a)[i]);
        }
    }
    lemma_block_events(all, no_event());
    lemma_after_one_more(no_event(), lines(a), l);
    lemma_block_events(lines(l), no_event());
    assert(lines(l).drop_first() =~= seq![]);
    assert(after_lines(after_line(no_event(), l), lines(l).drop_first()) == after_line(
        no_event(),
        l,
    ));
    let cur = after_lines(no_event(), lines(a));
    assert(events_of(a) == pending(cur));
    assert(told_event(events_of(a)) == cur);
}

/// A line gives its field to the event at hand, whatever lines stand before it: `id:`, `event:` and
/// `retry:` give the identifier, the type and the reconnection time in the place of any before, and
/// `data:` one more line of data. One space behind the colon is no part of the value.
pub proof fn law_every_line_gives_its_field(a: Seq<char>, label: Seq<char>, v: Seq<char>)
    requires
        is_block(a),
        !v.contains('\n'),
        v.len() > 0 ==> v.last() != '\r',
        label == "id: "@ || label == "event: "@ || label == "retry: "@ || label == "data: "@ || (
        !(v.len() > 0 && v[0] == ' ') && (label == "id:"@ || label == "event:"@ || label
            == "retry:"@ || label == "data:"@)),
    ensures
        events_of(a).len() <= 1,
        label == "id: "@ || label == "id:"@ ==> events_of(a + "\n"@ + label + v) == seq![
            (EventView { id: Some(v), ..told_event(events_of(a)) }),
        ],
        label == "event: "@ || label == "event:"@ ==> events_of(a + "\n"@ + label + v) == seq![
            (EventView { event: Some(v), ..told_event(events_of(a)) }),
        ],
        label == "retry: "@ || label == "retry:"@ ==> events_of(a + "\n"@ + label + v) == seq![
            (EventView { retry: Some(v), ..told_event(events_of(a)) }),
        ],
        label == "data: "@ || label == "data:"@ ==> events_of(a + "\n"@ + label + v) == seq![
            (EventView {
                data: match told_event(events_of(a)).data {
                    Some(d) => Some(d + "\n"@ + v),
                    None => Some(v),
                },
                ..told_event(events_of(a))
            }),
        ],
{
    lemma_distinct_labels();
    assert(keeps_value(label, v));
    lemma_given(a, label, v);
    assert(a + "\n"@ + label + v =~= a + "\n"@ + (label + v));
}

/// A first line that gives a field starts an event with that field alone.
pub proof fn law_the_first_line_starts_an_event(label: Seq<char>, v: Seq<char>)
    requires
        !v.contains('\n'),
        v.len() > 0 ==> v.last() != '\r',
        label == "id: "@ || label == "event: "@ || label == "retry: "@ || label == "data: "@ || (
        !(v.len() > 0 && v[0] == ' ') && (label == "id:"@ || label == "event:"@ || label
            == "retry:"@ || label == "data:"@)),
    ensures
        events_of(seq![]) == Seq::<EventView>::empty(),
        label == "id: "@ || label == "id:"@ ==> events_of(label + v) == seq![
            (EventView { id: Some(v), event: None, data: None, retry: None }),
        ],
        label == "event: "@ || label == "event:"@ ==> events_of(label + v) == seq![
            (EventView { id: None, event: Some(v), data: None, retry: None }),
        ],
        label == "retry: "@ || label == "retry:"@ ==> events_of(label + v) == seq![
            (EventView { id: None, event: None, data: None, retry: Some(v) }),
        ],
        label == "data: "@ || label == "data:"@ ==> events_of(label + v) == seq![
            (EventView { id: None, event: None, data: Some(v), retry: None }),
        ],
{
    lemma_nothing_to_read();
    lemma_distinct_labels();
    assert(keeps_value(label, v));
    lemma_labelled(label, v);
    lemma_label(label, v, no_event());
    lemma_one_more_line(seq!['x'], label + v);
}

proof fn lemma_given(a: Seq<char>, label: Seq<char>, v: Seq<char>)
    requires
        is_block(a),
        !v.contains('\n'),
        v.len() > 0 ==> v.last() != '\r',
        label == "id: "@ || label == "id:"@ || label == "retry: "@ || label == "retry:"@ || label
            == "event: "@ || label == "event:"@ || label == "data: "@ || label == "data:"@,
        keeps_value(label, v),
    ensures
        ({
            let cur = told_event(events_of(a));
            &&& events_of(a).len() <= 1
            &&& events_of(a + "\n"@ + (label + v)) == seq![
                if label == "id: "@ || label == "id:"@ {
                    (EventView { id: Some(v), ..cur })
                } else if label == "retry: "@ || label == "retry:"@ {
                    (EventView { retry: Some(v), ..cur })
                } else if label == "event: "@ || label == "event:"@ {
                    (EventView { event: Some(v), ..cur })
                } else {
                    (EventView {
                        data: match cur.data {
                            Some(d) => Some(d + "\n"@ + v),
                            None => Some(v),
                        },
                        ..cur
                    })
                },
            ]
        }),
{
    let cur = told_event(events_of(a));
    lemma_labelled(label, v);
    lemma_label(label, v, cur);
    lemma_one_more_line(a, label + v);
}

/// The labels differ.
proof fn lemma_distinct_labels()
    ensures
        "id: "@.len() == 4 && "id:"@.len() == 3 && "event: "@.len() == 7 && "event:"@.len() == 6
            && "retry: "@.len() == 7 && "retry:"@.len() == 6 && "data: "@.len() == 6
            && "data:"@.len() == 5,
        "event: "@ != "retry: "@,
        "event:"@ != "retry:"@,
        "event:"@ != "data: "@,
        "retry:"@ != "data: "@,
        "id: "@.last() == ' ' && "event: "@.last() == ' ' && "retry: "@.last() == ' '
            && "data: "@.last() == ' ',
{
    reveal_strlit("id: ");
    reveal_strlit("id:");
    reveal_strlit("event: ");
    reveal_strlit("event:");
    reveal_strlit("retry: ");
    reveal_strlit("retry:");
    reveal_strlit("data: ");
    reveal_strlit("data:");
    assert("event: "@[0] == 'e' && "retry: "@[0] == 'r' && "event:"@[0] == 'e' && "retry:"@[0]
        == 'r' && "data: "@[0] == 'd');
}

/// A label and a value are one line, which gives the value.
proof fn lemma_labelled(label: Seq<char>, v: Seq<char>)
    requires
        !v.contains('\n'),
        v.len() > 0 ==> v.last() != '\r',
        label == "id: "@ || label == "id:"@ || label == "retry: "@ || label == "retry:"@ || label
            == "event: "@ || label == "event:"@ || label == "data: "@ || label == "data:"@,
        keeps_value(label, v),
    ensures
        (label + v).len() > 0,
        !(label + v).contains('\n'),
        (label + v).last() != '\r',
{
    lemma_label(label, v, no_event());
    let l = label + v;
    assert forall|i: int| 0 <= i < l.len() implies l[i] != '\n' by {
        if i < label.len() {
            assert(label.contains(label[i]));
        } else {
            assert(v.contains(v[i - label.len()]));
        }
    }
    if v.len() > 0 {
        assert(l.last() == v.last());
    } else {
        assert(l.last() == label.last());
    }
}

/// A line that begins with none of the four names and a colon, be it a comment or not, gives
/// nothing.
pub proof fn law_other_lines_give_nothing(a: Seq<char>, l: Seq<char>)
    requires
        is_block(a),
        l.len() > 0,
        !l.contains('\n'),
        l.last() != '\r',
        !"id:"@.is_prefix_of(l),
        !"event:"@.is_prefix_of(l),
        !"data:"@.is_prefix_of(l),
        !"retry:"@.is_prefix_of(l),
    ensures
        events_of(a + "\n"@ + l) == events_of(a),
        events_of(l) == Seq::<EventView>::empty(),
{
    lemma_one_more_line(a, l);
    let cur = told_event(events_of(a));
    assert(after_line(cur, l) == cur);
    assert(pending(cur) =~= events_of(a)) by {
        lemma_block_lines(a);
        lemma_block_events(lines(a), no_event());
    }
    assert(pending(no_event()) =~= seq![]);
}

/// Carriage returns at the end of a stream make no difference.
pub proof fn law_a_last_carriage_return_makes_no_difference(a: Seq<char>)
    ensures
        events_of(a + "\r"@) == events_of(a),
{
    reveal_strlit("\r");
    assert("\r"@ =~= seq!['\r']);
    let none: Seq<Seq<char>> = seq![];
    lemma_last_line_then(a, "\r"@, none, no_event());
    assert(lines(a) + none =~= lines(a));
    assert(lines(a + "\r"@) + none =~= lines(a + "\r"@));
}

/// A line that ends with a carriage return and a line feed is read as one that ends with a line
/// feed, whatever stands around it.
pub proof fn law_a_carriage_return_before_a_line_feed_makes_no_difference(
    a: Seq<char>,
    b: Seq<char>,
)
    ensures
        events_of(a + "\r\n"@ + b) == events_of(a + "\n"@ + b),
{
    reveal_strlit("\r");
    reveal_strlit("\n");
    reveal_strlit("\r\n");
    let cr = "\r"@;
    assert(cr =~= seq!['\r']);
    assert(a + "\r\n"@ + b =~= (a + cr) + "\n"@ + b);
    lemma_lines_append(a + cr, b);
    lemma_lines_append(a, b);
    lemma_last_line_then(a, cr, lines(b), no_event());
}

/// A line feed at the start or at the end of a stream makes no difference.
pub proof fn law_outer_line_feeds_make_no_difference(a: Seq<char>)
    ensures
        events_of("\n"@ + a) == events_of(a),
        events_of(a + "\n"@) == events_of(a),
{
    reveal_strlit("\n");
    let none: Seq<char> = seq![];
    assert("\n"@ + a =~= none + "\n"@ + a);
    assert(a + "\n"@ =~= a + "\n"@ + none);
    lemma_lines_append(none, a);
    lemma_lines_append(a, none);
    lemma_one_line(none);
    let start = lines("\n"@ + a);
    assert(start =~= seq![none] + lines(a));
    assert(start.drop_first() =~= lines(a));
    assert(trim_cr(none) == none);
    assert(pending(no_event()) + line_events(lines(a), no_event()) =~= line_events(
        lines(a),
        no_event(),
    ));
    lemma_blank_at_the_end(lines(a), none, no_event());
}

proof fn lemma_blank_at_the_end(ls: Seq<Seq<char>>, none: Seq<char>, e: EventView)
    requires
        none.len() == 0,
    ensures
        line_events(ls + seq![none], e) == line_events(ls, e),
    decreases ls.len(),
{
    let all = ls + seq![none];
    if ls.len() == 0 {
        assert(trim_cr(none) == none);
        assert(all[0] == none);
        assert(all.drop_first() =~= seq![]);
        assert(line_events(all.drop_first(), no_event()) =~= seq![]);
        assert(pending(e) + line_events(all.drop_first(), no_event()) =~= pending(e));
    } else {
        let line = trim_cr(ls[0]);
        assert(all[0] == ls[0]);
        assert(all.drop_first() =~= ls.drop_first() + seq![none]);
        lemma_blank_at_the_end(
            ls.drop_first(),
            none,
            if line.len() == 0 {
                no_event()
            } else {
                after_line(e, line)
            },
        );
    }
}

proof fn lemma_last_line_then(
    a: Seq<char>,
    cr: Seq<char>,
    more: Seq<Seq<char>>,
    e: EventView,
)
    requires
        cr == seq!['\r'],
    ensures
        line_events(lines(a + cr) + more, e) == line_events(lines(a) + more, e),
    decreases a.len(),
{
    let s = a + cr;
    lemma_line_len(a);
    lemma_line_len(s);
    let n = line_len(a) as int;
    if n < a.len() {
        let r = a.skip(n + 1);
        assert forall|i: int| 0 <= i < n implies s[i] != '\n' by {
            assert(a.take(n)[i] == s[i]);
            assert(a.take(n).contains(a.take(n)[i]));
        }
        lemma_first_feed(s, n);
        assert(s.take(n) =~= a.take(n));
        assert(s.skip(n + 1) =~= r + cr);
        let line = trim_cr(a.take(n));
        let next = if line.len() == 0 {
            no_event()
        } else {
            after_line(e, line)
        };
        lemma_last_line_then(r, cr, more, next);
        assert(lines(a) =~= seq![a.take(n)] + lines(r));
        assert(lines(s) =~= seq![a.take(n)] + lines(r + cr));
        assert((lines(a) + more)[0] == a.take(n));
        assert((lines(s) + more)[0] == a.take(n));
        assert((lines(a) + more).drop_first() =~= lines(r) + more);
        assert((lines(s) + more).drop_first() =~= lines(r + cr) + more);
    } else {
        assert(!s.contains('\n')) by {
            assert forall|i: int| 0 <= i < s.len() implies s[i] != '\n' by {
                if i < a.len() {
                    assert(a.contains(a[i]));
                }
            }
        }
        lemma_one_line(a);
        lemma_one_line(s);
        assert(s.drop_last() =~= a);
        assert(trim_cr(s) == trim_cr(a));
        assert((lines(a) + more)[0] == a);
        assert((lines(s) + more)[0] == s);
        assert((lines(a) + more).drop_first() =~= (lines(s) + more).drop_first());
    }
}

proof fn lemma_first_feed(s: Seq<char>, n: int)
    requires
        0 <= n < s.len(),
        s[n] == '\n',
        forall|i: int| 0 <= i < n ==> s[i] != '\n',
    ensures
        line_len(s) == n,
    decreases n,
{
    if n > 0 {
        lemma_first_feed(s.drop_first(), n - 1);
    }
}

/// An event is written with its identifier, its reconnection time, its type and its data, in this
/// order, each that is there on a line of its own behind its name, a colon and a space, and a blank
/// line behind them.
pub proof fn law_events_are_formatted_line_by_line(e: EventView)
    requires
        e.data matches Some(d) ==> !d.contains('\n'),
    ensures
        e.formatted() == (match e.id {
            Some(v) => "id: "@ + v + "\n"@,
            None => seq![],
        }) + (match e.retry {
            Some(v) => "retry: "@ + v + "\n"@,
            None => seq![],
        }) + (match e.event {
            Some(v) => "event: "@ + v + "\n"@,
            None => seq![],
        }) + (match e.data {
            Some(v) => "data: "@ + v + "\n"@,
            None => seq![],
        }) + "\n"@,
        e.sse_string() == (match e.id {
            Some(v) => "id:"@ + v + "\n"@,
            None => seq![],
        }) + (match e.retry {
            Some(v) => "retry:"@ + v + "\n"@,
            None => seq![],
        }) + (match e.event {
            Some(v) => "event:"@ + v + "\n"@,
            None => seq![],
        }) + (match e.data {
            Some(v) => "data:"@ + v + "\n"@,
            None => seq![],
        }) + "\n"@,
{
    if let Some(d) = e.data {
        lemma_one_line(d);
        let ls = lines(d);
        assert(ls.drop_first() =~= seq![]);
        assert(labelled_lines("data: "@, ls.drop_first()) =~= seq![]);
        assert(field_lines("data: "@, e.data) =~= "data: "@ + d + "\n"@);
    }
}

/// What `to_sse_string` writes is the same whatever the data hold.
pub proof fn law_the_plain_form_keeps_the_data(e: EventView, d: Seq<char>)
    requires
        e.data == Some(d),
    ensures
        e.sse_string() == (match e.id {
            Some(v) => "id:"@ + v + "\n"@,
            None => seq![],
        }) + (match e.retry {
            Some(v) => "retry:"@ + v + "\n"@,
            None => seq![],
        }) + (match e.event {
            Some(v) => "event:"@ + v + "\n"@,
            None => seq![],
        }) + ("data:"@ + d + "\n"@) + "\n"@,
{
}

/// Data of several lines are written with a line for each, and events one behind the other.
pub proof fn law_every_line_of_the_data_is_formatted(
    events: Seq<EventView>,
    e: EventView,
    first: Seq<char>,
    rest: Seq<char>,
)
    requires
        !first.contains('\n'),
    ensures
        ({
            let head = (match e.id {
                Some(v) => "id: "@ + v + "\n"@,
                None => seq![],
            }) + (match e.retry {
                Some(v) => "retry: "@ + v + "\n"@,
                None => seq![],
            }) + (match e.event {
                Some(v) => "event: "@ + v + "\n"@,
                None => seq![],
            });
            &&& (EventView { data: Some(rest), ..e }).formatted() == head + field_lines(
                "data: "@,
                Some(rest),
            ) + "\n"@
            &&& (EventView { data: Some(first + "\n"@ + rest), ..e }).formatted() == head
                + "data: "@ + first + "\n"@ + field_lines("data: "@, Some(rest)) + "\n"@
        }),
        formatted_events(seq![]) == Seq::<char>::empty(),
        formatted_events(events.push(e)) == formatted_events(events) + e.formatted(),
{
    assert(events.push(e).drop_last() =~= events);
    lemma_lines_append(first, rest);
    lemma_one_line(first);
    let ls = lines(first + "\n"@ + rest);
    assert(ls =~= seq![first] + lines(rest));
    assert(ls.drop_first() =~= lines(rest));
    let head = (match e.id {
        Some(v) => "id: "@ + v + "\n"@,
        None => seq![],
    }) + (match e.retry {
        Some(v) => "retry: "@ + v + "\n"@,
        None => seq![],
    }) + (match e.event {
        Some(v) => "event: "@ + v + "\n"@,
        None => seq![],
    });
    let more = field_lines("data: "@, Some(rest));
    assert(field_lines("data: "@, Some(first + "\n"@ + rest)) =~= "data: "@ + first + "\n"@ + more);
    lemma_regrouped(head, "data: "@, first, "\n"@, more, "\n"@);
}

proof fn lemma_regrouped(
    head: Seq<char>,
    a: Seq<char>,
    b: Seq<char>,
    c: Seq<char>,
    d: Seq<char>,
    end: Seq<char>,
)
    ensures
        head + (a + b + c + d) + end == head + a + b + c + d + end,
{
    assert(head + (a + b + c + d) + end =~= head + a + b + c + d + end);
}

} // verus!
