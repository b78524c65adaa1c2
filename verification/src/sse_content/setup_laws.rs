//! What holds of setting up the content of interactions as a whole.

use crate::definition::{
    after_each, after_opening, begins_with_nested_reference, begins_with_reference,
    definition_generator, first_rule_values, matcher_definition, skip_blanks, ConfigView,
    FieldValueView,
};
use crate::parser::{error_text, field_key, FieldErrorKind, FieldKeyView};
use crate::rules::AttributeView;
use crate::sse_content::event::{events_of, field_value, pending, EventView};
use crate::sse_content::event_laws::{
    fits_line, law_sse_string_is_read_back, lemma_nothing_to_read, lemma_one_line,
};
use crate::sse_content::setup::{
    configured_interaction, defined_fields, event_text, filed_rule, generators_of, interaction_of,
    is_event_name, is_resolved, rules_of, setups_of, stream_of, DefinedFieldView, FieldSetupView,
    InteractionView,
};
use crate::text::trimmed;
use vstd::prelude::*;
use vstd::utf8::encode_utf8;

verus! {

/// The event that a field gives.
pub open spec fn given_event(f: FieldSetupView) -> EventView {
    EventView {
        id: None,
        event: if f.event_type().len() > 0 {
            Some(f.event_type())
        } else {
            None
        },
        data: Some(f.value),
        retry: None,
    }
}

/// The events that the fields give, in their order.
pub open spec fn given_events(fields: Seq<FieldSetupView>) -> Seq<EventView>
    decreases fields.len(),
{
    if fields.len() == 0 {
        seq![]
    } else if fields.last().gives_event() {
        given_events(fields.drop_last()).push(given_event(fields.last()))
    } else {
        given_events(fields.drop_last())
    }
}

/// Whether one line holds a value so that it is read as it is: it has no line feed, no carriage
/// return at its end and no space at its start.
pub open spec fn is_plain_value(v: Seq<char>) -> bool {
    fits_line(v) && field_value(v) == v
}

/// Whether the event that a field gives is read as it was set up.
pub open spec fn is_plain_field(f: FieldSetupView) -> bool {
    is_plain_value(f.value) && is_plain_value(f.event_type())
}

proof fn lemma_event_text(f: FieldSetupView)
    ensures
        event_text(f.event_type(), f.value) == given_event(f).sse_string(),
{
    let e = given_event(f);
    assert(event_text(f.event_type(), f.value) =~= e.sse_string());
}

/// The stream that was set up holds the events that the fields give: one for each field but `event`
/// and `retry`, in their order, with the type and the value of the field.
pub proof fn law_stream_holds_the_given_events(fields: Seq<FieldSetupView>)
    requires
        forall|i: int| 0 <= i < fields.len() ==> is_plain_field(#[trigger] fields[i]),
    ensures
        events_of(stream_of(fields)) == given_events(fields),
{
    let end: Seq<char> = seq![];
    lemma_stream_then(fields, end);
    assert(stream_of(fields) + end =~= stream_of(fields));
    lemma_nothing_to_read();
    assert(given_events(fields) + events_of(end) =~= given_events(fields));
}

proof fn lemma_stream_then(fields: Seq<FieldSetupView>, rest: Seq<char>)
    requires
        forall|i: int| 0 <= i < fields.len() ==> is_plain_field(#[trigger] fields[i]),
    ensures
        events_of(stream_of(fields) + rest) == given_events(fields) + events_of(rest),
    decreases fields.len(),
{
    if fields.len() == 0 {
        assert(stream_of(fields) + rest =~= rest);
        assert(given_events(fields) + events_of(rest) =~= events_of(rest));
    } else {
        let init = fields.drop_last();
        let last = fields.last();
        assert(is_plain_field(last));
        assert forall|i: int| 0 <= i < init.len() implies is_plain_field(#[trigger] init[i]) by {
            assert(init[i] == fields[i]);
        }
        if last.gives_event() {
            let e = given_event(last);
            let tail = e.sse_string() + rest;
            lemma_event_text(last);
            assert(stream_of(fields) + rest =~= stream_of(init) + tail);
            lemma_stream_then(init, tail);
            lemma_one_line(last.value);
            law_sse_string_is_read_back(e, rest);
            assert(pending(e) =~= seq![e]);
            assert(given_events(init) + (pending(e) + events_of(rest)) =~= given_events(fields)
                + events_of(rest));
        } else {
            lemma_stream_then(init, rest);
        }
    }
}

/// A rule is filed for every field, under the field's path. Where several fields have one path, it
/// is the rule of the last of them.
pub proof fn law_every_field_has_its_rule(fields: Seq<FieldSetupView>, i: int)
    requires
        0 <= i < fields.len(),
    ensures
        rules_of(fields).contains_key(fields[i].key.path()),
        (forall|j: int| i < j < fields.len() ==> (#[trigger] fields[j]).key.path()
            != fields[i].key.path()) ==> rules_of(fields)[fields[i].key.path()] == filed_rule(
            fields[i].rule,
        ),
    decreases fields.len(),
{
    let init = fields.drop_last();
    if i < init.len() {
        law_every_field_has_its_rule(init, i);
        assert(init[i] == fields[i]);
        if forall|j: int|
            i < j < fields.len() ==> (#[trigger] fields[j]).key.path() != fields[i].key.path() {
            assert forall|j: int| i < j < init.len() implies (#[trigger] init[j]).key.path()
                != init[i].key.path() by {
                assert(init[j] == fields[j]);
            }
            assert(fields[fields.len() - 1].key.path() != fields[i].key.path());
        }
    }
}

/// Every rule that is filed carries its type among its values, so that it can be built again from
/// them.
pub proof fn law_every_filed_rule_carries_its_type(fields: Seq<FieldSetupView>, path: Seq<char>)
    requires
        rules_of(fields).contains_key(path),
    ensures
        rules_of(fields)[path].values.contains_key("match"@),
        rules_of(fields)[path].values["match"@] == AttributeView::Text(rules_of(fields)[path].name),
    decreases fields.len(),
{
    if fields.len() > 0 && path != fields.last().key.path() {
        law_every_filed_rule_carries_its_type(fields.drop_last(), path);
    }
}

/// A generator is only filed under the path of a field that gives an event and asks for one.
pub proof fn law_generators_are_asked_for(fields: Seq<FieldSetupView>, path: Seq<char>)
    requires
        generators_of(fields).contains_key(path),
    ensures
        exists|i: int|
            0 <= i < fields.len() && (#[trigger] fields[i]).gives_event() && fields[i].key.path()
                == path && fields[i].generator == Some(generators_of(fields)[path]),
    decreases fields.len(),
{
    if fields.len() > 0 {
        let init = fields.drop_last();
        let last = fields.last();
        if last.gives_event() && last.generator is Some && last.key.path() == path {
            assert(fields[fields.len() - 1] == last);
        } else {
            law_generators_are_asked_for(init, path);
            let i = choose|i: int|
                0 <= i < init.len() && (#[trigger] init[i]).gives_event() && init[i].key.path()
                    == path && init[i].generator == Some(generators_of(init)[path]);
            assert(fields[i] == init[i]);
        }
    }
}

/// The generator of every field that gives an event is filed under the field's path. Where several
/// such fields have one path, it is the generator of the last of them.
pub proof fn law_every_event_field_has_its_generator(
    fields: Seq<FieldSetupView>,
    i: int,
    g: ConfigView,
)
    requires
        0 <= i < fields.len(),
        fields[i].name != "event"@,
        fields[i].name != "retry"@,
        fields[i].generator == Some(g),
    ensures
        interaction_of(fields).generators.contains_key(fields[i].key.path()),
        (forall|j: int|
            i < j < fields.len() && (#[trigger] fields[j]).name != "event"@ && fields[j].name
                != "retry"@ && fields[j].generator is Some ==> fields[j].key.path()
                != fields[i].key.path()) ==> interaction_of(fields).generators[fields[i].key.path()]
            == g,
    decreases fields.len(),
{
    let init = fields.drop_last();
    if i < init.len() {
        assert(init[i] == fields[i]);
        law_every_event_field_has_its_generator(init, i, g);
        if forall|j: int|
            i < j < fields.len() && (#[trigger] fields[j]).name != "event"@ && fields[j].name
                != "retry"@ && fields[j].generator is Some ==> fields[j].key.path()
                != fields[i].key.path() {
            assert forall|j: int|
                i < j < init.len() && (#[trigger] init[j]).name != "event"@ && init[j].name
                    != "retry"@ && init[j].generator is Some implies init[j].key.path()
                != init[i].key.path() by {
                assert(init[j] == fields[j]);
            }
            let last = fields[fields.len() - 1];
            assert(last == fields.last());
        }
    } else {
        assert(fields[i] == fields.last());
    }
}

/// The rule of every field is filed under the field's path, with its name and its values and with
/// its name among its values; for a reference to a rule that stands elsewhere it is a rule on the
/// type. Where several fields have one path, it is the rule of the last of them. Nothing else is
/// filed.
pub proof fn law_every_rule_is_filed_as_it_is(fields: Seq<FieldSetupView>, i: int)
    requires
        0 <= i < fields.len(),
        forall|j: int|
            i < j < fields.len() ==> (#[trigger] fields[j]).key.path() != fields[i].key.path(),
    ensures
        interaction_of(fields).rules.contains_key(fields[i].key.path()),
        interaction_of(fields).rules[fields[i].key.path()] == (match fields[i].rule {
            Some(rule) => (ConfigView {
                name: rule.name,
                values: rule.values.insert("match"@, AttributeView::Text(rule.name)),
            }),
            None => (ConfigView {
                name: "type"@,
                values: Map::empty().insert("match"@, AttributeView::Text("type"@)),
            }),
        }),
{
    law_every_field_has_its_rule(fields, i);
}

/// A rule is only filed under the path of a field.
pub proof fn law_rules_are_those_of_the_fields(fields: Seq<FieldSetupView>, path: Seq<char>)
    requires
        interaction_of(fields).rules.contains_key(path),
    ensures
        exists|i: int| 0 <= i < fields.len() && (#[trigger] fields[i]).key.path() == path,
    decreases fields.len(),
{
    if fields.len() > 0 {
        if fields.last().key.path() == path {
            assert(fields[fields.len() - 1].key.path() == path);
        } else {
            law_rules_are_those_of_the_fields(fields.drop_last(), path);
            let i = choose|i: int|
                0 <= i < fields.drop_last().len() && (#[trigger] fields.drop_last()[i]).key.path()
                    == path;
            assert(fields[i].key.path() == path);
        }
    }
}

/// One more field adds its event behind those that are there, to the stream and to the table for
/// readers: the type, where it has one, and the value. `event` and `retry` add neither an event nor
/// a generator.
pub proof fn law_every_field_adds_its_event(fields: Seq<FieldSetupView>, f: FieldSetupView)
    ensures
        ({
            let t = match f.key.event_type {
                Some(t) => t,
                None => seq![],
            };
            let more = fields.push(f);
            if f.name == "event"@ || f.name == "retry"@ {
                &&& stream_of(more) == stream_of(fields)
                &&& interaction_of(more).generators == interaction_of(fields).generators
                &&& interaction_of(more).interaction_markup == interaction_of(
                    fields,
                ).interaction_markup
            } else {
                &&& t.len() == 0 ==> stream_of(more) == stream_of(fields) + "data:"@ + f.value
                    + "\n\n"@
                &&& t.len() > 0 ==> stream_of(more) == stream_of(fields) + "event:"@ + t
                    + "\ndata:"@ + f.value + "\n\n"@
                &&& interaction_of(more).interaction_markup == interaction_of(
                    fields,
                ).interaction_markup + "|"@ + t + "|"@ + f.value + "|\n"@
            }
        }),
{
    reveal_strlit("");
    reveal_strlit("\n");
    reveal_strlit("\n\n");
    reveal_strlit("data:");
    reveal_strlit("\ndata:");
    let more = fields.push(f);
    assert(more.drop_last() =~= fields);
    let t: Seq<char> = match f.key.event_type {
        Some(t) => t,
        None => seq![],
    };
    assert(f.event_type() =~= t);
    if f.name != "event"@ && f.name != "retry"@ {
        if t.len() == 0 {
            assert(stream_of(more) =~= stream_of(fields) + "data:"@ + f.value + "\n\n"@);
        } else {
            assert(stream_of(more) =~= stream_of(fields) + "event:"@ + t + "\ndata:"@ + f.value
                + "\n\n"@);
        }
        assert(interaction_of(more).interaction_markup =~= interaction_of(fields).interaction_markup
            + "|"@ + t + "|"@ + f.value + "|\n"@);
    }
}

/// An interaction holds the stream as its content, and starts from nothing: no events, no rules, no
/// generators, and a table for readers with its head alone.
pub proof fn law_interactions_start_from_nothing(fields: Seq<FieldSetupView>)
    ensures
        interaction_of(fields).content_type == "text/event-stream"@,
        interaction_of(fields).content == encode_utf8(stream_of(fields)),
        stream_of(seq![]) == Seq::<char>::empty(),
        interaction_of(seq![]).rules == Map::<Seq<char>, ConfigView>::empty(),
        interaction_of(seq![]).generators == Map::<Seq<char>, ConfigView>::empty(),
        interaction_of(seq![]).interaction_markup
            == "# SSE Events\n\n|type|data|\n|---|---|\n"@,
{
}

/// The fields of a configuration are read in their order: the first that cannot be read is
/// reported, its definition before its value, and only a text is read as a value.
pub proof fn law_configured_fields_are_read_in_their_order(
    fields: Seq<(Seq<char>, FieldValueView)>,
    name: Seq<char>,
    value: FieldValueView,
)
    ensures
        defined_fields(seq![]) == Ok::<_, Seq<char>>(Seq::<DefinedFieldView>::empty()),
        ({
            let all = defined_fields(fields.push((name, value)));
            match defined_fields(fields) {
                Err(text) => all == Err::<Seq<DefinedFieldView>, _>(text),
                Ok(earlier) => match field_key(name) {
                    Err(kind) => all == Err::<Seq<DefinedFieldView>, _>(
                        error_text(kind, trimmed(name)),
                    ),
                    Ok(key) => match value {
                        FieldValueView::Text(t) => match matcher_definition(
                            t,
                            usize::BITS as int,
                        ) {
                            Ok(definition) => all == Ok::<_, Seq<char>>(
                                earlier.push((DefinedFieldView { name, key, definition })),
                            ),
                            Err(text) => all == Err::<Seq<DefinedFieldView>, _>(text),
                        },
                        FieldValueView::Missing => all == Err::<Seq<DefinedFieldView>, _>(
                            "Not a valid value definition (missing value)"@,
                        ),
                        FieldValueView::Null => all == Err::<Seq<DefinedFieldView>, _>(
                            "Null is not a valid value definition"@,
                        ),
                        FieldValueView::Number => all == Err::<Seq<DefinedFieldView>, _>(
                            "Number is not a valid value definition"@,
                        ),
                        FieldValueView::Bool => all == Err::<Seq<DefinedFieldView>, _>(
                            "Bool is not a valid value definition"@,
                        ),
                        FieldValueView::Struct => all == Err::<Seq<DefinedFieldView>, _>(
                            "Struct is not a valid value definition"@,
                        ),
                        FieldValueView::List => all == Err::<Seq<DefinedFieldView>, _>(
                            "List is not a valid value definition"@,
                        ),
                    },
                },
            }
        }),
{
    assert(fields.push((name, value)).drop_last() =~= fields);
}

/// What is set up for a field is what its definition says: its value, its first rule with the
/// values of that, and its generator. Only of `event` and `retry` nothing is set up where the rule
/// holds a reference to one that stands elsewhere.
pub proof fn law_fields_are_set_up_as_defined(
    fields: Seq<DefinedFieldView>,
    f: DefinedFieldView,
)
    requires
        f.definition.rules.len() > 0,
    ensures
        setups_of(seq![]) == Seq::<FieldSetupView>::empty(),
        ({
            let bits = usize::BITS as int;
            let nested = f.definition.rules[0] is Some && begins_with_nested_reference(
                f.definition.text,
            );
            if (f.name == "event"@ || f.name == "retry"@) && nested {
                setups_of(fields.push(f)) == setups_of(fields)
            } else {
                setups_of(fields.push(f)) == setups_of(fields).push(
                    (FieldSetupView {
                        name: f.name,
                        key: f.key,
                        value: f.definition.value,
                        rule: match f.definition.rules[0] {
                            Some(name) => Some(
                                (ConfigView {
                                    name,
                                    values: first_rule_values(f.definition.text, bits),
                                }),
                            ),
                            None => None,
                        },
                        generator: definition_generator(f.definition.text, bits),
                    }),
                )
            }
        }),
{
    assert(fields.push(f).drop_last() =~= fields);
}

/// Only a definition that begins with `eachKey` or `eachValue` holds a reference in a nested rule.
pub proof fn law_plain_definitions_hold_no_nested_reference(s: Seq<char>)
    requires
        s.len() > 0,
        s[0] != 'e',
        s[0] != ' ',
        s[0] != '\t',
        s[0] != '\n',
        s[0] != '\u{c}',
    ensures
        !begins_with_nested_reference(s),
{
    reveal_strlit("eachKey");
    reveal_strlit("eachValue");
    assert("eachKey"@.is_prefix_of(s) ==> "eachKey"@[0] == s.subrange(0, 7)[0]);
    assert("eachValue"@.is_prefix_of(s) ==> "eachValue"@[0] == s.subrange(0, 9)[0]);
}

/// A configuration gives the interaction of all that is set up for its fields, or the message on
/// the first that cannot be read; without a configuration there is no interaction.
pub proof fn law_configured_interactions_hold_all_fields(
    fields: Seq<(Seq<char>, FieldValueView)>,
)
    ensures
        configured_interaction(None) == Err::<InteractionView, _>(
            "No config provided to match/generate SSE content"@,
        ),
        match defined_fields(fields) {
            Ok(defined) => configured_interaction(Some(fields)) == Ok::<_, Seq<char>>(
                interaction_of(setups_of(defined)),
            ),
            Err(text) => configured_interaction(Some(fields)) == Err::<InteractionView, _>(text),
        },
{
}

/// Every configured field but `event` and `retry` has its rule under the path that its definition
/// gives, where no later field has that path.
pub proof fn law_configured_fields_have_their_rules(
    fields: Seq<(Seq<char>, FieldValueView)>,
    defined: Seq<DefinedFieldView>,
    i: int,
    key: FieldKeyView,
)
    requires
        defined_fields(fields) == Ok::<_, Seq<char>>(defined),
        0 <= i < fields.len(),
        fields[i].0 != "event"@,
        fields[i].0 != "retry"@,
        field_key(fields[i].0) == Ok::<FieldKeyView, FieldErrorKind>(key),
    ensures
        configured_interaction(Some(fields)) is Ok,
        configured_interaction(Some(fields))->Ok_0.rules.contains_key(key.path()),
    decreases fields.len(),
{
    let setups = setups_of(defined);
    lemma_defined_fields_are_set_up(fields, defined, i);
    let k = choose|k: int|
        0 <= k < setups.len() && (#[trigger] setups[k]).key.path() == key.path();
    law_every_field_has_its_rule(setups, k);
}

proof fn lemma_defined_fields_are_set_up(
    fields: Seq<(Seq<char>, FieldValueView)>,
    defined: Seq<DefinedFieldView>,
    i: int,
)
    requires
        defined_fields(fields) == Ok::<_, Seq<char>>(defined),
        0 <= i < fields.len(),
        fields[i].0 != "event"@,
        fields[i].0 != "retry"@,
    ensures
        field_key(fields[i].0) matches Ok(key) && exists|k: int|
            0 <= k < setups_of(defined).len() && (#[trigger] setups_of(defined)[k]).key.path()
                == key.path(),
    decreases fields.len(),
{
    let init = fields.drop_last();
    assert(defined_fields(init) is Ok);
    let before = defined_fields(init)->Ok_0;
    assert(defined.drop_last() =~= before);
    let earlier = setups_of(before);
    let setups = setups_of(defined);
    if i < init.len() {
        assert(init[i] == fields[i]);
        lemma_defined_fields_are_set_up(init, before, i);
        let key = field_key(fields[i].0)->Ok_0;
        let k = choose|k: int|
            0 <= k < earlier.len() && (#[trigger] earlier[k]).key.path() == key.path();
        assert(setups[k] == earlier[k]);
    } else {
        let key = field_key(fields[i].0)->Ok_0;
        assert(defined.last().name == fields[i].0);
        assert(setups[setups.len() - 1].key.path() == key.path());
    }
}

/// A rule on each key or each value holds a reference where the rule in it does, or is one.
pub proof fn law_references_are_found_in_nested_rules(s: Seq<char>)
    ensures
        "matching($"@.is_prefix_of(s) ==> begins_with_nested_reference("eachKey("@ + s)
            && begins_with_nested_reference("eachValue("@ + s),
        begins_with_nested_reference(s) ==> begins_with_nested_reference("eachKey("@ + s)
            && begins_with_nested_reference("eachValue("@ + s),
        s.len() > 0 && s[0] != 'm' && s[0] != 'e' && s[0] != ' ' && s[0] != '\t' && s[0] != '\n'
            && s[0] != '\u{c}' ==> !begins_with_nested_reference("eachKey("@ + s)
            && !begins_with_nested_reference("eachValue("@ + s),
        "matching("@.is_prefix_of(s) && s.len() > 9 && s[9] != '$' && s[9] != ' ' && s[9] != '\t'
            && s[9] != '\n' && s[9] != '\u{c}' ==> !begins_with_nested_reference("eachKey("@ + s)
            && !begins_with_nested_reference("eachValue("@ + s),
{
    reveal_strlit("eachKey(");
    reveal_strlit("eachValue(");
    reveal_strlit("eachKey");
    reveal_strlit("eachValue");
    reveal_strlit("matching(");
    reveal_strlit("matching($");
    reveal_strlit("matching");
    reveal_strlit("(");
    reveal_strlit("$");
    lemma_after_each("eachKey("@ + s, s, 7);
    lemma_after_each("eachValue("@ + s, s, 9);
    lemma_reference(s);
    if s.len() > 0 && s[0] != 'e' && s[0] != ' ' && s[0] != '\t' && s[0] != '\n' && s[0]
        != '\u{c}' {
        law_plain_definitions_hold_no_nested_reference(s);
    }
    if "matching("@.is_prefix_of(s) {
        assert("matching("@[0] == s.subrange(0, 9)[0]);
        assert(s[0] == 'm');
    }
}

/// What follows the opening bracket of such a rule.
proof fn lemma_after_each(all: Seq<char>, s: Seq<char>, n: int)
    requires
        (n == 7 && all == "eachKey("@ + s) || (n == 9 && all == "eachValue("@ + s),
    ensures
        after_each(all) == Some(s),
        begins_with_nested_reference(all) == (begins_with_reference(s)
            || begins_with_nested_reference(s)),
{
    reveal_strlit("eachKey(");
    reveal_strlit("eachValue(");
    reveal_strlit("eachKey");
    reveal_strlit("eachValue");
    reveal_strlit("(");
    assert(all[0] == 'e');
    assert(skip_blanks(all) == all);
    assert(all[4] == (if n == 7 {
        'K'
    } else {
        'V'
    }));
    if n == 7 {
        assert("eachKey"@ =~= all.subrange(0, 7));
        let rest = all.skip(7);
        assert(rest[0] == '(');
        assert(skip_blanks(rest) == rest);
        assert("("@ =~= rest.subrange(0, 1));
        assert(rest.skip(1) =~= s);
        assert(after_opening(all, "eachKey"@) == Some(s));
    } else {
        assert("eachValue"@ =~= all.subrange(0, 9));
        assert("eachKey"@.is_prefix_of(all) ==> "eachKey"@[4] == all.subrange(0, 7)[4]);
        let rest = all.skip(9);
        assert(rest[0] == '(');
        assert(skip_blanks(rest) == rest);
        assert("("@ =~= rest.subrange(0, 1));
        assert(rest.skip(1) =~= s);
        assert(after_opening(all, "eachValue"@) == Some(s));
    }
}

proof fn lemma_reference(s: Seq<char>)
    ensures
        "matching($"@.is_prefix_of(s) ==> begins_with_reference(s),
        s.len() > 0 && s[0] != 'm' && s[0] != ' ' && s[0] != '\t' && s[0] != '\n' && s[0] != '\u{c}'
            ==> !begins_with_reference(s),
        "matching("@.is_prefix_of(s) && s.len() > 9 && s[9] != '$' && s[9] != ' ' && s[9] != '\t'
            && s[9] != '\n' && s[9] != '\u{c}' ==> !begins_with_reference(s),
{
    reveal_strlit("matching(");
    reveal_strlit("matching($");
    reveal_strlit("matching");
    reveal_strlit("(");
    reveal_strlit("$");
    if "matching($"@.is_prefix_of(s) {
        assert forall|i: int| 0 <= i < 10 implies #[trigger] s[i] == "matching($"@[i] by {
            assert(s.subrange(0, 10)[i] == s[i]);
        }
        lemma_opened(s);
        let rest = s.skip(9);
        assert(rest[0] == '$');
        assert(skip_blanks(rest) == rest);
        assert("$"@ =~= rest.subrange(0, 1));
    }
    if s.len() > 0 && s[0] != 'm' && s[0] != ' ' && s[0] != '\t' && s[0] != '\n' && s[0]
        != '\u{c}' {
        assert(skip_blanks(s) == s);
        assert("matching"@.is_prefix_of(s) ==> "matching"@[0] == s.subrange(0, 8)[0]);
    }
    if "matching("@.is_prefix_of(s) && s.len() > 9 && s[9] != '$' && s[9] != ' ' && s[9] != '\t'
        && s[9] != '\n' && s[9] != '\u{c}' {
        assert forall|i: int| 0 <= i < 9 implies #[trigger] s[i] == "matching("@[i] by {
            assert(s.subrange(0, 9)[i] == s[i]);
        }
        lemma_opened(s);
        let rest = s.skip(9);
        assert(rest[0] == s[9]);
        assert(skip_blanks(rest) == rest);
        assert("$"@.is_prefix_of(rest) ==> "$"@[0] == rest.subrange(0, 1)[0]);
    }
}

proof fn lemma_opened(s: Seq<char>)
    requires
        s.len() >= 9,
        forall|i: int| 0 <= i < 9 ==> #[trigger] s[i] == "matching("@[i],
    ensures
        after_opening(s, "matching"@) == Some(s.skip(9)),
{
    reveal_strlit("matching(");
    reveal_strlit("matching");
    reveal_strlit("(");
    assert(s[0] == 'm');
    assert(skip_blanks(s) == s);
    assert("matching"@ =~= s.subrange(0, 8));
    let rest = s.skip(8);
    assert(rest[0] == s[8]);
    assert(s[8] == '(');
    assert(skip_blanks(rest) == rest);
    assert("("@ =~= rest.subrange(0, 1));
    assert(rest.skip(1) =~= s.skip(9));
}

/// An interaction can be set up unless the rule of a field that gives an event holds a reference to
/// one that stands elsewhere.
pub proof fn law_only_nested_references_keep_from_setting_up(
    fields: Seq<(Seq<char>, FieldValueView)>,
)
    ensures
        is_resolved(None),
        defined_fields(fields) is Err ==> is_resolved(Some(fields)),
        defined_fields(fields) matches Ok(defined) ==> (is_resolved(Some(fields)) <==> forall|
            i: int,
        |
            0 <= i < defined.len() && (#[trigger] defined[i]).name != "event"@ && defined[i].name
                != "retry"@ && defined[i].definition.rules[0] is Some
                ==> !begins_with_nested_reference(defined[i].definition.text)),
{
    if let Ok(defined) = defined_fields(fields) {
        if is_resolved(Some(fields)) {
            assert forall|i: int|
                0 <= i < defined.len() && (#[trigger] defined[i]).name != "event"@
                    && defined[i].name != "retry"@ && defined[i].definition.rules[0] is Some implies
            !begins_with_nested_reference(defined[i].definition.text) by {
                assert(is_event_name(defined[i].name));
            }
        }
    }
}

} // verus!
