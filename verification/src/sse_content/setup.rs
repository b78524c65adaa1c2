//! Setting up the content of an interaction from the definitions of its fields.

use crate::definition::{
    begins_with_nested_reference, config_view, definition_generator, first_rule_values,
    has_nested_reference, parse_value, value_definition, Config, ConfigView, Definition,
    DefinitionView, FieldValue, FieldValueView,
};
use crate::parser::{error_text, field_key, parse_field, FieldKey, FieldKeyView};
use crate::rules::{Attribute, AttributeView};
use crate::table::Table;
use crate::text::{copy_text, same_text, trimmed, utf8_bytes};
use vstd::prelude::*;
use vstd::utf8::encode_utf8;

verus! {

/// A field as it is configured: its definition and its value.
pub type ConfiguredField = (String, FieldValue);

/// The configured fields with their texts as sequences of characters.
pub open spec fn configured_views(fields: Seq<ConfiguredField>) -> Seq<
    (Seq<char>, FieldValueView),
> {
    fields.map_values(|f: ConfiguredField| (f.0@, f.1@))
}

/// A field whose definition and value were read.
#[derive(Debug)]
pub struct DefinedField {
    /// The definition of the field as it was written.
    pub name: String,
    /// What it is about.
    pub key: FieldKey,
    /// What the value says.
    pub definition: Definition,
}

/// A defined field with its texts as sequences of characters.
#[verifier::ext_equal]
pub struct DefinedFieldView {
    pub name: Seq<char>,
    pub key: FieldKeyView,
    pub definition: DefinitionView,
}

impl View for DefinedField {
    type V = DefinedFieldView;

    open spec fn view(&self) -> DefinedFieldView {
        DefinedFieldView { name: self.name@, key: self.key@, definition: self.definition@ }
    }
}

/// The views of the defined fields in a sequence.
pub open spec fn defined_views(fields: Seq<DefinedField>) -> Seq<DefinedFieldView> {
    fields.map_values(|f: DefinedField| f@)
}

/// What is set up for a field.
#[derive(Debug, PartialEq, Eq)]
pub struct FieldSetup {
    /// The definition of the field as it was written.
    pub name: String,
    /// What it is about.
    pub key: FieldKey,
    /// The example value.
    pub value: String,
    /// The rule that the field is held to; none for a reference to a rule that stands elsewhere.
    pub rule: Option<Config>,
    /// The generator for the field.
    pub generator: Option<Config>,
}

/// What is set up for a field, with its texts as sequences of characters.
#[verifier::ext_equal]
pub struct FieldSetupView {
    pub name: Seq<char>,
    pub key: FieldKeyView,
    pub value: Seq<char>,
    pub rule: Option<ConfigView>,
    pub generator: Option<ConfigView>,
}

impl View for FieldSetup {
    type V = FieldSetupView;

    open spec fn view(&self) -> FieldSetupView {
        FieldSetupView {
            name: self.name@,
            key: self.key@,
            value: self.value@,
            rule: config_view(self.rule),
            generator: config_view(self.generator),
        }
    }
}

/// The views of what is set up for the fields in a sequence.
pub open spec fn setup_views(fields: Seq<FieldSetup>) -> Seq<FieldSetupView> {
    fields.map_values(|f: FieldSetup| f@)
}

/// Whether a field with the name gives an event.
pub open spec fn is_event_name(name: Seq<char>) -> bool {
    name != "event"@ && name != "retry"@
}

impl FieldSetupView {
    /// Whether the field gives an event: all do but `event` and `retry`, which speak of the events
    /// that others give.
    pub open spec fn gives_event(self) -> bool {
        is_event_name(self.name)
    }

    /// The type of the event; empty for an event without a type.
    pub open spec fn event_type(self) -> Seq<char> {
        match self.key.event_type {
            Some(t) => t,
            None => ""@,
        }
    }
}

/// An event in the stream.
pub open spec fn event_text(event_type: Seq<char>, value: Seq<char>) -> Seq<char> {
    (if event_type.len() > 0 {
        "event:"@ + event_type + "\n"@
    } else {
        seq![]
    }) + "data:"@ + value + "\n"@ + "\n"@
}

/// The row of an event in the table for readers.
pub open spec fn row_text(event_type: Seq<char>, value: Seq<char>) -> Seq<char> {
    "|"@ + event_type + "|"@ + value + "|\n"@
}

/// A rule to file, with its type among its values. For one that stands elsewhere, it is a rule on
/// the type.
pub open spec fn filed_rule(rule: Option<ConfigView>) -> ConfigView {
    match rule {
        Some(rule) => ConfigView {
            name: rule.name,
            values: rule.values.insert("match"@, AttributeView::Text(rule.name)),
        },
        None => ConfigView {
            name: "type"@,
            values: Map::empty().insert("match"@, AttributeView::Text("type"@)),
        },
    }
}

/// The stream that the fields give.
pub open spec fn stream_of(fields: Seq<FieldSetupView>) -> Seq<char>
    decreases fields.len(),
{
    if fields.len() == 0 {
        seq![]
    } else if fields.last().gives_event() {
        stream_of(fields.drop_last()) + event_text(
            fields.last().event_type(),
            fields.last().value,
        )
    } else {
        stream_of(fields.drop_last())
    }
}

/// The table for readers.
pub open spec fn markup_of(fields: Seq<FieldSetupView>) -> Seq<char>
    decreases fields.len(),
{
    if fields.len() == 0 {
        "# SSE Events\n\n|type|data|\n|---|---|\n"@
    } else if fields.last().gives_event() {
        markup_of(fields.drop_last()) + row_text(
            fields.last().event_type(),
            fields.last().value,
        )
    } else {
        markup_of(fields.drop_last())
    }
}

/// The rules, filed under the paths of their fields.
pub open spec fn rules_of(fields: Seq<FieldSetupView>) -> Map<Seq<char>, ConfigView>
    decreases fields.len(),
{
    if fields.len() == 0 {
        Map::empty()
    } else {
        rules_of(fields.drop_last()).insert(
            fields.last().key.path(),
            filed_rule(fields.last().rule),
        )
    }
}

/// The generators, filed under the paths of the fields that give events.
pub open spec fn generators_of(fields: Seq<FieldSetupView>) -> Map<Seq<char>, ConfigView>
    decreases fields.len(),
{
    if fields.len() == 0 {
        Map::empty()
    } else {
        let earlier = generators_of(fields.drop_last());
        match fields.last().generator {
            Some(g) => if fields.last().gives_event() {
                earlier.insert(fields.last().key.path(), g)
            } else {
                earlier
            },
            None => earlier,
        }
    }
}

/// The content of an interaction.
#[derive(Debug, PartialEq, Eq)]
pub struct Interaction {
    /// The content type.
    pub content_type: String,
    /// The stream.
    pub content: Vec<u8>,
    /// The rules, filed under the paths of their fields.
    pub rules: Table<Config>,
    /// The generators, filed under the paths of their fields.
    pub generators: Table<Config>,
    /// The table for readers.
    pub interaction_markup: String,
}

/// The content of an interaction with its texts and bytes as sequences.
#[verifier::ext_equal]
pub struct InteractionView {
    pub content_type: Seq<char>,
    pub content: Seq<u8>,
    pub rules: Map<Seq<char>, ConfigView>,
    pub generators: Map<Seq<char>, ConfigView>,
    pub interaction_markup: Seq<char>,
}

impl View for Interaction {
    type V = InteractionView;

    open spec fn view(&self) -> InteractionView {
        InteractionView {
            content_type: self.content_type@,
            content: self.content@,
            rules: self.rules@,
            generators: self.generators@,
            interaction_markup: self.interaction_markup@,
        }
    }
}

/// The content of the interaction that the fields give.
pub open spec fn interaction_of(fields: Seq<FieldSetupView>) -> InteractionView {
    InteractionView {
        content_type: "text/event-stream"@,
        content: encode_utf8(stream_of(fields)),
        rules: rules_of(fields),
        generators: generators_of(fields),
        interaction_markup: markup_of(fields),
    }
}

fn gives_event(name: &str) -> (b: bool)
    ensures
        b == is_event_name(name@),
{
    !same_text(name, "event") && !same_text(name, "retry")
}

/// Adds an event to the stream and to the table for readers.
fn put_event(event_type: &str, value: &str, stream: &mut String, markup: &mut String)
    ensures
        final(stream)@ == old(stream)@ + event_text(event_type@, value@),
        final(markup)@ == old(markup)@ + row_text(event_type@, value@),
{
    if !event_type.is_empty() {
        stream.append("event:");
        stream.append(event_type);
        stream.append("\n");
    }
    stream.append("data:");
    stream.append(value);
    stream.append("\n");
    stream.append("\n");
    markup.append("|");
    markup.append(event_type);
    markup.append("|");
    markup.append(value);
    markup.append("|\n");
    assert(stream@ =~= old(stream)@ + event_text(event_type@, value@));
    assert(markup@ =~= old(markup)@ + row_text(event_type@, value@));
}

/// The rule to file for a field.
fn rule_to_file(rule: Option<Config>) -> (filed: Config)
    ensures
        filed@ == filed_rule(config_view(rule)),
{
    match rule {
        Some(r) => {
            let mut values = r.values;
            values.insert("match".to_owned(), Attribute::Text(r.name.clone()));
            Config { name: r.name, values }
        },
        None => {
            let mut values: Table<Attribute> = Table::new();
            values.insert("match".to_owned(), Attribute::Text("type".to_owned()));
            Config { name: "type".to_owned(), values }
        },
    }
}

/// Sets up the content of an interaction from what is set up for its fields.
pub fn build_interaction(fields: Vec<FieldSetup>) -> (interaction: Interaction)
    ensures
        interaction@ == interaction_of(setup_views(fields@)),
{
    let ghost views = setup_views(fields@);
    let mut stream = String::new();
    let mut markup = "# SSE Events\n\n|type|data|\n|---|---|\n".to_owned();
    let mut rules: Table<Config> = Table::new();
    let mut generators: Table<Config> = Table::new();
    assert(views.take(0) =~= seq![]);
    for field in it: fields
        invariant
            it.seq() == fields@,
            views == setup_views(fields@),
            stream@ == stream_of(views.take(it.index() as int)),
            markup@ == markup_of(views.take(it.index() as int)),
            rules@ == rules_of(views.take(it.index() as int)),
            generators@ == generators_of(views.take(it.index() as int)),
    {
        let ghost now = views.take(it.index() + 1);
        let ghost f = field@;
        assert(now.drop_last() =~= views.take(it.index() as int));
        assert(now.last() == f);
        let path = field.key.path();
        if gives_event(&field.name) {
            let event_type = match copy_text(&field.key.event_type) {
                Some(t) => t,
                None => "".to_owned(),
            };
            put_event(&event_type, &field.value, &mut stream, &mut markup);
            match field.generator {
                Some(g) => {
                    generators.insert(path.clone(), g);
                },
                None => {},
            }
        }
        let filed = rule_to_file(field.rule);
        rules.insert(path, filed);
    }
    assert(views.take(views.len() as int) =~= views);
    Interaction {
        content_type: "text/event-stream".to_owned(),
        content: utf8_bytes(&stream),
        rules,
        generators,
        interaction_markup: markup,
    }
}

/// The fields that were defined, or the message on the first that is not: its definition is read
/// before its value.
pub open spec fn defined_fields(fields: Seq<(Seq<char>, FieldValueView)>) -> Result<
    Seq<DefinedFieldView>,
    Seq<char>,
>
    decreases fields.len(),
{
    if fields.len() == 0 {
        Ok(seq![])
    } else {
        let (name, value) = fields.last();
        match defined_fields(fields.drop_last()) {
            Ok(earlier) => match field_key(name) {
                Ok(key) => match value_definition(value) {
                    Ok(definition) => Ok(earlier.push(DefinedFieldView { name, key, definition })),
                    Err(text) => Err(text),
                },
                Err(kind) => Err(error_text(kind, trimmed(name))),
            },
            Err(text) => Err(text),
        }
    }
}

/// What holds of every defined field: its value keeps to what was read, which has a rule.
pub open spec fn has_rule(field: DefinedFieldView) -> bool {
    field.definition.rules.len() > 0
}

proof fn lemma_first_error_stands(fields: Seq<(Seq<char>, FieldValueView)>, n: int)
    requires
        0 <= n <= fields.len(),
        defined_fields(fields.take(n)) is Err,
    ensures
        defined_fields(fields) == defined_fields(fields.take(n)),
    decreases fields.len() - n,
{
    if n < fields.len() {
        assert(fields.take(n + 1).drop_last() =~= fields.take(n));
        lemma_first_error_stands(fields, n + 1);
    } else {
        assert(fields.take(n) =~= fields);
    }
}

/// Reads the definitions and the values of the fields.
pub fn define_fields(fields: &Vec<ConfiguredField>) -> (r: Result<Vec<DefinedField>, String>)
    ensures
        match r {
            Ok(defined) => defined_fields(configured_views(fields@)) == Ok::<_, Seq<char>>(
                defined_views(defined@),
            ),
            Err(text) => defined_fields(configured_views(fields@)) == Err::<
                Seq<DefinedFieldView>,
                _,
            >(text@),
        },
        r matches Ok(defined) ==> forall|i: int|
            0 <= i < defined@.len() ==> has_rule((#[trigger] defined@[i])@),
{
    let ghost views = configured_views(fields@);
    let n: usize = fields.len();
    let mut defined: Vec<DefinedField> = Vec::new();
    let mut i: usize = 0;
    assert(views.take(0) =~= seq![]);
    assert(defined_views(defined@) =~= seq![]);
    while i < n
        invariant
            0 <= i <= n == fields@.len(),
            views == configured_views(fields@),
            defined_fields(views.take(i as int)) == Ok::<_, Seq<char>>(defined_views(defined@)),
            forall|k: int| 0 <= k < defined@.len() ==> has_rule((#[trigger] defined@[k])@),
        decreases n - i,
    {
        let ghost before = defined_views(defined@);
        let ghost now = views.take(i + 1);
        assert(now.drop_last() =~= views.take(i as int));
        assert(now.last() == (fields@[i as int].0@, fields@[i as int].1@));
        let field = &fields[i];
        match parse_field(&field.0) {
            Ok(key) => match parse_value(&field.1) {
                Ok(definition) => {
                    let f = DefinedField { name: field.0.clone(), key, definition };
                    defined.push(f);
                    assert(defined_views(defined@) =~= before.push(f@));
                },
                Err(text) => {
                    proof {
                        lemma_first_error_stands(views, i + 1);
                    }
                    return Err(text);
                },
            },
            Err(e) => {
                proof {
                    lemma_first_error_stands(views, i + 1);
                }
                return Err(e.text());
            },
        }
        i = i + 1;
    }
    assert(views.take(n as int) =~= views);
    Ok(defined)
}

/// Whether the rule of a field holds a reference to a rule that stands elsewhere, so that it has no
/// values to file.
pub open spec fn is_unresolved(field: DefinedFieldView) -> bool {
    field.definition.rules[0] is Some && begins_with_nested_reference(field.definition.text)
}

/// What is set up for a defined field.
pub open spec fn setup_of(field: DefinedFieldView) -> FieldSetupView {
    FieldSetupView {
        name: field.name,
        key: field.key,
        value: field.definition.value,
        rule: match field.definition.rules[0] {
            Some(name) => Some(
                ConfigView {
                    name,
                    values: first_rule_values(field.definition.text, usize::BITS as int),
                },
            ),
            None => None,
        },
        generator: definition_generator(field.definition.text, usize::BITS as int),
    }
}

/// Whether anything is set up for a field. Of a field that gives no event this is its rule, if that
/// has values to file.
pub open spec fn is_set_up(field: DefinedFieldView) -> bool {
    is_event_name(field.name) || !is_unresolved(field)
}

/// What is set up for defined fields.
pub open spec fn setups_of(fields: Seq<DefinedFieldView>) -> Seq<FieldSetupView>
    decreases fields.len(),
{
    if fields.len() == 0 {
        seq![]
    } else if is_set_up(fields.last()) {
        setups_of(fields.drop_last()).push(setup_of(fields.last()))
    } else {
        setups_of(fields.drop_last())
    }
}

fn set_up_field(field: DefinedField) -> (f: FieldSetup)
    requires
        has_rule(field@),
        !is_unresolved(field@),
    ensures
        f@ == setup_of(field@),
{
    let value = field.definition.value();
    let rule = match field.definition.first_rule() {
        Some(name) => Some(Config { name, values: field.definition.first_values() }),
        None => None,
    };
    let generator = field.definition.generator();
    FieldSetup { name: field.name, key: field.key, value, rule, generator }
}

/// The configuration of an interaction.
pub type Configuration = Option<Vec<ConfiguredField>>;

/// The configuration with its texts as sequences of characters.
pub open spec fn configuration_view(config: Configuration) -> Option<
    Seq<(Seq<char>, FieldValueView)>,
> {
    match config {
        Some(fields) => Some(configured_views(fields@)),
        None => None,
    }
}

/// The content of an interaction, or the message where there is none.
pub open spec fn interaction_outcome(r: Result<Interaction, String>) -> Result<
    InteractionView,
    Seq<char>,
> {
    match r {
        Ok(interaction) => Ok(interaction@),
        Err(text) => Err(text@),
    }
}

/// The content of the interaction that is configured so, or the message where it is not.
pub open spec fn configured_interaction(config: Option<Seq<(Seq<char>, FieldValueView)>>) -> Result<
    InteractionView,
    Seq<char>,
> {
    match config {
        Some(fields) => match defined_fields(fields) {
            Ok(defined) => Ok(interaction_of(setups_of(defined))),
            Err(text) => Err(text),
        },
        None => Err("No config provided to match/generate SSE content"@),
    }
}

/// Whether the rule of every field that gives an event has values to file.
pub open spec fn all_resolved(fields: Seq<DefinedFieldView>) -> bool {
    forall|i: int|
        0 <= i < fields.len() && is_event_name((#[trigger] fields[i]).name) ==> !is_unresolved(
            fields[i],
        )
}

/// Whether every rule that is configured for an event has values to file.
pub open spec fn is_resolved(config: Option<Seq<(Seq<char>, FieldValueView)>>) -> bool {
    match config {
        Some(fields) => match defined_fields(fields) {
            Ok(defined) => all_resolved(defined),
            Err(_) => true,
        },
        None => true,
    }
}

/// Sets up the content of an interaction as it is configured.
pub fn setup_sse_contents(config: &Configuration) -> (r: Result<Interaction, String>)
    requires
        is_resolved(configuration_view(*config)),
    ensures
        interaction_outcome(r) == configured_interaction(configuration_view(*config)),
{
    match config {
        Some(fields) => {
            let defined = match define_fields(fields) {
                Ok(defined) => defined,
                Err(text) => {
                    return Err(text);
                },
            };
            let ghost views = defined_views(defined@);
            let mut setups: Vec<FieldSetup> = Vec::new();
            assert(views.take(0) =~= seq![]);
            assert(setup_views(setups@) =~= seq![]);
            for field in it: defined
                invariant
                    it.seq() == defined@,
                    views == defined_views(defined@),
                    all_resolved(views),
                    forall|i: int| 0 <= i < defined@.len() ==> has_rule((#[trigger] defined@[i])@),
                    setup_views(setups@) == setups_of(views.take(it.index() as int)),
            {
                let ghost before = setup_views(setups@);
                let ghost now = views.take(it.index() + 1);
                assert(views[it.index() as int] == field@);
                assert(now.drop_last() =~= views.take(it.index() as int));
                assert(now.last() == field@);
                assert(has_rule(field@));
                if gives_event(&field.name) || !is_field_unresolved(&field) {
                    let f = set_up_field(field);
                    setups.push(f);
                    assert(setup_views(setups@) =~= before.push(f@));
                }
            }
            assert(views.take(views.len() as int) =~= views);
            Ok(build_interaction(setups))
        },
        None => Err("No config provided to match/generate SSE content".to_owned()),
    }
}

fn is_field_unresolved(field: &DefinedField) -> (b: bool)
    requires
        has_rule(field@),
    ensures
        b == is_unresolved(field@),
{
    let d = &field.definition;
    d.first_rule().is_some() && has_nested_reference(d.text())
}

fn are_resolved(defined: &Vec<DefinedField>) -> (b: bool)
    requires
        forall|i: int| 0 <= i < defined@.len() ==> has_rule((#[trigger] defined@[i])@),
    ensures
        b == all_resolved(defined_views(defined@)),
{
    let ghost views = defined_views(defined@);
    let n: usize = defined.len();
    let mut i: usize = 0;
    while i < n
        invariant
            0 <= i <= n == defined@.len(),
            views == defined_views(defined@),
            forall|k: int| 0 <= k < n ==> has_rule((#[trigger] defined@[k])@),
            forall|k: int|
                0 <= k < i && is_event_name((#[trigger] views[k]).name) ==> !is_unresolved(views[k]),
        decreases n - i,
    {
        assert(has_rule(defined@[i as int]@));
        assert(views[i as int] == defined@[i as int]@);
        if gives_event(&defined[i].name) && is_field_unresolved(&defined[i]) {
            assert(is_event_name(views[i as int].name) && is_unresolved(views[i as int]));
            return false;
        }
        i = i + 1;
    }
    true
}

/// Whether every rule that is configured for an event has values to file.
pub fn has_only_resolved_rules(config: &Configuration) -> (b: bool)
    ensures
        b == is_resolved(configuration_view(*config)),
{
    match config {
        Some(fields) => match define_fields(fields) {
            Ok(defined) => are_resolved(&defined),
            Err(_) => true,
        },
        None => true,
    }
}

/// Sets up the content of an interaction as it is configured, where every rule that is configured
/// for an event has values to file.
pub fn try_setup_sse_contents(config: &Configuration) -> (r: Option<Result<Interaction, String>>)
    ensures
        r is Some <==> is_resolved(configuration_view(*config)),
        r matches Some(r) ==> interaction_outcome(r) == configured_interaction(
            configuration_view(*config),
        ),
{
    if has_only_resolved_rules(config) {
        Some(setup_sse_contents(config))
    } else {
        None
    }
}

} // verus!
