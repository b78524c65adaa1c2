//! The plugin: what it answers to each request of its host.

use crate::rules::{
    add_rule, answer_views, is_readable, question_views, rule_of, typed_attributes, with_rule,
    Answer, AnswerView, Attribute, AttributeView, Question, QuestionView, Rule, RuleError,
    RuleList, RuleView,
};
use crate::sse_content::compare::{
    bytes_view, can_mismatch, compare_events, compare_sse_contents, is_comparison,
    is_table_determined, mismatch_views, mismatches_of, pathless, pathless_response,
    stream_questions, CompareContentsResponse, ContentMismatch, MismatchView,
};
use crate::sse_content::event::{events_of, SseEvent};
use crate::sse_content::generate::{
    generate_sse_content, generation_draws, is_generatable, is_generated, is_refused, open_views,
    requested_views, told_views, GeneratedContent, GenerationStop, RequestedGenerator,
    RequestedView, Told, ToldView,
};
use crate::sse_content::setup::{
    configuration_view, configured_interaction, is_resolved, try_setup_sse_contents,
    Configuration, Interaction,
};
use crate::table::Table;
use crate::text::{decimal, decimal_text, from_chars, from_utf8, has_prefix, to_chars, utf8_error};
use vstd::prelude::*;
use vstd::utf8::{decode_utf8, valid_utf8};

verus! {

/// A body of a request or a response.
#[derive(Debug, Clone, PartialEq, Eq)]
pub struct Body {
    /// The content type.
    pub content_type: String,
    /// The bytes.
    pub content: Option<Vec<u8>>,
    /// How the bytes are to be taken: zero leaves it to the content type.
    pub content_type_hint: i32,
}

/// The bytes of a body that may be missing.
pub open spec fn content_of(body: Option<Body>) -> Option<Seq<u8>> {
    match body {
        Some(b) => bytes_view(b.content),
        None => None,
    }
}

/// What a plugin can do with content.
#[derive(Debug, Clone, Copy, PartialEq, Eq, Structural)]
pub enum EntryType {
    ContentMatcher,
    ContentGenerator,
}

/// An entry in the catalogue of the host.
#[derive(Debug, Clone, PartialEq, Eq)]
pub struct CatalogueEntry {
    /// What the plugin can do.
    pub entry_type: EntryType,
    /// The name of the entry.
    pub key: String,
    /// What more there is to say of it.
    pub values: Table<String>,
}

/// Whether an entry is the plugin's for event streams.
pub open spec fn is_sse_entry(e: CatalogueEntry, t: EntryType) -> bool {
    &&& e.entry_type == t
    &&& e.key@ == "sse"@
    &&& e.values@ == Map::<Seq<char>, Seq<char>>::empty().insert(
        "content-types"@,
        "text/event-stream"@,
    )
}

fn sse_entry(t: EntryType) -> (e: CatalogueEntry)
    ensures
        is_sse_entry(e, t),
{
    let mut values: Table<String> = Table::new();
    values.insert("content-types".to_owned(), "text/event-stream".to_owned());
    CatalogueEntry { entry_type: t, key: "sse".to_owned(), values }
}

/// What a mock server reports.
#[derive(Debug, Clone, PartialEq, Eq)]
pub struct MockServerResults {
    /// Whether all went well.
    pub ok: bool,
    /// What went wrong.
    pub results: Vec<String>,
}

/// An item of a list in a configuration.
#[derive(Debug, Clone, PartialEq, Eq)]
pub enum ConfigItem {
    /// A structure, by its fields.
    Struct(Table<Attribute>),
    /// Any other value.
    Other,
}

/// An item with its fields as a map.
pub enum ItemView {
    Struct(Map<Seq<char>, AttributeView>),
    Other,
}

impl View for ConfigItem {
    type V = ItemView;

    open spec fn view(&self) -> ItemView {
        match self {
            ConfigItem::Struct(fields) => ItemView::Struct(fields@),
            ConfigItem::Other => ItemView::Other,
        }
    }
}

/// A value in a configuration.
#[derive(Debug, Clone, PartialEq, Eq)]
pub enum ConfigValue {
    /// A list.
    List(Vec<ConfigItem>),
    /// A text.
    Text(String),
    /// Any other value.
    Other,
}

/// The items of a value that is a list.
pub open spec fn list_items(v: ConfigValue) -> Option<Seq<ItemView>> {
    match v {
        ConfigValue::List(items) => Some(items@.map_values(|i: ConfigItem| i@)),
        _ => None,
    }
}

/// The configuration that a plugin keeps with an interaction and with a pact.
#[derive(Debug, Clone, PartialEq, Eq)]
pub struct PluginConfiguration {
    /// What is kept with the interaction.
    pub interaction_configuration: Option<Vec<(String, ConfigValue)>>,
    /// What is kept with the pact.
    pub pact_configuration: Option<Vec<(String, ConfigValue)>>,
}

/// The fields with the items of those that are lists.
pub open spec fn field_views(fields: Seq<(String, ConfigValue)>) -> Seq<
    (Seq<char>, Option<Seq<ItemView>>),
> {
    fields.map_values(|f: (String, ConfigValue)| (f.0@, list_items(f.1)))
}

/// The fields that are kept with an interaction, with the items of those that are lists.
pub open spec fn interaction_fields(config: Option<PluginConfiguration>) -> Seq<
    (Seq<char>, Option<Seq<ItemView>>),
> {
    match config {
        Some(c) => match c.interaction_configuration {
            Some(fields) => field_views(fields@),
            None => seq![],
        },
        None => seq![],
    }
}

/// A request to compare contents.
#[derive(Debug)]
pub struct CompareContentsRequest {
    /// What was expected.
    pub expected: Option<Body>,
    /// What came.
    pub actual: Option<Body>,
    /// Whether fields that were not expected are allowed.
    pub allow_unexpected_keys: bool,
    /// The rules, filed under the keys of their fields.
    pub rules: Table<RuleList>,
    /// The configuration that the plugin keeps.
    pub plugin_configuration: Option<PluginConfiguration>,
}

/// Whether the bodies can be compared: each has content. What came is not looked at where what was
/// expected is no text.
pub open spec fn is_comparable(request: CompareContentsRequest) -> bool {
    let expected = content_of(request.expected);
    let actual = content_of(request.actual);
    &&& request.expected is Some ==> expected is Some
    &&& request.actual is Some && (request.expected is Some ==> valid_utf8(expected->0))
        ==> actual is Some
}

/// Why contents are not compared.
#[derive(Debug, PartialEq, Eq)]
pub enum CompareStop {
    /// A body is no text.
    Aborted(String),
    /// Questions are to be answered first.
    Open(Vec<Question>),
}

/// A mismatch of a body that is there on one side only.
pub open spec fn body_mismatch(
    expected: Option<Seq<u8>>,
    actual: Option<Seq<u8>>,
    text: Seq<char>,
) -> MismatchView {
    MismatchView {
        expected,
        actual,
        mismatch: text,
        path: ""@,
        diff: ""@,
        mismatch_type: "body"@,
    }
}

/// What is said of content that was not expected.
pub open spec fn unexpected_text(length: nat) -> Seq<char> {
    "Expected no SSE content, but got "@ + decimal(length) + " bytes"@
}

/// Whether a request to compare contents can be answered so.
pub open spec fn can_answer_compare(
    request: CompareContentsRequest,
    answers: Seq<AnswerView>,
    r: Result<CompareContentsResponse, CompareStop>,
) -> bool {
    let expected = content_of(request.expected);
    let actual = content_of(request.actual);
    if request.expected is Some && request.actual is Some {
        if !valid_utf8(expected->0) {
            is_aborted(r, "Failed to parse expected SSE: "@ + utf8_error(expected->0))
        } else if !valid_utf8(actual->0) {
            is_aborted(r, "Failed to parse actual SSE: "@ + utf8_error(actual->0))
        } else {
            let e = decode_utf8(expected->0);
            let a = decode_utf8(actual->0);
            let questions = stream_questions(e, a, request.rules@, answers);
            match r {
                Ok(response) => questions.len() == 0 && is_comparison(
                    e,
                    a,
                    request.allow_unexpected_keys,
                    request.rules@,
                    answers,
                    response,
                ),
                Err(CompareStop::Open(asked)) => question_views(asked@) == questions
                    && questions.len() > 0,
                Err(CompareStop::Aborted(_)) => false,
            }
        }
    } else {
        &&& r is Ok && r->Ok_0.error@ == ""@
        &&& r->Ok_0.results@ == (if request.actual is Some {
            pathless(seq![body_mismatch(None, actual, unexpected_text(actual->0.len()))])
        } else if request.expected is Some {
            pathless(
                seq![body_mismatch(expected, None, "Expected SSE content, but did not get any"@)],
            )
        } else {
            Map::empty()
        })
    }
}

/// Whether a comparison is given up with the message.
pub open spec fn is_aborted(
    r: Result<CompareContentsResponse, CompareStop>,
    text: Seq<char>,
) -> bool {
    match r {
        Err(CompareStop::Aborted(t)) => t@ == text,
        _ => false,
    }
}

fn prefixed(prefix: &str, text: &str) -> (s: String)
    ensures
        s@ == prefix@ + text@,
{
    let mut s = prefix.to_owned();
    s.append(text);
    s
}

fn copy_bytes(bytes: &Vec<u8>) -> (r: Vec<u8>)
    ensures
        r@ == bytes@,
{
    let n: usize = bytes.len();
    let mut r: Vec<u8> = Vec::new();
    let mut i: usize = 0;
    while i < n
        invariant
            0 <= i <= n == bytes@.len(),
            r@ == bytes@.take(i as int),
        decreases n - i,
    {
        r.push(bytes[i]);
        assert(bytes@.take(i + 1) =~= bytes@.take(i as int).push(bytes@[i as int]));
        i = i + 1;
    }
    assert(bytes@.take(n as int) =~= bytes@);
    r
}

fn one_body_mismatch(expected: Option<Vec<u8>>, actual: Option<Vec<u8>>, text: String) -> (ms: Vec<
    ContentMismatch,
>)
    ensures
        mismatch_views(ms@) == seq![
            body_mismatch(bytes_view(expected), bytes_view(actual), text@),
        ],
{
    let m = ContentMismatch {
        expected,
        actual,
        mismatch: text,
        path: "".to_owned(),
        diff: "".to_owned(),
        mismatch_type: "body".to_owned(),
    };
    let mut ms: Vec<ContentMismatch> = Vec::new();
    ms.push(m);
    assert(mismatch_views(ms@) =~= seq![m@]);
    ms
}

/// The plugin.
#[derive(Debug, Default)]
pub struct SsePactPlugin {}

impl SsePactPlugin {
    /// What the plugin adds to the catalogue of the host.
    pub fn init_plugin(&self) -> (catalogue: Vec<CatalogueEntry>)
        ensures
            catalogue@.len() == 2,
            is_sse_entry(catalogue@[0], EntryType::ContentMatcher),
            is_sse_entry(catalogue@[1], EntryType::ContentGenerator),
    {
        let mut catalogue: Vec<CatalogueEntry> = Vec::new();
        catalogue.push(sse_entry(EntryType::ContentMatcher));
        catalogue.push(sse_entry(EntryType::ContentGenerator));
        catalogue
    }

    /// Compares contents. Content on one side only is a mismatch of its own. Of a rule that cannot
    /// safely be tried the answer to its question stands; where that is missing, the questions to
    /// be answered are given back.
    pub fn compare_contents(
        &self,
        request: &CompareContentsRequest,
        answers: &Vec<Answer>,
    ) -> (r: Result<CompareContentsResponse, CompareStop>)
        requires
            is_comparable(*request),
        ensures
            can_answer_compare(*request, answer_views(answers@), r),
    {
        match (&request.expected, &request.actual) {
            (Some(expected), Some(actual)) => {
                let expected_sse = match from_utf8(expected.content.as_ref().unwrap()) {
                    Ok(text) => text,
                    Err(e) => {
                        let text = prefixed("Failed to parse expected SSE: ", &e);
                        return Err(CompareStop::Aborted(text));
                    },
                };
                let actual_sse = match from_utf8(actual.content.as_ref().unwrap()) {
                    Ok(text) => text,
                    Err(e) => {
                        let text = prefixed("Failed to parse actual SSE: ", &e);
                        return Err(CompareStop::Aborted(text));
                    },
                };
                match compare_sse_contents(
                    &expected_sse,
                    &actual_sse,
                    request.allow_unexpected_keys,
                    &request.rules,
                    answers,
                ) {
                    Ok(response) => Ok(response),
                    Err(questions) => Err(CompareStop::Open(questions)),
                }
            },
            (None, Some(actual)) => {
                let content = actual.content.as_ref().unwrap();
                let mut text = "Expected no SSE content, but got ".to_owned();
                text.append(&decimal_text(content.len()));
                text.append(" bytes");
                Ok(pathless_response(one_body_mismatch(None, Some(copy_bytes(content)), text)))
            },
            (Some(expected), None) => {
                let content = expected.content.as_ref().unwrap();
                let text = "Expected SSE content, but did not get any".to_owned();
                Ok(pathless_response(one_body_mismatch(Some(copy_bytes(content)), None, text)))
            },
            (None, None) => Ok(
                CompareContentsResponse { error: "".to_owned(), results: Table::new() },
            ),
        }
    }

    /// Whether the bodies can be compared.
    pub fn can_compare_contents(&self, request: &CompareContentsRequest) -> (b: bool)
        ensures
            b == is_comparable(*request),
    {
        let expected_is_text = match &request.expected {
            Some(expected) => match &expected.content {
                Some(e) => from_utf8(e).is_ok(),
                None => {
                    return false;
                },
            },
            None => true,
        };
        match &request.actual {
            Some(actual) => !expected_is_text || actual.content.is_some(),
            None => true,
        }
    }

    /// Compares contents, where they can be compared.
    pub fn try_compare_contents(
        &self,
        request: &CompareContentsRequest,
        answers: &Vec<Answer>,
    ) -> (r: Option<Result<CompareContentsResponse, CompareStop>>)
        ensures
            r is Some <==> is_comparable(*request),
            r matches Some(r) ==> can_answer_compare(*request, answer_views(answers@), r),
    {
        if self.can_compare_contents(request) {
            Some(self.compare_contents(request, answers))
        } else {
            None
        }
    }

    /// Sets up the content of an interaction, where every rule that is configured for an event has
    /// values to file.
    pub fn configure_interaction(&self, config: &Configuration) -> (r: Option<
        Result<Interaction, String>,
    >)
        ensures
            r is Some <==> is_resolved(configuration_view(*config)),
            r matches Some(r) ==> (match configured_interaction(configuration_view(*config)) {
                Ok(interaction) => r is Ok && r->Ok_0@ == interaction,
                Err(text) => r is Err && r->Err_0@ == "Invalid SSE definition: "@ + text,
            }),
    {
        match try_setup_sse_contents(config) {
            Some(Ok(interaction)) => Some(Ok(interaction)),
            Some(Err(e)) => Some(Err(prefixed("Invalid SSE definition: ", &e))),
            None => None,
        }
    }

    /// Generates content, where there is content to generate it from. What a generator gives that
    /// is not certain to come to an end is to be told.
    pub fn generate_content(
        &self,
        generators: Vec<RequestedGenerator>,
        contents: &Option<Vec<u8>>,
        told: &Vec<Told>,
    ) -> (r: Result<GeneratedContent, GenerationStop>)
        requires
            is_generatable(requested_views(generators@), bytes_view(*contents)),
        ensures
            can_answer_generate(
                requested_views(generators@),
                bytes_view(*contents),
                told_views(told@),
                r,
            ),
    {
        match generate_sse_content(generators, contents, told) {
            Ok(g) => Ok(g),
            Err(GenerationStop::Refused(e)) => Err(
                GenerationStop::Refused(prefixed("Failed to generate SSE contents: ", &e)),
            ),
            Err(GenerationStop::Open(draws)) => Err(GenerationStop::Open(draws)),
        }
    }

    /// Why there is no mock server.
    pub fn start_mock_server(&self) -> (error: String)
        ensures
            error@ == "Mock server not implemented for SSE plugin"@,
    {
        "Mock server not implemented for SSE plugin".to_owned()
    }

    /// What the mock server reports when it stops. There is none, so nothing went wrong.
    pub fn shutdown_mock_server(&self) -> (r: MockServerResults)
        ensures
            r.ok && r.results@.len() == 0,
    {
        MockServerResults { ok: true, results: Vec::new() }
    }

    /// What the mock server reports while it runs. There is none, so nothing went wrong.
    pub fn get_mock_server_results(&self) -> (r: MockServerResults)
        ensures
            r.ok && r.results@.len() == 0,
    {
        MockServerResults { ok: true, results: Vec::new() }
    }

    /// The body to verify an interaction with: one without content.
    pub fn prepare_interaction_for_verification(&self) -> (body: Body)
        ensures
            body.content_type@ == "text/event-stream"@,
            body.content is None,
            body.content_type_hint == 0,
    {
        Body { content_type: "text/event-stream".to_owned(), content: None, content_type_hint: 0 }
    }
}

/// Whether the name of a field says that it holds rules.
pub open spec fn names_rules(s: Seq<char>) -> bool {
    s.len() >= 5 && s.skip(s.len() - 5) == "rules"@
}

/// The key that the rules of a field with the name are for: the name without each `rules` that it
/// ends with.
pub open spec fn ruled_key(s: Seq<char>) -> Seq<char>
    decreases s.len(),
{
    if names_rules(s) {
        ruled_key(s.take(s.len() - 5))
    } else {
        s
    }
}

/// The type of rule that the fields of an item ask for: their `type`, where it is a text.
pub open spec fn item_type(fields: Map<Seq<char>, AttributeView>) -> Seq<char> {
    if fields.contains_key("type"@) {
        match fields["type"@] {
            AttributeView::Text(t) => t,
            AttributeView::Json(_) => ""@,
        }
    } else {
        ""@
    }
}

/// Whether an item asks for a rule whose nested rules cannot be read.
pub open spec fn is_item_unreadable(item: ItemView) -> bool {
    match item {
        ItemView::Struct(fields) => !is_readable(typed_attributes(item_type(fields), fields)),
        ItemView::Other => false,
    }
}

/// Whether a field holds rules of which one cannot be read.
pub open spec fn is_field_unreadable(field: (Seq<char>, Option<Seq<ItemView>>)) -> bool {
    names_rules(field.0) && field.1 is Some && exists|i: int|
        0 <= i < field.1->0.len() && is_item_unreadable(#[trigger] field.1->0[i])
}

/// Whether all the rules that a configuration keeps can be read.
pub open spec fn is_configuration_readable(
    fields: Seq<(Seq<char>, Option<Seq<ItemView>>)>,
) -> bool {
    forall|i: int| 0 <= i < fields.len() ==> !is_field_unreadable(#[trigger] fields[i])
}

/// The table with the rules that an item asks for. One that cannot be had is left out.
pub open spec fn with_item(
    table: Map<Seq<char>, Seq<RuleView>>,
    key: Seq<char>,
    item: ItemView,
) -> Map<Seq<char>, Seq<RuleView>> {
    match item {
        ItemView::Struct(fields) => match rule_of(item_type(fields), fields) {
            Ok(rule) => with_rule(table, key, rule),
            Err(_) => table,
        },
        ItemView::Other => table,
    }
}

/// The table with the rules that the items ask for.
pub open spec fn with_items(
    table: Map<Seq<char>, Seq<RuleView>>,
    key: Seq<char>,
    items: Seq<ItemView>,
) -> Map<Seq<char>, Seq<RuleView>>
    decreases items.len(),
{
    if items.len() == 0 {
        table
    } else {
        with_item(with_items(table, key, items.drop_last()), key, items.last())
    }
}

/// The rules that a configuration keeps: those in the lists whose names say so, filed under the
/// keys that they are for.
pub open spec fn kept_rules(fields: Seq<(Seq<char>, Option<Seq<ItemView>>)>) -> Map<
    Seq<char>,
    Seq<RuleView>,
>
    decreases fields.len(),
{
    if fields.len() == 0 {
        Map::empty()
    } else {
        let earlier = kept_rules(fields.drop_last());
        let (name, items) = fields.last();
        match items {
            Some(items) => if names_rules(name) {
                with_items(earlier, ruled_key(name), items)
            } else {
                earlier
            },
            None => earlier,
        }
    }
}

/// Where the text ends without a `rules` at its end, if it has one there.
fn rules_start(v: &[char]) -> (r: Option<usize>)
    ensures
        match r {
            Some(n) => names_rules(v@) && n == v@.len() - 5,
            None => !names_rules(v@),
        },
{
    let n: usize = v.len();
    proof {
        reveal_strlit("rules");
    }
    if n < 5 {
        return None;
    }
    let end = &v[n - 5..n];
    assert(end@ =~= v@.skip(n - 5));
    if has_prefix(end, "rules") {
        assert("rules"@ =~= end@.subrange(0, 5));
        assert(end@.subrange(0, 5) =~= end@);
        Some(n - 5)
    } else {
        assert(end@ == "rules"@ ==> "rules"@.is_prefix_of(end@)) by {
            assert(end@.subrange(0, 5) =~= end@);
        }
        None
    }
}

/// The key that the rules of a field with the name are for; none where the name does not say that
/// it holds rules.
fn key_of_rules(name: &str) -> (r: Option<String>)
    ensures
        match r {
            Some(key) => names_rules(name@) && key@ == ruled_key(name@),
            None => !names_rules(name@),
        },
{
    let chars = to_chars(name);
    let v = chars.as_slice();
    let mut end: usize = match rules_start(v) {
        Some(end) => end,
        None => {
            return None;
        },
    };
    assert(v@.take(end as int) =~= v@.subrange(0, end as int));
    loop
        invariant
            end <= v@.len(),
            ruled_key(name@) == ruled_key(v@.take(end as int)),
            names_rules(name@),
        decreases end,
    {
        let rest = &v[0..end];
        assert(rest@ =~= v@.take(end as int));
        match rules_start(rest) {
            Some(n) => {
                assert(rest@.take(n as int) =~= v@.take(n as int));
                end = n;
            },
            None => {
                return Some(from_chars(rest));
            },
        }
    }
}

/// The type of rule that the fields of an item ask for.
fn type_of_item(fields: &Table<Attribute>) -> (t: String)
    ensures
        t@ == item_type(fields@),
{
    match fields.get("type") {
        Some(Attribute::Text(t)) => t.clone(),
        _ => "".to_owned(),
    }
}

/// Files the rules that the items ask for, up to one that cannot be read.
fn file_items(table: &mut Table<RuleList>, key: &str, items: Vec<ConfigItem>) -> (read: bool)
    ensures
        read <==> forall|i: int| 0 <= i < items@.len() ==> !is_item_unreadable(#[trigger] items@[i]@),
        read ==> final(table)@ == with_items(
            old(table)@,
            key@,
            items@.map_values(|i: ConfigItem| i@),
        ),
{
    let ghost views = items@.map_values(|i: ConfigItem| i@);
    let ghost before = table@;
    assert(views.take(0) =~= seq![]);
    for item in it: items
        invariant
            it.seq() == items@,
            views == items@.map_values(|i: ConfigItem| i@),
            table@ == with_items(before, key@, views.take(it.index() as int)),
            forall|i: int| 0 <= i < it.index() ==> !is_item_unreadable(#[trigger] items@[i]@),
    {
        let ghost now = views.take(it.index() + 1);
        let ghost i = it.index() as int;
        assert(now.drop_last() =~= views.take(i));
        assert(now.last() == item@);
        assert(items@[i] == item);
        match item {
            ConfigItem::Struct(fields) => {
                let t = type_of_item(&fields);
                match Rule::new(&t, fields) {
                    Ok(rule) => add_rule(table, key, rule),
                    Err(RuleError::Refused(_)) => {},
                    Err(RuleError::Unreadable) => {
                        assert(is_item_unreadable(items@[i]@));
                        return false;
                    },
                }
            },
            ConfigItem::Other => {},
        }
    }
    assert(views.take(views.len() as int) =~= views);
    true
}

/// The rules that a configuration keeps, where all of them can be read.
pub fn rules_of_configuration(config: Option<PluginConfiguration>) -> (r: Option<Table<RuleList>>)
    ensures
        r is Some <==> is_configuration_readable(interaction_fields(config)),
        r matches Some(table) ==> table@ == kept_rules(interaction_fields(config)),
{
    let mut table: Table<RuleList> = Table::new();
    let ghost views = interaction_fields(config);
    let fields = match config {
        Some(c) => match c.interaction_configuration {
            Some(fields) => fields,
            None => Vec::new(),
        },
        None => Vec::new(),
    };
    assert(views =~= field_views(fields@));
    assert(views.take(0) =~= seq![]);
    for field in it: fields
        invariant
            it.seq() == fields@,
            views == interaction_fields(config),
            views == field_views(fields@),
            table@ == kept_rules(views.take(it.index() as int)),
            forall|i: int| 0 <= i < it.index() ==> !is_field_unreadable(#[trigger] views[i]),
    {
        let ghost now = views.take(it.index() + 1);
        let ghost i = it.index() as int;
        assert(now.drop_last() =~= views.take(i));
        assert(now.last() == (field.0@, list_items(field.1)));
        assert(views[i] == now.last());
        let (name, value) = field;
        match value {
            ConfigValue::List(items) => match key_of_rules(&name) {
                Some(key) => {
                    let ghost all = items@;
                    let ghost told = views[i].1->0;
                    assert(forall|j: int| 0 <= j < all.len() ==> told[j] == (#[trigger] all[j])@);
                    let read = file_items(&mut table, &key, items);
                    if !read {
                        proof {
                            let j = choose|j: int|
                                0 <= j < all.len() && is_item_unreadable(#[trigger] all[j]@);
                            assert(is_item_unreadable(told[j]));
                            assert(is_field_unreadable(views[i]));
                        }
                        return None;
                    }
                    assert(!is_field_unreadable(views[i])) by {
                        if is_field_unreadable(views[i]) {
                            let j = choose|j: int|
                                0 <= j < told.len() && is_item_unreadable(#[trigger] told[j]);
                            assert(told[j] == all[j]@);
                        }
                    }
                },
                None => {},
            },
            _ => {},
        }
    }
    assert(views.take(views.len() as int) =~= views);
    Some(table)
}

/// The text of a stream, and another text where the bytes are none.
pub open spec fn text_or(bytes: Seq<u8>, otherwise: Seq<char>) -> Seq<char> {
    if valid_utf8(bytes) {
        decode_utf8(bytes)
    } else {
        otherwise
    }
}

fn text_or_other(bytes: &Vec<u8>, otherwise: &str) -> (text: String)
    ensures
        text@ == text_or(bytes@, otherwise@),
{
    match from_utf8(bytes) {
        Ok(text) => text,
        Err(_) => otherwise.to_owned(),
    }
}

/// The outcome of verifying an interaction.
#[derive(Debug, Clone, PartialEq, Eq)]
pub struct VerificationResult {
    /// Whether there is no mismatch.
    pub success: bool,
    /// The mismatches.
    pub mismatches: Vec<ContentMismatch>,
}

/// The questions to be answered before an interaction can be verified by the rules of the table.
pub open spec fn verification_questions(
    table: Map<Seq<char>, Seq<RuleView>>,
    expected: Option<Seq<u8>>,
    actual: Option<Seq<u8>>,
    answers: Seq<AnswerView>,
) -> Seq<QuestionView> {
    match (expected, actual) {
        (Some(e), Some(a)) => stream_questions(
            text_or(e, "error parsing expected SSE"@),
            text_or(a, "error parsing actual SSE"@),
            table,
            answers,
        ),
        _ => seq![],
    }
}

/// Whether an interaction can be verified with the outcome, where the rules are those of the table.
pub open spec fn can_verify(
    table: Map<Seq<char>, Seq<RuleView>>,
    expected: Option<Seq<u8>>,
    actual: Option<Seq<u8>>,
    answers: Seq<AnswerView>,
    mismatches: Seq<MismatchView>,
) -> bool {
    match (expected, actual) {
        (Some(e), Some(a)) => {
            let exp = events_of(text_or(e, "error parsing expected SSE"@));
            let act = events_of(text_or(a, "error parsing actual SSE"@));
            &&& can_mismatch(table, exp, act, answers, mismatches)
            &&& is_table_determined(table) ==> mismatches == mismatches_of(
                table,
                exp,
                act,
                answers,
            )
        },
        (Some(_), None) => mismatches == seq![
            body_mismatch(expected, None, "Expected SSE content, but did not get any"@),
        ],
        _ => mismatches == Seq::<MismatchView>::empty(),
    }
}

/// Why an interaction is not verified.
#[derive(Debug, PartialEq, Eq)]
pub enum VerifyStop {
    /// A rule that the configuration keeps cannot be read.
    Unreadable,
    /// Questions are to be answered first.
    Open(Vec<Question>),
}

/// Whether a request to verify an interaction can be answered so, where these are the fields of the
/// configuration.
pub open spec fn can_answer_verify(
    fields: Seq<(Seq<char>, Option<Seq<ItemView>>)>,
    expected: Option<Seq<u8>>,
    actual: Option<Seq<u8>>,
    answers: Seq<AnswerView>,
    r: Result<VerificationResult, VerifyStop>,
) -> bool {
    let table = kept_rules(fields);
    let questions = verification_questions(table, expected, actual, answers);
    match r {
        Ok(result) => {
            &&& is_configuration_readable(fields)
            &&& questions.len() == 0
            &&& can_verify(table, expected, actual, answers, mismatch_views(result.mismatches@))
            &&& result.success == (mismatch_views(result.mismatches@).len() == 0)
        },
        Err(VerifyStop::Open(asked)) => {
            &&& is_configuration_readable(fields)
            &&& question_views(asked@) == questions
            &&& questions.len() > 0
        },
        Err(VerifyStop::Unreadable) => !is_configuration_readable(fields),
    }
}

impl SsePactPlugin {
    /// Verifies an interaction: compares what came with what was expected, by the rules that the
    /// configuration keeps. Bytes that are no text hold no events. Of a rule that cannot safely be
    /// tried the answer to its question stands; where that is missing, the questions to be answered
    /// are given back.
    pub fn verify_interaction(
        &self,
        config: Option<PluginConfiguration>,
        expected: &Option<Vec<u8>>,
        actual: &Option<Vec<u8>>,
        answers: &Vec<Answer>,
    ) -> (r: Result<VerificationResult, VerifyStop>)
        ensures
            can_answer_verify(
                interaction_fields(config),
                bytes_view(*expected),
                bytes_view(*actual),
                answer_views(answers@),
                r,
            ),
    {
        let rules = match rules_of_configuration(config) {
            Some(rules) => rules,
            None => {
                return Err(VerifyStop::Unreadable);
            },
        };
        let mismatches = match (expected, actual) {
            (Some(e), Some(a)) => {
                let exp = SseEvent::parse(&text_or_other(e, "error parsing expected SSE"));
                let act = SseEvent::parse(&text_or_other(a, "error parsing actual SSE"));
                match compare_events(&exp, &act, &rules, answers) {
                    Ok(mismatches) => mismatches,
                    Err(questions) => {
                        return Err(VerifyStop::Open(questions));
                    },
                }
            },
            (Some(e), None) => {
                let text = "Expected SSE content, but did not get any".to_owned();
                one_body_mismatch(Some(copy_bytes(e)), None, text)
            },
            _ => Vec::new(),
        };
        assert(mismatches@.len() == 0 ==> mismatch_views(mismatches@) =~= seq![]);
        Ok(VerificationResult { success: mismatches.len() == 0, mismatches })
    }
}

/// Whether a request to generate content can be answered so. A refusal ends with its reason.
pub open spec fn can_answer_generate(
    generators: Seq<RequestedView>,
    contents: Option<Seq<u8>>,
    told: Seq<ToldView>,
    r: Result<GeneratedContent, GenerationStop>,
) -> bool {
    match r {
        Ok(g) => is_generated(generators, contents, told, g),
        Err(GenerationStop::Refused(text)) => exists|reason: Seq<char>|
            #[trigger] is_refused(generators, contents, told, reason) && text@
                == "Failed to generate SSE contents: "@ + reason,
        Err(GenerationStop::Open(draws)) => draws@.len() > 0 && open_views(draws@)
            == generation_draws(generators, contents, told),
    }
}

} // verus!
