//! Matching rule definitions: the texts, such as `matching(number, 100)`, that give a field its
//! example value, the rules that it is held to and the generator for it.

use crate::rules::{copy_attribute, Attribute, AttributeView};
use crate::table::{filed, Table};
use crate::text::{copy_text, has_prefix, text_view, to_chars};
use pact_models::matchingrules::expressions::{parse_matcher_def, MatchingRuleDefinition};
use serde_json::Value;
use vstd::prelude::*;

verus! {

/// A value that a field is configured with.
#[derive(Debug, Clone, PartialEq, Eq)]
pub enum FieldValue {
    /// No value at all.
    Missing,
    /// Null.
    Null,
    /// A number.
    Number,
    /// A text.
    Text(String),
    /// A truth value.
    Bool,
    /// A structure.
    Struct,
    /// A list.
    List,
}

/// A value with its text as a sequence of characters.
pub enum FieldValueView {
    Missing,
    Null,
    Number,
    Text(Seq<char>),
    Bool,
    Struct,
    List,
}

impl View for FieldValue {
    type V = FieldValueView;

    open spec fn view(&self) -> FieldValueView {
        match self {
            FieldValue::Missing => FieldValueView::Missing,
            FieldValue::Null => FieldValueView::Null,
            FieldValue::Number => FieldValueView::Number,
            FieldValue::Text(t) => FieldValueView::Text(t@),
            FieldValue::Bool => FieldValueView::Bool,
            FieldValue::Struct => FieldValueView::Struct,
            FieldValue::List => FieldValueView::List,
        }
    }
}

/// A rule or a generator by its name and its values.
#[derive(Debug, Clone, PartialEq, Eq)]
pub struct Config {
    /// The name of the kind.
    pub name: String,
    /// The values that make it one of its kind.
    pub values: Table<Attribute>,
}

/// A configuration with its texts as sequences of characters.
#[verifier::ext_equal]
pub struct ConfigView {
    pub name: Seq<char>,
    pub values: Map<Seq<char>, AttributeView>,
}

impl View for Config {
    type V = ConfigView;

    open spec fn view(&self) -> ConfigView {
        ConfigView { name: self.name@, values: self.values@ }
    }
}

impl Config {
    /// A configuration with the same name and values.
    pub fn copy(&self) -> (c: Config)
        ensures
            c@ == self@,
    {
        let ghost entries = self.values.entries@;
        let n: usize = self.values.entries.len();
        let mut values: Table<Attribute> = Table::new();
        let mut i: usize = 0;
        assert(entries.take(0) =~= seq![]);
        while i < n
            invariant
                0 <= i <= n == entries.len(),
                entries == self.values.entries@,
                values@ == filed(entries.take(i as int)),
            decreases n - i,
        {
            let entry = &self.values.entries[i];
            proof {
                let now = entries.take(i + 1);
                assert(now.drop_last() =~= entries.take(i as int));
                assert(now.last() == entry);
            }
            values.insert(entry.0.clone(), copy_attribute(&entry.1));
            i = i + 1;
        }
        assert(entries.take(n as int) =~= entries);
        Config { name: self.name.clone(), values }
    }
}

/// A configuration that may be missing.
pub open spec fn config_view(c: Option<Config>) -> Option<ConfigView> {
    match c {
        Some(c) => Some(c@),
        None => None,
    }
}

/// `pact_models::matchingrules::expressions::MatchingRuleDefinition`, as an opaque value.
#[verifier::external_type_specification]
#[verifier::external_body]
pub struct ExMatchingRuleDefinition(MatchingRuleDefinition);

/// A matching rule definition that was read.
#[derive(Debug)]
pub struct Definition {
    definition: MatchingRuleDefinition,
    text: String,
    value: String,
    rules: Vec<Option<String>>,
}

/// What a matching rule definition says.
#[verifier::ext_equal]
pub struct DefinitionView {
    /// The definition as it was written.
    pub text: Seq<char>,
    /// The example value.
    pub value: Seq<char>,
    /// The name of each rule; none for a reference to a rule that stands elsewhere.
    pub rules: Seq<Option<Seq<char>>>,
}

impl View for Definition {
    type V = DefinitionView;

    closed spec fn view(&self) -> DefinitionView {
        DefinitionView {
            text: self.text@,
            value: self.value@,
            rules: self.rules@.map_values(|r: Option<String>| text_view(r)),
        }
    }
}

/// What `pact_models` reads in a matching rule definition, on a machine whose `usize` has as many
/// bits.
pub uninterp spec fn matcher_definition(text: Seq<char>, bits: int) -> Result<
    DefinitionView,
    Seq<char>,
>;

/// What the first rule of a matching rule definition has for values, on a machine whose `usize` has
/// as many bits.
pub uninterp spec fn first_rule_values(text: Seq<char>, bits: int) -> Map<
    Seq<char>,
    AttributeView,
>;

/// The generator that a matching rule definition asks for, on a machine whose `usize` has as many
/// bits.
pub uninterp spec fn definition_generator(text: Seq<char>, bits: int) -> Option<ConfigView>;

/// A definition that was read, or the message where it was not.
pub open spec fn definition_outcome(r: Result<Definition, String>) -> Result<
    DefinitionView,
    Seq<char>,
> {
    match r {
        Ok(d) => Ok(d@),
        Err(e) => Err(e@),
    }
}

/// A definition of a value that is only held to its type.
pub open spec fn type_definition(value: Seq<char>) -> Seq<char> {
    "matching(type, '"@ + value + "')"@
}

/// What such a definition says.
pub open spec fn type_definition_view(value: Seq<char>) -> DefinitionView {
    DefinitionView {
        text: type_definition(value),
        value,
        rules: seq![Some("type"@)],
    }
}

/// `pact_models::matchingrules::expressions::parse_matcher_def`: what it reads in the text, or the
/// text of its error. The names are those of `MatchingRule::name`. What is read keeps the text, has
/// at least one rule, and of a value that is only held to its type it has that value and the rule
/// `type`.
#[verifier::external_body]
fn read_definition(text: &str) -> (r: Result<Definition, String>)
    ensures
        definition_outcome(r) == matcher_definition(text@, usize::BITS as int),
        r matches Ok(d) ==> d@.text == text@ && d@.rules.len() > 0,
        text@ == ""@ ==> r is Err && r->Err_0@
            == "Expected a matching rule definition, but got an empty string"@,
        forall|value: Seq<char>|
            text@ == #[trigger] type_definition(value) && !value.contains('\'') ==> r is Ok
                && r->Ok_0@ == type_definition_view(value),
{
    let definition = parse_matcher_def(text).map_err(|e| e.to_string())?;
    let rules = definition.rules.iter().map(|r| r.as_ref().left().map(|r| r.name())).collect();
    let (text, value) = (text.to_string(), definition.value.clone());
    Ok(Definition { text, value, rules, definition })
}

/// `s` without the blanks that a matching rule definition can begin with.
pub open spec fn skip_blanks(s: Seq<char>) -> Seq<char>
    decreases s.len(),
{
    if s.len() > 0 && (s[0] == ' ' || s[0] == '\t' || s[0] == '\n' || s[0] == '\u{c}') {
        skip_blanks(s.drop_first())
    } else {
        s
    }
}

/// What follows a word at the start of `s`, where it is there.
pub open spec fn after_word(s: Seq<char>, word: Seq<char>) -> Option<Seq<char>> {
    let t = skip_blanks(s);
    if word.is_prefix_of(t) {
        Some(t.skip(word.len() as int))
    } else {
        None
    }
}

/// What follows a word and an opening bracket at the start of `s`, where they are there.
pub open spec fn after_opening(s: Seq<char>, word: Seq<char>) -> Option<Seq<char>> {
    match after_word(s, word) {
        Some(rest) => after_word(rest, "("@),
        None => None,
    }
}

/// Whether `s` begins with `matching($`, which refers to a rule that stands elsewhere.
pub open spec fn begins_with_reference(s: Seq<char>) -> bool {
    match after_opening(s, "matching"@) {
        Some(rest) => after_word(rest, "$"@) is Some,
        None => false,
    }
}

/// What follows `eachKey(` or `eachValue(` at the start of `s`, where one of them is there.
pub open spec fn after_each(s: Seq<char>) -> Option<Seq<char>> {
    match after_opening(s, "eachKey"@) {
        Some(rest) => Some(rest),
        None => after_opening(s, "eachValue"@),
    }
}

/// Whether `s` begins with a rule on each key or each value that holds, at any depth, a reference
/// to a rule that stands elsewhere.
pub open spec fn begins_with_nested_reference(s: Seq<char>) -> bool
    decreases s.len(),
{
    match after_each(s) {
        Some(rest) => if rest.len() < s.len() {
            begins_with_reference(rest) || begins_with_nested_reference(rest)
        } else {
            false
        },
        None => false,
    }
}

/// `pact_models::matchingrules::MatchingRule::values` of the first rule: what it has for values. It
/// panics on a rule that holds a reference to a rule that stands elsewhere.
#[verifier::external_body]
fn values_of_first_rule(d: &Definition) -> (values: Table<Attribute>)
    requires
        d@.rules.len() > 0,
        d@.rules[0] is Some,
        !begins_with_nested_reference(d@.text),
    ensures
        values@ == first_rule_values(d@.text, usize::BITS as int),
        d@.rules[0] == Some("type"@) ==> values@ == no_values(),
{
    let attribute = |(k, v): (&str, Value)| match v {
        Value::String(t) => (k.to_string(), Attribute::Text(t)),
        v => (k.to_string(), Attribute::Json(v.to_string())),
    };
    let rule = d.definition.rules[0].as_ref().left();
    let values = rule.map(|r| r.values()).unwrap_or_default();
    Table { entries: values.into_iter().map(attribute).collect() }
}

/// `pact_models::generators::Generator::name` and `Generator::values` of the generator, where the
/// definition asks for one. That of a value that is only held to its type asks for none.
#[verifier::external_body]
fn generator_of(d: &Definition) -> (r: Option<Config>)
    ensures
        config_view(r) == definition_generator(d@.text, usize::BITS as int),
        forall|value: Seq<char>|
            d@.text == #[trigger] type_definition(value) && !value.contains('\'') ==> r is None,
{
    let attribute = |(k, v): (&str, Value)| match v {
        Value::String(t) => (k.to_string(), Attribute::Text(t)),
        v => (k.to_string(), Attribute::Json(v.to_string())),
    };
    d.definition.generator.as_ref().map(|g| Config {
        name: g.name(),
        values: Table { entries: g.values().into_iter().map(attribute).collect() },
    })
}

/// Where the blanks at `i` end.
pub(crate) fn blanks_end(v: &[char], i: usize) -> (j: usize)
    requires
        i <= v@.len(),
    ensures
        i <= j <= v@.len(),
        v@.skip(j as int) == skip_blanks(v@.skip(i as int)),
{
    let n: usize = v.len();
    let mut j: usize = i;
    while j < n && (v[j] == ' ' || v[j] == '\t' || v[j] == '\n' || v[j] == '\u{c}')
        invariant
            i <= j <= n == v@.len(),
            skip_blanks(v@.skip(j as int)) == skip_blanks(v@.skip(i as int)),
        decreases n - j,
    {
        assert(v@.skip(j as int).drop_first() =~= v@.skip(j + 1));
        j = j + 1;
    }
    j
}

/// Where a word at `i` ends, if it is there.
fn word_end(v: &[char], i: usize, word: &str) -> (r: Option<usize>)
    requires
        i <= v@.len(),
    ensures
        match r {
            Some(j) => i + word@.len() <= j <= v@.len() && after_word(v@.skip(i as int), word@)
                == Some(v@.skip(j as int)),
            None => after_word(v@.skip(i as int), word@) is None,
        },
{
    let start: usize = blanks_end(v, i);
    let rest = &v[start..v.len()];
    assert(rest@ =~= v@.skip(start as int));
    if has_prefix(rest, word) {
        let n: usize = to_chars(word).len();
        assert(rest@.skip(n as int) =~= v@.skip(start + n));
        Some(start + n)
    } else {
        None
    }
}

/// Where a word and an opening bracket at `i` end, if they are there.
fn opening_end(v: &[char], i: usize, word: &str) -> (r: Option<usize>)
    requires
        i <= v@.len(),
    ensures
        match r {
            Some(j) => i + word@.len() <= j <= v@.len() && after_opening(v@.skip(i as int), word@)
                == Some(v@.skip(j as int)),
            None => after_opening(v@.skip(i as int), word@) is None,
        },
{
    match word_end(v, i, word) {
        Some(j) => word_end(v, j, "("),
        None => None,
    }
}

/// Whether `matching($` stands at `i`.
fn reference_at(v: &[char], i: usize) -> (b: bool)
    requires
        i <= v@.len(),
    ensures
        b == begins_with_reference(v@.skip(i as int)),
{
    match opening_end(v, i, "matching") {
        Some(j) => word_end(v, j, "$").is_some(),
        None => false,
    }
}

/// Whether the text begins with a rule on each key or each value that holds, at any depth, a
/// reference to a rule that stands elsewhere.
pub fn has_nested_reference(text: &str) -> (b: bool)
    ensures
        b == begins_with_nested_reference(text@),
{
    let chars = to_chars(text);
    let v = chars.as_slice();
    let mut i: usize = 0;
    assert(v@.skip(0) =~= v@);
    proof {
        reveal_strlit("eachKey");
        reveal_strlit("eachValue");
    }
    loop
        invariant
            i <= v@.len(),
            v@ == text@,
            "eachKey"@.len() == 7,
            "eachValue"@.len() == 9,
            begins_with_nested_reference(text@) == begins_with_nested_reference(
                v@.skip(i as int),
            ),
        decreases v@.len() - i,
    {
        let next = match opening_end(v, i, "eachKey") {
            Some(j) => Some(j),
            None => opening_end(v, i, "eachValue"),
        };
        match next {
            Some(j) => {
                if reference_at(v, j) {
                    return true;
                }
                i = j;
            },
            None => {
                return false;
            },
        }
    }
}

/// No values.
pub open spec fn no_values() -> Map<Seq<char>, AttributeView> {
    Map::empty()
}

impl Definition {
    /// The definition as it was written.
    pub fn text(&self) -> (text: &str)
        ensures
            text@ == self@.text,
    {
        self.text.as_str()
    }

    /// The example value.
    pub fn value(&self) -> (value: String)
        ensures
            value@ == self@.value,
    {
        self.value.clone()
    }

    /// The name of the first rule, where it is no reference to a rule that stands elsewhere.
    pub fn first_rule(&self) -> (name: Option<String>)
        requires
            self@.rules.len() > 0,
        ensures
            text_view(name) == self@.rules[0],
    {
        copy_text(&self.rules[0])
    }

    /// The values of the first rule.
    pub fn first_values(&self) -> (values: Table<Attribute>)
        requires
            self@.rules.len() > 0,
            self@.rules[0] is Some,
            !begins_with_nested_reference(self@.text),
        ensures
            values@ == first_rule_values(self@.text, usize::BITS as int),
            self@.rules[0] == Some("type"@) ==> values@ == no_values(),
    {
        values_of_first_rule(self)
    }

    /// The generator, where the definition asks for one.
    pub fn generator(&self) -> (generator: Option<Config>)
        ensures
            config_view(generator) == definition_generator(self@.text, usize::BITS as int),
            forall|value: Seq<char>|
                self@.text == #[trigger] type_definition(value) && !value.contains('\'')
                    ==> generator is None,
    {
        generator_of(self)
    }
}

/// What the value of a field defines. Only a text can define something.
pub open spec fn value_definition(v: FieldValueView) -> Result<DefinitionView, Seq<char>> {
    match v {
        FieldValueView::Missing => Err("Not a valid value definition (missing value)"@),
        FieldValueView::Null => Err("Null is not a valid value definition"@),
        FieldValueView::Number => Err("Number is not a valid value definition"@),
        FieldValueView::Text(t) => matcher_definition(t, usize::BITS as int),
        FieldValueView::Bool => Err("Bool is not a valid value definition"@),
        FieldValueView::Struct => Err("Struct is not a valid value definition"@),
        FieldValueView::List => Err("List is not a valid value definition"@),
    }
}

/// Reads the matching rule definition that a field is configured with.
pub fn parse_value(v: &FieldValue) -> (r: Result<Definition, String>)
    ensures
        definition_outcome(r) == value_definition(v@),
        r matches Ok(d) ==> v@ == FieldValueView::Text(d@.text) && d@.rules.len() > 0,
        v@ == FieldValueView::Text(""@) ==> r is Err && r->Err_0@
            == "Expected a matching rule definition, but got an empty string"@,
        forall|value: Seq<char>|
            v@ == FieldValueView::Text(#[trigger] type_definition(value)) && !value.contains('\'')
                ==> r is Ok && r->Ok_0@ == type_definition_view(value),
{
    match v {
        FieldValue::Missing => Err("Not a valid value definition (missing value)".to_owned()),
        FieldValue::Null => Err("Null is not a valid value definition".to_owned()),
        FieldValue::Number => Err("Number is not a valid value definition".to_owned()),
        FieldValue::Text(t) => read_definition(t),
        FieldValue::Bool => Err("Bool is not a valid value definition".to_owned()),
        FieldValue::Struct => Err("Struct is not a valid value definition".to_owned()),
        FieldValue::List => Err("List is not a valid value definition".to_owned()),
    }
}

} // verus!
