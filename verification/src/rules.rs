//! Matching rules, and which of them a field of an event is held to.

use crate::formats::{
    does_ask, format_asks, has_long_number, holds_long_number, most_digits, Ask,
};
use crate::parser::{FieldKey, FieldKeyView};
use crate::regex::{is_bounded, is_regex_bounded};
use crate::table::{lemma_filed, lemma_not_filed, lemma_replaced, Table};
use crate::text::{
    copy_text, digits_end, digits_len, digits_value, is_digits, same_text, text_view, texts,
    to_chars,
};
use pact_matching::matchers::Matches;
use pact_models::matchingrules::MatchingRule;
use serde_json::Value;
use vstd::prelude::*;

verus! {

/// A value of a matching rule's or a generator's configuration.
#[derive(Debug, Clone, PartialEq, Eq)]
pub enum Attribute {
    /// A text.
    Text(String),
    /// Any other value, as JSON.
    Json(String),
}

/// An attribute with its text as a sequence of characters.
pub enum AttributeView {
    Text(Seq<char>),
    Json(Seq<char>),
}

impl View for Attribute {
    type V = AttributeView;

    open spec fn view(&self) -> AttributeView {
        match self {
            Attribute::Text(t) => AttributeView::Text(t@),
            Attribute::Json(j) => AttributeView::Json(j@),
        }
    }
}

/// `pact_models::matchingrules::MatchingRule`, as an opaque value.
#[verifier::external_type_specification]
#[verifier::external_body]
pub struct ExMatchingRule(MatchingRule);

/// A matching rule and the attributes that it was built from.
#[derive(Debug)]
pub struct Rule {
    rule: MatchingRule,
    attributes: Table<Attribute>,
    name: String,
}

/// What a matching rule was built from, and the name of its kind.
pub struct RuleView {
    pub attributes: Map<Seq<char>, AttributeView>,
    pub name: Seq<char>,
}

impl View for Rule {
    type V = RuleView;

    closed spec fn view(&self) -> RuleView {
        RuleView { attributes: self.attributes@, name: self.name@ }
    }
}

/// The type of rule that the attributes ask for.
pub open spec fn rule_type(attributes: Map<Seq<char>, AttributeView>) -> Option<Seq<char>> {
    if attributes.contains_key("match"@) {
        match attributes["match"@] {
            AttributeView::Text(t) => Some(t),
            AttributeView::Json(_) => None,
        }
    } else {
        None
    }
}

/// The name of the rules of a type. A rule of the type `type` can also have the name of one with a
/// size.
pub open spec fn rule_name(t: Seq<char>) -> Option<Seq<char>> {
    if t == "real"@ {
        Some("decimal"@)
    } else if t == "min"@ {
        Some("min-type"@)
    } else if t == "max"@ {
        Some("max-type"@)
    } else if t == "timestamp"@ {
        Some("datetime"@)
    } else if t == "contentType"@ {
        Some("content-type"@)
    } else if t == "arrayContains"@ {
        Some("array-contains"@)
    } else if t == "statusCode"@ {
        Some("status-code"@)
    } else if t == "notEmpty"@ {
        Some("not-empty"@)
    } else if t == "eachKey"@ {
        Some("each-key"@)
    } else if t == "eachValue"@ {
        Some("each-value"@)
    } else if t == "regex"@ || t == "equality"@ || t == "include"@ || t == "type"@ || t == "number"@
        || t == "integer"@ || t == "decimal"@ || t == "boolean"@ || t == "min-type"@ || t
        == "max-type"@ || t == "datetime"@ || t == "date"@ || t == "time"@ || t == "null"@ || t
        == "content-type"@ || t == "array-contains"@ || t == "values"@ || t == "status-code"@ || t
        == "not-empty"@ || t == "semver"@ || t == "each-key"@ || t == "each-value"@ {
        Some(t)
    } else {
        None
    }
}

/// The attribute that the rules with a name cannot do without.
pub open spec fn needed_attribute(name: Seq<char>) -> Option<Seq<char>> {
    if name == "regex"@ {
        Some("regex"@)
    } else if name == "include"@ || name == "content-type"@ {
        Some("value"@)
    } else if name == "min-type"@ {
        Some("min"@)
    } else if name == "max-type"@ {
        Some("max"@)
    } else if name == "array-contains"@ {
        Some("variants"@)
    } else {
        None
    }
}

/// The message where that attribute is missing.
pub open spec fn missing_attribute_text(name: Seq<char>) -> Seq<char> {
    if name == "regex"@ {
        "Regex matcher missing 'regex' field"@
    } else if name == "include"@ {
        "Include matcher missing 'value' field"@
    } else if name == "content-type"@ {
        "ContentType matcher missing 'value' field"@
    } else if name == "min-type"@ {
        "Min matcher missing 'min' field"@
    } else if name == "max-type"@ {
        "Max matcher missing 'max' field"@
    } else {
        "ArrayContains matcher missing 'variants' field"@
    }
}

/// Whether the attributes lack the one that the rules with the name cannot do without.
pub open spec fn lacks_attribute(
    attributes: Map<Seq<char>, AttributeView>,
    name: Seq<char>,
) -> bool {
    match needed_attribute(name) {
        Some(needed) => !attributes.contains_key(needed),
        None => false,
    }
}

/// Whether the attributes can give a rule with the name.
pub open spec fn can_build(attributes: Map<Seq<char>, AttributeView>, name: Seq<char>) -> bool {
    match rule_type(attributes) {
        Some(t) => {
            if t == "type"@ {
                ||| name == "type"@
                ||| name == "min-type"@ && attributes.contains_key("min"@)
                ||| name == "max-type"@ && attributes.contains_key("max"@)
                ||| name == "min-max-type"@ && attributes.contains_key("min"@)
                    && attributes.contains_key("max"@)
            } else {
                rule_name(t) == Some(name) && !lacks_attribute(attributes, name)
            }
        },
        None => false,
    }
}

/// Whether the attributes can be refused with the message.
pub open spec fn can_refuse(attributes: Map<Seq<char>, AttributeView>, text: Seq<char>) -> bool {
    match rule_type(attributes) {
        Some(t) => match rule_name(t) {
            Some(name) => {
                if lacks_attribute(attributes, name) || name == "min-type"@ || name == "max-type"@ {
                    text == missing_attribute_text(name)
                } else if name == "status-code"@ {
                    attributes.contains_key("status"@) && text
                        == "Unable to parse status code for StatusCode matcher"@
                } else if name == "each-key"@ || name == "each-value"@ {
                    attributes.contains_key("rules"@)
                } else {
                    name == "array-contains"@
                }
            },
            None => text == t + " is not a valid matching rule type"@,
        },
        None => false,
    }
}

/// The name of the rule that `pact_models` builds from the attributes, or the message where it
/// refuses them, on a machine whose `usize` has as many bits.
pub uninterp spec fn built_rule(attributes: Map<Seq<char>, AttributeView>, bits: int) -> Result<
    Seq<char>,
    Seq<char>,
>;

/// The name of a rule that was built, or the message where it was not.
pub open spec fn built_name(r: Result<Rule, String>) -> Result<Seq<char>, Seq<char>> {
    match r {
        Ok(rule) => Ok(rule@.name),
        Err(e) => Err(e@),
    }
}

/// A character of ASCII, of the Latin alphabet with its extensions, of the Greek, the Cyrillic, the
/// Japanese or the Korean one, or a Chinese one: none of these but the ASCII digits is a number.
pub open spec fn is_common(c: char) -> bool {
    c < '\u{80}' || '\u{c0}' <= c < '\u{530}' || '\u{3041}' <= c <= '\u{30ff}' || '\u{4e00}' <= c
        <= '\u{9fff}' || '\u{ac00}' <= c <= '\u{d7a3}'
}

fn common(c: char) -> (b: bool)
    ensures
        b == is_common(c),
{
    c < '\u{80}' || ('\u{c0}' <= c && c < '\u{530}') || ('\u{3041}' <= c && c <= '\u{30ff}') || (
    '\u{4e00}' <= c && c <= '\u{9fff}') || ('\u{ac00}' <= c && c <= '\u{d7a3}')
}

/// Whether what follows an opening bracket is no index, or one that a `usize` holds.
pub open spec fn is_safe_index(s: Seq<char>) -> bool {
    let n = digits_len(s);
    n <= most_digits() && (n < s.len() ==> is_common(s[n as int]))
}

/// Whether every index in JSON is one that a `usize` holds. Characters that are written by their
/// codes could hide one.
pub open spec fn has_safe_indexes(j: Seq<char>) -> bool {
    forall|i: int|
        0 <= i < j.len() ==> (#[trigger] j[i] == '[' ==> is_safe_index(j.skip(i + 1))) && (j[i]
            == '\\' ==> !(i + 1 < j.len() && j[i + 1] == 'u'))
}

/// The attribute whose JSON holds the paths of nested rules, for a rule with the name.
pub open spec fn nesting_attribute(name: Seq<char>) -> Option<Seq<char>> {
    if name == "array-contains"@ {
        Some("variants"@)
    } else if name == "each-key"@ || name == "each-value"@ {
        Some("rules"@)
    } else {
        None
    }
}

/// Whether the paths of nested rules in the attributes can be read.
pub open spec fn is_readable(attributes: Map<Seq<char>, AttributeView>) -> bool {
    match rule_type(attributes) {
        Some(t) => match rule_name(t) {
            Some(name) => match nesting_attribute(name) {
                Some(key) => attributes.contains_key(key) ==> (
                attributes[key] matches AttributeView::Json(j) ==> has_safe_indexes(j)),
                None => true,
            },
            None => true,
        },
        None => true,
    }
}

/// `pact_models::matchingrules::MatchingRule::from_json` on an object that has the attributes, of
/// which `match` is a text, and `MatchingRule::name` on the rule. What is not JSON counts as null.
/// An unknown type is refused, and so is a type without the attribute it needs; every other rule is
/// built and has the name of its type. Which sizes, status codes, variants and nested rules are
/// accepted is left to it: sizes are read as `usize`, so the machine has a part in it. An index in
/// the path of a nested rule that is no `usize` makes the call panic.
#[verifier::external_body]
fn build_rule(attributes: Table<Attribute>) -> (r: Result<Rule, String>)
    requires
        rule_type(attributes@) is Some,
        is_readable(attributes@),
    ensures
        built_name(r) == built_rule(attributes@, usize::BITS as int),
        match r {
            Ok(rule) => rule@.attributes == attributes@ && can_build(attributes@, rule@.name),
            Err(e) => can_refuse(attributes@, e@),
        },
{
    let value = |a: &Attribute| match a {
        Attribute::Text(t) => Value::String(t.clone()),
        Attribute::Json(j) => serde_json::from_str(j).unwrap_or_default(),
    };
    let object = attributes.entries.iter().map(|(k, a)| (k.clone(), value(a))).collect();
    let rule = MatchingRule::from_json(&Value::Object(object))
        .map_err(|e| e.to_string())?;
    Ok(Rule { name: rule.name(), rule, attributes })
}

/// The attributes with the type of rule that they are for.
pub open spec fn typed_attributes(
    t: Seq<char>,
    attributes: Map<Seq<char>, AttributeView>,
) -> Map<Seq<char>, AttributeView> {
    attributes.insert("match"@, AttributeView::Text(t))
}

/// Why there is no rule.
#[derive(Debug, Clone, PartialEq, Eq)]
pub enum RuleError {
    /// The type or the attributes are refused with the message.
    Refused(String),
    /// The paths of nested rules cannot be read.
    Unreadable,
}

/// Why there is no rule, with the message as a sequence of characters.
pub enum RuleErrorView {
    Refused(Seq<char>),
    Unreadable,
}

impl View for RuleError {
    type V = RuleErrorView;

    open spec fn view(&self) -> RuleErrorView {
        match self {
            RuleError::Refused(text) => RuleErrorView::Refused(text@),
            RuleError::Unreadable => RuleErrorView::Unreadable,
        }
    }
}

/// The rule of a type with the attributes, or why there is none.
pub open spec fn rule_of(t: Seq<char>, attributes: Map<Seq<char>, AttributeView>) -> Result<
    RuleView,
    RuleErrorView,
> {
    let all = typed_attributes(t, attributes);
    if !is_readable(all) {
        Err(RuleErrorView::Unreadable)
    } else {
        match built_rule(all, usize::BITS as int) {
            Ok(name) => Ok(RuleView { attributes: all, name }),
            Err(text) => Err(RuleErrorView::Refused(text)),
        }
    }
}

/// A rule that was built, or why it was not.
pub open spec fn rule_outcome(r: Result<Rule, RuleError>) -> Result<RuleView, RuleErrorView> {
    match r {
        Ok(rule) => Ok(rule@),
        Err(e) => Err(e@),
    }
}

/// Whether a type of rule is another name of it.
fn is_of_type(t: &str, name: &str, other: &str) -> (b: bool)
    ensures
        b == (t@ == name@ || t@ == other@),
{
    same_text(t, name) || same_text(t, other)
}

/// Whether every index in JSON is one that a `usize` holds.
fn safe_indexes(j: &str) -> (b: bool)
    ensures
        b == has_safe_indexes(j@),
{
    let chars = to_chars(j);
    let v = chars.as_slice();
    let n: usize = v.len();
    let most: usize = if usize::BITS == 64 {
        19
    } else {
        9
    };
    let mut i: usize = 0;
    while i < n
        invariant
            0 <= i <= n == v@.len(),
            v@ == j@,
            most == most_digits(),
            forall|k: int|
                0 <= k < i ==> (#[trigger] v@[k] == '[' ==> is_safe_index(v@.skip(k + 1))) && (v@[k]
                    == '\\' ==> !(k + 1 < v@.len() && v@[k + 1] == 'u')),
        decreases n - i,
    {
        let c = v[i];
        if c == '[' {
            let end: usize = digits_end(v, i + 1);
            let ghost s = v@.skip(i + 1);
            if end - (i + 1) > most {
                assert(j@[i as int] == '[' && !is_safe_index(j@.skip(i + 1)));
                return false;
            }
            if end < n {
                assert(s[end - (i + 1)] == v@[end as int]);
                if !common(v[end]) {
                    assert(j@[i as int] == '[' && !is_safe_index(j@.skip(i + 1)));
                    return false;
                }
            }
        } else if c == '\\' && n - i > 1 && v[i + 1] == 'u' {
            assert(j@[i as int] == '\\');
            return false;
        }
        i = i + 1;
    }
    true
}

/// Whether an attribute, where it is JSON, has only indexes that a `usize` holds.
fn attribute_readable(attributes: &Table<Attribute>, key: &str) -> (b: bool)
    ensures
        b == (attributes@.contains_key(key@) ==> (
        attributes@[key@] matches AttributeView::Json(j) ==> has_safe_indexes(j))),
{
    match attributes.get(key) {
        Some(Attribute::Json(j)) => safe_indexes(j),
        _ => true,
    }
}

/// Whether the paths of nested rules can be read, for a rule of the type.
fn readable(rule_type: &str, attributes: &Table<Attribute>) -> (b: bool)
    requires
        crate::rules::rule_type(attributes@) == Some(rule_type@),
    ensures
        b == is_readable(attributes@),
{
    proof {
        lemma_nesting_types(rule_type@);
    }
    if is_of_type(rule_type, "arrayContains", "array-contains") {
        attribute_readable(attributes, "variants")
    } else if is_of_type(rule_type, "eachKey", "each-key") || is_of_type(
        rule_type,
        "eachValue",
        "each-value",
    ) {
        attribute_readable(attributes, "rules")
    } else {
        true
    }
}

/// The types of the rules that hold other rules.
proof fn lemma_nesting_types(t: Seq<char>)
    ensures
        (rule_name(t) is Some && nesting_attribute(rule_name(t)->0) == Some("variants"@)) <==> (t
            == "arrayContains"@ || t == "array-contains"@),
        (rule_name(t) is Some && nesting_attribute(rule_name(t)->0) is Some
            && nesting_attribute(rule_name(t)->0) != Some("variants"@)) <==> (t == "eachKey"@ || t
            == "each-key"@ || t == "eachValue"@ || t == "each-value"@),
        rule_name(t) is Some && nesting_attribute(rule_name(t)->0) is Some
            && nesting_attribute(rule_name(t)->0) != Some("variants"@) ==> nesting_attribute(
            rule_name(t)->0,
        ) == Some("rules"@),
{
    reveal_strlit("variants");
    reveal_strlit("rules");
    reveal_strlit("real");
    reveal_strlit("decimal");
    reveal_strlit("min");
    reveal_strlit("min-type");
    reveal_strlit("max");
    reveal_strlit("max-type");
    reveal_strlit("timestamp");
    reveal_strlit("datetime");
    reveal_strlit("contentType");
    reveal_strlit("content-type");
    reveal_strlit("arrayContains");
    reveal_strlit("array-contains");
    reveal_strlit("statusCode");
    reveal_strlit("status-code");
    reveal_strlit("notEmpty");
    reveal_strlit("not-empty");
    reveal_strlit("eachKey");
    reveal_strlit("each-key");
    reveal_strlit("eachValue");
    reveal_strlit("each-value");
    assert("variants"@.len() == 8 && "rules"@.len() == 5);
    // Only the names of rules that hold other rules begin with these letters.
    assert("array-contains"@[0] == 'a' && "arrayContains"@[0] == 'a');
    assert("each-key"@[0] == 'e' && "each-value"@[0] == 'e' && "eachKey"@[0] == 'e'
        && "eachValue"@[0] == 'e');
    assert("array-contains"@[5] == '-' && "arrayContains"@[5] == 'C');
    assert("each-key"@[4] == '-' && "eachKey"@[4] == 'K' && "eachValue"@[4] == 'V');
    assert("decimal"@[0] == 'd' && "datetime"@[0] == 'd' && "min-type"@[0] == 'm' && "max-type"@[0]
        == 'm' && "content-type"@[0] == 'c' && "status-code"@[0] == 's' && "not-empty"@[0] == 'n');
    assert("real"@[0] == 'r' && "min"@[0] == 'm' && "max"@[0] == 'm' && "timestamp"@[0] == 't'
        && "contentType"@[0] == 'c' && "statusCode"@[0] == 's' && "notEmpty"@[0] == 'n');
}

impl Rule {
    /// Builds a rule of a type from its attributes. The type stands in the place of an attribute
    /// `match`.
    pub fn new(rule_type: &str, attributes: Table<Attribute>) -> (r: Result<Rule, RuleError>)
        ensures
            rule_outcome(r) == rule_of(rule_type@, attributes@),
            match r {
                Ok(rule) => can_build(rule@.attributes, rule@.name),
                Err(RuleError::Refused(e)) => can_refuse(
                    typed_attributes(rule_type@, attributes@),
                    e@,
                ),
                Err(RuleError::Unreadable) => !is_readable(
                    typed_attributes(rule_type@, attributes@),
                ),
            },
    {
        let mut all = attributes;
        all.insert("match".to_owned(), Attribute::Text(rule_type.to_owned()));
        if !readable(rule_type, &all) {
            return Err(RuleError::Unreadable);
        }
        match build_rule(all) {
            Ok(rule) => Ok(rule),
            Err(text) => Err(RuleError::Refused(text)),
        }
    }

    /// The name of the rule's kind.
    pub fn name(&self) -> (name: String)
        ensures
            name@ == self@.name,
    {
        self.name.clone()
    }
}

/// An integer from 0 to the greatest `u64`, in decimal, with or without a plus sign.
pub open spec fn is_integer_text(s: Seq<char>) -> bool {
    let digits = if s.len() > 0 && s[0] == '+' {
        s.drop_first()
    } else {
        s
    };
    is_digits(digits) && digits_value(digits) <= u64::MAX
}

/// Whether `part` occurs in `s`.
pub open spec fn has_part(s: Seq<char>, part: Seq<char>) -> bool {
    exists|i: int|
        0 <= i <= s.len() - part.len() && #[trigger] s.subrange(i, i + part.len()) == part
}

/// What `pact_matching` reports of a text that does not match a rule with the attributes, on a
/// machine whose `usize` has as many bits.
pub uninterp spec fn match_failure(
    expected: Seq<char>,
    actual: Seq<char>,
    attributes: Map<Seq<char>, AttributeView>,
    bits: int,
) -> Option<Seq<char>>;

/// Rules that hold a text to its type only, which every text has.
pub open spec fn accepts_any_text(name: Seq<char>) -> bool {
    name == "type"@ || name == "min-type"@ || name == "max-type"@ || name == "min-max-type"@
}

/// Rules that no text matches.
pub open spec fn refuses_any_text(name: Seq<char>) -> bool {
    name == "array-contains"@ || name == "each-key"@ || name == "each-value"@
}

/// Whether the JSON of nested rules names no rule on variants. A backslash could hide its name.
pub open spec fn names_no_variants(attributes: Map<Seq<char>, AttributeView>) -> bool {
    attributes.contains_key("rules"@) ==> (
    attributes["rules"@] matches AttributeView::Json(j) ==> !has_part(j, "arrayContains"@)
        && !has_part(j, "array-contains"@) && !j.contains('\\'))
}

/// Rules whose outcome depends on the texts and the rule's attributes alone. The report of a rule
/// on variants shows them in an order that is left to chance, and what a content type rule finds is
/// left to the machine.
pub open spec fn is_determined(rule: RuleView) -> bool {
    &&& rule.name != "content-type"@
    &&& rule.name != "array-contains"@
    &&& rule.name == "each-key"@ || rule.name == "each-value"@ ==> names_no_variants(
        rule.attributes,
    )
}

/// The part that an include rule asks for, where it is a text.
pub open spec fn included_part(rule: RuleView) -> Option<Seq<char>> {
    if rule.name == "include"@ && rule.attributes.contains_key("value"@) {
        match rule.attributes["value"@] {
            AttributeView::Text(part) => Some(part),
            AttributeView::Json(_) => None,
        }
    } else {
        None
    }
}

/// Rules that read a text in a plain way.
pub open spec fn is_plain(rule: RuleView) -> bool {
    accepts_any_text(rule.name) || rule.name == "equality"@ || rule.name == "values"@ || rule.name
        == "boolean"@ || rule.name == "not-empty"@ || rule.name == "integer"@ || rule.name
        == "null"@ || included_part(rule) is Some
}

/// What a text that does not match a plain rule is reported with; nothing where it matches.
pub open spec fn plain_failure(expected: Seq<char>, actual: Seq<char>, rule: RuleView) -> Option<
    Seq<char>,
> {
    if accepts_any_text(rule.name) {
        None
    } else if rule.name == "equality"@ || rule.name == "values"@ {
        if expected == actual {
            None
        } else {
            Some("Expected '"@ + actual + "' to be equal to '"@ + expected + "'"@)
        }
    } else if rule.name == "boolean"@ {
        if actual == "true"@ || actual == "false"@ {
            None
        } else {
            Some("Expected '"@ + actual + "' (String) to match a boolean"@)
        }
    } else if rule.name == "not-empty"@ {
        if actual.len() > 0 {
            None
        } else {
            Some("Expected '' (String) to not be empty"@)
        }
    } else if rule.name == "integer"@ {
        if is_integer_text(actual) {
            None
        } else {
            Some("Expected '"@ + actual + "' to match an integer number"@)
        }
    } else if rule.name == "null"@ {
        Some("Unable to match '"@ + expected + "' using Null"@)
    } else {
        let part = included_part(rule)->0;
        if has_part(actual, part) {
            None
        } else {
            Some("Expected '"@ + actual + "' to include '"@ + part + "'"@)
        }
    }
}

/// What a text that does not match the rule is reported with; nothing where it matches.
pub open spec fn rule_failure(expected: Seq<char>, actual: Seq<char>, rule: RuleView) -> Option<
    Seq<char>,
> {
    if is_plain(rule) {
        plain_failure(expected, actual, rule)
    } else {
        match_failure(expected, actual, rule.attributes, usize::BITS as int)
    }
}

/// What a rule on numbers can report: nothing of a sequence of digits, and never anything but this.
pub open spec fn is_number_report(
    actual: Seq<char>,
    rule: RuleView,
    failure: Option<Seq<char>>,
) -> bool {
    rule.name == "number"@ || rule.name == "decimal"@ ==> {
        &&& is_digits(actual) ==> failure is None
        &&& failure is Some ==> failure == Some("Expected '"@ + actual + "' to match a number"@)
    }
}

/// How the report of a rule on collections begins.
pub open spec fn collection_report(expected: Seq<char>, name: Seq<char>) -> Seq<char> {
    "Unable to match '"@ + expected + "' using "@ + (if name == "array-contains"@ {
        "ArrayContains("@
    } else if name == "each-key"@ {
        "EachKey("@
    } else {
        "EachValue("@
    })
}

/// Whether a text can be reported so by a rule that is tried. A rule of an undetermined outcome is
/// free in what it reports, but for how the report of a rule on collections begins.
pub open spec fn can_report_so(
    expected: Seq<char>,
    actual: Seq<char>,
    rule: RuleView,
    failure: Option<Seq<char>>,
) -> bool {
    &&& is_determined(rule) ==> failure == rule_failure(expected, actual, rule)
    &&& is_number_report(actual, rule, failure)
    &&& refuses_any_text(rule.name) ==> failure is Some && collection_report(
        expected,
        rule.name,
    ).is_prefix_of(failure->0)
}

/// The format of a rule on dates and times: the attribute `format`, or else the one with the name
/// of the rule's type.
pub open spec fn rule_format(attributes: Map<Seq<char>, AttributeView>) -> Option<AttributeView> {
    if attributes.contains_key("format"@) {
        Some(attributes["format"@])
    } else {
        match rule_type(attributes) {
            Some(t) => if attributes.contains_key(t) {
                Some(attributes[t])
            } else {
                None
            },
            None => None,
        }
    }
}

/// JSON that is neither a text nor a list nor a structure.
pub open spec fn is_scalar_json(j: Seq<char>) -> bool {
    forall|i: int|
        0 <= i < j.len() ==> ('a' <= #[trigger] j[i] <= 'z' || 'A' <= j[i] <= 'Z' || '0' <= j[i]
            <= '9' || j[i] == '.' || j[i] == '-')
}

/// The regular expression or the format that a rule goes by.
pub open spec fn rule_setting(rule: RuleView) -> Option<AttributeView> {
    if rule.name == "regex"@ {
        if rule.attributes.contains_key("regex"@) {
            Some(rule.attributes["regex"@])
        } else {
            None
        }
    } else if rule.name == "date"@ || rule.name == "time"@ || rule.name == "datetime"@ {
        rule_format(rule.attributes)
    } else {
        None
    }
}

/// Whether a text can safely be held to a rule that goes by the setting: a regular expression is
/// certain not to go back too often on it, and a format asks neither for more digits of a year than
/// the text's years have nor for more digits of a second's fraction than a number can have.
pub open spec fn is_safe_setting(
    name: Seq<char>,
    setting: AttributeView,
    actual: Seq<char>,
) -> bool {
    match setting {
        AttributeView::Text(text) => if name == "regex"@ {
            is_bounded(text, actual.len())
        } else {
            !does_ask(Ask::LongFraction, text) && !(does_ask(Ask::LongYear, text)
                && has_long_number(actual))
        },
        AttributeView::Json(j) => is_scalar_json(j),
    }
}

/// Whether a text can safely be held to a rule.
pub open spec fn is_matchable(rule: RuleView, actual: Seq<char>) -> bool {
    match rule_setting(rule) {
        Some(setting) => is_safe_setting(rule.name, setting, actual),
        None => true,
    }
}

/// `pact_matching::matchers::Matches::matches_with` of a text with a text, not cascaded: the text
/// of its error, where it gives one. It accepts every text for a type rule, compares for an
/// equality rule, and reads the text for a boolean, a not-empty, an integer and an include rule; no
/// text matches a null rule or a rule on collections. A number rule accepts every sequence of
/// digits. Left unsaid is what a content type rule finds, which depends on the machine's database
/// of file types, and how the report of a rule on variants ends, which shows them in an order that
/// is left to chance. The call panics where a regular expression goes back ten million times, where
/// a year has more digits than an `i16` and where a fraction has more digits than a `usize`.
#[verifier::external_body]
fn match_text(rule: &Rule, expected: &str, actual: &str) -> (r: Option<String>)
    requires
        is_matchable(rule@, actual@),
    ensures
        is_plain(rule@) && is_determined(rule@) ==> text_view(r) == plain_failure(
            expected@,
            actual@,
            rule@,
        ),
        !is_plain(rule@) && is_determined(rule@) ==> text_view(r) == match_failure(
            expected@,
            actual@,
            rule@.attributes,
            usize::BITS as int,
        ),
        is_number_report(actual@, rule@, text_view(r)),
        refuses_any_text(rule@.name) ==> r is Some && collection_report(
            expected@,
            rule@.name,
        ).is_prefix_of(r->0@),
{
    expected.matches_with(actual, &rule.rule, false).err().map(|e| e.to_string())
}

pub(crate) fn scalar_json(j: &str) -> (b: bool)
    ensures
        b == is_scalar_json(j@),
{
    let v = to_chars(j);
    let n: usize = v.len();
    let mut i: usize = 0;
    while i < n
        invariant
            0 <= i <= n == v@.len(),
            v@ == j@,
            forall|k: int|
                0 <= k < i ==> ('a' <= #[trigger] v@[k] <= 'z' || 'A' <= v@[k] <= 'Z' || '0'
                    <= v@[k] <= '9' || v@[k] == '.' || v@[k] == '-'),
        decreases n - i,
    {
        let c = v[i];
        if !(('a' <= c && c <= 'z') || ('A' <= c && c <= 'Z') || ('0' <= c && c <= '9') || c == '.'
            || c == '-') {
            assert(j@[i as int] == c);
            return false;
        }
        i = i + 1;
    }
    true
}

/// What a rule that cannot safely be tried would have to tell: what it reports of a text. Whoever
/// asks for a comparison answers it.
#[derive(Debug, PartialEq, Eq)]
pub struct Question {
    /// The text that was expected.
    pub expected: String,
    /// The text that came.
    pub actual: String,
    /// The name of the rule's kind.
    pub rule: String,
    /// The regular expression or the format that the rule goes by.
    pub setting: Attribute,
}

/// A question with its texts as sequences of characters.
#[verifier::ext_equal]
pub struct QuestionView {
    pub expected: Seq<char>,
    pub actual: Seq<char>,
    pub rule: Seq<char>,
    pub setting: AttributeView,
}

impl View for Question {
    type V = QuestionView;

    open spec fn view(&self) -> QuestionView {
        QuestionView {
            expected: self.expected@,
            actual: self.actual@,
            rule: self.rule@,
            setting: self.setting@,
        }
    }
}

/// The views of the questions in a sequence.
pub open spec fn question_views(questions: Seq<Question>) -> Seq<QuestionView> {
    questions.map_values(|q: Question| q@)
}

/// The answer to a question: what the rule reports of the text; nothing where the text matches.
#[derive(Debug, PartialEq, Eq)]
pub struct Answer {
    /// The question.
    pub question: Question,
    /// What the rule reports.
    pub failure: Option<String>,
}

/// An answer with its texts as sequences of characters.
#[verifier::ext_equal]
pub struct AnswerView {
    pub question: QuestionView,
    pub failure: Option<Seq<char>>,
}

impl View for Answer {
    type V = AnswerView;

    open spec fn view(&self) -> AnswerView {
        AnswerView { question: self.question@, failure: text_view(self.failure) }
    }
}

/// The views of the answers in a sequence.
pub open spec fn answer_views(answers: Seq<Answer>) -> Seq<AnswerView> {
    answers.map_values(|a: Answer| a@)
}

/// The answer to a question; the last one, where there are several.
pub open spec fn answer_to(answers: Seq<AnswerView>, q: QuestionView) -> Option<Option<Seq<char>>>
    decreases answers.len(),
{
    if answers.len() == 0 {
        None
    } else if answers.last().question == q {
        Some(answers.last().failure)
    } else {
        answer_to(answers.drop_last(), q)
    }
}

/// The question that a rule raises which cannot safely be tried.
pub open spec fn question_of(expected: Seq<char>, actual: Seq<char>, rule: RuleView) -> QuestionView {
    QuestionView { expected, actual, rule: rule.name, setting: rule_setting(rule)->0 }
}

/// Whether a rule can be tried, or its question is answered.
pub open spec fn is_settled(
    expected: Seq<char>,
    actual: Seq<char>,
    rule: RuleView,
    answers: Seq<AnswerView>,
) -> bool {
    is_matchable(rule, actual) || answer_to(answers, question_of(expected, actual, rule)) is Some
}

/// Whether a text can be reported so: a rule that can safely be tried is tried, and of any other
/// the answer stands.
pub open spec fn can_fail_with(
    expected: Seq<char>,
    actual: Seq<char>,
    rule: RuleView,
    answers: Seq<AnswerView>,
    failure: Option<Seq<char>>,
) -> bool {
    if is_matchable(rule, actual) {
        can_report_so(expected, actual, rule, failure)
    } else {
        answer_to(answers, question_of(expected, actual, rule)) == Some(failure)
    }
}

/// What a text is reported with, where the outcome of the rule is determined.
pub open spec fn told_failure(
    expected: Seq<char>,
    actual: Seq<char>,
    rule: RuleView,
    answers: Seq<AnswerView>,
) -> Option<Seq<char>> {
    if is_matchable(rule, actual) {
        rule_failure(expected, actual, rule)
    } else {
        answer_to(answers, question_of(expected, actual, rule))->0
    }
}

/// Whether two attributes are equal.
fn same_attribute(a: &Attribute, b: &Attribute) -> (r: bool)
    ensures
        r == (a@ == b@),
{
    match (a, b) {
        (Attribute::Text(a), Attribute::Text(b)) => same_text(a, b),
        (Attribute::Json(a), Attribute::Json(b)) => same_text(a, b),
        _ => false,
    }
}

pub(crate) fn copy_attribute(a: &Attribute) -> (r: Attribute)
    ensures
        r@ == a@,
{
    match a {
        Attribute::Text(t) => Attribute::Text(t.clone()),
        Attribute::Json(j) => Attribute::Json(j.clone()),
    }
}

/// The answer to a question.
fn find_answer(answers: &Vec<Answer>, q: &Question) -> (r: Option<Option<String>>)
    ensures
        match r {
            Some(failure) => answer_to(answer_views(answers@), q@) == Some(text_view(failure)),
            None => answer_to(answer_views(answers@), q@) is None,
        },
{
    let ghost views = answer_views(answers@);
    let mut i: usize = answers.len();
    assert(views.take(i as int) =~= views);
    while i > 0
        invariant
            i <= answers@.len(),
            views == answer_views(answers@),
            answer_to(views, q@) == answer_to(views.take(i as int), q@),
        decreases i,
    {
        let ghost now = views.take(i as int);
        i = i - 1;
        let a = &answers[i];
        assert(now.last() == a@);
        assert(now.drop_last() =~= views.take(i as int));
        let o = &a.question;
        if same_text(&o.expected, &q.expected) && same_text(&o.actual, &q.actual) && same_text(
            &o.rule,
            &q.rule,
        ) && same_attribute(&o.setting, &q.setting) {
            assert(o@ =~= q@);
            return Some(copy_text(&a.failure));
        }
    }
    None
}

/// Whether a text can safely be held to a rule that goes by the setting.
fn setting_safe(name: &str, setting: &Attribute, actual: &str) -> (b: bool)
    ensures
        b == is_safe_setting(name@, setting@, actual@),
{
    match setting {
        Attribute::Text(text) => {
            if same_text(name, "regex") {
                is_regex_bounded(text, to_chars(actual).len())
            } else {
                !format_asks(Ask::LongFraction, text) && !(format_asks(Ask::LongYear, text)
                    && holds_long_number(actual))
            }
        },
        Attribute::Json(j) => scalar_json(j),
    }
}

impl Rule {
    /// The regular expression or the format that the rule goes by.
    fn setting(&self) -> (r: Option<&Attribute>)
        ensures
            match r {
                Some(setting) => rule_setting(self@) == Some(setting@),
                None => rule_setting(self@) is None,
            },
    {
        if same_text(&self.name, "regex") {
            self.attributes.get("regex")
        } else if same_text(&self.name, "date") || same_text(&self.name, "time") || same_text(
            &self.name,
            "datetime",
        ) {
            match self.attributes.get("format") {
                Some(format) => Some(format),
                None => match self.attributes.get("match") {
                    Some(Attribute::Text(t)) => self.attributes.get(t),
                    _ => None,
                },
            }
        } else {
            None
        }
    }

    /// Whether a text can safely be held to the rule.
    pub fn can_match(&self, actual: &str) -> (b: bool)
        ensures
            b == is_matchable(self@, actual@),
    {
        match self.setting() {
            Some(setting) => setting_safe(&self.name, setting, actual),
            None => true,
        }
    }

    /// Holds a text to the rule: what the rule reports, or the question to be answered first.
    pub fn failure(&self, expected: &str, actual: &str, answers: &Vec<Answer>) -> (r: Result<
        Option<String>,
        Question,
    >)
        ensures
            match r {
                Ok(failure) => is_settled(expected@, actual@, self@, answer_views(answers@))
                    && can_fail_with(
                    expected@,
                    actual@,
                    self@,
                    answer_views(answers@),
                    text_view(failure),
                ),
                Err(q) => !is_settled(expected@, actual@, self@, answer_views(answers@)) && q@
                    == question_of(expected@, actual@, self@),
            },
    {
        match self.setting() {
            Some(setting) => {
                if setting_safe(&self.name, setting, actual) {
                    return Ok(match_text(self, expected, actual));
                }
                let q = Question {
                    expected: expected.to_owned(),
                    actual: actual.to_owned(),
                    rule: self.name.clone(),
                    setting: copy_attribute(setting),
                };
                assert(q@ =~= question_of(expected@, actual@, self@));
                match find_answer(answers, &q) {
                    Some(failure) => Ok(failure),
                    None => Err(q),
                }
            },
            None => Ok(match_text(self, expected, actual)),
        }
    }
}

/// The rules filed under one key.
#[derive(Debug)]
pub struct RuleList {
    /// The rules, all of which a text is held to.
    pub rules: Vec<Rule>,
}

/// The views of the rules in a sequence.
pub open spec fn rule_views(rules: Seq<Rule>) -> Seq<RuleView> {
    rules.map_values(|r: Rule| r@)
}

impl View for RuleList {
    type V = Seq<RuleView>;

    open spec fn view(&self) -> Seq<RuleView> {
        rule_views(self.rules@)
    }
}

/// The rules filed under a key; none where nothing is.
pub open spec fn rules_at(table: Map<Seq<char>, Seq<RuleView>>, key: Seq<char>) -> Seq<RuleView> {
    if table.contains_key(key) {
        table[key]
    } else {
        seq![]
    }
}

/// The table with one more rule filed under a key, behind those that are there.
pub open spec fn with_rule(
    table: Map<Seq<char>, Seq<RuleView>>,
    key: Seq<char>,
    rule: RuleView,
) -> Map<Seq<char>, Seq<RuleView>> {
    table.insert(key, rules_at(table, key).push(rule))
}

/// Files one more rule under a key, behind those that are there.
pub fn add_rule(table: &mut Table<RuleList>, key: &str, rule: Rule)
    ensures
        final(table)@ == with_rule(old(table)@, key@, rule@),
{
    match table.index_of(key) {
        Some(i) => {
            let ghost before = table.entries@;
            let ghost list = table.entries@[i as int].1;
            table.entries[i].1.rules.push(rule);
            proof {
                let e = table.entries@[i as int];
                lemma_filed(before, i as int);
                lemma_replaced(before, i as int, e);
                assert(table.entries@ =~= before.update(i as int, e));
                assert(e.1@ =~= list@.push(rule@));
            }
        },
        None => {
            let mut rules: Vec<Rule> = Vec::new();
            rules.push(rule);
            let list = RuleList { rules };
            proof {
                lemma_not_filed(table.entries@, key@);
                assert(list@ =~= seq![rule@]);
                assert(Seq::<RuleView>::empty().push(rule@) =~= seq![rule@]);
            }
            table.insert(key.to_owned(), list);
        },
    }
}

/// A rule as it is asked for.
#[derive(Debug, Clone, PartialEq, Eq)]
pub struct RequestedRule {
    /// The type of rule.
    pub rule_type: String,
    /// Its attributes.
    pub values: Table<Attribute>,
}

/// A requested rule with its texts as sequences of characters.
pub struct RequestedRuleView {
    pub rule_type: Seq<char>,
    pub values: Map<Seq<char>, AttributeView>,
}

impl View for RequestedRule {
    type V = RequestedRuleView;

    open spec fn view(&self) -> RequestedRuleView {
        RequestedRuleView { rule_type: self.rule_type@, values: self.values@ }
    }
}

/// The rules that are asked for, or the message on the first that cannot be had.
pub open spec fn listed_rules(rules: Seq<RequestedRuleView>) -> Result<
    Seq<RuleView>,
    RuleErrorView,
>
    decreases rules.len(),
{
    if rules.len() == 0 {
        Ok(seq![])
    } else {
        match listed_rules(rules.drop_last()) {
            Ok(earlier) => match rule_of(rules.last().rule_type, rules.last().values) {
                Ok(rule) => Ok(earlier.push(rule)),
                Err(text) => Err(text),
            },
            Err(text) => Err(text),
        }
    }
}

/// Rules that are asked for, with the key that they are to be filed under.
pub type RequestedList = (String, Vec<RequestedRule>);

/// The views of the requested rules in a sequence.
pub open spec fn requested_rule_views(rules: Seq<RequestedRule>) -> Seq<RequestedRuleView> {
    rules.map_values(|r: RequestedRule| r@)
}

/// The views of requested rules and their keys.
pub open spec fn requested_list_views(lists: Seq<RequestedList>) -> Seq<
    (Seq<char>, Seq<RequestedRuleView>),
> {
    lists.map_values(|l: RequestedList| (l.0@, requested_rule_views(l.1@)))
}

/// The rules that are asked for, filed under their keys, or the message on the first that cannot be
/// had.
pub open spec fn filed_rules(lists: Seq<(Seq<char>, Seq<RequestedRuleView>)>) -> Result<
    Map<Seq<char>, Seq<RuleView>>,
    RuleErrorView,
>
    decreases lists.len(),
{
    if lists.len() == 0 {
        Ok(Map::empty())
    } else {
        match filed_rules(lists.drop_last()) {
            Ok(earlier) => match listed_rules(lists.last().1) {
                Ok(rules) => Ok(earlier.insert(lists.last().0, rules)),
                Err(text) => Err(text),
            },
            Err(text) => Err(text),
        }
    }
}

proof fn lemma_first_refusal_stands(rules: Seq<RequestedRuleView>, n: int)
    requires
        0 <= n <= rules.len(),
        listed_rules(rules.take(n)) is Err,
    ensures
        listed_rules(rules) == listed_rules(rules.take(n)),
    decreases rules.len() - n,
{
    if n < rules.len() {
        assert(rules.take(n + 1).drop_last() =~= rules.take(n));
        lemma_first_refusal_stands(rules, n + 1);
    } else {
        assert(rules.take(n) =~= rules);
    }
}

proof fn lemma_first_refused_list_stands(
    lists: Seq<(Seq<char>, Seq<RequestedRuleView>)>,
    n: int,
)
    requires
        0 <= n <= lists.len(),
        filed_rules(lists.take(n)) is Err,
    ensures
        filed_rules(lists) == filed_rules(lists.take(n)),
    decreases lists.len() - n,
{
    if n < lists.len() {
        assert(lists.take(n + 1).drop_last() =~= lists.take(n));
        lemma_first_refused_list_stands(lists, n + 1);
    } else {
        assert(lists.take(n) =~= lists);
    }
}

/// Builds the rules that are asked for under one key.
pub fn build_list(requested: Vec<RequestedRule>) -> (r: Result<RuleList, RuleError>)
    ensures
        match r {
            Ok(list) => listed_rules(requested_rule_views(requested@)) == Ok::<_, RuleErrorView>(
                list@,
            ),
            Err(text) => listed_rules(requested_rule_views(requested@)) == Err::<
                Seq<RuleView>,
                _,
            >(text@),
        },
{
    let ghost views = requested_rule_views(requested@);
    let mut rules: Vec<Rule> = Vec::new();
    assert(views.take(0) =~= seq![]);
    assert(rule_views(rules@) =~= seq![]);
    for rule in it: requested
        invariant
            it.seq() == requested@,
            views == requested_rule_views(requested@),
            listed_rules(views.take(it.index() as int)) == Ok::<_, RuleErrorView>(rule_views(rules@)),
    {
        let ghost i = it.index() as int;
        let ghost before = rule_views(rules@);
        let ghost now = views.take(i + 1);
        assert(now.drop_last() =~= views.take(i));
        assert(now.last() == rule@);
        match Rule::new(&rule.rule_type, rule.values) {
            Ok(built) => {
                rules.push(built);
                assert(rule_views(rules@) =~= before.push(built@));
            },
            Err(text) => {
                proof {
                    lemma_first_refusal_stands(views, i + 1);
                }
                return Err(text);
            },
        }
    }
    assert(views.take(views.len() as int) =~= views);
    Ok(RuleList { rules })
}

/// Builds the rules that are asked for.
pub fn build_rules(requested: Vec<RequestedList>) -> (r: Result<Table<RuleList>, RuleError>)
    ensures
        match r {
            Ok(table) => filed_rules(requested_list_views(requested@)) == Ok::<_, RuleErrorView>(
                table@,
            ),
            Err(text) => filed_rules(requested_list_views(requested@)) == Err::<
                Map<Seq<char>, Seq<RuleView>>,
                _,
            >(text@),
        },
{
    let ghost views = requested_list_views(requested@);
    let mut table: Table<RuleList> = Table::new();
    assert(views.take(0) =~= seq![]);
    for list in it: requested
        invariant
            it.seq() == requested@,
            views == requested_list_views(requested@),
            filed_rules(views.take(it.index() as int)) == Ok::<_, RuleErrorView>(table@),
    {
        let ghost i = it.index() as int;
        let ghost now = views.take(i + 1);
        assert(now.drop_last() =~= views.take(i));
        assert(now.last() == (list.0@, requested_rule_views(list.1@)));
        let (key, rules) = list;
        match build_list(rules) {
            Ok(built) => {
                table.insert(key, built);
            },
            Err(text) => {
                proof {
                    lemma_first_refused_list_stands(views, i + 1);
                }
                return Err(text);
            },
        }
    }
    assert(views.take(views.len() as int) =~= views);
    Ok(table)
}

/// The keys that rules for a field can be filed under.
pub open spec fn notations(key: FieldKeyView) -> Seq<Seq<char>> {
    match key.event_type {
        Some(t) => seq![key.bracketed(), key.field + "["@ + t + "]"@, key.path()],
        None => if key.field == "event"@ || key.field == "retry"@ {
            seq![key.field]
        } else {
            seq![key.bracketed(), key.path()]
        },
    }
}

/// Whether something is filed under one of the keys.
pub open spec fn has_rules(table: Map<Seq<char>, Seq<RuleView>>, keys: Seq<Seq<char>>) -> bool {
    exists|i: int| 0 <= i < keys.len() && table.contains_key(#[trigger] keys[i])
}

/// The rules filed under the keys, key by key.
pub open spec fn rules_under(table: Map<Seq<char>, Seq<RuleView>>, keys: Seq<Seq<char>>) -> Seq<
    RuleView,
>
    decreases keys.len(),
{
    if keys.len() == 0 {
        seq![]
    } else if table.contains_key(keys.last()) {
        rules_under(table, keys.drop_last()) + table[keys.last()]
    } else {
        rules_under(table, keys.drop_last())
    }
}

/// The keys that rules for a field can be filed under.
fn key_notations(key: &FieldKey) -> (keys: Vec<String>)
    ensures
        texts(keys@) == notations(key@),
{
    let mut keys: Vec<String> = Vec::new();
    match &key.event_type {
        Some(t) => {
            let mut short = key.field.clone();
            short.append("[");
            short.append(t);
            short.append("]");
            keys.push(key.bracketed());
            keys.push(short);
            keys.push(key.path());
        },
        None => {
            if !same_text(&key.field, "event") && !same_text(&key.field, "retry") {
                keys.push(key.bracketed());
            }
            keys.push(key.path());
        },
    }
    assert(texts(keys@) =~= notations(key@));
    keys
}

/// What a text can be reported with by each of the rules.
pub open spec fn can_fail_all(
    expected: Seq<char>,
    actual: Seq<char>,
    rules: Seq<RuleView>,
    answers: Seq<AnswerView>,
    failures: Seq<Option<Seq<char>>>,
) -> bool {
    &&& failures.len() == rules.len()
    &&& forall|i: int|
        0 <= i < rules.len() ==> can_fail_with(
            expected,
            actual,
            #[trigger] rules[i],
            answers,
            failures[i],
        )
}

/// The questions of the rules that are neither tried nor answered, in their order.
pub open spec fn open_questions(
    expected: Seq<char>,
    actual: Seq<char>,
    rules: Seq<RuleView>,
    answers: Seq<AnswerView>,
) -> Seq<QuestionView>
    decreases rules.len(),
{
    if rules.len() == 0 {
        seq![]
    } else {
        let earlier = open_questions(expected, actual, rules.drop_last(), answers);
        if is_settled(expected, actual, rules.last(), answers) {
            earlier
        } else {
            earlier.push(question_of(expected, actual, rules.last()))
        }
    }
}

/// The texts of a sequence in which they may be missing.
pub open spec fn failure_views(failures: Seq<Option<String>>) -> Seq<Option<Seq<char>>> {
    failures.map_values(|f: Option<String>| text_view(f))
}

/// The rules behind references.
pub open spec fn referred_rules(rules: Seq<&Rule>) -> Seq<RuleView> {
    rules.map_values(|r: &Rule| r@)
}

/// The rules for a field; nothing where nothing is filed for it.
fn rules_for<'a>(table: &'a Table<RuleList>, key: &FieldKey) -> (r: Option<Vec<&'a Rule>>)
    ensures
        match r {
            Some(rules) => has_rules(table@, notations(key@)) && referred_rules(rules@)
                == rules_under(table@, notations(key@)),
            None => !has_rules(table@, notations(key@)),
        },
{
    let keys = key_notations(key);
    let ghost views = notations(key@);
    let n: usize = keys.len();
    let mut found = false;
    let mut rules: Vec<&'a Rule> = Vec::new();
    let mut i: usize = 0;
    assert(referred_rules(rules@) =~= seq![]);
    while i < n
        invariant
            0 <= i <= n == keys@.len(),
            views == texts(keys@),
            found <==> has_rules(table@, views.take(i as int)),
            referred_rules(rules@) == rules_under(table@, views.take(i as int)),
        decreases n - i,
    {
        let ghost before = views.take(i as int);
        let ghost now = views.take(i + 1);
        assert(now.drop_last() =~= before);
        assert(now.last() == keys@[i as int]@);
        match table.get(&keys[i]) {
            Some(list) => {
                assert(has_rules(table@, now)) by {
                    assert(table@.contains_key(now[i as int]));
                }
                found = true;
                let ghost done = rules_under(table@, before);
                let m: usize = list.rules.len();
                let mut j: usize = 0;
                assert(done + list@.take(0) =~= done);
                while j < m
                    invariant
                        0 <= j <= m == list.rules@.len(),
                        referred_rules(rules@) == done + list@.take(j as int),
                    decreases m - j,
                {
                    let ghost earlier = referred_rules(rules@);
                    rules.push(&list.rules[j]);
                    assert(referred_rules(rules@) =~= earlier.push(list@[j as int]));
                    assert(done + list@.take(j + 1) =~= (done + list@.take(j as int)).push(
                        list@[j as int],
                    ));
                    j = j + 1;
                }
                assert(done + list@.take(m as int) =~= done + list@);
            },
            None => {
                assert(has_rules(table@, now) ==> has_rules(table@, before)) by {
                    if has_rules(table@, now) {
                        let k = choose|k: int|
                            0 <= k < now.len() && table@.contains_key(#[trigger] now[k]);
                        assert(before[k] == now[k]);
                    }
                }
                assert(has_rules(table@, before) ==> has_rules(table@, now)) by {
                    if has_rules(table@, before) {
                        let k = choose|k: int|
                            0 <= k < before.len() && table@.contains_key(#[trigger] before[k]);
                        assert(before[k] == now[k]);
                    }
                }
            },
        }
        i = i + 1;
    }
    assert(views.take(n as int) =~= views);
    if found {
        Some(rules)
    } else {
        None
    }
}

/// What the rules for a field report of a text; nothing where there are no rules for it.
pub type FieldReport = Option<Vec<Option<String>>>;

/// A report with its texts as sequences of characters.
pub type FieldReportView = Option<Seq<Option<Seq<char>>>>;

/// A report with its texts as sequences of characters.
pub open spec fn report_view(r: FieldReport) -> FieldReportView {
    match r {
        Some(failures) => Some(failure_views(failures@)),
        None => None,
    }
}

/// Whether the rules for a field can report so of a text.
pub open spec fn can_report_text(
    table: Map<Seq<char>, Seq<RuleView>>,
    key: FieldKeyView,
    expected: Seq<char>,
    actual: Seq<char>,
    answers: Seq<AnswerView>,
    report: FieldReportView,
) -> bool {
    match report {
        Some(failures) => has_rules(table, notations(key)) && can_fail_all(
            expected,
            actual,
            rules_under(table, notations(key)),
            answers,
            failures,
        ),
        None => !has_rules(table, notations(key)),
    }
}

proof fn lemma_no_rules(table: Map<Seq<char>, Seq<RuleView>>, keys: Seq<Seq<char>>)
    requires
        !has_rules(table, keys),
    ensures
        rules_under(table, keys).len() == 0,
    decreases keys.len(),
{
    if keys.len() > 0 {
        assert(!table.contains_key(keys[keys.len() - 1]));
        assert forall|i: int| 0 <= i < keys.drop_last().len() implies !table.contains_key(
            #[trigger] keys.drop_last()[i],
        ) by {
            assert(keys.drop_last()[i] == keys[i]);
        }
        lemma_no_rules(table, keys.drop_last());
    }
}

/// Holds a text to the rules for a field: what each of them reports, in their order, and the
/// questions to be answered first, in their order. The report counts only where there are no
/// questions.
pub fn hold_to_rules(
    table: &Table<RuleList>,
    key: &FieldKey,
    expected: &str,
    actual: &str,
    answers: &Vec<Answer>,
) -> (r: (FieldReport, Vec<Question>))
    ensures
        question_views(r.1@) == open_questions(
            expected@,
            actual@,
            rules_under(table@, notations(key@)),
            answer_views(answers@),
        ),
        r.1@.len() == 0 ==> can_report_text(
            table@,
            key@,
            expected@,
            actual@,
            answer_views(answers@),
            report_view(r.0),
        ),
{
    let mut questions: Vec<Question> = Vec::new();
    match rules_for(table, key) {
        Some(rules) => {
            let ghost views = rules_under(table@, notations(key@));
            let ghost told = answer_views(answers@);
            let n: usize = rules.len();
            let mut failures: Vec<Option<String>> = Vec::new();
            let mut i: usize = 0;
            assert(question_views(questions@) =~= seq![]);
            assert(views.take(0) =~= seq![]);
            while i < n
                invariant
                    0 <= i <= n == rules@.len(),
                    views == referred_rules(rules@),
                    told == answer_views(answers@),
                    question_views(questions@) == open_questions(
                        expected@,
                        actual@,
                        views.take(i as int),
                        told,
                    ),
                    questions@.len() == 0 ==> can_fail_all(
                        expected@,
                        actual@,
                        views.take(i as int),
                        told,
                        failure_views(failures@),
                    ),
                decreases n - i,
            {
                let ghost earlier = failure_views(failures@);
                let ghost asked = question_views(questions@);
                let ghost now = views.take(i + 1);
                assert(views[i as int] == rules@[i as int]@);
                assert(now.drop_last() =~= views.take(i as int));
                assert(now.last() == views[i as int]);
                assert(now =~= views.take(i as int).push(views[i as int]));
                match rules[i].failure(expected, actual, answers) {
                    Ok(failure) => {
                        failures.push(failure);
                        assert(failure_views(failures@) =~= earlier.push(text_view(failure)));
                    },
                    Err(q) => {
                        questions.push(q);
                        assert(question_views(questions@) =~= asked.push(q@));
                    },
                }
                i = i + 1;
            }
            assert(views.take(n as int) =~= views);
            (Some(failures), questions)
        },
        None => {
            proof {
                lemma_no_rules(table@, notations(key@));
                assert(question_views(questions@) =~= seq![]);
            }
            (None, questions)
        },
    }
}

} // verus!
