//! What holds of the plugin's answers as a whole.

use crate::plugin::{
    can_answer_compare, can_answer_generate, can_answer_verify, can_verify, content_of,
    is_comparable, is_configuration_readable, is_field_unreadable, is_item_unreadable, item_type,
    kept_rules, names_rules, ruled_key, verification_questions, with_items, CompareContentsRequest,
    CompareStop, ItemView, VerificationResult, VerifyStop,
};
use crate::rules::{
    filed_rules, question_views, rule_of, AnswerView, RequestedRuleView, RuleErrorView, RuleView,
};
use crate::sse_content::compare::{
    all_questions, can_mismatch, is_comparison, is_table_determined, mismatch_views, mismatches_of,
    pathless, stream_questions, CompareContentsResponse, MismatchView,
};
use crate::sse_content::compare_laws::law_stream_matches_itself;
use crate::sse_content::event::{
    after_line, events_of, line_events, lines, no_event, trim_cr, EventView,
};
use crate::sse_content::event_laws::lemma_one_line;
use crate::sse_content::generate::{
    generation_draws, is_generated, is_refused, open_views, GeneratedContent, GenerationStop,
    RequestedView, ToldView,
};
use crate::sse_content::mismatch_laws::{
    law_responses_list_the_mismatches_of_the_streams, law_streams_without_mismatches_agree,
};
use crate::text::{decimal, utf8_error};
use vstd::prelude::*;
use vstd::utf8::{decode_utf8, valid_utf8};

verus! {

/// No rules.
pub open spec fn no_rules() -> Map<Seq<char>, Seq<RuleView>> {
    Map::empty()
}

/// Without rules, content that is compared with itself gives no mismatch.
pub proof fn law_content_matches_itself(
    request: CompareContentsRequest,
    answers: Seq<AnswerView>,
    r: Result<CompareContentsResponse, CompareStop>,
)
    requires
        request.expected is Some,
        request.actual is Some,
        content_of(request.expected) is Some,
        content_of(request.actual) == content_of(request.expected),
        valid_utf8(content_of(request.expected)->0),
        request.rules@ == no_rules(),
        can_answer_compare(request, answers, r),
    ensures
        r is Ok,
        r->Ok_0.results@ == pathless(Seq::<MismatchView>::empty()),
{
    law_stream_matches_itself(events_of(decode_utf8(content_of(request.expected)->0)), answers);
}

/// Without rules, a body that is verified against itself gives no mismatch, be it text or not.
pub proof fn law_body_verifies_against_itself(
    body: Option<Seq<u8>>,
    answers: Seq<AnswerView>,
    mismatches: Seq<MismatchView>,
)
    requires
        can_verify(no_rules(), body, body, answers, mismatches),
    ensures
        mismatches.len() == 0,
        verification_questions(no_rules(), body, body, answers).len() == 0,
{
    if let Some(bytes) = body {
        assert(is_table_determined(no_rules()));
        if valid_utf8(bytes) {
            law_stream_matches_itself(events_of(decode_utf8(bytes)), answers);
        } else {
            lemma_no_events();
            law_stream_matches_itself(Seq::empty(), answers);
        }
    }
}

/// The texts that stand for bytes that are none hold no events.
proof fn lemma_no_events()
    ensures
        events_of("error parsing expected SSE"@) == Seq::<EventView>::empty(),
        events_of("error parsing actual SSE"@) == Seq::<EventView>::empty(),
{
    reveal_strlit("error parsing expected SSE");
    reveal_strlit("error parsing actual SSE");
    lemma_unknown_line("error parsing expected SSE"@);
    lemma_unknown_line("error parsing actual SSE"@);
}

proof fn lemma_unknown_line(s: Seq<char>)
    requires
        s.len() > 2,
        s[0] == 'e',
        s[1] == 'r',
        s.last() == 'E',
        !s.contains('\n'),
    ensures
        events_of(s) == Seq::<EventView>::empty(),
{
    reveal_strlit("id:");
    reveal_strlit("event:");
    reveal_strlit("data:");
    reveal_strlit("retry:");
    lemma_one_line(s);
    assert(trim_cr(s) == s);
    assert("id:"@.is_prefix_of(s) ==> "id:"@[0] == s.subrange(0, 3)[0]);
    assert("event:"@.is_prefix_of(s) ==> "event:"@[1] == s.subrange(0, 6)[1]);
    assert("data:"@.is_prefix_of(s) ==> "data:"@[0] == s.subrange(0, 5)[0]);
    assert("retry:"@.is_prefix_of(s) ==> "retry:"@[0] == s.subrange(0, 6)[0]);
    assert(after_line(no_event(), s) == no_event());
    assert(lines(s).drop_first() =~= seq![]);
    assert(line_events(lines(s).drop_first(), no_event()) =~= seq![]);
}

/// Contents are compared as the streams that they hold: a request whose rules were built from what
/// was asked for can have the answers that a comparison of the two streams by these rules can have,
/// and asks the same questions, whatever the rules are.
pub proof fn law_contents_are_compared_as_streams(
    request: CompareContentsRequest,
    requested: Seq<(Seq<char>, Seq<RequestedRuleView>)>,
    answers: Seq<AnswerView>,
    r: Result<CompareContentsResponse, CompareStop>,
)
    requires
        request.expected is Some,
        request.actual is Some,
        content_of(request.expected) is Some,
        content_of(request.actual) is Some,
        valid_utf8(content_of(request.expected)->0),
        valid_utf8(content_of(request.actual)->0),
        filed_rules(requested) == Ok::<_, RuleErrorView>(request.rules@),
    ensures
        ({
            let e = decode_utf8(content_of(request.expected)->0);
            let a = decode_utf8(content_of(request.actual)->0);
            let table = filed_rules(requested)->Ok_0;
            let questions = stream_questions(e, a, table, answers);
            can_answer_compare(request, answers, r) <==> match r {
                Ok(response) => questions.len() == 0 && is_comparison(
                    e,
                    a,
                    request.allow_unexpected_keys,
                    table,
                    answers,
                    response,
                ),
                Err(CompareStop::Open(asked)) => questions.len() > 0 && question_views(asked@)
                    == questions,
                Err(CompareStop::Aborted(_)) => false,
            }
        }),
{
}

/// Whether an item of a list of rules is skipped: it is no structure, or the rule that it asks for
/// is refused.
pub open spec fn is_item_skipped(item: ItemView) -> bool {
    match item {
        ItemView::Struct(fields) => rule_of(item_type(fields), fields) matches Err(
            RuleErrorView::Refused(_),
        ),
        ItemView::Other => true,
    }
}

/// The items of a list that are not skipped.
pub open spec fn kept_items(items: Seq<ItemView>) -> Seq<ItemView>
    decreases items.len(),
{
    if items.len() == 0 {
        seq![]
    } else if is_item_skipped(items.last()) {
        kept_items(items.drop_last())
    } else {
        kept_items(items.drop_last()).push(items.last())
    }
}

/// What counts of a configuration: the fields whose names say that they hold rules and that are
/// lists of which not all items are skipped, with the items that are not.
pub open spec fn kept_fields(fields: Seq<(Seq<char>, Option<Seq<ItemView>>)>) -> Seq<
    (Seq<char>, Option<Seq<ItemView>>),
>
    decreases fields.len(),
{
    if fields.len() == 0 {
        seq![]
    } else {
        let earlier = kept_fields(fields.drop_last());
        let (name, items) = fields.last();
        if names_rules(name) && items is Some && kept_items(items->0).len() > 0 {
            earlier.push((name, Some(kept_items(items->0))))
        } else {
            earlier
        }
    }
}

proof fn lemma_kept_items(
    table: Map<Seq<char>, Seq<RuleView>>,
    key: Seq<char>,
    items: Seq<ItemView>,
)
    ensures
        with_items(table, key, kept_items(items)) == with_items(table, key, items),
        (exists|i: int| 0 <= i < items.len() && is_item_unreadable(#[trigger] items[i])) <==> (
        exists|i: int|
            0 <= i < kept_items(items).len() && is_item_unreadable(
                #[trigger] kept_items(items)[i],
            )),
    decreases items.len(),
{
    if items.len() > 0 {
        let init = items.drop_last();
        let last = items.last();
        let kept = kept_items(items);
        lemma_kept_items(table, key, init);
        if !is_item_skipped(last) {
            assert(kept.drop_last() =~= kept_items(init));
            assert(kept.last() == last);
        }
        if exists|i: int| 0 <= i < items.len() && is_item_unreadable(#[trigger] items[i]) {
            let i = choose|i: int| 0 <= i < items.len() && is_item_unreadable(#[trigger] items[i]);
            if i < init.len() {
                assert(is_item_unreadable(init[i]));
                let j = choose|j: int|
                    0 <= j < kept_items(init).len() && is_item_unreadable(
                        #[trigger] kept_items(init)[j],
                    );
                assert(kept[j] == kept_items(init)[j]);
            } else {
                assert(kept[kept.len() - 1] == last);
            }
        }
        if exists|i: int| 0 <= i < kept.len() && is_item_unreadable(#[trigger] kept[i]) {
            let i = choose|i: int| 0 <= i < kept.len() && is_item_unreadable(#[trigger] kept[i]);
            if i < kept_items(init).len() {
                assert(is_item_unreadable(kept_items(init)[i]));
                let j = choose|j: int|
                    0 <= j < init.len() && is_item_unreadable(#[trigger] init[j]);
                assert(items[j] == init[j]);
            } else {
                assert(items[items.len() - 1] == last);
            }
        }
    }
}

proof fn lemma_kept_fields(fields: Seq<(Seq<char>, Option<Seq<ItemView>>)>)
    ensures
        kept_rules(kept_fields(fields)) == kept_rules(fields),
        is_configuration_readable(kept_fields(fields)) == is_configuration_readable(fields),
    decreases fields.len(),
{
    if fields.len() > 0 {
        let init = fields.drop_last();
        let (name, items) = fields.last();
        let kept = kept_fields(fields);
        let earlier = kept_fields(init);
        lemma_kept_fields(init);
        if names_rules(name) && items is Some {
            lemma_kept_items(kept_rules(init), ruled_key(name), items->0);
        }
        if kept.len() > earlier.len() {
            assert(kept.drop_last() =~= earlier);
        }
        if names_rules(name) && items is Some {
            let all = items->0;
            let some = kept_items(all);
            let field = (name, Some(some));
            assert(fields.last().1->0 == all);
            assert(field.1->0 == some);
            if is_field_unreadable(fields.last()) {
                let i = choose|i: int|
                    0 <= i < fields.last().1->0.len() && is_item_unreadable(
                        #[trigger] fields.last().1->0[i],
                    );
                assert(is_item_unreadable(all[i]));
                let j = choose|j: int| 0 <= j < some.len() && is_item_unreadable(#[trigger] some[j]);
                assert(is_item_unreadable(field.1->0[j]));
                assert(is_field_unreadable(field));
            }
            if is_field_unreadable(field) {
                let i = choose|i: int|
                    0 <= i < field.1->0.len() && is_item_unreadable(#[trigger] field.1->0[i]);
                assert(is_item_unreadable(some[i]));
                let j = choose|j: int| 0 <= j < all.len() && is_item_unreadable(#[trigger] all[j]);
                assert(is_item_unreadable(fields.last().1->0[j]));
                assert(is_field_unreadable(fields.last()));
            }
            assert(is_field_unreadable(fields.last()) <==> is_field_unreadable(field));
            if some.len() > 0 {
                assert(kept.last() == field);
            } else {
                assert(!is_field_unreadable(field));
            }
        }
        assert(is_field_unreadable(fields.last()) <==> kept.len() > earlier.len()
            && is_field_unreadable(kept.last()));
        assert(is_configuration_readable(fields) <==> is_configuration_readable(init)
            && !is_field_unreadable(fields.last())) by {
            lemma_readable_push(init, fields.last());
            assert(fields =~= init.push(fields.last()));
        }
        if kept.len() > earlier.len() {
            lemma_readable_push(earlier, kept.last());
            assert(kept =~= earlier.push(kept.last()));
        }
    }
}

proof fn lemma_readable_push(
    fields: Seq<(Seq<char>, Option<Seq<ItemView>>)>,
    field: (Seq<char>, Option<Seq<ItemView>>),
)
    ensures
        is_configuration_readable(fields.push(field)) <==> is_configuration_readable(fields)
            && !is_field_unreadable(field),
{
    let all = fields.push(field);
    if is_configuration_readable(all) {
        assert(!is_field_unreadable(all[fields.len() as int]));
        assert forall|i: int| 0 <= i < fields.len() implies !is_field_unreadable(
            #[trigger] fields[i],
        ) by {
            assert(all[i] == fields[i]);
        }
    }
    if is_configuration_readable(fields) && !is_field_unreadable(field) {
        assert forall|i: int| 0 <= i < all.len() implies !is_field_unreadable(#[trigger] all[i]) by {
            if i < fields.len() {
                assert(all[i] == fields[i]);
            }
        }
    }
}

/// Skipped entries make no difference: two configurations that agree in what counts of them keep
/// the same rules, and an interaction can be verified with the same outcomes under both, whatever
/// the rules are. Skipped are the fields whose names do not say that they hold rules, those that
/// are no lists, and the items that are no structures or ask for a rule that is refused.
pub proof fn law_skipped_entries_make_no_difference(
    one: Seq<(Seq<char>, Option<Seq<ItemView>>)>,
    other: Seq<(Seq<char>, Option<Seq<ItemView>>)>,
    expected: Option<Seq<u8>>,
    actual: Option<Seq<u8>>,
    answers: Seq<AnswerView>,
    r: Result<VerificationResult, VerifyStop>,
)
    requires
        kept_fields(one) == kept_fields(other),
    ensures
        kept_rules(one) == kept_rules(other),
        can_answer_verify(one, expected, actual, answers, r) <==> can_answer_verify(
            other,
            expected,
            actual,
            answers,
            r,
        ),
{
    lemma_kept_fields(one);
    lemma_kept_fields(other);
}

/// Where the outcome of every rule is determined, an interaction is verified with one outcome.
pub proof fn law_verification_is_determined(
    table: Map<Seq<char>, Seq<RuleView>>,
    expected: Option<Seq<u8>>,
    actual: Option<Seq<u8>>,
    answers: Seq<AnswerView>,
    one: Seq<MismatchView>,
    other: Seq<MismatchView>,
)
    requires
        is_table_determined(table),
        can_verify(table, expected, actual, answers, one),
        can_verify(table, expected, actual, answers, other),
    ensures
        one == other,
{
}

/// An interaction whose two bodies are text is verified by comparing their whole streams by the
/// rules that the configuration keeps: it has the mismatches that a comparison of all their events
/// can have, asks the questions of that comparison, and succeeds if and only if there is no
/// mismatch.
pub proof fn law_verification_compares_the_whole_streams(
    fields: Seq<(Seq<char>, Option<Seq<ItemView>>)>,
    expected: Seq<u8>,
    actual: Seq<u8>,
    answers: Seq<AnswerView>,
    r: Result<VerificationResult, VerifyStop>,
)
    requires
        valid_utf8(expected),
        valid_utf8(actual),
    ensures
        ({
            let table = kept_rules(fields);
            let exp = events_of(decode_utf8(expected));
            let act = events_of(decode_utf8(actual));
            can_answer_verify(fields, Some(expected), Some(actual), answers, r) <==> match r {
                Ok(result) => {
                    &&& is_configuration_readable(fields)
                    &&& all_questions(table, exp, act, answers).len() == 0
                    &&& can_mismatch(table, exp, act, answers, mismatch_views(result.mismatches@))
                    &&& is_table_determined(table) ==> mismatch_views(result.mismatches@)
                        == mismatches_of(table, exp, act, answers)
                    &&& result.success <==> result.mismatches@.len() == 0
                },
                Err(VerifyStop::Open(asked)) => {
                    &&& is_configuration_readable(fields)
                    &&& asked@.len() > 0
                    &&& question_views(asked@) == all_questions(table, exp, act, answers)
                },
                Err(VerifyStop::Unreadable) => !is_configuration_readable(fields),
            }
        }),
{
    if let Ok(result) = r {
        assert(mismatch_views(result.mismatches@).len() == result.mismatches@.len());
    }
    if let Err(VerifyStop::Open(asked)) = r {
        assert(question_views(asked@).len() == asked@.len());
    }
}

/// Whatever the bodies are, a verification is answered with mismatches that they can have, once no
/// question is open, and succeeds if and only if there are none; with the questions that are open;
/// or with nothing where a rule of the configuration cannot be read.
pub proof fn law_every_verification_is_answered(
    fields: Seq<(Seq<char>, Option<Seq<ItemView>>)>,
    expected: Option<Seq<u8>>,
    actual: Option<Seq<u8>>,
    answers: Seq<AnswerView>,
    r: Result<VerificationResult, VerifyStop>,
)
    requires
        can_answer_verify(fields, expected, actual, answers, r),
    ensures
        ({
            let table = kept_rules(fields);
            let questions = verification_questions(table, expected, actual, answers);
            match r {
                Ok(result) => {
                    &&& is_configuration_readable(fields)
                    &&& questions.len() == 0
                    &&& can_verify(
                        table,
                        expected,
                        actual,
                        answers,
                        mismatch_views(result.mismatches@),
                    )
                    &&& result.success <==> result.mismatches@.len() == 0
                },
                Err(VerifyStop::Open(asked)) => {
                    &&& is_configuration_readable(fields)
                    &&& questions.len() > 0
                    &&& question_views(asked@) == questions
                },
                Err(VerifyStop::Unreadable) => !is_configuration_readable(fields),
            }
        }),
{
    if let Ok(result) = r {
        assert(mismatch_views(result.mismatches@).len() == result.mismatches@.len());
    }
}

/// A verification succeeds only where both streams have as many events, every expected identifier
/// and all expected data came, and what nothing is filed for is equal.
pub proof fn law_successful_verifications_look_at_every_event(
    fields: Seq<(Seq<char>, Option<Seq<ItemView>>)>,
    expected: Seq<u8>,
    actual: Seq<u8>,
    answers: Seq<AnswerView>,
    result: VerificationResult,
)
    requires
        valid_utf8(expected),
        valid_utf8(actual),
        can_answer_verify(
            fields,
            Some(expected),
            Some(actual),
            answers,
            Ok::<_, VerifyStop>(result),
        ),
        result.success,
    ensures
        ({
            let table = kept_rules(fields);
            let exp = events_of(decode_utf8(expected));
            let act = events_of(decode_utf8(actual));
            &&& exp.len() == act.len()
            &&& forall|i: int|
                0 <= i < exp.len() ==> {
                    &&& (#[trigger] exp[i]).id is Some ==> act[i].id is Some
                    &&& exp[i].data is Some ==> act[i].data is Some
                    &&& table.dom().len() == 0 && table.dom().finite() && exp[i].data is Some
                        ==> exp[i].data == act[i].data
                    &&& table.dom().len() == 0 && table.dom().finite() && exp[i].id is Some
                        ==> exp[i].id == act[i].id
                }
        }),
{
    let table = kept_rules(fields);
    let exp = events_of(decode_utf8(expected));
    let act = events_of(decode_utf8(actual));
    law_verification_compares_the_whole_streams(
        fields,
        expected,
        actual,
        answers,
        Ok::<_, VerifyStop>(result),
    );
    assert(mismatch_views(result.mismatches@) =~= Seq::<MismatchView>::empty());
    law_streams_without_mismatches_agree(table, exp, act, answers);
    if table.dom().len() == 0 && table.dom().finite() {
        assert(table.dom() =~= Set::empty());
        assert forall|k: Seq<char>| !(#[trigger] table.contains_key(k)) by {
            assert(!table.dom().contains(k));
        }
        assert forall|i: int| 0 <= i < exp.len() implies {
            &&& exp[i].data is Some ==> (#[trigger] exp[i]).data == act[i].data
            &&& exp[i].id is Some ==> exp[i].id == act[i].id
        } by {
            if let Some(t) = exp[i].event {
                assert(!table.contains_key("data["@ + t + "][*]"@));
            }
        }
    }
}

/// A body that is no text holds no events; a body that is missing where one is expected is the one
/// mismatch, and where none is expected there is none.
pub proof fn law_bodies_that_are_no_text_hold_no_events(
    table: Map<Seq<char>, Seq<RuleView>>,
    expected: Seq<u8>,
    actual: Seq<u8>,
    any: Option<Seq<u8>>,
    answers: Seq<AnswerView>,
    mismatches: Seq<MismatchView>,
)
    ensures
        ({
            let exp = if valid_utf8(expected) {
                events_of(decode_utf8(expected))
            } else {
                seq![]
            };
            let act = if valid_utf8(actual) {
                events_of(decode_utf8(actual))
            } else {
                seq![]
            };
            &&& can_verify(table, Some(expected), Some(actual), answers, mismatches) <==> {
                &&& can_mismatch(table, exp, act, answers, mismatches)
                &&& is_table_determined(table) ==> mismatches == mismatches_of(
                    table,
                    exp,
                    act,
                    answers,
                )
            }
            &&& verification_questions(table, Some(expected), Some(actual), answers)
                == all_questions(table, exp, act, answers)
        }),
        can_verify(table, Some(expected), None, answers, mismatches) <==> mismatches == seq![
            (MismatchView {
                expected: Some(expected),
                actual: None,
                mismatch: "Expected SSE content, but did not get any"@,
                path: ""@,
                diff: ""@,
                mismatch_type: "body"@,
            }),
        ],
        can_verify(table, None, any, answers, mismatches) <==> mismatches == Seq::<
            MismatchView,
        >::empty(),
        verification_questions(table, None, any, answers).len() == 0,
        verification_questions(table, any, None, answers).len() == 0,
{
    lemma_no_events();
}

/// The rules that a configuration keeps are those of the lists in it whose names end with `rules`,
/// in their order: a field that is no list, whose name does not end so, or whose list is empty adds
/// nothing.
pub proof fn law_only_lists_of_rules_are_kept(
    fields: Seq<(Seq<char>, Option<Seq<ItemView>>)>,
    name: Seq<char>,
    items: Option<Seq<ItemView>>,
)
    ensures
        kept_rules(seq![]) == Map::<Seq<char>, Seq<RuleView>>::empty(),
        items is None || items->0.len() == 0 || !(name.len() >= 5 && name.skip(name.len() - 5)
            == "rules"@) ==> kept_rules(fields.push((name, items))) == kept_rules(fields),
{
    assert(fields.push((name, items)).drop_last() =~= fields);
}

/// One more item in a list of rules adds the rule that it asks for, by its `type` and its fields,
/// behind those that are there, under the key that stands before `rules` in the name; it adds
/// nothing where it is no structure or the rule cannot be had.
pub proof fn law_every_item_adds_its_rule(
    fields: Seq<(Seq<char>, Option<Seq<ItemView>>)>,
    key: Seq<char>,
    items: Seq<ItemView>,
    item: ItemView,
)
    requires
        !(key.len() >= 5 && key.skip(key.len() - 5) == "rules"@),
    ensures
        ({
            let name = key + "rules"@;
            let before = kept_rules(fields.push((name, Some(items))));
            let after = kept_rules(fields.push((name, Some(items.push(item)))));
            match item {
                ItemView::Other => after == before,
                ItemView::Struct(values) => {
                    let t = if values.contains_key("type"@) && values["type"@] is Text {
                        values["type"@]->Text_0
                    } else {
                        ""@
                    };
                    match rule_of(t, values) {
                        Err(_) => after == before,
                        Ok(rule) => after == before.insert(
                            key,
                            (if before.contains_key(key) {
                                before[key]
                            } else {
                                seq![]
                            }).push(rule),
                        ),
                    }
                },
            }
        }),
{
    reveal_strlit("rules");
    let name = key + "rules"@;
    assert(name.skip(name.len() - 5) =~= "rules"@);
    assert(name.take(name.len() - 5) =~= key);
    assert(ruled_key(key) == key);
    assert(ruled_key(name) == key);
    assert(fields.push((name, Some(items))).drop_last() =~= fields);
    assert(fields.push((name, Some(items.push(item)))).drop_last() =~= fields);
    assert(items.push(item).drop_last() =~= items);
}

/// Each `rules` at the end of a name is taken off.
pub proof fn law_repeated_suffixes_are_taken_off(
    fields: Seq<(Seq<char>, Option<Seq<ItemView>>)>,
    name: Seq<char>,
    items: Option<Seq<ItemView>>,
)
    requires
        name.len() >= 5 && name.skip(name.len() - 5) == "rules"@,
    ensures
        kept_rules(fields.push((name + "rules"@, items))) == kept_rules(
            fields.push((name, items)),
        ),
{
    reveal_strlit("rules");
    let long = name + "rules"@;
    assert(long.skip(long.len() - 5) =~= "rules"@);
    assert(long.take(long.len() - 5) =~= name);
    assert(ruled_key(long) == ruled_key(name));
    assert(fields.push((name, items)).drop_last() =~= fields);
    assert(fields.push((long, items)).drop_last() =~= fields);
}

/// A configuration is not read if and only if a list whose name ends with `rules` holds a structure
/// that asks, by its `type` and its fields, for a rule that cannot be read.
pub proof fn law_only_rules_that_cannot_be_read_stop_a_verification(
    fields: Seq<(Seq<char>, Option<Seq<ItemView>>)>,
)
    ensures
        !is_configuration_readable(fields) <==> exists|i: int, j: int|
            0 <= i < fields.len() && holds_unreadable(fields[i], j),
{
    if !is_configuration_readable(fields) {
        let i = choose|i: int|
            0 <= i < fields.len() && is_field_unreadable(#[trigger] fields[i]);
        let j = choose|j: int|
            0 <= j < fields[i].1->0.len() && is_item_unreadable(#[trigger] fields[i].1->0[j]);
        assert(holds_unreadable(fields[i], j));
    }
    if exists|i: int, j: int| 0 <= i < fields.len() && holds_unreadable(fields[i], j) {
        let (i, j) = choose|i: int, j: int|
            0 <= i < fields.len() && holds_unreadable(fields[i], j);
        assert(is_item_unreadable(fields[i].1->0[j]));
        assert(is_field_unreadable(fields[i]));
    }
}

/// Whether a field is a list whose name ends with `rules`, and the item at the index is a structure
/// that asks for a rule that cannot be read.
pub open spec fn holds_unreadable(field: (Seq<char>, Option<Seq<ItemView>>), j: int) -> bool {
    &&& field.0.len() >= 5 && field.0.skip(field.0.len() - 5) == "rules"@
    &&& field.1 matches Some(items) && 0 <= j < items.len() && (
    items[j] matches ItemView::Struct(values) && (rule_of(
        if values.contains_key("type"@) && values["type"@] is Text {
            values["type"@]->Text_0
        } else {
            ""@
        },
        values,
    ) matches Err(RuleErrorView::Unreadable)))
}

/// Content on one side only is one mismatch, which says so; with no content on either side there is
/// none.
pub proof fn law_content_on_one_side_is_a_mismatch(
    request: CompareContentsRequest,
    answers: Seq<AnswerView>,
    r: Result<CompareContentsResponse, CompareStop>,
    bytes: Seq<u8>,
)
    requires
        can_answer_compare(request, answers, r),
    ensures
        request.expected is None && request.actual is Some && content_of(request.actual) == Some(
            bytes,
        ) ==> {
            &&& r is Ok && r->Ok_0.error@ == ""@
            &&& r->Ok_0.results@.dom() =~= set![""@]
            &&& r->Ok_0.results@[""@] == seq![
                (MismatchView {
                    expected: None,
                    actual: Some(bytes),
                    mismatch: "Expected no SSE content, but got "@ + decimal(bytes.len())
                        + " bytes"@,
                    path: ""@,
                    diff: ""@,
                    mismatch_type: "body"@,
                }),
            ]
        },
        request.actual is None && request.expected is Some && content_of(request.expected) == Some(
            bytes,
        ) ==> {
            &&& r is Ok && r->Ok_0.error@ == ""@
            &&& r->Ok_0.results@.dom() =~= set![""@]
            &&& r->Ok_0.results@[""@] == seq![
                (MismatchView {
                    expected: Some(bytes),
                    actual: None,
                    mismatch: "Expected SSE content, but did not get any"@,
                    path: ""@,
                    diff: ""@,
                    mismatch_type: "body"@,
                }),
            ]
        },
        request.actual is None && request.expected is None ==> {
            &&& r is Ok && r->Ok_0.error@ == ""@
            &&& r->Ok_0.results@ == Map::<Seq<char>, Seq<MismatchView>>::empty()
        },
{
}

/// Contents that are text are compared with all their events by the rules of the request; where one
/// is no text, the request is given up with why, and what was expected is read first.
pub proof fn law_contents_are_compared_event_by_event(
    request: CompareContentsRequest,
    expected: Seq<u8>,
    actual: Seq<u8>,
    answers: Seq<AnswerView>,
    r: Result<CompareContentsResponse, CompareStop>,
)
    requires
        request.expected is Some,
        request.actual is Some,
        content_of(request.expected) == Some(expected),
        content_of(request.actual) == Some(actual),
        can_answer_compare(request, answers, r),
    ensures
        !valid_utf8(expected) ==> (r matches Err(CompareStop::Aborted(text)) && text@
            == "Failed to parse expected SSE: "@ + utf8_error(expected)),
        valid_utf8(expected) && !valid_utf8(actual) ==> (r matches Err(CompareStop::Aborted(text))
            && text@ == "Failed to parse actual SSE: "@ + utf8_error(actual)),
        valid_utf8(expected) && valid_utf8(actual) ==> {
            let exp = events_of(decode_utf8(expected));
            let act = events_of(decode_utf8(actual));
            let questions = all_questions(request.rules@, exp, act, answers);
            match r {
                Ok(response) => {
                    &&& questions.len() == 0
                    &&& response.error@ == ""@
                    &&& response.results@.dom() =~= set![""@]
                    &&& can_mismatch(request.rules@, exp, act, answers, response.results@[""@])
                },
                Err(CompareStop::Open(asked)) => questions.len() > 0 && question_views(asked@)
                    == questions,
                Err(CompareStop::Aborted(_)) => false,
            }
        },
{
    if valid_utf8(expected) && valid_utf8(actual) {
        if let Ok(response) = r {
            law_responses_list_the_mismatches_of_the_streams(
                decode_utf8(expected),
                decode_utf8(actual),
                request.allow_unexpected_keys,
                request.rules@,
                answers,
                response,
            );
        }
    }
}

/// A request to generate content is answered as the generation goes: with what was generated, with
/// the reason for a refusal behind a lead that says what failed, or with the draws to be told.
pub proof fn law_generation_is_answered_as_it_goes(
    generators: Seq<RequestedView>,
    contents: Option<Seq<u8>>,
    told: Seq<ToldView>,
    r: Result<GeneratedContent, GenerationStop>,
)
    requires
        can_answer_generate(generators, contents, told, r),
    ensures
        match r {
            Ok(g) => is_generated(generators, contents, told, g),
            Err(GenerationStop::Refused(text)) => exists|reason: Seq<char>|
                #[trigger] is_refused(generators, contents, told, reason) && text@
                    == "Failed to generate SSE contents: "@ + reason,
            Err(GenerationStop::Open(draws)) => draws@.len() > 0 && open_views(draws@)
                == generation_draws(generators, contents, told),
        },
{
}

/// Contents can be compared unless a body that is there has no content; what came is not looked at
/// where what was expected is no text.
pub proof fn law_only_bodies_without_content_are_not_compared(request: CompareContentsRequest)
    ensures
        is_comparable(request) <==> {
            &&& request.expected is Some ==> content_of(request.expected) is Some
            &&& request.actual is Some && content_of(request.actual) is None ==> request.expected
                is Some && !valid_utf8(content_of(request.expected)->0)
        },
{
}

} // verus!
