//! The labels of what a rule puts out.

use vstd::prelude::*;

use crate::names;
use crate::ordered;
use crate::ordered::KeyMap;
use crate::rules::types::Texts;
use crate::rules::types::TextsView;
use crate::rules::validate;
use crate::series::Label;
use crate::series::LabelView;
use crate::stable;
use crate::text;

verus! {

/// Labels by name, the last of each name.
pub open spec fn labels_by_name(labels: Seq<LabelView>) -> TextsView
    decreases labels.len(),
{
    if labels.len() == 0 {
        Map::empty()
    } else {
        labels_by_name(labels.drop_last()).insert(labels.last().name, labels.last().value)
    }
}

/// The labels of a sample, with those of the group in place of them, and those of the rule in place
/// of both.
pub open spec fn merged(sample: Seq<LabelView>, group: TextsView, rule: TextsView) -> TextsView {
    labels_by_name(sample).union_prefer_right(group).union_prefer_right(rule)
}

/// What is wrong with one label that a rule puts out.
pub open spec fn output_pair_problem(
    name: Seq<char>,
    value: Seq<char>,
    tenant_label: Seq<char>,
) -> Option<Seq<char>> {
    if text::trimmed(name).len() == 0 || name == tenant_label || name == "__name__"@
        || text::utf8_len(name) > validate::MAX_LABEL_NAME_LEN {
        Some("rule output contains an invalid label name"@)
    } else if text::trimmed(value).len() == 0 || text::utf8_len(value)
        > validate::MAX_LABEL_VALUE_LEN {
        Some("rule output contains an invalid label value"@)
    } else {
        None
    }
}

/// What is wrong with the first label that is wrong.
pub open spec fn output_problem(
    pairs: Seq<(Seq<char>, Seq<char>)>,
    tenant_label: Seq<char>,
) -> Option<Seq<char>>
    decreases pairs.len(),
{
    if pairs.len() == 0 {
        None
    } else if output_problem(pairs.drop_last(), tenant_label) is Some {
        output_problem(pairs.drop_last(), tenant_label)
    } else {
        output_pair_problem(pairs.last().0, pairs.last().1, tenant_label)
    }
}

/// What is wrong with merged labels.
pub open spec fn merged_problem(texts: TextsView, tenant_label: Seq<char>) -> Option<Seq<char>> {
    output_problem(ordered::listing::<String, Seq<char>>(texts), tenant_label)
}

/// Pairs as labels.
pub open spec fn as_labels(pairs: Seq<(Seq<char>, Seq<char>)>) -> Seq<LabelView> {
    Seq::new(pairs.len(), |i: int| LabelView { name: pairs[i].0, value: pairs[i].1 })
}

/// Texts by name as labels, in the order of the names.
pub open spec fn listed_labels(texts: TextsView) -> Seq<LabelView> {
    as_labels(ordered::listing::<String, Seq<char>>(texts))
}

proof fn lemma_output_stops(
    pairs: Seq<(Seq<char>, Seq<char>)>,
    n: int,
    tenant_label: Seq<char>,
)
    requires
        0 <= n <= pairs.len(),
        output_problem(pairs.subrange(0, n), tenant_label) is Some,
    ensures
        output_problem(pairs, tenant_label) == output_problem(pairs.subrange(0, n), tenant_label),
    decreases pairs.len() - n,
{
    if n == pairs.len() {
        assert(pairs.subrange(0, n) =~= pairs);
    } else {
        assert(pairs.subrange(0, n + 1).drop_last() =~= pairs.subrange(0, n));
        lemma_output_stops(pairs, n + 1, tenant_label);
    }
}

fn check_output(texts: &Texts, tenant_label: &str) -> (checked: Result<(), String>)
    ensures
        match merged_problem(texts@, tenant_label@) {
            None => checked is Ok,
            Some(problem) => checked matches Err(message) && message@ == problem,
        },
{
    let count = texts.len();
    let ghost pairs = texts.entries();
    proof {
        ordered::lemma_listing::<String, Seq<char>>(pairs);
        assert(pairs.subrange(0, 0) =~= Seq::empty());
    }
    let mut i: usize = 0;
    while i < count
        invariant
            i <= count,
            count == pairs.len(),
            pairs == texts.entries(),
            pairs == ordered::listing::<String, Seq<char>>(texts@),
            output_problem(pairs.subrange(0, i as int), tenant_label@) is None,
        decreases count - i,
    {
        let name = texts.key_at(i).as_str();
        let value = texts.value_at(i).as_str();
        proof {
            assert(pairs.subrange(0, i as int + 1).drop_last() =~= pairs.subrange(0, i as int));
            if output_problem(pairs.subrange(0, i as int + 1), tenant_label@) is Some {
                lemma_output_stops(pairs, i as int + 1, tenant_label@);
            }
        }
        if text::trim(name).unicode_len() == 0 || names::same_text(name, tenant_label)
            || names::same_text(name, "__name__") || text::byte_len(name)
            > validate::MAX_LABEL_NAME_LEN {
            return Err(text::owned("rule output contains an invalid label name"));
        }
        if text::trim(value).unicode_len() == 0 || text::byte_len(value)
            > validate::MAX_LABEL_VALUE_LEN {
            return Err(text::owned("rule output contains an invalid label value"));
        }
        i = i + 1;
    }
    assert(pairs.subrange(0, i as int) =~= pairs);
    Ok(())
}

fn by_name(labels: &Vec<Label>) -> (texts: Texts)
    ensures
        texts@ == labels_by_name(stable::views(labels@)),
{
    let ghost all = stable::views(labels@);
    let mut texts: Texts = KeyMap::new();
    let mut i: usize = 0;
    assert(all.subrange(0, 0) =~= Seq::empty());
    while i < labels.len()
        invariant
            i <= labels@.len(),
            all == stable::views(labels@),
            texts@ == labels_by_name(all.subrange(0, i as int)),
        decreases labels@.len() - i,
    {
        proof {
            assert(all.subrange(0, i as int + 1).drop_last() =~= all.subrange(0, i as int));
        }
        texts.insert(
            text::owned(labels[i].name.as_str()),
            text::owned(labels[i].value.as_str()),
        );
        i = i + 1;
    }
    assert(all.subrange(0, i as int) =~= all);
    texts
}

/// The merged labels by name, if nothing is wrong with them.
pub fn merged_texts(
    sample_labels: &Vec<Label>,
    group_labels: &Texts,
    rule_labels: &Texts,
    tenant_label: &str,
) -> (texts: Result<Texts, String>)
    ensures
        ({
            let all = merged(stable::views(sample_labels@), group_labels@, rule_labels@);
            match merged_problem(all, tenant_label@) {
                None => texts matches Ok(found) && found@ == all,
                Some(problem) => texts matches Err(message) && message@ == problem,
            }
        }),
{
    let mut texts = by_name(sample_labels);
    texts.absorb(group_labels);
    texts.absorb(rule_labels);
    match check_output(&texts, tenant_label) {
        Err(message) => Err(message),
        Ok(_) => Ok(texts),
    }
}

/// Texts by name as labels, in the order of the names.
pub fn labels_from(texts: &Texts) -> (labels: Vec<Label>)
    ensures
        stable::views(labels@) == listed_labels(texts@),
{
    let count = texts.len();
    let ghost pairs = texts.entries();
    proof {
        ordered::lemma_listing::<String, Seq<char>>(pairs);
    }
    let mut labels: Vec<Label> = Vec::with_capacity(count);
    let mut i: usize = 0;
    while i < count
        invariant
            i <= count,
            count == pairs.len(),
            pairs == texts.entries(),
            labels@.len() == i,
            forall|k: int|
                0 <= k < i ==> (#[trigger] labels@[k])@ == (LabelView {
                    name: pairs[k].0,
                    value: pairs[k].1,
                }),
        decreases count - i,
    {
        labels.push(Label::new(texts.key_at(i).as_str(), texts.value_at(i).as_str()));
        i = i + 1;
    }
    assert(stable::views(labels@) =~= as_labels(pairs));
    labels
}

/// The merged labels in order, if nothing is wrong with them.
pub fn merged_rule_labels(
    sample_labels: &Vec<Label>,
    group_labels: &Texts,
    rule_labels: &Texts,
    tenant_label: &str,
) -> (labels: Result<Vec<Label>, String>)
    ensures
        ({
            let all = merged(stable::views(sample_labels@), group_labels@, rule_labels@);
            match merged_problem(all, tenant_label@) {
                None => labels matches Ok(found) && stable::views(found@) == listed_labels(all),
                Some(problem) => labels matches Err(message) && message@ == problem,
            }
        }),
{
    match merged_texts(sample_labels, group_labels, rule_labels, tenant_label) {
        Err(message) => Err(message),
        Ok(texts) => Ok(labels_from(&texts)),
    }
}

/// A label of the rule goes before one of the group, and one of the group before one of the sample.
pub proof fn lemma_merged_precedence(
    sample: Seq<LabelView>,
    group: TextsView,
    rule: TextsView,
    name: Seq<char>,
)
    ensures
        rule.contains_key(name) ==> merged(sample, group, rule).contains_key(name) && merged(
            sample,
            group,
            rule,
        )[name] == rule[name],
        !rule.contains_key(name) && group.contains_key(name) ==> merged(
            sample,
            group,
            rule,
        ).contains_key(name) && merged(sample, group, rule)[name] == group[name],
        !rule.contains_key(name) && !group.contains_key(name) ==> (merged(
            sample,
            group,
            rule,
        ).contains_key(name) <==> labels_by_name(sample).contains_key(name)) && (
        labels_by_name(sample).contains_key(name) ==> merged(sample, group, rule)[name]
            == labels_by_name(sample)[name]),
{
}

} // verus!
