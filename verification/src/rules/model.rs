//! How many bytes rules and their state are modeled to hold.

use vstd::layout;
use vstd::prelude::*;

use crate::capacity;
use crate::ordered;
use crate::remote_read::model as growth;
use crate::rules::types::AlertInstanceState;
use crate::rules::types::AlertInstanceView;
use crate::rules::types::PersistedRuleRuntimeState;
use crate::rules::types::PersistedRulesStoreState;
use crate::rules::types::RuleGroupSpec;
use crate::rules::types::RuleGroupView;
use crate::rules::types::RuleSpec;
use crate::rules::types::RuleView;
use crate::rules::types::RulesStateView;
use crate::rules::types::RuntimeMap;
use crate::rules::types::RuntimeView;
use crate::rules::types::Texts;
use crate::rules::types::TextsView;
use crate::series::Label;
use crate::series::LabelView;
use crate::sizes;
use crate::stable;
use crate::text;

verus! {

/// What one allocation is counted beyond what it holds.
pub const RULES_ALLOCATION_ALLOWANCE_BYTES: usize = 64;

/// The bytes of an allocation that holds a number of bytes.
pub open spec fn allocation(payload: nat) -> nat {
    if payload == 0 {
        0
    } else {
        payload + RULES_ALLOCATION_ALLOWANCE_BYTES as nat
    }
}

/// The bytes of a text.
pub open spec fn text_cost(text: Seq<char>) -> nat {
    allocation(text::utf8_len(text))
}

/// The bytes of a text that may be absent.
pub open spec fn opt_text_cost(text: Option<Seq<char>>) -> nat {
    match text {
        Some(value) => text_cost(value),
        None => 0,
    }
}

/// The bytes of a list of items of a type.
pub open spec fn list_cost<T>(len: nat) -> nat {
    allocation(len * layout::size_of::<T>())
}

/// The bytes of the node that holds one pair of texts.
pub open spec fn text_node_cost() -> nat {
    allocation(layout::size_of::<String>() * 2 + layout::size_of::<usize>() * 4)
}

/// The bytes of pairs of texts.
pub open spec fn text_pairs_cost(entries: Seq<(Seq<char>, Seq<char>)>) -> nat
    decreases entries.len(),
{
    if entries.len() == 0 {
        0
    } else {
        text_pairs_cost(entries.drop_last()) + text_node_cost() + text_cost(entries.last().0)
            + text_cost(entries.last().1)
    }
}

/// The bytes of texts by name.
pub open spec fn texts_cost(texts: TextsView) -> nat {
    text_pairs_cost(ordered::listing::<String, Seq<char>>(texts))
}

/// The bytes of labels, without their list.
pub open spec fn label_texts_cost(labels: Seq<LabelView>) -> nat
    decreases labels.len(),
{
    if labels.len() == 0 {
        0
    } else {
        label_texts_cost(labels.drop_last()) + text_cost(labels.last().name) + text_cost(
            labels.last().value,
        )
    }
}

/// The bytes of a rule.
pub open spec fn rule_cost(rule: RuleView) -> nat {
    match rule {
        RuleView::Recording(spec) => text_cost(spec.record) + text_cost(spec.expr) + texts_cost(
            spec.labels,
        ),
        RuleView::Alert(spec) => text_cost(spec.alert) + text_cost(spec.expr) + texts_cost(
            spec.labels,
        ) + texts_cost(spec.annotations),
    }
}

/// The bytes of rules, without their list.
pub open spec fn rules_cost(rules: Seq<RuleView>) -> nat
    decreases rules.len(),
{
    if rules.len() == 0 {
        0
    } else {
        rules_cost(rules.drop_last()) + rule_cost(rules.last())
    }
}

/// The bytes of a group.
pub open spec fn group_cost(group: RuleGroupView) -> nat {
    text_cost(group.name) + text_cost(group.tenant_id) + texts_cost(group.labels) + list_cost::<
        RuleSpec,
    >(group.rules.len()) + rules_cost(group.rules)
}

/// The bytes of the first groups, without their list.
pub open spec fn each_group_cost(groups: Seq<RuleGroupView>) -> nat
    decreases groups.len(),
{
    if groups.len() == 0 {
        0
    } else {
        each_group_cost(groups.drop_last()) + group_cost(groups.last())
    }
}

/// The bytes of groups.
pub open spec fn groups_cost(groups: Seq<RuleGroupView>) -> nat {
    list_cost::<RuleGroupSpec>(groups.len()) + each_group_cost(groups)
}

/// The bytes of an alert.
pub open spec fn instance_cost(instance: AlertInstanceView) -> nat {
    text_cost(instance.key) + text_cost(instance.source_metric) + list_cost::<Label>(
        instance.labels.len(),
    ) + label_texts_cost(instance.labels) + text_cost(instance.sample_type) + opt_text_cost(
        instance.sample_value,
    )
}

/// The bytes of alerts, without their list.
pub open spec fn instances_cost(instances: Seq<AlertInstanceView>) -> nat
    decreases instances.len(),
{
    if instances.len() == 0 {
        0
    } else {
        instances_cost(instances.drop_last()) + instance_cost(instances.last())
    }
}

/// The bytes of what is known of the evaluation of a rule.
pub open spec fn runtime_cost(runtime: RuntimeView) -> nat {
    opt_text_cost(runtime.last_error) + list_cost::<AlertInstanceState>(
        runtime.alert_instances.len(),
    ) + instances_cost(runtime.alert_instances)
}

/// The bytes of the node that holds what is known of the evaluation of a rule.
pub open spec fn runtime_node_cost() -> nat {
    allocation(
        layout::size_of::<String>() + layout::size_of::<PersistedRuleRuntimeState>()
            + layout::size_of::<usize>() * 4,
    )
}

/// The bytes of what is known of the evaluation of one rule, by its identifier.
pub open spec fn runtime_entry_cost(id: Seq<char>, runtime: RuntimeView) -> nat {
    runtime_node_cost() + text_cost(id) + runtime_cost(runtime)
}

/// The bytes of what is known of evaluations.
pub open spec fn runtime_entries_cost(entries: Seq<(Seq<char>, RuntimeView)>) -> nat
    decreases entries.len(),
{
    if entries.len() == 0 {
        0
    } else {
        runtime_entries_cost(entries.drop_last()) + runtime_entry_cost(
            entries.last().0,
            entries.last().1,
        )
    }
}

/// The bytes of what is known of evaluations, by the identifiers of rules.
pub open spec fn runtime_map_cost(runtime: Map<Seq<char>, RuntimeView>) -> nat {
    runtime_entries_cost(ordered::listing::<String, RuntimeView>(runtime))
}

/// The bytes of the whole state.
pub open spec fn state_cost(state: RulesStateView) -> nat {
    layout::size_of::<PersistedRulesStoreState>() + groups_cost(state.groups) + runtime_map_cost(
        state.runtime,
    )
}

/// Whether a state may be measured to hold a number of bytes: it holds at least what it takes
/// without spare room. How far it is above is the allocator's choice.
pub open spec fn state_measures(state: RulesStateView, bytes: usize) -> bool {
    bytes >= sizes::sat_size(state_cost(state) as int)
}

/// The bytes of an allocation that holds a number of bytes.
pub fn modeled_allocation_bytes(payload_bytes: usize) -> (bytes: usize)
    ensures
        bytes == sizes::sat_size(allocation(payload_bytes as nat) as int),
{
    if payload_bytes == 0 {
        0
    } else {
        payload_bytes.saturating_add(RULES_ALLOCATION_ALLOWANCE_BYTES)
    }
}

/// The bytes of a list of a number of items.
pub fn modeled_vec_len_bytes<T>(len: usize) -> (bytes: usize)
    ensures
        bytes == sizes::sat_size(list_cost::<T>(len as nat) as int),
{
    modeled_allocation_bytes(sizes::times_size(len, core::mem::size_of::<T>()))
}

/// The bytes of a copy of a text.
pub fn modeled_string_clone_upper_bytes(value: &str) -> (bytes: usize)
    ensures
        bytes == sizes::sat_size(text_cost(value@) as int),
{
    modeled_allocation_bytes(text::byte_len(value))
}

/// The bytes of a text, with the room it has.
pub fn modeled_owned_string_bytes(value: &String) -> (bytes: usize)
    ensures
        bytes >= sizes::sat_size(text_cost(value@) as int),
        text::utf8_len(value@) <= usize::MAX,
{
    modeled_allocation_bytes(capacity::string_capacity(value))
}

/// The bytes of a text that may be absent, with the room it has.
pub fn modeled_owned_option_bytes(value: &Option<String>) -> (bytes: usize)
    ensures
        bytes >= sizes::sat_size(opt_text_cost(text::opt_text(*value)) as int),
{
    match value {
        Some(text) => modeled_owned_string_bytes(text),
        None => 0,
    }
}

/// The bytes of a list, with the room it has.
pub fn modeled_owned_vec_bytes<T>(values: &Vec<T>) -> (bytes: usize)
    ensures
        bytes >= sizes::sat_size(list_cost::<T>(values@.len()) as int),
{
    let room = capacity::vec_capacity(values);
    proof {
        let size = layout::size_of::<T>();
        let len = values@.len();
        assert(len * size <= room * size) by (nonlinear_arith)
            requires
                len <= room,
                size >= 0,
        ;
    }
    modeled_vec_len_bytes::<T>(room)
}

/// The bytes of labels, with the room they have.
pub fn modeled_labels_bytes(labels: &Vec<Label>) -> (bytes: usize)
    ensures
        bytes >= sizes::sat_size(
            list_cost::<Label>(labels@.len()) as int + label_texts_cost(stable::views(labels@)),
        ),
{
    let ghost all = stable::views(labels@);
    let mut texts: usize = 0;
    let mut i: usize = 0;
    assert(all.subrange(0, 0) =~= Seq::empty());
    while i < labels.len()
        invariant
            i <= labels@.len(),
            all == stable::views(labels@),
            texts >= sizes::sat_size(label_texts_cost(all.subrange(0, i as int)) as int),
        decreases labels@.len() - i,
    {
        proof {
            assert(all.subrange(0, i as int + 1).drop_last() =~= all.subrange(0, i as int));
        }
        texts =
        texts.saturating_add(modeled_owned_string_bytes(&labels[i].name)).saturating_add(
            modeled_owned_string_bytes(&labels[i].value),
        );
        i = i + 1;
    }
    assert(all.subrange(0, i as int) =~= all);
    modeled_owned_vec_bytes(labels).saturating_add(texts)
}

fn text_node_bytes() -> (bytes: usize)
    ensures
        bytes == sizes::sat_size(text_node_cost() as int),
{
    modeled_allocation_bytes(
        sizes::times_size(core::mem::size_of::<String>(), 2).saturating_add(
            sizes::times_size(core::mem::size_of::<usize>(), 4),
        ),
    )
}

/// The bytes of texts by name, with the room they have.
pub fn modeled_string_map_bytes(values: &Texts) -> (bytes: usize)
    ensures
        bytes >= sizes::sat_size(texts_cost(values@) as int),
{
    let count = values.len();
    let ghost all = values.entries();
    let node = text_node_bytes();
    let mut bytes: usize = 0;
    let mut i: usize = 0;
    assert(all.subrange(0, 0) =~= Seq::empty());
    while i < count
        invariant
            i <= count,
            count == all.len(),
            all == values.entries(),
            node == sizes::sat_size(text_node_cost() as int),
            bytes >= sizes::sat_size(text_pairs_cost(all.subrange(0, i as int)) as int),
        decreases count - i,
    {
        proof {
            assert(all.subrange(0, i as int + 1).drop_last() =~= all.subrange(0, i as int));
        }
        bytes =
        bytes.saturating_add(node).saturating_add(
            modeled_owned_string_bytes(values.key_at(i)),
        ).saturating_add(modeled_owned_string_bytes(values.value_at(i)));
        i = i + 1;
    }
    proof {
        assert(all.subrange(0, i as int) =~= all);
        ordered::lemma_listing::<String, Seq<char>>(all);
    }
    bytes
}

/// The bytes of copies of texts by name.
pub fn modeled_string_map_clone_upper_bytes(values: &Texts) -> (bytes: usize)
    ensures
        bytes == sizes::sat_size(texts_cost(values@) as int),
{
    let count = values.len();
    let ghost all = values.entries();
    let node = text_node_bytes();
    let mut bytes: usize = 0;
    let mut i: usize = 0;
    assert(all.subrange(0, 0) =~= Seq::empty());
    while i < count
        invariant
            i <= count,
            count == all.len(),
            all == values.entries(),
            node == sizes::sat_size(text_node_cost() as int),
            bytes == sizes::sat_size(text_pairs_cost(all.subrange(0, i as int)) as int),
        decreases count - i,
    {
        proof {
            assert(all.subrange(0, i as int + 1).drop_last() =~= all.subrange(0, i as int));
        }
        bytes =
        bytes.saturating_add(node).saturating_add(
            modeled_string_clone_upper_bytes(values.key_at(i).as_str()),
        ).saturating_add(modeled_string_clone_upper_bytes(values.value_at(i).as_str()));
        i = i + 1;
    }
    proof {
        assert(all.subrange(0, i as int) =~= all);
        ordered::lemma_listing::<String, Seq<char>>(all);
    }
    bytes
}

/// The bytes of a rule, with the room it has.
pub fn modeled_rule_heap_bytes(rule: &RuleSpec) -> (bytes: usize)
    ensures
        bytes >= sizes::sat_size(rule_cost(rule@) as int),
{
    match rule {
        RuleSpec::Recording(spec) => modeled_owned_string_bytes(&spec.record).saturating_add(
            modeled_owned_string_bytes(&spec.expr),
        ).saturating_add(modeled_string_map_bytes(&spec.labels)),
        RuleSpec::Alert(spec) => modeled_owned_string_bytes(&spec.alert).saturating_add(
            modeled_owned_string_bytes(&spec.expr),
        ).saturating_add(modeled_string_map_bytes(&spec.labels)).saturating_add(
            modeled_string_map_bytes(&spec.annotations),
        ),
    }
}

/// The bytes of a group, with the room it has.
pub fn modeled_group_heap_bytes(group: &RuleGroupSpec) -> (bytes: usize)
    ensures
        bytes >= sizes::sat_size(group_cost(group@) as int),
{
    let ghost all = stable::views(group.rules@);
    let mut rules: usize = 0;
    let mut i: usize = 0;
    assert(all.subrange(0, 0) =~= Seq::empty());
    while i < group.rules.len()
        invariant
            i <= group.rules@.len(),
            all == stable::views(group.rules@),
            rules >= sizes::sat_size(rules_cost(all.subrange(0, i as int)) as int),
        decreases group.rules@.len() - i,
    {
        proof {
            assert(all.subrange(0, i as int + 1).drop_last() =~= all.subrange(0, i as int));
        }
        rules = rules.saturating_add(modeled_rule_heap_bytes(&group.rules[i]));
        i = i + 1;
    }
    assert(all.subrange(0, i as int) =~= all);
    modeled_owned_string_bytes(&group.name).saturating_add(
        modeled_owned_string_bytes(&group.tenant_id),
    ).saturating_add(modeled_string_map_bytes(&group.labels)).saturating_add(
        modeled_owned_vec_bytes(&group.rules),
    ).saturating_add(rules)
}

/// The bytes of groups, with the room they have.
pub fn modeled_groups_bytes(groups: &Vec<RuleGroupSpec>) -> (bytes: usize)
    ensures
        bytes >= sizes::sat_size(groups_cost(stable::views(groups@)) as int),
{
    let ghost all = stable::views(groups@);
    let mut each: usize = 0;
    let mut i: usize = 0;
    assert(all.subrange(0, 0) =~= Seq::empty());
    while i < groups.len()
        invariant
            i <= groups@.len(),
            all == stable::views(groups@),
            each >= sizes::sat_size(each_group_cost(all.subrange(0, i as int)) as int),
        decreases groups@.len() - i,
    {
        proof {
            assert(all.subrange(0, i as int + 1).drop_last() =~= all.subrange(0, i as int));
        }
        each = each.saturating_add(modeled_group_heap_bytes(&groups[i]));
        i = i + 1;
    }
    assert(all.subrange(0, i as int) =~= all);
    modeled_owned_vec_bytes(groups).saturating_add(each)
}

/// The bytes of an alert, with the room it has.
pub fn modeled_alert_instance_heap_bytes(instance: &AlertInstanceState) -> (bytes: usize)
    ensures
        bytes >= sizes::sat_size(instance_cost(instance@) as int),
{
    modeled_owned_string_bytes(&instance.key).saturating_add(
        modeled_owned_string_bytes(&instance.source_metric),
    ).saturating_add(modeled_labels_bytes(&instance.labels)).saturating_add(
        modeled_owned_string_bytes(&instance.sample_type),
    ).saturating_add(modeled_owned_option_bytes(&instance.sample_value))
}

/// The bytes of alerts, with the room they have, without their list.
pub fn modeled_instances_bytes(instances: &Vec<AlertInstanceState>) -> (bytes: usize)
    ensures
        bytes >= sizes::sat_size(instances_cost(stable::views(instances@)) as int),
{
    let ghost all = stable::views(instances@);
    let mut bytes: usize = 0;
    let mut i: usize = 0;
    assert(all.subrange(0, 0) =~= Seq::empty());
    while i < instances.len()
        invariant
            i <= instances@.len(),
            all == stable::views(instances@),
            bytes >= sizes::sat_size(instances_cost(all.subrange(0, i as int)) as int),
        decreases instances@.len() - i,
    {
        proof {
            assert(all.subrange(0, i as int + 1).drop_last() =~= all.subrange(0, i as int));
        }
        bytes = bytes.saturating_add(modeled_alert_instance_heap_bytes(&instances[i]));
        i = i + 1;
    }
    assert(all.subrange(0, i as int) =~= all);
    bytes
}

/// The bytes of what is known of the evaluation of a rule, with the room it has.
pub fn modeled_runtime_state_heap_bytes(state: &PersistedRuleRuntimeState) -> (bytes: usize)
    ensures
        bytes >= sizes::sat_size(runtime_cost(state@) as int),
{
    modeled_owned_option_bytes(&state.last_error).saturating_add(
        modeled_owned_vec_bytes(&state.alert_instances),
    ).saturating_add(modeled_instances_bytes(&state.alert_instances))
}

/// The bytes of the node that holds what is known of the evaluation of a rule.
pub fn modeled_runtime_map_node_bytes() -> (bytes: usize)
    ensures
        bytes == sizes::sat_size(runtime_node_cost() as int),
{
    modeled_allocation_bytes(
        core::mem::size_of::<String>().saturating_add(
            core::mem::size_of::<PersistedRuleRuntimeState>(),
        ).saturating_add(sizes::times_size(core::mem::size_of::<usize>(), 4)),
    )
}

/// The bytes of what is known of the evaluation of one rule, by its identifier, with the room it
/// has.
pub fn modeled_runtime_entry_bytes(rule_id: &String, state: &PersistedRuleRuntimeState) -> (bytes:
    usize)
    ensures
        bytes >= sizes::sat_size(runtime_entry_cost(rule_id@, state@) as int),
        text::utf8_len(rule_id@) <= usize::MAX,
{
    modeled_runtime_map_node_bytes().saturating_add(
        modeled_owned_string_bytes(rule_id),
    ).saturating_add(modeled_runtime_state_heap_bytes(state))
}

/// Whether what is known of evaluations is a table in memory: its keys can be listed in order, and
/// their number and the bytes of each are machine words.
pub open spec fn is_table(runtime: Map<Seq<char>, RuntimeView>) -> bool {
    &&& ordered::listable::<String, RuntimeView>(runtime)
    &&& ordered::listing::<String, RuntimeView>(runtime).len() <= usize::MAX
    &&& forall|id: Seq<char>| #[trigger]
        runtime.contains_key(id) ==> text::utf8_len(id) <= usize::MAX
}

/// The bytes of what is known of evaluations, with the room it has.
pub fn modeled_runtime_map_bytes(runtime: &RuntimeMap) -> (bytes: usize)
    ensures
        bytes >= sizes::sat_size(runtime_map_cost(runtime@) as int),
        is_table(runtime@),
{
    let count = runtime.len();
    let ghost all = runtime.entries();
    let mut bytes: usize = 0;
    let mut i: usize = 0;
    assert(all.subrange(0, 0) =~= Seq::empty());
    while i < count
        invariant
            i <= count,
            count == all.len(),
            all == runtime.entries(),
            bytes >= sizes::sat_size(runtime_entries_cost(all.subrange(0, i as int)) as int),
            forall|k: int| 0 <= k < i ==> text::utf8_len(#[trigger] all[k].0) <= usize::MAX,
        decreases count - i,
    {
        proof {
            assert(all.subrange(0, i as int + 1).drop_last() =~= all.subrange(0, i as int));
        }
        bytes =
        bytes.saturating_add(modeled_runtime_entry_bytes(runtime.key_at(i), runtime.value_at(i)));
        i = i + 1;
    }
    proof {
        assert(all.subrange(0, i as int) =~= all);
        ordered::lemma_listing::<String, RuntimeView>(all);
        assert forall|id: Seq<char>| #[trigger] runtime@.contains_key(id) implies text::utf8_len(id)
            <= usize::MAX by {
            let k = choose|k: int| ordered::key_stands::<String, RuntimeView>(all, id, k);
            assert(text::utf8_len(all[k].0) <= usize::MAX);
        }
    }
    bytes
}

/// The bytes of the whole state, with the room it has.
pub fn modeled_rules_state_bytes(state: &PersistedRulesStoreState) -> (bytes: usize)
    ensures
        bytes >= sizes::sat_size(state_cost(state@) as int),
        is_table(state@.runtime),
{
    core::mem::size_of::<PersistedRulesStoreState>().saturating_add(
        modeled_groups_bytes(&state.groups),
    ).saturating_add(modeled_runtime_map_bytes(&state.runtime))
}

/// The bytes of the whole state with some of what is known of evaluations replaced.
pub open spec fn overlaid_entries_cost(
    entries: Seq<(Seq<char>, RuntimeView)>,
    replacements: Map<Seq<char>, RuntimeView>,
) -> nat
    decreases entries.len(),
{
    if entries.len() == 0 {
        0
    } else {
        let id = entries.last().0;
        overlaid_entries_cost(entries.drop_last(), replacements) + runtime_entry_cost(
            id,
            if replacements.contains_key(id) {
                replacements[id]
            } else {
                entries.last().1
            },
        )
    }
}

/// The bytes of the whole state with some of what is known of evaluations replaced, with the room
/// it has.
pub fn modeled_rules_state_bytes_with_runtime_overlay(
    state: &PersistedRulesStoreState,
    replacements: &RuntimeMap,
) -> (bytes: usize)
    ensures
        bytes >= sizes::sat_size(
            layout::size_of::<PersistedRulesStoreState>() as int + groups_cost(state@.groups)
                + overlaid_entries_cost(
                ordered::listing::<String, RuntimeView>(state@.runtime),
                replacements@,
            ),
        ),
{
    let count = state.runtime.len();
    let ghost all = state.runtime.entries();
    let mut runtime: usize = 0;
    let mut i: usize = 0;
    assert(all.subrange(0, 0) =~= Seq::empty());
    while i < count
        invariant
            i <= count,
            count == all.len(),
            all == state.runtime.entries(),
            runtime >= sizes::sat_size(
                overlaid_entries_cost(all.subrange(0, i as int), replacements@) as int,
            ),
        decreases count - i,
    {
        proof {
            assert(all.subrange(0, i as int + 1).drop_last() =~= all.subrange(0, i as int));
        }
        let id = state.runtime.key_at(i);
        let entry = match replacements.get(id) {
            Some(replacement) => modeled_runtime_entry_bytes(id, replacement),
            None => modeled_runtime_entry_bytes(id, state.runtime.value_at(i)),
        };
        runtime = runtime.saturating_add(entry);
        i = i + 1;
    }
    proof {
        assert(all.subrange(0, i as int) =~= all);
        ordered::lemma_listing::<String, RuntimeView>(all);
    }
    core::mem::size_of::<PersistedRulesStoreState>().saturating_add(
        modeled_groups_bytes(&state.groups),
    ).saturating_add(runtime)
}

/// The bytes of a copy of a list that may have grown by doubling.
pub open spec fn grown_list_cost<T>(len: nat) -> nat {
    allocation(growth::grown_room(len) as nat * layout::size_of::<T>())
}

/// The bytes of a copy of a list that may have grown by doubling.
pub fn modeled_vec_clone_upper_bytes<T>(len: usize) -> (bytes: usize)
    ensures
        bytes == sizes::sat_size(grown_list_cost::<T>(len as nat) as int),
{
    modeled_allocation_bytes(
        sizes::times_size(
            growth::protobuf_growth_capacity_upper(len),
            core::mem::size_of::<T>(),
        ),
    )
}

/// The bytes of a copy of labels.
pub fn modeled_labels_clone_upper_bytes(labels: &Vec<Label>) -> (bytes: usize)
    ensures
        bytes == sizes::sat_size(
            grown_list_cost::<Label>(labels@.len()) as int + label_texts_cost(
                stable::views(labels@),
            ),
        ),
{
    let ghost all = stable::views(labels@);
    let mut texts: usize = 0;
    let mut i: usize = 0;
    assert(all.subrange(0, 0) =~= Seq::empty());
    while i < labels.len()
        invariant
            i <= labels@.len(),
            all == stable::views(labels@),
            texts == sizes::sat_size(label_texts_cost(all.subrange(0, i as int)) as int),
        decreases labels@.len() - i,
    {
        proof {
            assert(all.subrange(0, i as int + 1).drop_last() =~= all.subrange(0, i as int));
        }
        texts =
        texts.saturating_add(
            modeled_string_clone_upper_bytes(labels[i].name.as_str()),
        ).saturating_add(modeled_string_clone_upper_bytes(labels[i].value.as_str()));
        i = i + 1;
    }
    assert(all.subrange(0, i as int) =~= all);
    modeled_vec_clone_upper_bytes::<Label>(labels.len()).saturating_add(texts)
}

/// The bytes of a copy of an alert.
pub open spec fn instance_copy_cost(instance: AlertInstanceView) -> nat {
    text_cost(instance.key) + text_cost(instance.source_metric) + grown_list_cost::<Label>(
        instance.labels.len(),
    ) + label_texts_cost(instance.labels) + text_cost(instance.sample_type) + opt_text_cost(
        instance.sample_value,
    )
}

/// The bytes of a copy of an alert.
pub fn modeled_alert_instance_clone_upper_bytes(instance: &AlertInstanceState) -> (bytes: usize)
    ensures
        bytes == sizes::sat_size(instance_copy_cost(instance@) as int),
{
    modeled_string_clone_upper_bytes(instance.key.as_str()).saturating_add(
        modeled_string_clone_upper_bytes(instance.source_metric.as_str()),
    ).saturating_add(modeled_labels_clone_upper_bytes(&instance.labels)).saturating_add(
        modeled_string_clone_upper_bytes(instance.sample_type.as_str()),
    ).saturating_add(
        match &instance.sample_value {
            Some(value) => modeled_string_clone_upper_bytes(value.as_str()),
            None => 0,
        },
    )
}

} // verus!
