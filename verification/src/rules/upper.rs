//! The most that the status of rules can take, found before anything of it is copied.

use vstd::layout;
use vstd::prelude::*;

use crate::budget;
use crate::budget::QueryBudgetError;
use crate::ordered;
use crate::rules::model;
use crate::rules::replace;
use crate::rules::shown::RULES_STATUS_BTREE_ENTRY_ALLOWANCE_BYTES;
use crate::rules::status;
use crate::rules::status::RuleGroupStatusSnapshot;
use crate::rules::status::RuleStatusSnapshot;
use crate::rules::status::RulesRuntimeMetrics;
use crate::rules::status::RulesStatusSnapshot;
use crate::rules::types;
use crate::rules::types::AlertInstanceState;
use crate::rules::types::AlertInstanceView;
use crate::rules::types::PersistedRulesStoreState;
use crate::rules::types::RuleGroupSpec;
use crate::rules::types::RuleGroupView;
use crate::rules::types::RuleSpec;
use crate::rules::types::RuleView;
use crate::rules::types::RulesStateView;
use crate::rules::types::RuntimeMap;
use crate::rules::types::RuntimeView;
use crate::rules::types::Texts;
use crate::sizes;
use crate::stable;
use crate::text;

verus! {

/// The bytes of a copy of what is shown of a rule, but for what is known of its evaluation.
pub open spec fn rule_upper(group: RuleGroupView, rule: RuleView) -> nat {
    model::allocation(
        text::utf8_len(group.tenant_id) + text::utf8_len(group.name) + text::utf8_len(
            types::kind_of(rule),
        ) + text::utf8_len(types::name_of(rule)) + 3,
    ) + model::text_cost(types::name_of(rule)) + model::text_cost(types::kind_of(rule))
        + model::text_cost(types::expr_of(rule)) + model::texts_cost(types::labels_of(rule))
        + model::texts_cost(types::annotations_of(rule)) + model::text_cost("inactive"@)
}

/// The bytes of copies of what is shown of the first rules of a group.
pub open spec fn rules_upper(group: RuleGroupView, rules: Seq<RuleView>) -> nat
    decreases rules.len(),
{
    if rules.len() == 0 {
        0
    } else {
        rules_upper(group, rules.drop_last()) + rule_upper(group, rules.last())
    }
}

/// The bytes of a copy of what is shown of a group.
pub open spec fn group_upper(group: RuleGroupView) -> nat {
    model::text_cost(group.name) + model::text_cost(group.tenant_id) + model::texts_cost(
        group.labels,
    ) + model::grown_list_cost::<RuleStatusSnapshot>(group.rules.len()) + rules_upper(
        group,
        group.rules,
    )
}

/// The bytes of copies of what is shown of the first groups.
pub open spec fn groups_upper(groups: Seq<RuleGroupView>) -> nat
    decreases groups.len(),
{
    if groups.len() == 0 {
        0
    } else {
        groups_upper(groups.drop_last()) + group_upper(groups.last())
    }
}

/// The bytes of copies of alerts.
pub open spec fn instances_upper(instances: Seq<AlertInstanceView>) -> nat
    decreases instances.len(),
{
    if instances.len() == 0 {
        0
    } else {
        instances_upper(instances.drop_last()) + model::instance_copy_cost(instances.last())
    }
}

/// The bytes of a copy of what is known of a rule.
pub open spec fn runtime_upper(runtime: RuntimeView) -> nat {
    model::opt_text_cost(runtime.last_error) + model::grown_list_cost::<AlertInstanceState>(
        runtime.alert_instances.len(),
    ) + instances_upper(runtime.alert_instances)
}

/// The bytes of copies of what is known of the first rules.
pub open spec fn runtimes_upper(entries: Seq<(Seq<char>, RuntimeView)>) -> nat
    decreases entries.len(),
{
    if entries.len() == 0 {
        0
    } else {
        runtimes_upper(entries.drop_last()) + runtime_upper(entries.last().1)
    }
}

/// The most bytes that the status of rules is modeled to take.
pub open spec fn status_upper(state: RulesStateView, last_error: Option<Seq<char>>) -> nat {
    layout::size_of::<RulesStatusSnapshot>() + model::grown_list_cost::<RuleGroupStatusSnapshot>(
        state.groups.len(),
    ) + model::opt_text_cost(last_error) + groups_upper(state.groups) + runtimes_upper(
        ordered::listing::<String, RuntimeView>(state.runtime),
    )
}

/// The entries of the maps of a rule.
pub open spec fn rule_entries(rule: RuleView) -> nat {
    ordered::listing::<String, Seq<char>>(types::labels_of(rule)).len() + ordered::listing::<
        String,
        Seq<char>,
    >(types::annotations_of(rule)).len()
}

/// The entries of the maps of the first rules of a group.
pub open spec fn rules_entries(rules: Seq<RuleView>) -> nat
    decreases rules.len(),
{
    if rules.len() == 0 {
        0
    } else {
        rules_entries(rules.drop_last()) + rule_entries(rules.last())
    }
}

/// The entries of the maps of the first groups.
pub open spec fn groups_entries(groups: Seq<RuleGroupView>) -> nat
    decreases groups.len(),
{
    if groups.len() == 0 {
        0
    } else {
        groups_entries(groups.drop_last()) + ordered::listing::<String, Seq<char>>(
            groups.last().labels,
        ).len() + rules_entries(groups.last().rules)
    }
}

/// The most bytes that the status of rules is modeled to take of a query budget.
pub open spec fn query_upper(state: RulesStateView, last_error: Option<Seq<char>>) -> usize {
    sizes::sat_size(
        status_upper(state, last_error) as int + sizes::sat_size(
            status::rules_in(state.groups) as int,
        ) * layout::size_of::<RuleStatusSnapshot>() + sizes::sat_size(
            groups_entries(state.groups) as int,
        ) * RULES_STATUS_BTREE_ENTRY_ALLOWANCE_BYTES,
    )
}

fn rule_upper_bytes(group: &RuleGroupSpec, rule: &RuleSpec) -> (bytes: usize)
    ensures
        bytes == sizes::sat_size(rule_upper(group@, rule@) as int),
{
    let annotations = match types::rule_annotations(rule) {
        Some(texts) => model::modeled_string_map_clone_upper_bytes(texts),
        None => {
            proof {
                lemma_no_texts();
            }
            0
        },
    };
    let texts = model::modeled_string_map_clone_upper_bytes(
        types::rule_labels(rule),
    ).saturating_add(annotations).saturating_add(
        model::modeled_string_clone_upper_bytes("inactive"),
    );
    rule_words_bytes(group, rule).saturating_add(texts)
}

fn rule_words_bytes(group: &RuleGroupSpec, rule: &RuleSpec) -> (bytes: usize)
    ensures
        bytes == sizes::sat_size(
            model::allocation(
                text::utf8_len(group@.tenant_id) + text::utf8_len(group@.name) + text::utf8_len(
                    types::kind_of(rule@),
                ) + text::utf8_len(types::name_of(rule@)) + 3,
            ) as int + model::text_cost(types::name_of(rule@)) + model::text_cost(
                types::kind_of(rule@),
            ) + model::text_cost(types::expr_of(rule@)),
        ),
{
    model::modeled_allocation_bytes(replace::rule_id_len(group, rule)).saturating_add(
        model::modeled_string_clone_upper_bytes(types::rule_name(rule)),
    ).saturating_add(
        model::modeled_string_clone_upper_bytes(types::rule_kind(rule)),
    ).saturating_add(model::modeled_string_clone_upper_bytes(types::rule_expr(rule)))
}

/// No texts take no bytes and have no entries.
proof fn lemma_no_texts()
    ensures
        model::texts_cost(Map::empty()) == 0,
        ordered::listing::<String, Seq<char>>(Map::empty()).len() == 0,
{
    let none = Seq::<(Seq<char>, Seq<char>)>::empty();
    assert(ordered::keyed_map::<String, Seq<char>>(none) =~= Map::empty());
    ordered::lemma_listing::<String, Seq<char>>(none);
}

/// How many texts there are.
pub(crate) fn text_entries(texts: &Texts) -> (count: usize)
    ensures
        count == ordered::listing::<String, Seq<char>>(texts@).len(),
{
    let count = texts.len();
    proof {
        ordered::lemma_listing::<String, Seq<char>>(texts.entries());
    }
    count
}

fn rule_entry_count(rule: &RuleSpec) -> (count: usize)
    ensures
        count == sizes::sat_size(rule_entries(rule@) as int),
{
    let own = text_entries(types::rule_labels(rule));
    let more = match types::rule_annotations(rule) {
        Some(texts) => text_entries(texts),
        None => {
            proof {
                lemma_no_texts();
            }
            0
        },
    };
    own.saturating_add(more)
}

fn group_head_bytes(group: &RuleGroupSpec) -> (bytes: usize)
    ensures
        bytes == sizes::sat_size(
            model::text_cost(group@.name) as int + model::text_cost(group@.tenant_id)
                + model::texts_cost(group@.labels) + model::grown_list_cost::<RuleStatusSnapshot>(
                group@.rules.len(),
            ),
        ),
{
    model::modeled_string_clone_upper_bytes(group.name.as_str()).saturating_add(
        model::modeled_string_clone_upper_bytes(group.tenant_id.as_str()),
    ).saturating_add(model::modeled_string_map_clone_upper_bytes(&group.labels)).saturating_add(
        model::modeled_vec_clone_upper_bytes::<RuleStatusSnapshot>(group.rules.len()),
    )
}

/// The bytes and the map entries of a group's status.
fn group_upper_bytes<C: Fn() -> Result<(), QueryBudgetError>>(
    group: &RuleGroupSpec,
    checkpoint: &C,
) -> (found: Result<(usize, usize), QueryBudgetError>)
    requires
        call_requires(*checkpoint, ()),
    ensures
        match found {
            Ok((bytes, entries)) => bytes == sizes::sat_size(group_upper(group@) as int) && entries
                == sizes::sat_size(
                ordered::listing::<String, Seq<char>>(group@.labels).len() as int + rules_entries(
                    group@.rules,
                ),
            ),
            Err(error) => budget::may_stop(*checkpoint, error),
        },
        budget::never_stops(*checkpoint) ==> found is Ok,
        budget::always_stops(*checkpoint) && group@.rules.len() > 0 ==> found is Err,
{
    let ghost all = stable::views(group.rules@);
    let mut bytes: usize = 0;
    let mut entries: usize = text_entries(&group.labels);
    assert(all.subrange(0, 0) =~= Seq::empty());
    let ghost own = ordered::listing::<String, Seq<char>>(group@.labels).len();
    let mut i: usize = 0;
    while i < group.rules.len()
        invariant
            call_requires(*checkpoint, ()),
            budget::always_stops(*checkpoint) ==> i == 0,
            i <= group.rules@.len(),
            all == stable::views(group.rules@),
            bytes == sizes::sat_size(rules_upper(group@, all.subrange(0, i as int)) as int),
            entries == sizes::sat_size(
                own as int + rules_entries(all.subrange(0, i as int)),
            ),
        decreases group.rules@.len() - i,
    {
        proof {
            assert(all.subrange(0, i as int + 1).drop_last() =~= all.subrange(0, i as int));
        }
        match checkpoint() {
            Err(error) => {
                return Err(error);
            },
            Ok(_) => {},
        }
        bytes = bytes.saturating_add(rule_upper_bytes(group, &group.rules[i]));
        entries = entries.saturating_add(rule_entry_count(&group.rules[i]));
        i = i + 1;
    }
    assert(all.subrange(0, i as int) =~= all);
    Ok((group_head_bytes(group).saturating_add(bytes), entries))
}

/// The bytes, the map entries and the rules of the groups' status.
fn groups_upper_bytes<C: Fn() -> Result<(), QueryBudgetError>>(
    groups: &Vec<RuleGroupSpec>,
    checkpoint: &C,
) -> (found: Result<(usize, usize, usize), QueryBudgetError>)
    requires
        call_requires(*checkpoint, ()),
    ensures
        match found {
            Ok((bytes, entries, rules)) => {
                &&& bytes == sizes::sat_size(groups_upper(stable::views(groups@)) as int)
                &&& entries == sizes::sat_size(groups_entries(stable::views(groups@)) as int)
                &&& rules == sizes::sat_size(status::rules_in(stable::views(groups@)) as int)
            },
            Err(error) => budget::may_stop(*checkpoint, error),
        },
        budget::never_stops(*checkpoint) ==> found is Ok,
        budget::always_stops(*checkpoint) && groups@.len() > 0 ==> found is Err,
{
    let ghost all = stable::views(groups@);
    let mut bytes: usize = 0;
    let mut entries: usize = 0;
    let mut rules: usize = 0;
    let mut i: usize = 0;
    assert(all.subrange(0, 0) =~= Seq::empty());
    while i < groups.len()
        invariant
            call_requires(*checkpoint, ()),
            budget::always_stops(*checkpoint) ==> i == 0,
            i <= groups@.len(),
            all == stable::views(groups@),
            bytes == sizes::sat_size(groups_upper(all.subrange(0, i as int)) as int),
            entries == sizes::sat_size(groups_entries(all.subrange(0, i as int)) as int),
            rules == sizes::sat_size(status::rules_in(all.subrange(0, i as int)) as int),
        decreases groups@.len() - i,
    {
        proof {
            assert(all.subrange(0, i as int + 1).drop_last() =~= all.subrange(0, i as int));
        }
        match checkpoint() {
            Err(error) => {
                return Err(error);
            },
            Ok(_) => {},
        }
        match group_upper_bytes(&groups[i], checkpoint) {
            Err(error) => {
                return Err(error);
            },
            Ok((more, own)) => {
                bytes = bytes.saturating_add(more);
                entries = entries.saturating_add(own);
            },
        }
        rules = rules.saturating_add(groups[i].rules.len());
        i = i + 1;
    }
    assert(all.subrange(0, i as int) =~= all);
    Ok((bytes, entries, rules))
}

fn instances_upper_bytes<C: Fn() -> Result<(), QueryBudgetError>>(
    instances: &Vec<AlertInstanceState>,
    checkpoint: &C,
) -> (found: Result<usize, QueryBudgetError>)
    requires
        call_requires(*checkpoint, ()),
    ensures
        match found {
            Ok(bytes) => bytes == sizes::sat_size(
                instances_upper(stable::views(instances@)) as int,
            ),
            Err(error) => budget::may_stop(*checkpoint, error),
        },
        budget::never_stops(*checkpoint) ==> found is Ok,
        budget::always_stops(*checkpoint) && instances@.len() > 0 ==> found is Err,
{
    let ghost all = stable::views(instances@);
    let mut bytes: usize = 0;
    let mut i: usize = 0;
    assert(all.subrange(0, 0) =~= Seq::empty());
    while i < instances.len()
        invariant
            call_requires(*checkpoint, ()),
            budget::always_stops(*checkpoint) ==> i == 0,
            i <= instances@.len(),
            all == stable::views(instances@),
            bytes == sizes::sat_size(instances_upper(all.subrange(0, i as int)) as int),
        decreases instances@.len() - i,
    {
        proof {
            assert(all.subrange(0, i as int + 1).drop_last() =~= all.subrange(0, i as int));
        }
        match checkpoint() {
            Err(error) => {
                return Err(error);
            },
            Ok(_) => {},
        }
        bytes =
        bytes.saturating_add(model::modeled_alert_instance_clone_upper_bytes(&instances[i]));
        i = i + 1;
    }
    assert(all.subrange(0, i as int) =~= all);
    Ok(bytes)
}

fn runtimes_upper_bytes<C: Fn() -> Result<(), QueryBudgetError>>(
    runtime: &RuntimeMap,
    checkpoint: &C,
) -> (found: Result<usize, QueryBudgetError>)
    requires
        call_requires(*checkpoint, ()),
    ensures
        match found {
            Ok(bytes) => bytes == sizes::sat_size(
                runtimes_upper(ordered::listing::<String, RuntimeView>(runtime@)) as int,
            ),
            Err(error) => budget::may_stop(*checkpoint, error),
        },
        budget::never_stops(*checkpoint) ==> found is Ok,
        budget::always_stops(*checkpoint) && ordered::listing::<String, RuntimeView>(runtime@).len() > 0 ==> found is Err,
{
    let count = runtime.len();
    let ghost all = runtime.entries();
    proof {
        ordered::lemma_listing::<String, RuntimeView>(all);
        assert(all.subrange(0, 0) =~= Seq::empty());
    }
    let mut bytes: usize = 0;
    let mut i: usize = 0;
    while i < count
        invariant
            call_requires(*checkpoint, ()),
            budget::always_stops(*checkpoint) ==> i == 0,
            i <= count,
            count == all.len(),
            all == runtime.entries(),
            bytes == sizes::sat_size(runtimes_upper(all.subrange(0, i as int)) as int),
        decreases count - i,
    {
        proof {
            assert(all.subrange(0, i as int + 1).drop_last() =~= all.subrange(0, i as int));
        }
        match checkpoint() {
            Err(error) => {
                return Err(error);
            },
            Ok(_) => {},
        }
        let known = runtime.value_at(i);
        let said = match &known.last_error {
            Some(message) => model::modeled_string_clone_upper_bytes(message.as_str()),
            None => 0,
        };
        let list = model::modeled_vec_clone_upper_bytes::<AlertInstanceState>(
            known.alert_instances.len(),
        );
        match instances_upper_bytes(&known.alert_instances, checkpoint) {
            Err(error) => {
                return Err(error);
            },
            Ok(each) => {
                bytes = bytes.saturating_add(said).saturating_add(list).saturating_add(each);
            },
        }
        i = i + 1;
    }
    assert(all.subrange(0, i as int) =~= all);
    Ok(bytes)
}

/// The most bytes that the status of rules is modeled to take, alone and of a query budget.
pub fn modeled_rules_status_output_upper_bytes_with_execution<
    C: Fn() -> Result<(), QueryBudgetError>,
>(state: &PersistedRulesStoreState, metrics: &RulesRuntimeMetrics, checkpoint: &C) -> (found: Result<
    (usize, usize),
    QueryBudgetError,
>)
    requires
        call_requires(*checkpoint, ()),
    ensures
        match found {
            Ok((bytes, query)) => {
                &&& bytes == sizes::sat_size(
                    status_upper(state@, metrics@.last_error) as int,
                )
                &&& query == query_upper(state@, metrics@.last_error)
            },
            Err(error) => budget::may_stop(*checkpoint, error),
        },
        budget::never_stops(*checkpoint) ==> found is Ok,
        budget::always_stops(*checkpoint) && (state@.groups.len() > 0 || ordered::listing::<
            String,
            RuntimeView,
        >(state@.runtime).len() > 0) ==> found is Err,
{
    let said = match &metrics.last_error {
        Some(message) => model::modeled_string_clone_upper_bytes(message.as_str()),
        None => 0,
    };
    let head = core::mem::size_of::<RulesStatusSnapshot>().saturating_add(
        model::modeled_vec_clone_upper_bytes::<RuleGroupStatusSnapshot>(state.groups.len()),
    ).saturating_add(said);
    let (group_bytes, entries, rules) = match groups_upper_bytes(&state.groups, checkpoint) {
        Err(error) => {
            return Err(error);
        },
        Ok(found) => found,
    };
    let runtime_bytes = match runtimes_upper_bytes(&state.runtime, checkpoint) {
        Err(error) => {
            return Err(error);
        },
        Ok(bytes) => bytes,
    };
    let bytes = head.saturating_add(group_bytes).saturating_add(runtime_bytes);
    let query = bytes.saturating_add(
        sizes::times_size(rules, core::mem::size_of::<RuleStatusSnapshot>()),
    ).saturating_add(sizes::times_size(entries, RULES_STATUS_BTREE_ENTRY_ALLOWANCE_BYTES));
    Ok((bytes, query))
}

} // verus!
