//! What the status of rules holds, measured once it was made.

use vstd::layout;
use vstd::prelude::*;

use crate::budget;
use crate::budget::QueryBudgetError;
use crate::ordered;
use crate::rules::model;
use crate::rules::status;
use crate::rules::status::RuleGroupStatusSnapshot;
use crate::rules::status::RuleGroupStatusView;
use crate::rules::status::RuleStatusSnapshot;
use crate::rules::status::RuleStatusView;
use crate::rules::status::RulesStatusSnapshot;
use crate::rules::status::RulesStatusView;
use crate::rules::types::AlertInstanceState;
use crate::rules::upper::text_entries;
use crate::sizes;
use crate::stable;

verus! {

/// What one entry of a map in a status is counted beyond what it holds.
pub const RULES_STATUS_BTREE_ENTRY_ALLOWANCE_BYTES: usize = 1024;

/// The bytes of what is shown of a rule, without spare room.
pub open spec fn shown_rule_cost(rule: RuleStatusView) -> nat {
    layout::size_of::<RuleStatusSnapshot>() + model::text_cost(rule.id) + model::text_cost(rule.name)
        + model::text_cost(rule.kind) + model::text_cost(rule.expr) + model::texts_cost(rule.labels)
        + model::texts_cost(rule.annotations) + model::opt_text_cost(rule.last_error)
        + model::text_cost(rule.state) + model::list_cost::<AlertInstanceState>(
        rule.alert_instances.len(),
    ) + model::instances_cost(rule.alert_instances)
}

/// The bytes of what is shown of rules, without spare room.
pub open spec fn shown_rules_cost(rules: Seq<RuleStatusView>) -> nat
    decreases rules.len(),
{
    if rules.len() == 0 {
        0
    } else {
        shown_rules_cost(rules.drop_last()) + shown_rule_cost(rules.last())
    }
}

/// The bytes of what is shown of a group, without spare room.
pub open spec fn shown_group_cost(group: RuleGroupStatusView) -> nat {
    model::text_cost(group.name) + model::text_cost(group.tenant_id) + model::texts_cost(
        group.labels,
    ) + model::list_cost::<RuleStatusSnapshot>(group.rules.len()) + shown_rules_cost(group.rules)
}

/// The bytes of what is shown of groups, without spare room.
pub open spec fn shown_groups_cost(groups: Seq<RuleGroupStatusView>) -> nat
    decreases groups.len(),
{
    if groups.len() == 0 {
        0
    } else {
        shown_groups_cost(groups.drop_last()) + shown_group_cost(groups.last())
    }
}

/// The bytes of a status, without spare room.
pub open spec fn shown_cost(shown: RulesStatusView) -> nat {
    layout::size_of::<RulesStatusSnapshot>() + model::opt_text_cost(
        shown.metrics.runtime.last_error,
    ) + model::list_cost::<RuleGroupStatusSnapshot>(shown.groups.len()) + shown_groups_cost(
        shown.groups,
    )
}

/// The entries of the maps of shown rules.
pub open spec fn shown_rules_entries(rules: Seq<RuleStatusView>) -> nat
    decreases rules.len(),
{
    if rules.len() == 0 {
        0
    } else {
        shown_rules_entries(rules.drop_last()) + ordered::listing::<String, Seq<char>>(
            rules.last().labels,
        ).len() + ordered::listing::<String, Seq<char>>(rules.last().annotations).len()
    }
}

/// The entries of the maps of shown groups.
pub open spec fn shown_entries(groups: Seq<RuleGroupStatusView>) -> nat
    decreases groups.len(),
{
    if groups.len() == 0 {
        0
    } else {
        shown_entries(groups.drop_last()) + ordered::listing::<String, Seq<char>>(
            groups.last().labels,
        ).len() + shown_rules_entries(groups.last().rules)
    }
}

/// What a query budget is charged for a status that is measured to hold a number of bytes.
pub open spec fn query_charge(bytes: usize, shown: RulesStatusView) -> usize {
    sizes::sat_size(
        bytes as int + sizes::sat_size(
            sizes::sat_size(shown_entries(shown.groups) as int)
                * RULES_STATUS_BTREE_ENTRY_ALLOWANCE_BYTES,
        ),
    )
}

fn rule_actual_bytes(rule: &RuleStatusSnapshot) -> (bytes: usize)
    ensures
        bytes >= sizes::sat_size(shown_rule_cost(rule@) as int),
{
    let words = core::mem::size_of::<RuleStatusSnapshot>().saturating_add(
        model::modeled_owned_string_bytes(&rule.id),
    ).saturating_add(model::modeled_owned_string_bytes(&rule.expr));
    let names = model::modeled_owned_string_bytes(&rule.name).saturating_add(
        model::modeled_owned_string_bytes(&rule.kind),
    ).saturating_add(model::modeled_owned_string_bytes(&rule.state)).saturating_add(
        model::modeled_owned_option_bytes(&rule.last_error),
    );
    let texts = model::modeled_string_map_bytes(&rule.labels).saturating_add(
        model::modeled_string_map_bytes(&rule.annotations),
    );
    let alerts = model::modeled_instances_bytes(&rule.alert_instances);
    let list = model::modeled_owned_vec_bytes(&rule.alert_instances);
    words.saturating_add(alerts).saturating_add(names).saturating_add(texts).saturating_add(list)
}

fn group_actual_bytes<C: Fn() -> Result<(), QueryBudgetError>>(
    group: &RuleGroupStatusSnapshot,
    checkpoint: &C,
) -> (found: Result<(usize, usize), QueryBudgetError>)
    requires
        call_requires(*checkpoint, ()),
    ensures
        match found {
            Ok((bytes, entries)) => {
                &&& bytes >= sizes::sat_size(shown_group_cost(group@) as int)
                &&& entries == sizes::sat_size(
                    ordered::listing::<String, Seq<char>>(group@.labels).len() as int
                        + shown_rules_entries(group@.rules),
                )
            },
            Err(error) => budget::may_stop(*checkpoint, error),
        },
        budget::never_stops(*checkpoint) ==> found is Ok,
        budget::always_stops(*checkpoint) && group@.rules.len() > 0 ==> found is Err,
{
    let ghost all = stable::views(group.rules@);
    let ghost own = model::text_cost(group@.name) + model::text_cost(group@.tenant_id)
        + model::texts_cost(group@.labels) + model::list_cost::<RuleStatusSnapshot>(
        group@.rules.len(),
    );
    let ghost labels = ordered::listing::<String, Seq<char>>(group@.labels).len();
    let mut bytes: usize = model::modeled_owned_string_bytes(&group.name).saturating_add(
        model::modeled_owned_string_bytes(&group.tenant_id),
    ).saturating_add(model::modeled_string_map_bytes(&group.labels)).saturating_add(
        model::modeled_owned_vec_bytes(&group.rules),
    );
    let mut entries: usize = text_entries(&group.labels);
    let mut i: usize = 0;
    assert(all.subrange(0, 0) =~= Seq::empty());
    while i < group.rules.len()
        invariant
            call_requires(*checkpoint, ()),
            budget::always_stops(*checkpoint) ==> i == 0,
            i <= group.rules@.len(),
            all == stable::views(group.rules@),
            bytes >= sizes::sat_size(own as int + shown_rules_cost(all.subrange(0, i as int))),
            entries == sizes::sat_size(
                labels as int + shown_rules_entries(all.subrange(0, i as int)),
            ),
        decreases group.rules@.len() - i,
    {
        proof {
            assert(all.subrange(0, i as int + 1).drop_last() =~= all.subrange(0, i as int));
        }
        match checkpoint() {
            Err(error) => {
                return Err(error);
            },
            Ok(_) => {},
        }
        let rule = &group.rules[i];
        entries =
        entries.saturating_add(text_entries(&rule.labels)).saturating_add(
            text_entries(&rule.annotations),
        );
        bytes = bytes.saturating_add(rule_actual_bytes(rule));
        i = i + 1;
    }
    assert(all.subrange(0, i as int) =~= all);
    Ok((bytes, entries))
}

/// The bytes that a status is measured to hold with the room it has, and what a query budget is
/// charged for it.
#[verifier::spinoff_prover]
pub fn modeled_rules_status_actual_bytes_with_execution<C: Fn() -> Result<(), QueryBudgetError>>(
    snapshot: &RulesStatusSnapshot,
    checkpoint: &C,
) -> (found: Result<(usize, usize), QueryBudgetError>)
    requires
        call_requires(*checkpoint, ()),
    ensures
        match found {
            Ok((bytes, query)) => {
                &&& bytes >= sizes::sat_size(shown_cost(snapshot@) as int)
                &&& query == query_charge(bytes, snapshot@)
            },
            Err(error) => budget::may_stop(*checkpoint, error),
        },
        budget::never_stops(*checkpoint) ==> found is Ok,
        budget::always_stops(*checkpoint) && snapshot@.groups.len() > 0 ==> found is Err,
{
    let ghost all = stable::views(snapshot.groups@);
    let ghost head = layout::size_of::<RulesStatusSnapshot>() + model::opt_text_cost(
        snapshot@.metrics.runtime.last_error,
    ) + model::list_cost::<RuleGroupStatusSnapshot>(snapshot@.groups.len());
    let mut bytes: usize = core::mem::size_of::<RulesStatusSnapshot>().saturating_add(
        model::modeled_owned_option_bytes(&snapshot.metrics.last_error),
    ).saturating_add(model::modeled_owned_vec_bytes(&snapshot.groups));
    let mut entries: usize = 0;
    let mut i: usize = 0;
    assert(all.subrange(0, 0) =~= Seq::empty());
    while i < snapshot.groups.len()
        invariant
            call_requires(*checkpoint, ()),
            budget::always_stops(*checkpoint) ==> i == 0,
            i <= snapshot.groups@.len(),
            all == stable::views(snapshot.groups@),
            bytes >= sizes::sat_size(head as int + shown_groups_cost(all.subrange(0, i as int))),
            entries == sizes::sat_size(shown_entries(all.subrange(0, i as int)) as int),
        decreases snapshot.groups@.len() - i,
    {
        proof {
            assert(all.subrange(0, i as int + 1).drop_last() =~= all.subrange(0, i as int));
        }
        match checkpoint() {
            Err(error) => {
                return Err(error);
            },
            Ok(_) => {},
        }
        match group_actual_bytes(&snapshot.groups[i], checkpoint) {
            Err(error) => {
                return Err(error);
            },
            Ok((more, own)) => {
                bytes = bytes.saturating_add(more);
                entries = entries.saturating_add(own);
            },
        }
        i = i + 1;
    }
    assert(all.subrange(0, i as int) =~= all);
    let query = bytes.saturating_add(
        sizes::times_size(entries, RULES_STATUS_BTREE_ENTRY_ALLOWANCE_BYTES),
    );
    Ok((bytes, query))
}

} // verus!
