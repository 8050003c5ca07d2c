//! What holds of the rules store as a whole.

use vstd::layout;
use vstd::prelude::*;

use crate::budget;
use crate::budget::QueryBudgetError;
use crate::ordered;
use crate::rules::accounting::RulesLimitSurface;
use crate::rules::accounting::RulesStoreAccounting;
use crate::rules::accounting::RulesStoreError;
use crate::rules::limits::RulesStoreLimits;
use crate::rules::model;
use crate::rules::persist;
use crate::rules::projection;
use crate::rules::replace;
use crate::rules::replace::ReplacementBytes;
use crate::rules::runtime;
use crate::rules::runtime::RulesRuntime;
use crate::rules::runtime::RulesStatusProjectionError;
use crate::rules::shown;
use crate::rules::status;
use crate::rules::status::RulesMetricsView;
use crate::rules::status::RulesStatusSnapshot;
use crate::rules::status::RulesStatusView;
use crate::rules::store::RulesStore;
use crate::rules::types::PersistedRulesStoreState;
use crate::rules::types::RuleGroupView;
use crate::rules::types::RulesStateView;
use crate::rules::types::RuntimeMap;
use crate::rules::types::RuntimeView;
use crate::rules::update;
use crate::rules::update::UpdateBytes;
use crate::rules::upper;
use crate::rules::validate;
use crate::rules::validate::ChecksView;
use crate::sizes;
use crate::text;

verus! {

/// Whether no identifier stands for two rules.
pub open spec fn distinct_ids(rules: Seq<(Seq<char>, u64)>) -> bool {
    forall|i: int, j: int|
        0 <= i < j < rules.len() ==> (#[trigger] rules[i]).0 != (#[trigger] rules[j]).0
}

/// After a replacement exactly the rules of the new groups are known, each with what was known of
/// it before where its definition is the same, and otherwise with nothing.
pub proof fn lemma_retained(
    rules: Seq<(Seq<char>, u64)>,
    before: Map<Seq<char>, RuntimeView>,
)
    requires
        distinct_ids(rules),
    ensures
        forall|id: Seq<char>| #[trigger]
            replace::retained(rules, before).contains_key(id) <==> exists|i: int|
                0 <= i < rules.len() && (#[trigger] rules[i]).0 == id,
        forall|i: int|
            0 <= i < rules.len() ==> replace::retained(rules, before)[(#[trigger] rules[i]).0]
                == replace::carried(before, rules[i].0, rules[i].1),
    decreases rules.len(),
{
    if rules.len() > 0 {
        let rest = rules.drop_last();
        let n = rules.len() - 1;
        lemma_retained(rest, before);
        let map = replace::retained(rules, before);
        assert forall|id: Seq<char>| #[trigger] map.contains_key(id) <==> exists|i: int|
            0 <= i < rules.len() && (#[trigger] rules[i]).0 == id by {
            if replace::retained(rest, before).contains_key(id) {
                let i = choose|i: int| 0 <= i < rest.len() && (#[trigger] rest[i]).0 == id;
                assert(rules[i].0 == id);
            }
            if id == rules[n].0 {
                assert(map.contains_key(id));
            }
            if exists|i: int| 0 <= i < rules.len() && (#[trigger] rules[i]).0 == id {
                let i = choose|i: int| 0 <= i < rules.len() && (#[trigger] rules[i]).0 == id;
                if i < n {
                    assert(rest[i].0 == id);
                }
            }
        }
        assert forall|i: int| 0 <= i < rules.len() implies map[(#[trigger] rules[i]).0]
            == replace::carried(before, rules[i].0, rules[i].1) by {
            if i < n {
                assert(rest[i] == rules[i]);
                assert(rules[i].0 != rules[n].0);
            }
        }
    }
}

/// Every rule is known with the fingerprint that it has after a replacement.
pub proof fn lemma_retained_fingerprints(
    rules: Seq<(Seq<char>, u64)>,
    before: Map<Seq<char>, RuntimeView>,
    i: int,
)
    requires
        distinct_ids(rules),
        0 <= i < rules.len(),
    ensures
        replace::retained(rules, before).contains_key(rules[i].0),
        replace::retained(rules, before)[rules[i].0].fingerprint == rules[i].1,
{
    lemma_retained(rules, before);
    assert(rules[i].0 == rules[i].0);
}

/// Replacing the groups by the same groups changes nothing.
pub proof fn lemma_same_groups_change_nothing(state: RulesStateView, groups: Seq<RuleGroupView>)
    requires
        distinct_ids(replace::definitions(groups)),
    ensures
        replace::replaced(replace::replaced(state, groups), groups) == replace::replaced(state, groups),
{
    let rules = replace::definitions(groups);
    let once = replace::retained(rules, state.runtime);
    let twice = replace::retained(rules, once);
    lemma_retained(rules, state.runtime);
    lemma_retained(rules, once);
    assert forall|id: Seq<char>| #[trigger] once.contains_key(id) implies once[id] == twice[id] by {
        let i = choose|i: int| 0 <= i < rules.len() && (#[trigger] rules[i]).0 == id;
        lemma_retained_fingerprints(rules, state.runtime, i);
        assert(twice[rules[i].0] == replace::carried(once, rules[i].0, rules[i].1));
    }
    assert(once =~= twice);
}

proof fn lemma_listed_alike(groups: Seq<RuleGroupView>, checks: ChecksView)
    ensures
        validate::flat_rules(groups, checks).len() == replace::definitions(groups).len(),
        forall|i: int|
            0 <= i < replace::definitions(groups).len() ==> (#[trigger] replace::definitions(
                groups,
            )[i]).0 == validate::flat_rules(groups, checks)[i].0,
    decreases groups.len(),
{
    if groups.len() > 0 {
        let rest = groups.drop_last();
        lemma_listed_alike(rest, checks);
        let a = replace::definitions(groups);
        let b = validate::flat_rules(groups, checks);
        let own = replace::group_definitions(groups.last());
        let listed = validate::group_rules(groups.last(), groups.len() - 1, checks);
        let n = replace::definitions(rest).len();
        assert forall|i: int| 0 <= i < a.len() implies (#[trigger] a[i]).0 == b[i].0 by {
            if i < n {
                assert(a[i] == replace::definitions(rest)[i]);
                assert(b[i] == validate::flat_rules(rest, checks)[i]);
            } else {
                assert(a[i] == own[i - n]);
                assert(b[i] == listed[i - n]);
            }
        }
    }
}

proof fn lemma_listed_distinct(rules: Seq<(Seq<char>, bool)>)
    requires
        validate::listed_problem(rules) is None,
    ensures
        forall|i: int, j: int|
            0 <= i < j < rules.len() ==> (#[trigger] rules[i]).0 != (#[trigger] rules[j]).0,
    decreases rules.len(),
{
    if rules.len() > 0 {
        let rest = rules.drop_last();
        let n = rules.len() - 1;
        lemma_listed_distinct(rest);
        assert forall|i: int, j: int| 0 <= i < j < rules.len() implies (#[trigger] rules[i]).0 != (
        #[trigger] rules[j]).0 by {
            if j < n {
                assert(rest[i] == rules[i]);
                assert(rest[j] == rules[j]);
            } else {
                assert(rest[i] == rules[i]);
                if rules[i].0 == rules[j].0 {
                    assert(validate::id_among(rest, rules[n].0));
                }
            }
        }
    }
}

/// In groups that nothing is wrong with, no identifier stands for two rules.
pub proof fn lemma_valid_groups_have_distinct_ids(
    groups: Seq<RuleGroupView>,
    checks: ChecksView,
    limits: RulesStoreLimits,
)
    requires
        validate::groups_problem(groups, checks, limits) is None,
    ensures
        distinct_ids(replace::definitions(groups)),
{
    let a = replace::definitions(groups);
    let b = validate::flat_rules(groups, checks);
    lemma_listed_distinct(b);
    lemma_listed_alike(groups, checks);
    assert forall|i: int, j: int| 0 <= i < j < a.len() implies (#[trigger] a[i]).0 != (#[trigger] a[
        j
    ]).0 by {
        assert(a[i].0 == b[i].0);
        assert(a[j].0 == b[j].0);
    }
}

/// Groups that nothing is wrong with have no more rules than they may.
pub proof fn lemma_valid_groups_within_limits(
    groups: Seq<RuleGroupView>,
    checks: ChecksView,
    limits: RulesStoreLimits,
    i: int,
)
    requires
        validate::groups_problem(groups, checks, limits) is None,
        0 <= i < groups.len(),
    ensures
        groups.len() <= limits.max_groups,
        0 < groups[i].rules.len() <= limits.max_rules_per_group,
        groups[i].name.len() > 0,
        groups[i].tenant_id.len() > 0,
        groups[i].interval_secs > 0,
{
    lemma_shapes_hold(groups, checks, limits, i);
}

proof fn lemma_shapes_hold(
    groups: Seq<RuleGroupView>,
    checks: ChecksView,
    limits: RulesStoreLimits,
    i: int,
)
    requires
        validate::shapes_problem(groups, checks, limits) is None,
        0 <= i < groups.len(),
    ensures
        0 < groups[i].rules.len() <= limits.max_rules_per_group,
        groups[i].name.len() > 0,
        groups[i].tenant_id.len() > 0,
        groups[i].interval_secs > 0,
    decreases groups.len(),
{
    if i < groups.len() - 1 {
        lemma_shapes_hold(groups.drop_last(), checks, limits, i);
    }
}

/// Updating what is known of evaluations neither adds a rule nor loses one, and changes no
/// fingerprint: an update for a definition that was replaced meanwhile is left out.
pub proof fn lemma_updates_keep_rules(
    updates: Seq<(Seq<char>, RuntimeView)>,
    current: Map<Seq<char>, RuntimeView>,
    id: Seq<char>,
)
    ensures
        ({
            let after = current.union_prefer_right(update::accepted(updates, current));
            &&& after.contains_key(id) <==> current.contains_key(id)
            &&& current.contains_key(id) ==> after[id].fingerprint == current[id].fingerprint
        }),
{
    update::lemma_accepted_fit(updates, current);
    let taken = update::accepted(updates, current);
    if taken.contains_key(id) {
        assert(update::update_fits(current, id, taken[id]));
    }
}

/// Every accepted update passed its checks.
pub proof fn lemma_accepted_updates_valid(
    updates: Seq<(Seq<char>, RuntimeView)>,
    current: Map<Seq<char>, RuntimeView>,
    limits: RulesStoreLimits,
    id: Seq<char>,
)
    requires
        update::updates_problem(updates, current, limits) is None,
        update::accepted(updates, current).contains_key(id),
    ensures
        validate::runtime_problem(update::accepted(updates, current)[id], limits) is None,
    decreases updates.len(),
{
    if updates.len() > 0 {
        let rest = updates.drop_last();
        if update::accepted(rest, current).contains_key(id) {
            lemma_accepted_updates_valid(rest, current, limits, id);
        }
    }
}

/// An encoded state that was written was within the limits, with what else was held.
proof fn lemma_persisted_within<
    E: FnOnce(&PersistedRulesStoreState, &RuntimeMap) -> Option<Vec<u8>>,
    W: FnOnce(&Vec<u8>) -> Result<(), String>,
>(
    limits: RulesStoreLimits,
    surface: RulesLimitSurface,
    resident: usize,
    encode: E,
    write: W,
    state: RulesStateView,
    replacements: Map<Seq<char>, RuntimeView>,
    before: RulesStoreAccounting,
    len: Option<usize>,
    after: RulesStoreAccounting,
)
    requires
        persist::persisted_as(
            limits,
            surface,
            resident,
            encode,
            write,
            state,
            replacements,
            before,
            Ok(len),
            after,
        ),
    ensures
        len matches Some(bytes) && bytes <= limits.max_durable_file_bytes && sizes::sat_size(
            resident + bytes,
        ) <= persist::transient_limit(limits, surface),
{
    reveal(persist::persisted_as);
    let (given, over, encoded) = choose|
        given: PersistedRulesStoreState,
        over: RuntimeMap,
        encoded: Option<Vec<u8>>,
    |
        given@ == state && over@ == replacements && #[trigger] call_ensures(
            encode,
            (&given, &over),
            encoded,
        ) && match encoded {
            None => {
                &&& Ok::<Option<usize>, RulesStoreError>(len) matches Err(
                    RulesStoreError::Internal(message),
                ) && message@ == "failed to encode rules durable state"@
                &&& after == before
            },
            Some(bytes) => persist::encoded_written_as(
                limits,
                surface,
                resident,
                write,
                bytes,
                before,
                Ok(len),
                after,
            ),
        };
    assert(encoded is Some);
}

/// Groups are replaced only within the limits: what the state holds then, what is held on the way,
/// and what is written, each counted without spare room, are no more than they may be.
pub proof fn lemma_applied_groups_within_limits<
    E: FnOnce(&PersistedRulesStoreState, &RuntimeMap) -> Option<Vec<u8>>,
    W: FnOnce(&Vec<u8>) -> Result<(), String>,
>(
    before: RulesStore,
    groups: Seq<RuleGroupView>,
    checks: ChecksView,
    encode: E,
    write: W,
    after: RulesStore,
)
    requires
        replace::may_be_applied(before, groups, checks, encode, write, Ok(()), after),
    ensures
        ({
            let then = replace::replaced(before.state@, groups);
            let limits = before.limits;
            &&& sizes::sat_size(model::state_cost(then) as int)
                <= limits.max_total_retained_state_bytes
            &&& sizes::sat_size(
                model::state_cost(before.state@) as int + model::groups_cost(groups)
                    + replace::all_id_scratch(groups),
            ) <= limits.max_replacement_transient_bytes
            &&& sizes::sat_size(
                model::state_cost(before.state@) as int + model::state_cost(then),
            ) <= limits.max_replacement_transient_bytes
            &&& before.durable ==> after.accounting.durable_file_bytes
                <= limits.max_durable_file_bytes
        }),
{
    let bytes = choose|bytes: ReplacementBytes|
        bytes.covers(before.state@, groups) && #[trigger] replace::applied_as(
            before,
            groups,
            checks,
            bytes,
            encode,
            write,
            Ok(()),
            after,
        );
    reveal(replace::applied_as);
    let screened = replace::replacement(before.limits, before.accounting, groups, checks, bytes);
    assert(screened.problem is None);
    if before.durable {
        reveal(replace::committed_as);
        let resident = sizes::sat_size(bytes.state as int + bytes.candidate);
        let (persisted, kept) = choose|
            persisted: Result<Option<usize>, RulesStoreError>,
            kept: RulesStoreAccounting,
        |
            #[trigger] persist::persisted_as(
                before.limits,
                RulesLimitSurface::Replacement,
                resident,
                encode,
                write,
                replace::replaced(before.state@, groups),
                Map::empty(),
                screened.counters,
                persisted,
                kept,
            ) && match persisted {
                Ok(len) => after.accounting == kept.published(bytes.candidate, len),
                Err(_) => false,
            };
        lemma_persisted_within(
            before.limits,
            RulesLimitSurface::Replacement,
            resident,
            encode,
            write,
            replace::replaced(before.state@, groups),
            Map::empty(),
            screened.counters,
            persisted->Ok_0,
            kept,
        );
    }
}

/// What is known of evaluations is updated only within the limits: what the state holds then, what
/// the updates and the state hold on the way, and what is written, each counted without spare room,
/// are no more than they may be.
pub proof fn lemma_merged_updates_within_limits<
    E: FnOnce(&PersistedRulesStoreState, &RuntimeMap) -> Option<Vec<u8>>,
    W: FnOnce(&Vec<u8>) -> Result<(), String>,
>(
    before: RulesStore,
    updates: Seq<(Seq<char>, RuntimeView)>,
    encode: E,
    write: W,
    count: usize,
    after: RulesStoreAccounting,
)
    requires
        update::may_be_updated(before, updates, encode, write, Ok(count), after),
        count > 0,
    ensures
        ({
            let taken = update::accepted(updates, before.state@.runtime);
            let limits = before.limits;
            &&& sizes::sat_size(
                layout::size_of::<PersistedRulesStoreState>() as int + model::groups_cost(
                    before.state@.groups,
                ) + model::overlaid_entries_cost(
                    ordered::listing::<String, RuntimeView>(before.state@.runtime),
                    taken,
                ),
            ) <= limits.max_total_retained_state_bytes
            &&& after.retained_state_bytes <= limits.max_total_retained_state_bytes
            &&& sizes::sat_size(
                model::state_cost(before.state@) as int + update::updates_cost(updates),
            ) <= limits.max_runtime_update_transient_bytes
            &&& before.durable ==> after.durable_file_bytes <= limits.max_durable_file_bytes
        }),
{
    reveal(update::may_be_updated);
    reveal(update::updated_as);
    reveal(update::merged_as);
    let bytes = choose|bytes: UpdateBytes|
        bytes.covers(before.state@, updates) && #[trigger] update::updated_as(
            before,
            updates,
            bytes,
            encode,
            write,
            Ok(count),
            after,
        );
    let taken = update::accepted(updates, before.state@.runtime);
    let listed = ordered::listing::<String, RuntimeView>(taken).len();
    let screened = update::update_screening(
        before.limits,
        before.accounting,
        updates,
        before.state@.runtime,
        bytes.state,
        bytes.input,
    );
    let held = update::held_merged(
        before.limits,
        screened.counters,
        bytes.merged,
        bytes.peak(listed),
    );
    assert(screened.problem is None);
    assert(held.over is None);
    if before.durable {
        let (persisted, kept) = choose|
            persisted: Result<Option<usize>, RulesStoreError>,
            kept: RulesStoreAccounting,
        |
            #[trigger] persist::persisted_as(
                before.limits,
                RulesLimitSurface::RuntimeUpdate,
                bytes.peak(listed),
                encode,
                write,
                before.state@,
                taken,
                held.counters,
                persisted,
                kept,
            ) && match persisted {
                Ok(len) => after == kept.published(bytes.merged, len),
                Err(_) => false,
            };
        lemma_persisted_within(
            before.limits,
            RulesLimitSurface::RuntimeUpdate,
            bytes.peak(listed),
            encode,
            write,
            before.state@,
            taken,
            held.counters,
            persisted->Ok_0,
            kept,
        );
    }
}

/// The two forms of the status agree: where the rules are shown, and shown within a query budget,
/// both on one state, or the second after the first with nothing else between, what is shown differs
/// at most in the counter of the most that a status was measured to hold. It does not even differ
/// there where the second form, shown after the first, is not measured to hold more than the first,
/// or than the most that a status is modeled to hold.
pub proof fn lemma_status_forms_agree<
    C: Fn() -> Result<(), QueryBudgetError>,
    R: FnOnce(u64) -> Result<(), QueryBudgetError>,
    Z: Fn(u64) -> Result<(), QueryBudgetError>,
>(
    before: RulesRuntime,
    leader: bool,
    first_bytes: usize,
    first: RulesStatusSnapshot,
    first_after: RulesStoreAccounting,
    again: RulesRuntime,
    checkpoint: C,
    reserve: R,
    resize: Z,
    second_bytes: usize,
    second: RulesStatusSnapshot,
    reserved: u64,
    second_after: RulesStoreAccounting,
)
    requires
        runtime::shown_as(projection::held_at(before, first_bytes), Ok(first), first_after),
        first@ == runtime::status_of(projection::with_counters(before, first_after), leader),
        again == before || again == projection::with_counters(before, first_after),
        projection::status_comes_to(
            again,
            leader,
            checkpoint,
            reserve,
            resize,
            second_bytes,
            Ok((second, reserved)),
            second_after,
        ),
    ensures
        second@ == (RulesStatusView {
            metrics: RulesMetricsView {
                accounting: RulesStoreAccounting {
                    peak_snapshot_status_bytes: second_after.peak_snapshot_status_bytes,
                    ..first@.metrics.accounting
                },
                ..first@.metrics
            },
            ..first@
        }),
        again != before && (second_bytes <= first_bytes || second_bytes <= projection::upper_of(
            before,
        )) ==> second@ == first@,
{
}

/// The rules that were shown are shown again within a query budget: nothing having changed since,
/// the second form is shown, and says the same as the first, where the budget lets the query go on
/// and grants what it asks for, and the copies are measured to hold no more than the first ones and
/// to be charged no more than was reserved for them. The query is charged for it, and with more than
/// nothing where a group is shown.
pub proof fn lemma_status_shown_again<
    C: Fn() -> Result<(), QueryBudgetError>,
    R: FnOnce(u64) -> Result<(), QueryBudgetError>,
    Z: Fn(u64) -> Result<(), QueryBudgetError>,
>(
    before: RulesRuntime,
    leader: bool,
    first_bytes: usize,
    first: RulesStatusSnapshot,
    first_after: RulesStoreAccounting,
    again: RulesRuntime,
    checkpoint: C,
    reserve: R,
    resize: Z,
    second_bytes: usize,
    second: Result<(RulesStatusSnapshot, u64), RulesStatusProjectionError>,
    second_after: RulesStoreAccounting,
)
    requires
        runtime::shown_as(projection::held_at(before, first_bytes), Ok(first), first_after),
        first@ == runtime::status_of(projection::with_counters(before, first_after), leader),
        again == projection::with_counters(before, first_after),
        budget::never_stops(checkpoint),
        budget::always_grants(reserve),
        budget::always_grants(resize),
        projection::measures(again, leader, second_bytes),
        second_bytes <= first_bytes,
        projection::charge_of(again, leader, second_bytes) <= upper::query_upper(
            again.store.state@,
            again.metrics@.last_error,
        ),
        projection::status_comes_to(
            again,
            leader,
            checkpoint,
            reserve,
            resize,
            second_bytes,
            second,
            second_after,
        ),
    ensures
        second matches Ok((shown, reserved)) && shown@ == first@ && reserved
            == projection::charge_of(again, leader, second_bytes) && (
        before.store.state@.groups.len() > 0 && before.store.state@.groups.last().name.len() > 0
            ==> reserved > 0),
        second_after == first_after,
{
    let groups = again.store.state@.groups;
    let shown = runtime::status_of(again, leader).groups;
    if groups.len() > 0 && groups.last().name.len() > 0 {
        assert(shown.last() == status::shown_group(groups.last(), again.store.state@.runtime));
        text::lemma_utf8_len_positive(groups.last().name);
        assert(model::text_cost(shown.last().name) > 0);
        assert(shown::shown_groups_cost(shown) >= shown::shown_group_cost(shown.last()));
    }
}

} // verus!
