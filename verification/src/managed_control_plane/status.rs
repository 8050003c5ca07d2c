//! What the control plane shows of its state: counts, summaries, and a projection whose memory is
//! charged to a query budget.

use vstd::layout;
use vstd::prelude::*;

use crate::budget;
use crate::budget::QueryBudgetError;
use crate::capacity;
use crate::managed_control_plane::state::ManagedControlPlaneState;
use crate::managed_control_plane::state::StateView;
use crate::managed_control_plane::types::DeploymentSummaryView;
use crate::managed_control_plane::types::DeploymentView;
use crate::managed_control_plane::types::ManagedControlPlaneStatusSnapshot;
use crate::managed_control_plane::types::ManagedDeployment;
use crate::managed_control_plane::types::ManagedDeploymentSummary;
use crate::managed_control_plane::types::ManagedTenant;
use crate::managed_control_plane::types::StatusSnapshotView;
use crate::managed_control_plane::types::TenantLifecycleState;
use crate::managed_control_plane::types::TenantView;
use crate::managed_control_plane::types::UpgradeRolloutState;
use crate::names;
use crate::ordered;
use crate::ordered::Copied;
use crate::ordered::KeyMap;
use crate::sizes;
use crate::text;

verus! {

/// The bytes that an allocation is modeled to cost beside what it holds.
pub const MANAGED_STATUS_ALLOCATION_ALLOWANCE_BYTES: u64 = 64;

/// The bytes that a label is modeled to cost beside its name and value.
pub const MANAGED_STATUS_BTREE_ENTRY_ALLOWANCE_BYTES: u64 = 1_024;

/// After how many entries the budget is asked again.
pub const MANAGED_STATUS_CHECKPOINT_INTERVAL: usize = 32;

/// How many entries of a list have a property.
pub open spec fn count_where<T>(items: Seq<T>, property: spec_fn(T) -> bool) -> nat
    decreases items.len(),
{
    if items.len() == 0 {
        0
    } else {
        count_where(items.drop_last(), property) + if property(items.last()) {
            1nat
        } else {
            0nat
        }
    }
}

proof fn lemma_count_step<T>(items: Seq<T>, property: spec_fn(T) -> bool, i: int)
    requires
        0 <= i < items.len(),
    ensures
        count_where(items.subrange(0, i + 1), property) == count_where(
            items.subrange(0, i),
            property,
        ) + if property(items[i]) {
            1nat
        } else {
            0nat
        },
{
    assert(items.subrange(0, i + 1).drop_last() =~= items.subrange(0, i));
}

/// No more entries have a property than there are.
pub proof fn lemma_count_bounded<T>(items: Seq<T>, property: spec_fn(T) -> bool)
    ensures
        count_where(items, property) <= items.len(),
    decreases items.len(),
{
    if items.len() > 0 {
        lemma_count_bounded(items.drop_last(), property);
    }
}

/// The values of a map in the order of its keys.
pub open spec fn values_listed<T>(map: Map<Seq<char>, T>) -> Seq<T> {
    let listed = ordered::listing::<String, T>(map);
    Seq::new(listed.len(), |i: int| listed[i].1)
}

/// The values of a map, copied, in the order of its keys.
pub fn copy_values<V: View + Copied>(map: &KeyMap<String, V>) -> (values: Vec<V>)
    ensures
        values@.len() == values_listed(map@).len(),
        forall|i: int|
            0 <= i < values@.len() ==> (#[trigger] values@[i])@ == values_listed(map@)[i],
{
    let n: usize = map.len();
    let ghost listed = map.entries();
    proof {
        ordered::lemma_listing::<String, V::V>(listed);
    }
    let mut values: Vec<V> = Vec::with_capacity(n);
    let mut i: usize = 0;
    while i < n
        invariant
            i <= n,
            n == listed.len(),
            listed == map.entries(),
            values@.len() == i,
            forall|k: int| 0 <= k < i ==> (#[trigger] values@[k])@ == listed[k].1,
        decreases n - i,
    {
        values.push(map.value_at(i).copied());
        i = i + 1;
    }
    values
}

/// Whether a tenant takes traffic.
pub open spec fn is_active() -> spec_fn(TenantView) -> bool {
    |tenant: TenantView| tenant.lifecycle == TenantLifecycleState::Active
}

/// Whether a deployment is under maintenance.
pub open spec fn in_maintenance() -> spec_fn(DeploymentView) -> bool {
    |deployment: DeploymentView| deployment.maintenance.active
}

/// Whether a rollout has begun or is to begin, and has not ended.
pub open spec fn in_rollout() -> spec_fn(DeploymentView) -> bool {
    |deployment: DeploymentView|
        deployment.upgrade.state == UpgradeRolloutState::Pending || deployment.upgrade.state
            == UpgradeRolloutState::InProgress || deployment.upgrade.state
            == UpgradeRolloutState::Paused
}

/// Whether a deployment is backed up.
pub open spec fn is_backed_up() -> spec_fn(DeploymentView) -> bool {
    |deployment: DeploymentView| deployment.backup_policy.enabled
}

/// Whether a tenant is on a deployment.
pub open spec fn is_on(deployment_id: Seq<char>) -> spec_fn(TenantView) -> bool {
    |tenant: TenantView| tenant.deployment_id == deployment_id
}

/// Whether a tenant is on a deployment and takes traffic.
pub open spec fn is_active_on(deployment_id: Seq<char>) -> spec_fn(TenantView) -> bool {
    |tenant: TenantView|
        tenant.deployment_id == deployment_id && tenant.lifecycle == TenantLifecycleState::Active
}

/// The counts over a state.
pub open spec fn status_of(state: StateView, state_path: Option<Seq<char>>) -> StatusSnapshotView {
    let deployments = values_listed(state.deployments);
    let tenants = values_listed(state.tenants);
    StatusSnapshotView {
        durable: state_path is Some,
        state_path,
        deployments_total: sizes::sat64(deployments.len() as int),
        tenants_total: sizes::sat64(tenants.len() as int),
        active_tenants_total: sizes::sat64(count_where(tenants, is_active()) as int),
        maintenance_active_total: sizes::sat64(count_where(deployments, in_maintenance()) as int),
        upgrade_rollouts_in_progress_total: sizes::sat64(
            count_where(deployments, in_rollout()) as int,
        ),
        backup_policies_total: sizes::sat64(count_where(deployments, is_backed_up()) as int),
        audit_records_total: sizes::sat64(state.audit_entries.len() as int),
        updated_unix_ms: state.updated_unix_ms,
    }
}

/// A deployment in short.
pub open spec fn summary_of(state: StateView, deployment: DeploymentView) -> DeploymentSummaryView {
    let tenants = values_listed(state.tenants);
    DeploymentSummaryView {
        id: deployment.id,
        region: deployment.region,
        plan: deployment.plan,
        lifecycle: deployment.lifecycle,
        tenant_count: sizes::sat64(count_where(tenants, is_on(deployment.id)) as int),
        active_tenant_count: sizes::sat64(
            count_where(tenants, is_active_on(deployment.id)) as int,
        ),
        backup_enabled: deployment.backup_policy.enabled,
        maintenance_active: deployment.maintenance.active,
        upgrade_state: deployment.upgrade.state,
        desired_version: deployment.upgrade.desired_version,
        observed_version: deployment.upgrade.observed_version,
    }
}

/// The deployments of a state in short, in the order of their keys.
pub open spec fn summaries_of(state: StateView) -> Seq<DeploymentSummaryView> {
    let deployments = values_listed(state.deployments);
    Seq::new(deployments.len(), |i: int| summary_of(state, deployments[i]))
}

/// What a list of summaries says.
pub open spec fn summary_views(summaries: Seq<ManagedDeploymentSummary>) -> Seq<
    DeploymentSummaryView,
> {
    Seq::new(summaries.len(), |i: int| summaries[i]@)
}

/// Whether the index of an entry is one at which the budget is asked.
fn checkpoint_managed_status<C: Fn() -> Result<(), QueryBudgetError>>(
    checkpoint: &C,
    index: usize,
) -> (passed: Result<(), QueryBudgetError>)
    requires
        call_requires(*checkpoint, ()),
    ensures
        passed matches Err(error) ==> budget::may_stop(*checkpoint, error) && index as int
            % MANAGED_STATUS_CHECKPOINT_INTERVAL as int == 0,
        budget::never_stops(*checkpoint) ==> passed is Ok,
        budget::always_stops(*checkpoint) && index as int
            % MANAGED_STATUS_CHECKPOINT_INTERVAL as int == 0 ==> passed is Err,
{
    if index % MANAGED_STATUS_CHECKPOINT_INTERVAL == 0 {
        checkpoint()
    } else {
        Ok(())
    }
}

/// Counts over the deployments and tenants of a state.
struct DerivedCounts {
    active_tenants: usize,
    maintenance_active: usize,
    upgrade_rollouts_in_progress: usize,
    backup_policies: usize,
}

/// Counts over a state; the budget is asked on the way.
fn managed_status_derived_counts_for_state<C: Fn() -> Result<(), QueryBudgetError>>(
    state: &ManagedControlPlaneState,
    checkpoint: &C,
) -> (counted: Result<DerivedCounts, QueryBudgetError>)
    requires
        call_requires(*checkpoint, ()),
    ensures
        match counted {
            Ok(counts) => {
                let deployments = values_listed(state@.deployments);
                let tenants = values_listed(state@.tenants);
                &&& counts.active_tenants == count_where(tenants, is_active())
                &&& counts.maintenance_active == count_where(deployments, in_maintenance())
                &&& counts.upgrade_rollouts_in_progress == count_where(deployments, in_rollout())
                &&& counts.backup_policies == count_where(deployments, is_backed_up())
            },
            Err(error) => budget::may_stop(*checkpoint, error),
        },
        budget::never_stops(*checkpoint) ==> counted is Ok,
        budget::always_stops(*checkpoint) && (values_listed(state@.deployments).len() > 0 || values_listed(state@.tenants).len() > 0) ==> counted is Err,
{
    let n: usize = state.deployments.len();
    let ghost deployments = values_listed(state@.deployments);
    let m: usize = state.tenants.len();
    let ghost tenants = values_listed(state@.tenants);
    proof {
        ordered::lemma_listing::<String, DeploymentView>(state.deployments.entries());
        ordered::lemma_listing::<String, TenantView>(state.tenants.entries());
    }
    let mut counts = DerivedCounts {
        active_tenants: 0,
        maintenance_active: 0,
        upgrade_rollouts_in_progress: 0,
        backup_policies: 0,
    };
    let mut i: usize = 0;
    while i < n
        invariant
            i <= n,
            n == deployments.len(),
            n == state.deployments.entries().len(),
            forall|k: int|
                0 <= k < n ==> deployments[k] == (#[trigger] state.deployments.entries()[k]).1,
            call_requires(*checkpoint, ()),
            budget::always_stops(*checkpoint) ==> i == 0,
            counts.active_tenants == 0,
            counts.maintenance_active <= i,
            counts.upgrade_rollouts_in_progress <= i,
            counts.backup_policies <= i,
            counts.maintenance_active == count_where(
                deployments.subrange(0, i as int),
                in_maintenance(),
            ),
            counts.upgrade_rollouts_in_progress == count_where(
                deployments.subrange(0, i as int),
                in_rollout(),
            ),
            counts.backup_policies == count_where(
                deployments.subrange(0, i as int),
                is_backed_up(),
            ),
        decreases n - i,
    {
        match checkpoint_managed_status(checkpoint, i) {
            Ok(()) => {},
            Err(error) => {
                return Err(error);
            },
        }
        let deployment = state.deployments.value_at(i);
        proof {
            lemma_count_step(deployments, in_maintenance(), i as int);
            lemma_count_step(deployments, in_rollout(), i as int);
            lemma_count_step(deployments, is_backed_up(), i as int);
        }
        if deployment.maintenance.active {
            counts.maintenance_active = counts.maintenance_active + 1;
        }
        if deployment.upgrade.state == UpgradeRolloutState::Pending || deployment.upgrade.state
            == UpgradeRolloutState::InProgress || deployment.upgrade.state
            == UpgradeRolloutState::Paused {
            counts.upgrade_rollouts_in_progress = counts.upgrade_rollouts_in_progress + 1;
        }
        if deployment.backup_policy.enabled {
            counts.backup_policies = counts.backup_policies + 1;
        }
        i = i + 1;
    }
    let mut j: usize = 0;
    while j < m
        invariant
            j <= m,
            m == tenants.len(),
            m == state.tenants.entries().len(),
            forall|k: int| 0 <= k < m ==> tenants[k] == (#[trigger] state.tenants.entries()[k]).1,
            call_requires(*checkpoint, ()),
            budget::always_stops(*checkpoint) ==> j == 0,
            counts.active_tenants <= j,
            counts.active_tenants == count_where(tenants.subrange(0, j as int), is_active()),
            n == deployments.len(),
            counts.maintenance_active == count_where(
                deployments.subrange(0, n as int),
                in_maintenance(),
            ),
            counts.upgrade_rollouts_in_progress == count_where(
                deployments.subrange(0, n as int),
                in_rollout(),
            ),
            counts.backup_policies == count_where(
                deployments.subrange(0, n as int),
                is_backed_up(),
            ),
        decreases m - j,
    {
        match checkpoint_managed_status(checkpoint, j) {
            Ok(()) => {},
            Err(error) => {
                return Err(error);
            },
        }
        proof {
            lemma_count_step(tenants, is_active(), j as int);
        }
        if state.tenants.value_at(j).lifecycle == TenantLifecycleState::Active {
            counts.active_tenants = counts.active_tenants + 1;
        }
        j = j + 1;
    }
    proof {
        assert(deployments.subrange(0, n as int) =~= deployments);
        assert(tenants.subrange(0, m as int) =~= tenants);
    }
    Ok(counts)
}

/// How many tenants a deployment has, and how many of them take traffic; the budget is asked on the
/// way.
fn deployment_tenant_counts_for_state<C: Fn() -> Result<(), QueryBudgetError>>(
    state: &ManagedControlPlaneState,
    deployment: &ManagedDeployment,
    checkpoint: &C,
) -> (counted: Result<(usize, usize), QueryBudgetError>)
    requires
        call_requires(*checkpoint, ()),
    ensures
        match counted {
            Ok((all, active)) => {
                let tenants = values_listed(state@.tenants);
                &&& all == count_where(tenants, is_on(deployment@.id))
                &&& active == count_where(tenants, is_active_on(deployment@.id))
            },
            Err(error) => budget::may_stop(*checkpoint, error),
        },
        budget::never_stops(*checkpoint) ==> counted is Ok,
        budget::always_stops(*checkpoint) && values_listed(state@.tenants).len() > 0 ==> counted is Err,
{
    let m: usize = state.tenants.len();
    let ghost tenants = values_listed(state@.tenants);
    let ghost id = deployment@.id;
    proof {
        ordered::lemma_listing::<String, TenantView>(state.tenants.entries());
    }
    let mut all: usize = 0;
    let mut active: usize = 0;
    let mut j: usize = 0;
    while j < m
        invariant
            j <= m,
            m == tenants.len(),
            m == state.tenants.entries().len(),
            forall|k: int| 0 <= k < m ==> tenants[k] == (#[trigger] state.tenants.entries()[k]).1,
            call_requires(*checkpoint, ()),
            budget::always_stops(*checkpoint) ==> j == 0,
            id == deployment@.id,
            all <= j,
            active <= j,
            all == count_where(tenants.subrange(0, j as int), is_on(id)),
            active == count_where(tenants.subrange(0, j as int), is_active_on(id)),
        decreases m - j,
    {
        match checkpoint_managed_status(checkpoint, j) {
            Ok(()) => {},
            Err(error) => {
                return Err(error);
            },
        }
        proof {
            lemma_count_step(tenants, is_on(id), j as int);
            lemma_count_step(tenants, is_active_on(id), j as int);
        }
        let tenant = state.tenants.value_at(j);
        if names::same_text(tenant.deployment_id.as_str(), deployment.id.as_str()) {
            all = all + 1;
            if tenant.lifecycle == TenantLifecycleState::Active {
                active = active + 1;
            }
        }
        j = j + 1;
    }
    proof {
        assert(tenants.subrange(0, m as int) =~= tenants);
    }
    Ok((all, active))
}

fn status_snapshot_for_state_with_path_and_counts(
    state: &ManagedControlPlaneState,
    state_path: Option<String>,
    counts: DerivedCounts,
) -> (status: ManagedControlPlaneStatusSnapshot)
    requires
        counts.active_tenants == count_where(values_listed(state@.tenants), is_active()),
        counts.maintenance_active == count_where(
            values_listed(state@.deployments),
            in_maintenance(),
        ),
        counts.upgrade_rollouts_in_progress == count_where(
            values_listed(state@.deployments),
            in_rollout(),
        ),
        counts.backup_policies == count_where(values_listed(state@.deployments), is_backed_up()),
    ensures
        status@ == status_of(state@, text::opt_text(state_path)),
{
    let n: usize = state.deployments.len();
    let m: usize = state.tenants.len();
    proof {
        ordered::lemma_listing::<String, DeploymentView>(state.deployments.entries());
        ordered::lemma_listing::<String, TenantView>(state.tenants.entries());
    }
    ManagedControlPlaneStatusSnapshot {
        durable: state_path.is_some(),
        state_path,
        deployments_total: n as u64,
        tenants_total: m as u64,
        active_tenants_total: counts.active_tenants as u64,
        maintenance_active_total: counts.maintenance_active as u64,
        upgrade_rollouts_in_progress_total: counts.upgrade_rollouts_in_progress as u64,
        backup_policies_total: counts.backup_policies as u64,
        audit_records_total: state.audit_entries.len() as u64,
        updated_unix_ms: state.updated_unix_ms,
    }
}

/// A budget that never stops anything.
fn unbounded() -> (passed: Result<(), QueryBudgetError>)
    ensures
        passed is Ok,
{
    Ok(())
}

/// The counts over a state.
pub fn status_snapshot_for_state(
    state: &ManagedControlPlaneState,
    state_path: &Option<String>,
) -> (status: ManagedControlPlaneStatusSnapshot)
    ensures
        status@ == status_of(state@, text::opt_text(*state_path)),
{
    let free = || -> (passed: Result<(), QueryBudgetError>)
        ensures
            passed is Ok,
        { unbounded() };
    let counts = match managed_status_derived_counts_for_state(state, &free) {
        Ok(counts) => counts,
        Err(_) => {
            assert(false);
            DerivedCounts {
                active_tenants: 0,
                maintenance_active: 0,
                upgrade_rollouts_in_progress: 0,
                backup_policies: 0,
            }
        },
    };
    status_snapshot_for_state_with_path_and_counts(state, text::owned_opt(state_path), counts)
}

/// The deployments of a state in short; the budget is asked on the way.
fn deployment_summaries_with<C: Fn() -> Result<(), QueryBudgetError>>(
    state: &ManagedControlPlaneState,
    checkpoint: &C,
) -> (summaries: Result<Vec<ManagedDeploymentSummary>, QueryBudgetError>)
    requires
        call_requires(*checkpoint, ()),
    ensures
        match summaries {
            Ok(found) => summary_views(found@) == summaries_of(state@),
            Err(error) => budget::may_stop(*checkpoint, error),
        },
        budget::never_stops(*checkpoint) ==> summaries is Ok,
        budget::always_stops(*checkpoint) && summaries_of(state@).len() > 0 ==> summaries is Err,
{
    let n: usize = state.deployments.len();
    let ghost expected = summaries_of(state@);
    proof {
        ordered::lemma_listing::<String, DeploymentView>(state.deployments.entries());
    }
    let mut found: Vec<ManagedDeploymentSummary> = Vec::with_capacity(n);
    let mut i: usize = 0;
    while i < n
        invariant
            i <= n,
            n == expected.len(),
            expected == summaries_of(state@),
            n == state.deployments.entries().len(),
            forall|k: int|
                0 <= k < n ==> values_listed(state@.deployments)[k] == (
                #[trigger] state.deployments.entries()[k]).1,
            call_requires(*checkpoint, ()),
            budget::always_stops(*checkpoint) ==> i == 0,
            found@.len() == i,
            forall|k: int| 0 <= k < i ==> (#[trigger] found@[k])@ == expected[k],
        decreases n - i,
    {
        match checkpoint_managed_status(checkpoint, i) {
            Ok(()) => {},
            Err(error) => {
                return Err(error);
            },
        }
        let deployment = state.deployments.value_at(i);
        assert(deployment@ == state.deployments.entries()[i as int].1);
        let (all, active) = match deployment_tenant_counts_for_state(
            state,
            deployment,
            checkpoint,
        ) {
            Ok(counts) => counts,
            Err(error) => {
                return Err(error);
            },
        };
        let summary = ManagedDeploymentSummary {
            id: deployment.id.clone(),
            region: deployment.region.clone(),
            plan: deployment.plan.clone(),
            lifecycle: deployment.lifecycle,
            tenant_count: all as u64,
            active_tenant_count: active as u64,
            backup_enabled: deployment.backup_policy.enabled,
            maintenance_active: deployment.maintenance.active,
            upgrade_state: deployment.upgrade.state,
            desired_version: text::owned_opt(&deployment.upgrade.desired_version),
            observed_version: text::owned_opt(&deployment.upgrade.observed_version),
        };
        assert(summary@ =~= expected[i as int]);
        found.push(summary);
        i = i + 1;
    }
    assert(summary_views(found@) =~= expected);
    Ok(found)
}

/// The deployments of a state in short, in the order of their keys.
pub fn deployment_summaries_for_state(state: &ManagedControlPlaneState) -> (summaries: Vec<
    ManagedDeploymentSummary,
>)
    ensures
        summary_views(summaries@) == summaries_of(state@),
{
    let free = || -> (passed: Result<(), QueryBudgetError>)
        ensures
            passed is Ok,
        { unbounded() };
    match deployment_summaries_with(state, &free) {
        Ok(summaries) => summaries,
        Err(_) => {
            assert(false);
            Vec::new()
        },
    }
}

/// What is shown of a state to one tenant.
#[derive(Debug, PartialEq, Eq)]
pub struct ManagedControlPlaneStatusProjection {
    pub status: ManagedControlPlaneStatusSnapshot,
    pub deployments: Vec<ManagedDeploymentSummary>,
    pub current_tenant: Option<ManagedTenant>,
}

/// What an optional tenant says.
pub open spec fn opt_tenant(tenant: Option<ManagedTenant>) -> Option<TenantView> {
    match tenant {
        Some(found) => Some(found@),
        None => None,
    }
}

/// The tenant under a key, if there is one.
pub open spec fn tenant_of(state: StateView, tenant_id: Seq<char>) -> Option<TenantView> {
    if state.tenants.contains_key(tenant_id) {
        Some(state.tenants[tenant_id])
    } else {
        None
    }
}

/// The modeled cost of an allocation of so many bytes.
pub open spec fn len_bytes(len: nat) -> nat {
    if len == 0 {
        0
    } else {
        len + MANAGED_STATUS_ALLOCATION_ALLOWANCE_BYTES as nat
    }
}

/// The modeled cost of a text.
pub open spec fn str_bytes(value: Seq<char>) -> nat {
    len_bytes(text::utf8_len(value))
}

/// The modeled cost of an optional text.
pub open spec fn opt_str_bytes(value: Option<Seq<char>>) -> nat {
    match value {
        Some(inner) => str_bytes(inner),
        None => 0,
    }
}

/// The modeled cost of a list of summaries, beside what they hold.
pub open spec fn summary_slots_bytes(count: nat) -> nat {
    if count == 0 {
        0
    } else {
        count * layout::size_of::<ManagedDeploymentSummary>()
            + MANAGED_STATUS_ALLOCATION_ALLOWANCE_BYTES as nat
    }
}

/// The modeled cost of so many labels, beside their names and values.
pub open spec fn label_slots_bytes(count: nat) -> nat {
    count * (layout::size_of::<String>() + layout::size_of::<String>()
        + MANAGED_STATUS_BTREE_ENTRY_ALLOWANCE_BYTES as nat)
}

/// The modeled cost of the texts of a summary.
pub open spec fn summary_bytes(summary: DeploymentSummaryView) -> nat {
    str_bytes(summary.id) + str_bytes(summary.region) + str_bytes(summary.plan) + opt_str_bytes(
        summary.desired_version,
    ) + opt_str_bytes(summary.observed_version)
}

/// The costs of a list of summaries.
pub open spec fn summary_costs(summaries: Seq<DeploymentSummaryView>) -> Seq<nat> {
    Seq::new(summaries.len(), |i: int| summary_bytes(summaries[i]))
}

/// The costs of the names and values of labels.
pub open spec fn label_costs(labels: Seq<(Seq<char>, Seq<char>)>) -> Seq<nat> {
    Seq::new(labels.len(), |i: int| str_bytes(labels[i].0) + str_bytes(labels[i].1))
}

/// The modeled cost of a tenant.
pub open spec fn tenant_bytes(tenant: TenantView) -> nat {
    let labels = ordered::listing::<String, Seq<char>>(tenant.labels);
    str_bytes(tenant.id) + str_bytes(tenant.deployment_id) + str_bytes(tenant.display_name)
        + label_slots_bytes(labels.len()) + opt_str_bytes(tenant.lifecycle_note) + sizes::total(
        label_costs(labels),
    )
}

/// The modeled cost of a projection.
pub open spec fn projection_bytes(
    state_path: Option<Seq<char>>,
    summaries: Seq<DeploymentSummaryView>,
    tenant: Option<TenantView>,
) -> nat {
    summary_slots_bytes(summaries.len()) + opt_str_bytes(state_path) + sizes::total(
        summary_costs(summaries),
    ) + match tenant {
        Some(found) => tenant_bytes(found),
        None => 0,
    }
}

fn modeled_managed_status_len_bytes(len: usize) -> (bytes: u64)
    ensures
        bytes == sizes::sat64(len_bytes(len as nat) as int),
{
    if len == 0 {
        return 0;
    }
    (len as u64).saturating_add(MANAGED_STATUS_ALLOCATION_ALLOWANCE_BYTES)
}

fn modeled_managed_status_str_bytes(value: &str) -> (bytes: u64)
    ensures
        bytes == sizes::sat64(str_bytes(value@) as int),
{
    modeled_managed_status_len_bytes(text::byte_len(value))
}

fn modeled_opt_str_bytes(value: &Option<String>) -> (bytes: u64)
    ensures
        bytes == sizes::sat64(opt_str_bytes(text::opt_text(*value)) as int),
{
    match value {
        Some(inner) => modeled_managed_status_str_bytes(inner.as_str()),
        None => 0,
    }
}

/// The modeled cost of a text, given the capacity of its allocation.
fn modeled_managed_status_string_bytes(value: &String) -> (bytes: u64)
    ensures
        bytes >= sizes::sat64(str_bytes(value@) as int),
{
    modeled_managed_status_len_bytes(capacity::string_capacity(value))
}

fn modeled_owned_opt_bytes(value: &Option<String>) -> (bytes: u64)
    ensures
        bytes >= sizes::sat64(opt_str_bytes(text::opt_text(*value)) as int),
{
    match value {
        Some(inner) => modeled_managed_status_string_bytes(inner),
        None => 0,
    }
}

fn modeled_managed_status_vec_bytes(slots: usize) -> (bytes: u64)
    ensures
        bytes == sizes::sat64(summary_slots_bytes(slots as nat) as int),
{
    if slots == 0 {
        return 0;
    }
    sizes::times64(
        slots as u64,
        core::mem::size_of::<ManagedDeploymentSummary>() as u64,
    ).saturating_add(MANAGED_STATUS_ALLOCATION_ALLOWANCE_BYTES)
}

fn modeled_managed_status_btree_entries_bytes(count: usize) -> (bytes: u64)
    ensures
        bytes == sizes::sat64(label_slots_bytes(count as nat) as int),
{
    let size = core::mem::size_of::<String>() as u64;
    let each = size.saturating_add(size).saturating_add(
        MANAGED_STATUS_BTREE_ENTRY_ALLOWANCE_BYTES,
    );
    proof {
        let exact = layout::size_of::<String>() + layout::size_of::<String>()
            + MANAGED_STATUS_BTREE_ENTRY_ALLOWANCE_BYTES as nat;
        if exact > u64::MAX && count > 0 {
            assert(count * exact >= exact) by (nonlinear_arith)
                requires
                    count > 0,
                    exact >= 0,
            ;
            assert(count * u64::MAX >= u64::MAX) by (nonlinear_arith)
                requires
                    count > 0,
            ;
        }
        if count == 0 {
            assert(count as nat * exact == 0) by (nonlinear_arith)
                requires
                    count == 0,
            ;
            assert(count as u64 * each == 0) by (nonlinear_arith)
                requires
                    count == 0,
            ;
        }
    }
    sizes::times64(count as u64, each)
}

/// The modeled cost of a tenant; the budget is asked at each label.
fn modeled_tenant_bytes<C: Fn() -> Result<(), QueryBudgetError>>(
    tenant: &ManagedTenant,
    checkpoint: &C,
) -> (modeled: Result<u64, QueryBudgetError>)
    requires
        call_requires(*checkpoint, ()),
    ensures
        match modeled {
            Ok(bytes) => bytes == sizes::sat64(tenant_bytes(tenant@) as int),
            Err(error) => budget::may_stop(*checkpoint, error),
        },
        budget::never_stops(*checkpoint) ==> modeled is Ok,
        budget::always_stops(*checkpoint) && tenant.labels.entries().len() > 0 ==> modeled is Err,
{
    let n: usize = tenant.labels.len();
    let ghost labels = tenant.labels.entries();
    let ghost costs = label_costs(labels);
    proof {
        ordered::lemma_listing::<String, Seq<char>>(labels);
        assert(costs.subrange(0, 0) =~= Seq::<nat>::empty());
    }
    let mut bytes: u64 = modeled_managed_status_str_bytes(tenant.id.as_str()).saturating_add(
        modeled_managed_status_str_bytes(tenant.deployment_id.as_str()),
    ).saturating_add(
        modeled_managed_status_str_bytes(tenant.display_name.as_str()),
    ).saturating_add(modeled_managed_status_btree_entries_bytes(n)).saturating_add(
        modeled_opt_str_bytes(&tenant.lifecycle_note),
    );
    let ghost fixed = str_bytes(tenant@.id) + str_bytes(tenant@.deployment_id) + str_bytes(
        tenant@.display_name,
    ) + label_slots_bytes(n as nat) + opt_str_bytes(tenant@.lifecycle_note);
    let mut i: usize = 0;
    while i < n
        invariant
            i <= n,
            n == labels.len(),
            labels == tenant.labels.entries(),
            costs == label_costs(labels),
            call_requires(*checkpoint, ()),
            budget::always_stops(*checkpoint) ==> i == 0,
            bytes == sizes::sat64((fixed + sizes::total(costs.subrange(0, i as int))) as int),
        decreases n - i,
    {
        match checkpoint() {
            Ok(()) => {},
            Err(error) => {
                return Err(error);
            },
        }
        proof {
            sizes::lemma_total_step(costs, i as int);
        }
        bytes = bytes.saturating_add(
            modeled_managed_status_str_bytes(tenant.labels.key_at(i).as_str()),
        ).saturating_add(
            modeled_managed_status_str_bytes(tenant.labels.value_at(i).as_str()),
        );
        i = i + 1;
    }
    proof {
        assert(costs.subrange(0, i as int) =~= costs);
    }
    Ok(bytes)
}

/// The modeled cost of a projection before any of it is made.
fn modeled_projection_bytes(
    state: &ManagedControlPlaneState,
    state_path: &Option<String>,
    tenant_cost: u64,
    Ghost(tenant): Ghost<Option<TenantView>>,
) -> (bytes: u64)
    requires
        tenant_cost == sizes::sat64(
            match tenant {
                Some(found) => tenant_bytes(found),
                None => 0,
            } as int,
        ),
    ensures
        bytes == sizes::sat64(
            projection_bytes(
                text::opt_text(*state_path),
                summaries_of(state@),
                tenant,
            ) as int,
        ),
{
    let n: usize = state.deployments.len();
    let ghost costs = summary_costs(summaries_of(state@));
    proof {
        ordered::lemma_listing::<String, DeploymentView>(state.deployments.entries());
        assert(costs.subrange(0, 0) =~= Seq::<nat>::empty());
    }
    let mut bytes: u64 = modeled_managed_status_vec_bytes(n).saturating_add(
        modeled_opt_str_bytes(state_path),
    );
    let ghost fixed = summary_slots_bytes(n as nat) + opt_str_bytes(text::opt_text(*state_path));
    let mut i: usize = 0;
    while i < n
        invariant
            i <= n,
            n == costs.len(),
            costs == summary_costs(summaries_of(state@)),
            n == state.deployments.entries().len(),
            forall|k: int|
                0 <= k < n ==> values_listed(state@.deployments)[k] == (
                #[trigger] state.deployments.entries()[k]).1,
            bytes == sizes::sat64((fixed + sizes::total(costs.subrange(0, i as int))) as int),
        decreases n - i,
    {
        let deployment = state.deployments.value_at(i);
        proof {
            sizes::lemma_total_step(costs, i as int);
            assert(deployment@ == state.deployments.entries()[i as int].1);
        }
        bytes = bytes.saturating_add(
            modeled_managed_status_str_bytes(deployment.id.as_str()),
        ).saturating_add(
            modeled_managed_status_str_bytes(deployment.region.as_str()),
        ).saturating_add(
            modeled_managed_status_str_bytes(deployment.plan.as_str()),
        ).saturating_add(
            modeled_opt_str_bytes(&deployment.upgrade.desired_version),
        ).saturating_add(modeled_opt_str_bytes(&deployment.upgrade.observed_version));
        i = i + 1;
    }
    proof {
        assert(costs.subrange(0, i as int) =~= costs);
    }
    bytes.saturating_add(tenant_cost)
}

/// The modeled cost of a tenant, given the capacities of its allocations.
fn modeled_managed_tenant_retained_bytes(tenant: &ManagedTenant) -> (bytes: u64)
    ensures
        bytes >= sizes::sat64(tenant_bytes(tenant@) as int),
{
    let n: usize = tenant.labels.len();
    let ghost labels = tenant.labels.entries();
    let ghost costs = label_costs(labels);
    proof {
        ordered::lemma_listing::<String, Seq<char>>(labels);
        assert(costs.subrange(0, 0) =~= Seq::<nat>::empty());
    }
    let mut bytes: u64 = modeled_managed_status_string_bytes(&tenant.id).saturating_add(
        modeled_managed_status_string_bytes(&tenant.deployment_id),
    ).saturating_add(modeled_managed_status_string_bytes(&tenant.display_name)).saturating_add(
        modeled_managed_status_btree_entries_bytes(n),
    ).saturating_add(modeled_owned_opt_bytes(&tenant.lifecycle_note));
    let ghost fixed = str_bytes(tenant@.id) + str_bytes(tenant@.deployment_id) + str_bytes(
        tenant@.display_name,
    ) + label_slots_bytes(n as nat) + opt_str_bytes(tenant@.lifecycle_note);
    let mut i: usize = 0;
    while i < n
        invariant
            i <= n,
            n == labels.len(),
            labels == tenant.labels.entries(),
            costs == label_costs(labels),
            bytes >= sizes::sat64((fixed + sizes::total(costs.subrange(0, i as int))) as int),
        decreases n - i,
    {
        proof {
            sizes::lemma_total_step(costs, i as int);
        }
        bytes = bytes.saturating_add(
            modeled_managed_status_string_bytes(tenant.labels.key_at(i)),
        ).saturating_add(modeled_managed_status_string_bytes(tenant.labels.value_at(i)));
        i = i + 1;
    }
    proof {
        assert(costs.subrange(0, i as int) =~= costs);
    }
    bytes
}

/// The modeled cost of a projection, given the capacities of its allocations: at least the cost
/// that was modeled before it was made. How far it is above it is the allocator's choice.
pub fn modeled_managed_status_projection_retained_bytes(
    projection: &ManagedControlPlaneStatusProjection,
) -> (bytes: u64)
    ensures
        bytes >= sizes::sat64(
            projection_bytes(
                projection.status@.state_path,
                summary_views(projection.deployments@),
                opt_tenant(projection.current_tenant),
            ) as int,
        ),
{
    let slots = capacity::vec_capacity(&projection.deployments);
    let n = projection.deployments.len();
    let ghost costs = summary_costs(summary_views(projection.deployments@));
    proof {
        let size = layout::size_of::<ManagedDeploymentSummary>();
        assert(slots * size >= n * size) by (nonlinear_arith)
            requires
                slots >= n,
        ;
        assert(summary_slots_bytes(slots as nat) >= summary_slots_bytes(n as nat));
        assert(costs.subrange(0, 0) =~= Seq::<nat>::empty());
    }
    let mut bytes: u64 = modeled_owned_opt_bytes(&projection.status.state_path).saturating_add(
        modeled_managed_status_vec_bytes(slots),
    );
    let ghost fixed = summary_slots_bytes(n as nat) + opt_str_bytes(projection.status@.state_path);
    let mut i: usize = 0;
    while i < n
        invariant
            i <= n,
            n == projection.deployments.len(),
            costs == summary_costs(summary_views(projection.deployments@)),
            bytes >= sizes::sat64((fixed + sizes::total(costs.subrange(0, i as int))) as int),
        decreases n - i,
    {
        let summary = &projection.deployments[i];
        proof {
            sizes::lemma_total_step(costs, i as int);
        }
        bytes = bytes.saturating_add(
            modeled_managed_status_string_bytes(&summary.id),
        ).saturating_add(modeled_managed_status_string_bytes(&summary.region)).saturating_add(
            modeled_managed_status_string_bytes(&summary.plan),
        ).saturating_add(modeled_owned_opt_bytes(&summary.desired_version)).saturating_add(
            modeled_owned_opt_bytes(&summary.observed_version),
        );
        i = i + 1;
    }
    proof {
        assert(costs.subrange(0, i as int) =~= costs);
    }
    let tenant_cost = match &projection.current_tenant {
        Some(tenant) => modeled_managed_tenant_retained_bytes(tenant),
        None => 0,
    };
    bytes.saturating_add(tenant_cost)
}

/// The bytes that what is shown of a state to one tenant is modeled to hold.
pub open spec fn projection_peak(
    state: StateView,
    path: Option<Seq<char>>,
    tenant_id: Seq<char>,
) -> u64 {
    sizes::sat64(
        projection_bytes(path, summaries_of(state), tenant_of(state, tenant_id)) as int,
    )
}

/// A copy of a tenant, label by label: `checkpoint` asks before it and at each label whether to go
/// on.
fn copy_tenant_with<C: Fn() -> Result<(), QueryBudgetError>>(
    tenant: &ManagedTenant,
    checkpoint: &C,
) -> (copied: Result<ManagedTenant, QueryBudgetError>)
    requires
        call_requires(*checkpoint, ()),
    ensures
        match copied {
            Ok(copy) => copy@ == tenant@,
            Err(error) => budget::may_stop(*checkpoint, error),
        },
        budget::never_stops(*checkpoint) ==> copied is Ok,
        budget::always_stops(*checkpoint) ==> copied is Err,
{
    match checkpoint() {
        Ok(()) => {},
        Err(error) => {
            return Err(error);
        },
    }
    let n: usize = tenant.labels.len();
    let ghost all = tenant.labels.entries();
    let mut labels: KeyMap<String, String> = KeyMap::new();
    let mut i: usize = 0;
    proof {
        assert(all.subrange(0, 0) =~= Seq::empty());
        assert(ordered::keyed_map::<String, Seq<char>>(all.subrange(0, 0)) =~= Map::empty());
    }
    while i < n
        invariant
            i <= n,
            n == all.len(),
            all == tenant.labels.entries(),
            ordered::sorted_keys::<String, Seq<char>>(all),
            call_requires(*checkpoint, ()),
            labels@ == ordered::keyed_map::<String, Seq<char>>(all.subrange(0, i as int)),
        decreases n - i,
    {
        match checkpoint() {
            Ok(()) => {},
            Err(error) => {
                return Err(error);
            },
        }
        let key = tenant.labels.key_at(i);
        let value = tenant.labels.value_at(i);
        proof {
            let through = all.subrange(0, i as int + 1);
            assert(through =~= all.subrange(0, i as int).push(all[i as int]));
            ordered::lemma_keyed_map_push::<String, Seq<char>>(
                all.subrange(0, i as int),
                all[i as int].0,
                all[i as int].1,
            );
        }
        labels.insert(text::owned(key.as_str()), text::owned(value.as_str()));
        i = i + 1;
    }
    assert(all.subrange(0, i as int) =~= all);
    let copy = ManagedTenant {
        id: text::owned(tenant.id.as_str()),
        deployment_id: text::owned(tenant.deployment_id.as_str()),
        display_name: text::owned(tenant.display_name.as_str()),
        lifecycle: tenant.lifecycle,
        retention_days: tenant.retention_days,
        storage_limit_bytes: tenant.storage_limit_bytes,
        ingest_rate_limit_per_sec: tenant.ingest_rate_limit_per_sec,
        query_concurrency_limit: tenant.query_concurrency_limit,
        labels,
        created_unix_ms: tenant.created_unix_ms,
        updated_unix_ms: tenant.updated_unix_ms,
        lifecycle_note: text::owned_opt(&tenant.lifecycle_note),
    };
    assert(copy@ =~= tenant@);
    Ok(copy)
}

/// Whether what is shown of a state to one tenant may come out like this, when the copies are
/// measured to hold a number of bytes.
pub open spec fn projected_as<
    C: Fn() -> Result<(), QueryBudgetError>,
    R: FnOnce(u64) -> Result<(), QueryBudgetError>,
    S: FnOnce(u64) -> Result<(), QueryBudgetError>,
>(
    state: StateView,
    path: Option<Seq<char>>,
    tenant_id: Seq<char>,
    checkpoint: C,
    reserve: R,
    resize: S,
    held: u64,
    projected: Result<(ManagedControlPlaneStatusProjection, u64), QueryBudgetError>,
) -> bool {
    let peak = projection_peak(state, path, tenant_id);
    match projected {
        Ok((projection, charged)) => {
            &&& projection.status@ == status_of(state, path)
            &&& summary_views(projection.deployments@) == summaries_of(state)
            &&& opt_tenant(projection.current_tenant) == tenant_of(state, tenant_id)
            &&& budget::granted(reserve, peak)
            &&& budget::granted(resize, held)
            &&& charged == held
        },
        Err(error) => {
            ||| budget::may_stop(checkpoint, error)
            ||| budget::refused(reserve, peak, error)
            ||| budget::granted(reserve, peak) && budget::refused(resize, held, error)
        },
    }
}

/// What is shown of a state to one tenant, once its whole modeled cost was charged to a query
/// budget: nothing is copied before.
fn gather_projection<
    C: Fn() -> Result<(), QueryBudgetError>,
    R: FnOnce(u64) -> Result<(), QueryBudgetError>,
>(
    state: &ManagedControlPlaneState,
    state_path: &Option<String>,
    tenant_id: &str,
    checkpoint: &C,
    reserve: R,
) -> (gathered: Result<ManagedControlPlaneStatusProjection, QueryBudgetError>)
    requires
        call_requires(*checkpoint, ()),
        budget::may_pass(*checkpoint) ==> call_requires(
            reserve,
            (projection_peak(state@, text::opt_text(*state_path), tenant_id@),),
        ),
    ensures
        ({
            let path = text::opt_text(*state_path);
            let peak = projection_peak(state@, path, tenant_id@);
            match gathered {
                Ok(projection) => {
                    &&& projection.status@ == status_of(state@, path)
                    &&& summary_views(projection.deployments@) == summaries_of(state@)
                    &&& opt_tenant(projection.current_tenant) == tenant_of(state@, tenant_id@)
                    &&& budget::granted(reserve, peak)
                },
                Err(error) => budget::may_stop(*checkpoint, error) || budget::refused(
                    reserve,
                    peak,
                    error,
                ),
            }
        }),
        budget::never_stops(*checkpoint) && budget::always_grants(reserve) ==> gathered is Ok,
        budget::always_stops(*checkpoint) ==> (gathered matches Err(error) && budget::may_stop(
            *checkpoint,
            error,
        )),
{
    match checkpoint() {
        Ok(()) => {},
        Err(error) => {
            return Err(error);
        },
    }
    let counts = match managed_status_derived_counts_for_state(state, checkpoint) {
        Ok(counts) => counts,
        Err(error) => {
            return Err(error);
        },
    };
    let id = text::owned(tenant_id);
    let source = state.tenants.get(&id);
    let tenant_cost = match source {
        Some(tenant) => match modeled_tenant_bytes(tenant, checkpoint) {
            Ok(bytes) => bytes,
            Err(error) => {
                return Err(error);
            },
        },
        None => 0,
    };
    let peak = modeled_projection_bytes(
        state,
        state_path,
        tenant_cost,
        Ghost(tenant_of(state@, tenant_id@)),
    );
    let reserved = reserve(peak);
    assert(call_ensures(reserve, (peak,), reserved));
    match reserved {
        Ok(()) => {},
        Err(error) => {
            return Err(error);
        },
    }
    match checkpoint() {
        Ok(()) => {},
        Err(error) => {
            return Err(error);
        },
    }
    let status = status_snapshot_for_state_with_path_and_counts(
        state,
        text::owned_opt(state_path),
        counts,
    );
    let deployments = match deployment_summaries_with(state, checkpoint) {
        Ok(summaries) => summaries,
        Err(error) => {
            return Err(error);
        },
    };
    let current_tenant = match source {
        Some(tenant) => match copy_tenant_with(tenant, checkpoint) {
            Ok(copy) => Some(copy),
            Err(error) => {
                return Err(error);
            },
        },
        None => None,
    };
    Ok(ManagedControlPlaneStatusProjection { status, deployments, current_tenant })
}

/// What is shown of a state to one tenant, with its memory charged to a query budget: `checkpoint`
/// asks whether to go on, `reserve` charges the whole modeled cost before any text is copied, and
/// `resize` charges what the copies hold.
pub fn status_projection_for_state<
    C: Fn() -> Result<(), QueryBudgetError>,
    R: FnOnce(u64) -> Result<(), QueryBudgetError>,
    S: FnOnce(u64) -> Result<(), QueryBudgetError>,
>(
    state: &ManagedControlPlaneState,
    state_path: &Option<String>,
    tenant_id: &str,
    checkpoint: &C,
    reserve: R,
    resize: S,
) -> (projected: Result<(ManagedControlPlaneStatusProjection, u64), QueryBudgetError>)
    requires
        call_requires(*checkpoint, ()),
        budget::may_pass(*checkpoint) ==> call_requires(
            reserve,
            (projection_peak(state@, text::opt_text(*state_path), tenant_id@),),
        ),
        forall|bytes: u64|
            bytes >= projection_peak(state@, text::opt_text(*state_path), tenant_id@)
                && budget::may_pass(*checkpoint) && budget::granted(
                reserve,
                projection_peak(state@, text::opt_text(*state_path), tenant_id@),
            ) ==> #[trigger] call_requires(resize, (bytes,)),
    ensures
        exists|held: u64|
            projection_peak(state@, text::opt_text(*state_path), tenant_id@) <= held
                && #[trigger] projected_as(
                state@,
                text::opt_text(*state_path),
                tenant_id@,
                *checkpoint,
                reserve,
                resize,
                held,
                projected,
            ),
        budget::never_stops(*checkpoint) && budget::always_grants(reserve)
            && budget::always_grants(resize) ==> projected is Ok,
        budget::never_stops(*checkpoint) && !budget::granted(
            reserve,
            projection_peak(state@, text::opt_text(*state_path), tenant_id@),
        ) ==> (projected matches Err(error) && budget::refused(
            reserve,
            projection_peak(state@, text::opt_text(*state_path), tenant_id@),
            error,
        )),
        budget::always_stops(*checkpoint) ==> (projected matches Err(error) && budget::may_stop(
            *checkpoint,
            error,
        )),
{
    let projection = match gather_projection(state, state_path, tenant_id, checkpoint, reserve) {
        Ok(projection) => projection,
        Err(error) => {
            let projected: Result<(ManagedControlPlaneStatusProjection, u64), QueryBudgetError> =
                Err(error);
            proof {
                assert(projected_as(
                    state@,
                    text::opt_text(*state_path),
                    tenant_id@,
                    *checkpoint,
                    reserve,
                    resize,
                    u64::MAX,
                    projected,
                ));
            }
            return projected;
        },
    };
    let held = modeled_managed_status_projection_retained_bytes(&projection);
    let kept = keep_status_projection(projection, held, checkpoint, resize);
    proof {
        assert(projected_as(
            state@,
            text::opt_text(*state_path),
            tenant_id@,
            *checkpoint,
            reserve,
            resize,
            held,
            kept,
        ));
    }
    kept
}

/// Charges what is shown of a state, which is measured to hold a number of bytes, to a query
/// budget: `resize` charges the bytes, and `checkpoint` asks whether to go on.
pub fn keep_status_projection<
    C: Fn() -> Result<(), QueryBudgetError>,
    S: FnOnce(u64) -> Result<(), QueryBudgetError>,
>(
    projection: ManagedControlPlaneStatusProjection,
    held: u64,
    checkpoint: &C,
    resize: S,
) -> (kept: Result<(ManagedControlPlaneStatusProjection, u64), QueryBudgetError>)
    requires
        call_requires(*checkpoint, ()),
        call_requires(resize, (held,)),
    ensures
        match kept {
            Ok((shown, charged)) => shown == projection && charged == held && budget::granted(
                resize,
                held,
            ),
            Err(error) => budget::refused(resize, held, error) || budget::may_stop(
                *checkpoint,
                error,
            ),
        },
        budget::never_stops(*checkpoint) && budget::always_grants(resize) ==> kept is Ok,
        budget::always_stops(*checkpoint) ==> kept is Err,
        budget::always_stops(*checkpoint) && budget::always_grants(resize) ==> (kept matches Err(
            error,
        ) && budget::may_stop(*checkpoint, error)),
{
    let resized = resize(held);
    assert(call_ensures(resize, (held,), resized));
    match resized {
        Ok(()) => {},
        Err(error) => {
            assert(budget::refused(resize, held, error));
            return Err(error);
        },
    }
    match checkpoint() {
        Ok(()) => {},
        Err(error) => {
            return Err(error);
        },
    }
    Ok((projection, held))
}

} // verus!
