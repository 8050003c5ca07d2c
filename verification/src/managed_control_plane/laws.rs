//! What holds of the managed control plane across requests.

use vstd::prelude::*;

use crate::budget;
use crate::budget::QueryBudgetError;
use crate::managed_control_plane::decisions;
use crate::managed_control_plane::fields;
use crate::managed_control_plane::plane;
use crate::managed_control_plane::state::StateView;
use crate::managed_control_plane::status;
use crate::managed_control_plane::status::ManagedControlPlaneStatusProjection;
use crate::managed_control_plane::types::ActorView;
use crate::managed_control_plane::types::AuditEntryView;
use crate::managed_control_plane::types::AuditFilterView;
use crate::managed_control_plane::types::BackupPolicyApplyRequestView;
use crate::managed_control_plane::types::BackupPolicyView;
use crate::managed_control_plane::types::BackupRunRecordRequestView;
use crate::managed_control_plane::types::DeploymentLifecycleState;
use crate::managed_control_plane::types::DeploymentProvisionRequestView;
use crate::managed_control_plane::types::DeploymentView;
use crate::managed_control_plane::types::MaintenanceApplyRequestView;
use crate::managed_control_plane::types::TenantApplyRequestView;
use crate::managed_control_plane::types::TenantLifecycleRequestView;
use crate::managed_control_plane::types::TenantLifecycleState;
use crate::managed_control_plane::types::TenantView;
use crate::managed_control_plane::types::UpgradeApplyRequestView;
use crate::managed_control_plane::types::UpgradeRolloutState;
use crate::text;

verus! {

/// A request on a deployment that cannot be met is noted in the audit trail with the reason, and
/// changes no deployment and no tenant.
pub proof fn lemma_rejected_deployment_change_is_audited_only(
    before: StateView,
    actor: ActorView,
    operation: Seq<char>,
    id: Seq<char>,
    message: Seq<char>,
    now: u64,
)
    ensures
        ({
            let after = plane::deployment_candidate(
                before,
                actor,
                operation,
                id,
                Err(message),
                now,
            );
            &&& after.deployments == before.deployments
            &&& after.tenants == before.tenants
            &&& after.audit_entries.len() == before.audit_entries.len() + 1
            &&& after.audit_entries.drop_last() == before.audit_entries
            &&& after.audit_entries.last().outcome == "error"@
            &&& after.audit_entries.last().detail == Some(message)
            &&& after.audit_entries.last().operation == operation
            &&& after.audit_entries.last().actor_id == actor.id
        }),
{
    let after = plane::deployment_candidate(before, actor, operation, id, Err(message), now);
    assert(after.audit_entries.drop_last() =~= before.audit_entries);
}

/// A request on a tenant that cannot be met is noted in the audit trail with the reason, and
/// changes no deployment and no tenant.
pub proof fn lemma_rejected_tenant_change_is_audited_only(
    before: StateView,
    actor: ActorView,
    operation: Seq<char>,
    id: Seq<char>,
    message: Seq<char>,
    now: u64,
)
    ensures
        ({
            let after = plane::tenant_candidate(before, actor, operation, id, Err(message), now);
            &&& after.deployments == before.deployments
            &&& after.tenants == before.tenants
            &&& after.audit_entries.drop_last() == before.audit_entries
            &&& after.audit_entries.last().outcome == "error"@
            &&& after.audit_entries.last().detail == Some(message)
        }),
{
    let after = plane::tenant_candidate(before, actor, operation, id, Err(message), now);
    assert(after.audit_entries.drop_last() =~= before.audit_entries);
}

/// A change of a deployment that is made touches that deployment alone, and is noted once.
pub proof fn lemma_deployment_change_touches_one(
    before: StateView,
    actor: ActorView,
    operation: Seq<char>,
    id: Seq<char>,
    deployment: DeploymentView,
    now: u64,
)
    ensures
        ({
            let after = plane::deployment_candidate(
                before,
                actor,
                operation,
                id,
                Ok(deployment),
                now,
            );
            &&& after.deployments == before.deployments.insert(id, deployment)
            &&& after.tenants == before.tenants
            &&& after.audit_entries.drop_last() == before.audit_entries
            &&& after.audit_entries.last().outcome == "success"@
            &&& after.audit_entries.last().target_id == id
        }),
{
    let after = plane::deployment_candidate(before, actor, operation, id, Ok(deployment), now);
    assert(after.audit_entries.drop_last() =~= before.audit_entries);
}

/// A change of a tenant that is made touches that tenant alone, and is noted once.
pub proof fn lemma_tenant_change_touches_one(
    before: StateView,
    actor: ActorView,
    operation: Seq<char>,
    id: Seq<char>,
    tenant: TenantView,
    now: u64,
)
    ensures
        ({
            let after = plane::tenant_candidate(before, actor, operation, id, Ok(tenant), now);
            &&& after.tenants == before.tenants.insert(id, tenant)
            &&& after.deployments == before.deployments
            &&& after.audit_entries.drop_last() == before.audit_entries
            &&& after.audit_entries.last().outcome == "success"@
            &&& after.audit_entries.last().target_id == id
        }),
{
    let after = plane::tenant_candidate(before, actor, operation, id, Ok(tenant), now);
    assert(after.audit_entries.drop_last() =~= before.audit_entries);
}

/// Whether the entries of an audit trail have rising numbers, none above the last number given.
pub open spec fn audit_in_order(state: StateView) -> bool {
    &&& forall|i: int, j: int|
        0 <= i < j < state.audit_entries.len() ==> (#[trigger] state.audit_entries[i]).seq < (
        #[trigger] state.audit_entries[j]).seq
    &&& forall|i: int|
        0 <= i < state.audit_entries.len() ==> (#[trigger] state.audit_entries[i]).seq
            <= state.last_audit_seq
}

/// The numbers of audit entries keep rising with every entry, as long as there are numbers left.
pub proof fn lemma_audit_stays_in_order(
    state: StateView,
    now: u64,
    actor: ActorView,
    operation: Seq<char>,
    target_kind: Seq<char>,
    target_id: Seq<char>,
    outcome: Seq<char>,
    detail: Option<Seq<char>>,
)
    requires
        audit_in_order(state),
        state.last_audit_seq < u64::MAX,
    ensures
        audit_in_order(
            state.audited(now, actor, operation, target_kind, target_id, outcome, detail),
        ),
{
    let after = state.audited(now, actor, operation, target_kind, target_id, outcome, detail);
    assert forall|i: int| 0 <= i < after.audit_entries.len() implies (
    #[trigger] after.audit_entries[i]).seq <= after.last_audit_seq by {
        if i < state.audit_entries.len() {
            assert(after.audit_entries[i] == state.audit_entries[i]);
        }
    }
    assert forall|i: int, j: int| 0 <= i < j < after.audit_entries.len() implies (
    #[trigger] after.audit_entries[i]).seq < (#[trigger] after.audit_entries[j]).seq by {
        assert(after.audit_entries[i] == state.audit_entries[i]);
        if j < state.audit_entries.len() {
            assert(after.audit_entries[j] == state.audit_entries[j]);
        }
    }
}

/// Whether a backup policy can be carried out: where it is on, it says when and where to, and it
/// keeps at least one copy; no more runs failed than there were.
pub open spec fn backup_sound(policy: BackupPolicyView) -> bool {
    &&& policy.enabled ==> policy.schedule is Some && policy.target is Some
    &&& policy.retention_copies > 0
    &&& policy.failures_total <= policy.runs_total
}

/// Whether every backup policy of a state can be carried out.
pub open spec fn backups_sound(state: StateView) -> bool {
    forall|id: Seq<char>| #[trigger]
        state.deployments.contains_key(id) ==> backup_sound(state.deployments[id].backup_policy)
}

/// No request leads to a backup policy that cannot be carried out.
pub proof fn lemma_backups_stay_sound(
    state: StateView,
    id: Seq<char>,
    provision: DeploymentProvisionRequestView,
    policy: BackupPolicyApplyRequestView,
    run: BackupRunRecordRequestView,
    maintenance: MaintenanceApplyRequestView,
    upgrade: UpgradeApplyRequestView,
    now: u64,
)
    requires
        backups_sound(state),
    ensures
        decisions::provisioned(state, id, provision, now) matches Ok(after) ==> backup_sound(
            after.backup_policy,
        ),
        decisions::backup_policy_applied(state, id, policy, now) matches Ok(after)
            ==> backup_sound(after.backup_policy),
        decisions::backup_run_recorded(state, id, run, now) matches Ok(after) ==> backup_sound(
            after.backup_policy,
        ),
        decisions::maintenance_applied(state, id, maintenance, now) matches Ok(after)
            ==> backup_sound(after.backup_policy),
        decisions::upgrade_applied(state, id, upgrade, now) matches Ok(after) ==> backup_sound(
            after.backup_policy,
        ),
{
    if state.deployments.contains_key(id) {
        assert(backup_sound(state.deployments[id].backup_policy));
    }
}

/// A tenant becomes active only on a deployment that is ready.
pub proof fn lemma_active_tenants_need_ready_deployment(
    state: StateView,
    id: Seq<char>,
    request: TenantApplyRequestView,
    moved: TenantLifecycleRequestView,
    now: u64,
)
    ensures
        decisions::tenant_applied(state, id, request, now) matches Ok(tenant) ==> tenant.lifecycle
            == TenantLifecycleState::Active ==> state.deployments.contains_key(
            tenant.deployment_id,
        ) && state.deployments[tenant.deployment_id].lifecycle
            == DeploymentLifecycleState::Ready,
        decisions::tenant_moved(state, id, moved, now) matches Ok(tenant) ==> tenant.lifecycle
            == TenantLifecycleState::Active ==> state.deployments.contains_key(
            tenant.deployment_id,
        ) && state.deployments[tenant.deployment_id].lifecycle
            == DeploymentLifecycleState::Ready,
{
}

/// A deployment is taken down for good only once all of its tenants are deleted.
pub proof fn lemma_decommission_needs_deleted_tenants(
    state: StateView,
    id: Seq<char>,
    request: DeploymentProvisionRequestView,
    now: u64,
    key: Seq<char>,
)
    requires
        request.lifecycle == Some(DeploymentLifecycleState::Decommissioned),
        decisions::provisioned(state, id, request, now) is Ok,
        state.tenants.contains_key(key),
        state.tenants[key].deployment_id == id,
    ensures
        state.tenants[key].lifecycle == TenantLifecycleState::Deleted,
{
}

/// An upgrade plan that was changed names the version that is wanted; one that is complete also
/// names the version that was seen, when it began and when it ended.
pub proof fn lemma_upgrade_plan_is_complete(
    state: StateView,
    id: Seq<char>,
    request: UpgradeApplyRequestView,
    now: u64,
)
    ensures
        decisions::upgrade_applied(state, id, request, now) matches Ok(after) ==> {
            &&& after.upgrade.desired_version is Some
            &&& after.upgrade.state == UpgradeRolloutState::Complete
                ==> after.upgrade.observed_version is Some && after.upgrade.started_unix_ms is Some
                && after.upgrade.completed_unix_ms == Some(now)
            &&& after.upgrade.state == UpgradeRolloutState::InProgress
                ==> after.upgrade.started_unix_ms is Some
                && after.upgrade.completed_unix_ms is None
        },
{
}

/// What a filter shows of an audit trail are entries that it asks for, no more than it asks for.
pub proof fn lemma_audit_answer_scope(
    entries: Seq<AuditEntryView>,
    filter: AuditFilterView,
    room: nat,
)
    ensures
        plane::latest(entries, filter, room).len() <= room,
        forall|i: int|
            0 <= i < plane::latest(entries, filter, room).len() ==> filter.takes(
                #[trigger] plane::latest(entries, filter, room)[i],
            ) && entries.contains(plane::latest(entries, filter, room)[i]),
    decreases entries.len(),
{
    if room > 0 && entries.len() > 0 {
        let rest = entries.drop_last();
        let taken = filter.takes(entries.last());
        let next: nat = if taken {
            (room - 1) as nat
        } else {
            room
        };
        lemma_audit_answer_scope(rest, filter, next);
        let inner = plane::latest(rest, filter, next);
        let out = plane::latest(entries, filter, room);
        assert forall|i: int| 0 <= i < out.len() implies filter.takes(#[trigger] out[i])
            && entries.contains(out[i]) by {
            if taken && i == 0 {
                assert(entries[entries.len() - 1] == out[0]);
            } else {
                let k = if taken {
                    i - 1
                } else {
                    i
                };
                assert(out[i] == inner[k]);
                let p = choose|p: int| 0 <= p < rest.len() && rest[p] == inner[k];
                assert(entries[p] == inner[k]);
            }
        }
    }
}

/// A filter without conditions shows the latest entry of an audit trail first.
pub proof fn lemma_latest_entry_comes_first(
    entries: Seq<AuditEntryView>,
    filter: AuditFilterView,
)
    requires
        entries.len() > 0,
        filter.target_kind is None,
        filter.target_id is None,
        filter.operation is None,
    ensures
        plane::audit_answer(entries, filter).len() > 0,
        plane::audit_answer(entries, filter)[0] == entries.last(),
{
}

proof fn lemma_trim_start_first(value: Seq<char>)
    ensures
        text::trim_start(value).len() > 0 ==> !text::char_whitespace(text::trim_start(value)[0]),
    decreases value.len(),
{
    if value.len() > 0 && text::char_whitespace(value[0]) {
        lemma_trim_start_first(value.subrange(1, value.len() as int));
    }
}

proof fn lemma_trim_end_ends(value: Seq<char>)
    ensures
        text::trim_end(value).len() > 0 ==> !text::char_whitespace(text::trim_end(value).last())
            && value.len() > 0 && text::trim_end(value)[0] == value[0],
    decreases value.len(),
{
    if value.len() > 0 && text::char_whitespace(value[value.len() - 1]) {
        lemma_trim_end_ends(value.subrange(0, value.len() - 1));
    }
}

/// Trimming twice is trimming once.
pub proof fn lemma_trim_idempotent(value: Seq<char>)
    ensures
        text::trimmed(text::trimmed(value)) == text::trimmed(value),
{
    lemma_trim_start_first(value);
    lemma_trim_end_ends(text::trim_start(value));
}

/// An identifier that was accepted is accepted again, as it is.
pub proof fn lemma_resource_id_is_stable(field: Seq<char>, value: Seq<char>)
    ensures
        fields::resource_id(field, value) matches Ok(id) ==> fields::resource_id(field, id) == Ok::<
            Seq<char>,
            Seq<char>,
        >(id),
{
    lemma_trim_idempotent(value);
}

/// A filter that was normalized stays as it is when it is normalized again.
pub proof fn lemma_filter_normalize_idempotent(filter: AuditFilterView)
    ensures
        filter.normalized().normalized() == filter.normalized(),
{
    if let Some(value) = filter.target_kind {
        lemma_trim_idempotent(value);
    }
    if let Some(value) = filter.target_id {
        lemma_trim_idempotent(value);
    }
    if let Some(value) = filter.operation {
        lemma_trim_idempotent(value);
    }
}

/// The memory of what is shown of a state to one tenant has an exact boundary: on a query that holds
/// nothing yet and may hold a limit, a limit below the modeled cost is refused with that cost as
/// what was requested, and with nothing granted; and where the copies are measured to hold no more
/// than the limit they are shown, and charged exactly what they are measured to hold. Copies without
/// spare room are measured to hold the modeled cost, which is what then decides. Where the copies are
/// measured to hold more than the modeled cost, with a limit in between, it is the charge of what they
/// hold that is refused, and they are not shown.
pub proof fn lemma_status_memory_boundary<
    C: Fn() -> Result<(), QueryBudgetError>,
    R: FnOnce(u64) -> Result<(), QueryBudgetError>,
    S: FnOnce(u64) -> Result<(), QueryBudgetError>,
>(
    state: StateView,
    path: Option<Seq<char>>,
    tenant_id: Seq<char>,
    checkpoint: C,
    reserve: R,
    resize: S,
    limit: u64,
    held: u64,
    projected: Result<(ManagedControlPlaneStatusProjection, u64), QueryBudgetError>,
)
    requires
        budget::never_stops(checkpoint),
        budget::bounds_memory(reserve, limit),
        budget::keeps_memory(resize, limit),
        status::projection_peak(state, path, tenant_id) <= held,
        status::projected_as(
            state,
            path,
            tenant_id,
            checkpoint,
            reserve,
            resize,
            held,
            projected,
        ),
    ensures
        ({
            let peak = status::projection_peak(state, path, tenant_id);
            &&& peak > limit ==> {
                &&& projected == Err::<
                    (ManagedControlPlaneStatusProjection, u64),
                    QueryBudgetError,
                >(budget::memory_exceeded(limit, peak))
                &&& !budget::granted(reserve, peak)
            }
            &&& held <= limit ==> (projected matches Ok((_, charged)) && charged == held)
            &&& held == peak ==> (projected is Ok <==> peak <= limit)
            &&& peak <= limit < held ==> (projected matches Err(error) && budget::refused(
                resize,
                held,
                error,
            ))
            &&& projected is Ok <==> held <= limit
        }),
{
}

} // verus!
