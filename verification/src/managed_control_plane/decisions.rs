//! The decisions on requests to change the state of the managed control plane.

use vstd::prelude::*;

use crate::managed_control_plane::fields;
use crate::managed_control_plane::state::ManagedControlPlaneState;
use crate::managed_control_plane::state::StateView;
use crate::managed_control_plane::types::BackupPolicyApplyRequestView;
use crate::managed_control_plane::types::BackupPolicyView;
use crate::managed_control_plane::types::BackupRunOutcome;
use crate::managed_control_plane::types::BackupRunRecordRequestView;
use crate::managed_control_plane::types::DeploymentLifecycleState;
use crate::managed_control_plane::types::DeploymentProvisionRequestView;
use crate::managed_control_plane::types::DeploymentView;
use crate::managed_control_plane::types::Labels;
use crate::managed_control_plane::types::MaintenanceApplyRequestView;
use crate::managed_control_plane::types::MaintenancePolicyView;
use crate::managed_control_plane::types::ManagedBackupPolicy;
use crate::managed_control_plane::types::ManagedBackupPolicyApplyRequest;
use crate::managed_control_plane::types::ManagedBackupRunRecordRequest;
use crate::managed_control_plane::types::ManagedDeployment;
use crate::managed_control_plane::types::ManagedDeploymentProvisionRequest;
use crate::managed_control_plane::types::ManagedMaintenanceApplyRequest;
use crate::managed_control_plane::types::ManagedMaintenancePolicy;
use crate::managed_control_plane::types::ManagedTenant;
use crate::managed_control_plane::types::ManagedTenantApplyRequest;
use crate::managed_control_plane::types::ManagedTenantLifecycleRequest;
use crate::managed_control_plane::types::ManagedUpgradeApplyRequest;
use crate::managed_control_plane::types::ManagedUpgradePlan;
use crate::managed_control_plane::types::TenantApplyRequestView;
use crate::managed_control_plane::types::TenantLifecycleRequestView;
use crate::managed_control_plane::types::TenantLifecycleState;
use crate::managed_control_plane::types::TenantView;
use crate::managed_control_plane::types::UpgradeApplyRequestView;
use crate::managed_control_plane::types::UpgradePlanView;
use crate::managed_control_plane::types::UpgradeRolloutState;
use crate::names;
use crate::ordered;
use crate::sizes;
use crate::text;

verus! {

/// The complaint about a deployment that is not known.
pub open spec fn unknown_deployment(id: Seq<char>) -> Seq<char> {
    "unknown deployment '"@ + id + "'"@
}

fn unknown_deployment_message(id: &str) -> (message: String)
    ensures
        message@ == unknown_deployment(id@),
{
    text::text3("unknown deployment '", id, "'")
}

/// The complaint about a deployment, in words that follow its name.
pub open spec fn deployment_complaint(id: Seq<char>, words: Seq<char>) -> Seq<char> {
    "deployment '"@ + id + words
}

/// The complaint about a tenant whose deployment is not ready.
pub open spec fn not_ready(tenant_id: Seq<char>, deployment_id: Seq<char>) -> Seq<char> {
    "tenant '"@ + tenant_id + "' cannot become active until deployment '"@ + deployment_id
        + "' is ready"@
}

fn not_ready_message(tenant_id: &str, deployment_id: &str) -> (message: String)
    ensures
        message@ == not_ready(tenant_id@, deployment_id@),
{
    text::text5(
        "tenant '",
        tenant_id,
        "' cannot become active until deployment '",
        deployment_id,
        "' is ready",
    )
}

/// What a new optional value leaves of an old one: a value that is given replaces it.
pub open spec fn replaced<T>(given: Option<T>, old_value: Option<T>) -> Option<T> {
    if given is Some {
        given
    } else {
        old_value
    }
}

/// What a given text leaves of an old optional one: where it is given, its trimmed form stands.
pub open spec fn renewed(given: Option<Seq<char>>, old_value: Option<Seq<char>>) -> Option<
    Seq<char>,
> {
    if given is Some {
        fields::optional_field(given)
    } else {
        old_value
    }
}

fn renew(given: &Option<String>, old_value: &Option<String>) -> (kept: Option<String>)
    ensures
        text::opt_text(kept) == renewed(text::opt_text(*given), text::opt_text(*old_value)),
        kept is Some == renewed(
            text::opt_text(*given),
            text::opt_text(*old_value),
        ) is Some,
{
    if given.is_some() {
        fields::normalize_optional_field(given)
    } else {
        text::owned_opt(old_value)
    }
}

/// A deployment that was just asked for.
pub open spec fn new_deployment(id: Seq<char>, now: u64) -> DeploymentView {
    DeploymentView {
        id,
        display_name: id,
        region: Seq::empty(),
        plan: Seq::empty(),
        control_plane_endpoint: None,
        data_plane_endpoint: None,
        object_store_path: None,
        lifecycle: DeploymentLifecycleState::Requested,
        labels: Map::empty(),
        created_unix_ms: now,
        updated_unix_ms: now,
        backup_policy: BackupPolicyView::initial(),
        maintenance: MaintenancePolicyView::initial(),
        upgrade: UpgradePlanView::initial(),
    }
}

/// Whether a deployment has a tenant that is not deleted.
pub open spec fn has_live_tenant(state: StateView, deployment_id: Seq<char>) -> bool {
    exists|key: Seq<char>| #[trigger]
        state.tenants.contains_key(key) && state.tenants[key].deployment_id == deployment_id
            && state.tenants[key].lifecycle != TenantLifecycleState::Deleted
}

/// A field that must be there for a new deployment.
pub open spec fn demanded_field(
    field: Seq<char>,
    given: Option<Seq<char>>,
    is_new: bool,
    old_value: Seq<char>,
) -> Result<Seq<char>, Seq<char>> {
    match given {
        Some(value) => fields::non_empty_field(field, value),
        None => if is_new {
            Err(field + " is required when provisioning a new deployment"@)
        } else {
            Ok(old_value)
        },
    }
}

/// The decision on a request to create a deployment or to change it.
pub open spec fn provisioned(
    state: StateView,
    id: Seq<char>,
    request: DeploymentProvisionRequestView,
    now: u64,
) -> Result<DeploymentView, Seq<char>> {
    let is_new = !state.deployments.contains_key(id);
    let base = if is_new {
        new_deployment(id, now)
    } else {
        state.deployments[id]
    };
    let name = match request.display_name {
        Some(value) => fields::non_empty_field("displayName"@, value),
        None => Ok(base.display_name),
    };
    let region = demanded_field("region"@, request.region, is_new, base.region);
    let plan = demanded_field("plan"@, request.plan, is_new, base.plan);
    let labels = match request.labels {
        Some(given) => fields::normalized_labels("labels"@, given),
        None => Ok(base.labels),
    };
    if let Err(message) = name {
        Err(message)
    } else if let Err(message) = region {
        Err(message)
    } else if let Err(message) = plan {
        Err(message)
    } else if let Err(message) = labels {
        Err(message)
    } else if request.lifecycle == Some(DeploymentLifecycleState::Decommissioned)
        && has_live_tenant(state, id) {
        Err(deployment_complaint(id, "' still has tenants that are not deleted"@))
    } else {
        Ok(
            DeploymentView {
                display_name: name->Ok_0,
                region: region->Ok_0,
                plan: plan->Ok_0,
                labels: labels->Ok_0,
                lifecycle: match request.lifecycle {
                    Some(lifecycle) => lifecycle,
                    None => base.lifecycle,
                },
                control_plane_endpoint: renewed(
                    request.control_plane_endpoint,
                    base.control_plane_endpoint,
                ),
                data_plane_endpoint: renewed(
                    request.data_plane_endpoint,
                    base.data_plane_endpoint,
                ),
                object_store_path: renewed(request.object_store_path, base.object_store_path),
                updated_unix_ms: now,
                ..base
            },
        )
    }
}

fn check_live_tenant(state: &ManagedControlPlaneState, deployment_id: &str) -> (found: bool)
    ensures
        found == has_live_tenant(state@, deployment_id@),
{
    let n: usize = state.tenants.len();
    let ghost listed = state.tenants.entries();
    let mut i: usize = 0;
    while i < n
        invariant
            i <= n,
            n == listed.len(),
            listed == state.tenants.entries(),
            ordered::sorted_keys::<String, TenantView>(listed),
            forall|k: int|
                0 <= k < i ==> (#[trigger] listed[k]).1.deployment_id != deployment_id@
                    || listed[k].1.lifecycle == TenantLifecycleState::Deleted,
        decreases n - i,
    {
        let tenant = state.tenants.value_at(i);
        if names::same_text(tenant.deployment_id.as_str(), deployment_id) && tenant.lifecycle
            != TenantLifecycleState::Deleted {
            proof {
                ordered::lemma_keyed_map_at::<String, TenantView>(listed, i as int);
                assert(state@.tenants.contains_key(listed[i as int].0));
            }
            return true;
        }
        i = i + 1;
    }
    proof {
        assert forall|key: Seq<char>| #[trigger]
            state@.tenants.contains_key(key) implies state@.tenants[key].deployment_id
            != deployment_id@ || state@.tenants[key].lifecycle == TenantLifecycleState::Deleted by {
            assert(ordered::holds_key::<String, TenantView>(listed, key));
            let k = choose|k: int| ordered::key_stands::<String, TenantView>(listed, key, k);
            ordered::lemma_keyed_map_at::<String, TenantView>(listed, k);
        }
    }
    false
}

fn demand_field(field: &str, given: &Option<String>, is_new: bool, old_value: &String) -> (kept:
    Result<String, String>)
    ensures
        fields::outcome_text(kept) == demanded_field(
            field@,
            text::opt_text(*given),
            is_new,
            old_value@,
        ),
{
    match given {
        Some(value) => fields::validate_non_empty_field(field, value.as_str()),
        None => if is_new {
            Err(text::text2(field, " is required when provisioning a new deployment"))
        } else {
            Ok(old_value.clone())
        },
    }
}

/// What a decision on a deployment says.
pub open spec fn deployment_outcome(outcome: Result<ManagedDeployment, String>) -> Result<
    DeploymentView,
    Seq<char>,
> {
    match outcome {
        Ok(deployment) => Ok(deployment@),
        Err(message) => Err(message@),
    }
}

/// What a decision on a tenant says.
pub open spec fn tenant_outcome(outcome: Result<ManagedTenant, String>) -> Result<
    TenantView,
    Seq<char>,
> {
    match outcome {
        Ok(tenant) => Ok(tenant@),
        Err(message) => Err(message@),
    }
}

/// Decides on a request to create a deployment or to change it.
pub fn decide_provision(
    state: &ManagedControlPlaneState,
    deployment_id: &str,
    request: &ManagedDeploymentProvisionRequest,
    now_unix_ms: u64,
) -> (decision: Result<ManagedDeployment, String>)
    ensures
        deployment_outcome(decision) == provisioned(
            state@,
            deployment_id@,
            request@,
            now_unix_ms,
        ),
{
    let id = text::owned(deployment_id);
    let existing = state.deployments.get(&id);
    let is_new = existing.is_none();
    let mut deployment = match existing {
        Some(found) => found.clone(),
        None => {
            let fresh = ManagedDeployment {
                id: text::owned(deployment_id),
                display_name: text::owned(deployment_id),
                region: String::new(),
                plan: String::new(),
                control_plane_endpoint: None,
                data_plane_endpoint: None,
                object_store_path: None,
                lifecycle: DeploymentLifecycleState::Requested,
                labels: Labels::new(),
                created_unix_ms: now_unix_ms,
                updated_unix_ms: now_unix_ms,
                backup_policy: ManagedBackupPolicy::default(),
                maintenance: ManagedMaintenancePolicy::default(),
                upgrade: ManagedUpgradePlan::default(),
            };
            assert(fresh@ =~= new_deployment(deployment_id@, now_unix_ms));
            fresh
        },
    };
    let ghost base = deployment@;
    match &request.display_name {
        Some(value) => {
            deployment.display_name = match fields::validate_non_empty_field(
                "displayName",
                value.as_str(),
            ) {
                Ok(kept) => kept,
                Err(message) => {
                    return Err(message);
                },
            };
        },
        None => {},
    }
    deployment.region = match demand_field("region", &request.region, is_new, &deployment.region) {
        Ok(kept) => kept,
        Err(message) => {
            return Err(message);
        },
    };
    deployment.plan = match demand_field("plan", &request.plan, is_new, &deployment.plan) {
        Ok(kept) => kept,
        Err(message) => {
            return Err(message);
        },
    };
    match &request.labels {
        Some(labels) => {
            deployment.labels = match fields::normalize_labels(labels, "labels") {
                Ok(kept) => kept,
                Err(message) => {
                    return Err(message);
                },
            };
        },
        None => {},
    }
    match request.lifecycle {
        Some(lifecycle) => {
            if lifecycle == DeploymentLifecycleState::Decommissioned && check_live_tenant(
                state,
                deployment_id,
            ) {
                return Err(
                    text::text3(
                        "deployment '",
                        deployment_id,
                        "' still has tenants that are not deleted",
                    ),
                );
            }
            deployment.lifecycle = lifecycle;
        },
        None => {},
    }
    deployment.control_plane_endpoint = renew(
        &request.control_plane_endpoint,
        &deployment.control_plane_endpoint,
    );
    deployment.data_plane_endpoint = renew(
        &request.data_plane_endpoint,
        &deployment.data_plane_endpoint,
    );
    deployment.object_store_path = renew(
        &request.object_store_path,
        &deployment.object_store_path,
    );
    deployment.updated_unix_ms = now_unix_ms;
    Ok(deployment)
}

/// The decision on a request to change a backup policy.
pub open spec fn backup_policy_applied(
    state: StateView,
    id: Seq<char>,
    request: BackupPolicyApplyRequestView,
    now: u64,
) -> Result<DeploymentView, Seq<char>> {
    if !state.deployments.contains_key(id) {
        Err(unknown_deployment(id))
    } else {
        let base = state.deployments[id];
        let enabled = match request.enabled {
            Some(given) => given,
            None => base.backup_policy.enabled,
        };
        let schedule = renewed(request.schedule, base.backup_policy.schedule);
        let target = renewed(request.target, base.backup_policy.target);
        let copies = match request.retention_copies {
            Some(given) => given,
            None => base.backup_policy.retention_copies,
        };
        if copies == 0 {
            Err("retentionCopies must be greater than zero"@)
        } else if enabled && schedule is None {
            Err(deployment_complaint(id, "' backup policy requires a schedule when enabled"@))
        } else if enabled && target is None {
            Err(deployment_complaint(id, "' backup policy requires a target when enabled"@))
        } else {
            Ok(
                DeploymentView {
                    backup_policy: BackupPolicyView {
                        enabled,
                        schedule,
                        target,
                        retention_copies: copies,
                        ..base.backup_policy
                    },
                    updated_unix_ms: now,
                    ..base
                },
            )
        }
    }
}

/// Decides on a request to change a backup policy.
pub fn decide_backup_policy(
    state: &ManagedControlPlaneState,
    deployment_id: &str,
    request: &ManagedBackupPolicyApplyRequest,
    now_unix_ms: u64,
) -> (decision: Result<ManagedDeployment, String>)
    ensures
        deployment_outcome(decision) == backup_policy_applied(
            state@,
            deployment_id@,
            request@,
            now_unix_ms,
        ),
{
    let id = text::owned(deployment_id);
    let mut deployment = match state.deployments.get(&id) {
        Some(found) => found.clone(),
        None => {
            return Err(unknown_deployment_message(deployment_id));
        },
    };
    let enabled = match request.enabled {
        Some(given) => given,
        None => deployment.backup_policy.enabled,
    };
    let schedule = renew(&request.schedule, &deployment.backup_policy.schedule);
    let target = renew(&request.target, &deployment.backup_policy.target);
    let retention_copies = match request.retention_copies {
        Some(given) => given,
        None => deployment.backup_policy.retention_copies,
    };
    if retention_copies == 0 {
        return Err(text::owned("retentionCopies must be greater than zero"));
    }
    if enabled && schedule.is_none() {
        return Err(
            text::text3(
                "deployment '",
                deployment_id,
                "' backup policy requires a schedule when enabled",
            ),
        );
    }
    if enabled && target.is_none() {
        return Err(
            text::text3(
                "deployment '",
                deployment_id,
                "' backup policy requires a target when enabled",
            ),
        );
    }
    deployment.backup_policy.enabled = enabled;
    deployment.backup_policy.schedule = schedule;
    deployment.backup_policy.target = target;
    deployment.backup_policy.retention_copies = retention_copies;
    deployment.updated_unix_ms = now_unix_ms;
    Ok(deployment)
}

/// The decision on a report of a backup run.
pub open spec fn backup_run_recorded(
    state: StateView,
    id: Seq<char>,
    request: BackupRunRecordRequestView,
    now: u64,
) -> Result<DeploymentView, Seq<char>> {
    if !state.deployments.contains_key(id) {
        Err(unknown_deployment(id))
    } else {
        let base = state.deployments[id];
        let at = match request.completed_unix_ms {
            Some(given) => given,
            None => now,
        };
        let tried = BackupPolicyView {
            last_attempt_unix_ms: Some(at),
            runs_total: sizes::sat64(base.backup_policy.runs_total + 1),
            ..base.backup_policy
        };
        if !base.backup_policy.enabled {
            Err(deployment_complaint(id, "' does not have an enabled backup policy"@))
        } else {
            match request.outcome {
                BackupRunOutcome::Success => match fields::optional_field(request.snapshot_path) {
                    None => Err(
                        "snapshotPath is required when recording a successful backup run"@,
                    ),
                    Some(path) => Ok(
                        DeploymentView {
                            backup_policy: BackupPolicyView {
                                last_success_unix_ms: Some(at),
                                last_snapshot_path: Some(path),
                                last_error: None,
                                ..tried
                            },
                            updated_unix_ms: now,
                            ..base
                        },
                    ),
                },
                BackupRunOutcome::Failed => Ok(
                    DeploymentView {
                        backup_policy: BackupPolicyView {
                            failures_total: sizes::sat64(base.backup_policy.failures_total + 1),
                            last_error: Some(
                                match fields::optional_field(request.error) {
                                    Some(error) => error,
                                    None => "backup run failed without a recorded error"@,
                                },
                            ),
                            ..tried
                        },
                        updated_unix_ms: now,
                        ..base
                    },
                ),
            }
        }
    }
}

/// Decides on a report of a backup run.
pub fn decide_backup_run(
    state: &ManagedControlPlaneState,
    deployment_id: &str,
    request: &ManagedBackupRunRecordRequest,
    now_unix_ms: u64,
) -> (decision: Result<ManagedDeployment, String>)
    ensures
        deployment_outcome(decision) == backup_run_recorded(
            state@,
            deployment_id@,
            request@,
            now_unix_ms,
        ),
{
    let id = text::owned(deployment_id);
    let mut deployment = match state.deployments.get(&id) {
        Some(found) => found.clone(),
        None => {
            return Err(unknown_deployment_message(deployment_id));
        },
    };
    if !deployment.backup_policy.enabled {
        return Err(
            text::text3(
                "deployment '",
                deployment_id,
                "' does not have an enabled backup policy",
            ),
        );
    }
    let completed_unix_ms = match request.completed_unix_ms {
        Some(given) => given,
        None => now_unix_ms,
    };
    deployment.backup_policy.last_attempt_unix_ms = Some(completed_unix_ms);
    deployment.backup_policy.runs_total = deployment.backup_policy.runs_total.saturating_add(1);
    match request.outcome {
        BackupRunOutcome::Success => {
            let path = match fields::normalize_optional_field(&request.snapshot_path) {
                Some(path) => path,
                None => {
                    return Err(
                        text::owned(
                            "snapshotPath is required when recording a successful backup run",
                        ),
                    );
                },
            };
            deployment.backup_policy.last_success_unix_ms = Some(completed_unix_ms);
            deployment.backup_policy.last_snapshot_path = Some(path);
            deployment.backup_policy.last_error = None;
        },
        BackupRunOutcome::Failed => {
            deployment.backup_policy.failures_total =
            deployment.backup_policy.failures_total.saturating_add(1);
            deployment.backup_policy.last_error = match fields::normalize_optional_field(
                &request.error,
            ) {
                Some(error) => Some(error),
                None => Some(text::owned("backup run failed without a recorded error")),
            };
        },
    }
    deployment.updated_unix_ms = now_unix_ms;
    Ok(deployment)
}

/// The decision on a request to change what is known of maintenance.
pub open spec fn maintenance_applied(
    state: StateView,
    id: Seq<char>,
    request: MaintenanceApplyRequestView,
    now: u64,
) -> Result<DeploymentView, Seq<char>> {
    if !state.deployments.contains_key(id) {
        Err(unknown_deployment(id))
    } else {
        let base = state.deployments[id];
        let allowed = match request.allowed_mutations {
            Some(given) => fields::normalized_list("allowedMutations"@, given),
            None => Ok(base.maintenance.allowed_mutations),
        };
        match allowed {
            Err(message) => Err(message),
            Ok(mutations) => Ok(
                DeploymentView {
                    maintenance: MaintenancePolicyView {
                        active: match request.active {
                            Some(given) => given,
                            None => base.maintenance.active,
                        },
                        reason: renewed(request.reason, base.maintenance.reason),
                        window_start_unix_ms: replaced(
                            request.window_start_unix_ms,
                            base.maintenance.window_start_unix_ms,
                        ),
                        window_end_unix_ms: replaced(
                            request.window_end_unix_ms,
                            base.maintenance.window_end_unix_ms,
                        ),
                        allowed_mutations: mutations,
                        updated_unix_ms: now,
                    },
                    updated_unix_ms: now,
                    ..base
                },
            ),
        }
    }
}

/// Decides on a request to change what is known of maintenance.
pub fn decide_maintenance(
    state: &ManagedControlPlaneState,
    deployment_id: &str,
    request: &ManagedMaintenanceApplyRequest,
    now_unix_ms: u64,
) -> (decision: Result<ManagedDeployment, String>)
    ensures
        deployment_outcome(decision) == maintenance_applied(
            state@,
            deployment_id@,
            request@,
            now_unix_ms,
        ),
{
    let id = text::owned(deployment_id);
    let mut deployment = match state.deployments.get(&id) {
        Some(found) => found.clone(),
        None => {
            return Err(unknown_deployment_message(deployment_id));
        },
    };
    match request.active {
        Some(active) => {
            deployment.maintenance.active = active;
        },
        None => {},
    }
    deployment.maintenance.reason = renew(&request.reason, &deployment.maintenance.reason);
    if request.window_start_unix_ms.is_some() {
        deployment.maintenance.window_start_unix_ms = request.window_start_unix_ms;
    }
    if request.window_end_unix_ms.is_some() {
        deployment.maintenance.window_end_unix_ms = request.window_end_unix_ms;
    }
    match &request.allowed_mutations {
        Some(allowed) => {
            deployment.maintenance.allowed_mutations = match fields::normalize_string_list(
                allowed,
                "allowedMutations",
            ) {
                Ok(kept) => kept,
                Err(message) => {
                    return Err(message);
                },
            };
        },
        None => {},
    }
    deployment.maintenance.updated_unix_ms = now_unix_ms;
    deployment.updated_unix_ms = now_unix_ms;
    Ok(deployment)
}

/// A plan once its rollout has come to a stage.
pub open spec fn rollout_moved(
    plan: UpgradePlanView,
    next: UpgradeRolloutState,
    now: u64,
) -> UpgradePlanView {
    let begun = match plan.started_unix_ms {
        Some(started) => Some(started),
        None => Some(now),
    };
    let (started, completed) = match next {
        UpgradeRolloutState::Idle => (None, None),
        UpgradeRolloutState::Pending => (plan.started_unix_ms, None),
        UpgradeRolloutState::InProgress => (begun, None),
        UpgradeRolloutState::Complete => (begun, Some(now)),
        UpgradeRolloutState::Paused => (begun, None),
        UpgradeRolloutState::Cancelled => (plan.started_unix_ms, Some(now)),
    };
    UpgradePlanView {
        state: next,
        started_unix_ms: started,
        completed_unix_ms: completed,
        observed_version: if next == UpgradeRolloutState::Complete
            && plan.observed_version is None {
            plan.desired_version
        } else {
            plan.observed_version
        },
        ..plan
    }
}

/// The decision on a request to change an upgrade plan.
pub open spec fn upgrade_applied(
    state: StateView,
    id: Seq<char>,
    request: UpgradeApplyRequestView,
    now: u64,
) -> Result<DeploymentView, Seq<char>> {
    if !state.deployments.contains_key(id) {
        Err(unknown_deployment(id))
    } else {
        let base = state.deployments[id];
        let desired = renewed(request.desired_version, base.upgrade.desired_version);
        let changed = desired != base.upgrade.desired_version;
        let channel = match request.channel {
            Some(given) => fields::non_empty_field("channel"@, given),
            None => Ok(base.upgrade.channel),
        };
        let strategy = match request.strategy {
            Some(given) => fields::non_empty_field("strategy"@, given),
            None => Ok(base.upgrade.strategy),
        };
        let next = match request.state {
            Some(given) => given,
            None => if changed {
                UpgradeRolloutState::Pending
            } else {
                base.upgrade.state
            },
        };
        if desired is None {
            Err(deployment_complaint(id, "' upgrade state requires desiredVersion"@))
        } else if let Err(message) = channel {
            Err(message)
        } else if let Err(message) = strategy {
            Err(message)
        } else {
            let plan = UpgradePlanView {
                desired_version: desired,
                observed_version: renewed(
                    request.observed_version,
                    base.upgrade.observed_version,
                ),
                channel: channel->Ok_0,
                strategy: strategy->Ok_0,
                notes: renewed(request.notes, base.upgrade.notes),
                requested_unix_ms: if changed || next == UpgradeRolloutState::Pending {
                    Some(now)
                } else {
                    base.upgrade.requested_unix_ms
                },
                ..base.upgrade
            };
            Ok(
                DeploymentView {
                    upgrade: rollout_moved(plan, next, now),
                    updated_unix_ms: now,
                    ..base
                },
            )
        }
    }
}

fn begin_rollout(plan: &mut ManagedUpgradePlan, now_unix_ms: u64)
    ensures
        final(plan)@ == (UpgradePlanView {
            started_unix_ms: match old(plan)@.started_unix_ms {
                Some(started) => Some(started),
                None => Some(now_unix_ms),
            },
            ..old(plan)@
        }),
{
    if plan.started_unix_ms.is_none() {
        plan.started_unix_ms = Some(now_unix_ms);
    }
}

fn move_rollout(plan: &mut ManagedUpgradePlan, next_state: UpgradeRolloutState, now_unix_ms: u64)
    ensures
        final(plan)@ == rollout_moved(old(plan)@, next_state, now_unix_ms),
{
    match next_state {
        UpgradeRolloutState::Idle => {
            plan.started_unix_ms = None;
            plan.completed_unix_ms = None;
        },
        UpgradeRolloutState::Pending => {
            plan.completed_unix_ms = None;
        },
        UpgradeRolloutState::InProgress => {
            begin_rollout(plan, now_unix_ms);
            plan.completed_unix_ms = None;
        },
        UpgradeRolloutState::Complete => {
            begin_rollout(plan, now_unix_ms);
            plan.completed_unix_ms = Some(now_unix_ms);
            if plan.observed_version.is_none() {
                plan.observed_version = text::owned_opt(&plan.desired_version);
            }
        },
        UpgradeRolloutState::Paused => {
            begin_rollout(plan, now_unix_ms);
            plan.completed_unix_ms = None;
        },
        UpgradeRolloutState::Cancelled => {
            plan.completed_unix_ms = Some(now_unix_ms);
        },
    }
    plan.state = next_state;
}

/// Decides on a request to change an upgrade plan.
pub fn decide_upgrade(
    state: &ManagedControlPlaneState,
    deployment_id: &str,
    request: &ManagedUpgradeApplyRequest,
    now_unix_ms: u64,
) -> (decision: Result<ManagedDeployment, String>)
    ensures
        deployment_outcome(decision) == upgrade_applied(
            state@,
            deployment_id@,
            request@,
            now_unix_ms,
        ),
{
    let id = text::owned(deployment_id);
    let mut deployment = match state.deployments.get(&id) {
        Some(found) => found.clone(),
        None => {
            return Err(unknown_deployment_message(deployment_id));
        },
    };
    let desired_version = renew(&request.desired_version, &deployment.upgrade.desired_version);
    if desired_version.is_none() {
        return Err(
            text::text3(
                "deployment '",
                deployment_id,
                "' upgrade state requires desiredVersion",
            ),
        );
    }
    let changed = !names::same_opt_text(&desired_version, &deployment.upgrade.desired_version);
    deployment.upgrade.desired_version = desired_version;
    deployment.upgrade.observed_version = renew(
        &request.observed_version,
        &deployment.upgrade.observed_version,
    );
    match &request.channel {
        Some(channel) => {
            deployment.upgrade.channel = match fields::validate_non_empty_field(
                "channel",
                channel.as_str(),
            ) {
                Ok(kept) => kept,
                Err(message) => {
                    return Err(message);
                },
            };
        },
        None => {},
    }
    match &request.strategy {
        Some(strategy) => {
            deployment.upgrade.strategy = match fields::validate_non_empty_field(
                "strategy",
                strategy.as_str(),
            ) {
                Ok(kept) => kept,
                Err(message) => {
                    return Err(message);
                },
            };
        },
        None => {},
    }
    deployment.upgrade.notes = renew(&request.notes, &deployment.upgrade.notes);
    let next_state = match request.state {
        Some(given) => given,
        None => if changed {
            UpgradeRolloutState::Pending
        } else {
            deployment.upgrade.state
        },
    };
    if changed || next_state == UpgradeRolloutState::Pending {
        deployment.upgrade.requested_unix_ms = Some(now_unix_ms);
    }
    move_rollout(&mut deployment.upgrade, next_state, now_unix_ms);
    deployment.updated_unix_ms = now_unix_ms;
    Ok(deployment)
}

/// A tenant that was just asked for.
pub open spec fn new_tenant(id: Seq<char>, now: u64) -> TenantView {
    TenantView {
        id,
        deployment_id: Seq::empty(),
        display_name: id,
        lifecycle: TenantLifecycleState::Provisioning,
        retention_days: None,
        storage_limit_bytes: None,
        ingest_rate_limit_per_sec: None,
        query_concurrency_limit: None,
        labels: Map::empty(),
        created_unix_ms: now,
        updated_unix_ms: now,
        lifecycle_note: None,
    }
}

/// The deployment that a request puts a tenant on.
pub open spec fn tenant_home(
    given: Option<Seq<char>>,
    is_new: bool,
    old_value: Seq<char>,
) -> Result<Seq<char>, Seq<char>> {
    match given {
        Some(value) => fields::resource_id("deploymentId"@, value),
        None => if is_new {
            Err("deploymentId is required when creating a managed tenant"@)
        } else {
            Ok(old_value)
        },
    }
}

/// Whether a deployment is being taken down, or is.
pub open spec fn going_away(lifecycle: DeploymentLifecycleState) -> bool {
    lifecycle == DeploymentLifecycleState::Decommissioning || lifecycle
        == DeploymentLifecycleState::Decommissioned
}

/// Whether a tenant is being deleted, or is.
pub open spec fn leaving(lifecycle: TenantLifecycleState) -> bool {
    lifecycle == TenantLifecycleState::Deleting || lifecycle == TenantLifecycleState::Deleted
}

/// The decision on a request to create a tenant or to change it.
pub open spec fn tenant_applied(
    state: StateView,
    id: Seq<char>,
    request: TenantApplyRequestView,
    now: u64,
) -> Result<TenantView, Seq<char>> {
    let is_new = !state.tenants.contains_key(id);
    let base = if is_new {
        new_tenant(id, now)
    } else {
        state.tenants[id]
    };
    match tenant_home(request.deployment_id, is_new, base.deployment_id) {
        Err(message) => Err(message),
        Ok(home) => {
            let lifecycle = match request.lifecycle {
                Some(given) => given,
                None => base.lifecycle,
            };
            let name = match request.display_name {
                Some(given) => fields::non_empty_field("displayName"@, given),
                None => Ok(base.display_name),
            };
            let labels = match request.labels {
                Some(given) => fields::normalized_labels("labels"@, given),
                None => Ok(base.labels),
            };
            if !state.deployments.contains_key(home) {
                Err(unknown_deployment(home))
            } else if going_away(state.deployments[home].lifecycle) && !leaving(lifecycle) {
                Err(deployment_complaint(home, "' is not accepting active tenants"@))
            } else if lifecycle == TenantLifecycleState::Active
                && state.deployments[home].lifecycle != DeploymentLifecycleState::Ready {
                Err(not_ready(id, home))
            } else if let Err(message) = name {
                Err(message)
            } else if let Err(message) = labels {
                Err(message)
            } else {
                Ok(
                    TenantView {
                        deployment_id: home,
                        display_name: name->Ok_0,
                        lifecycle,
                        retention_days: replaced(request.retention_days, base.retention_days),
                        storage_limit_bytes: replaced(
                            request.storage_limit_bytes,
                            base.storage_limit_bytes,
                        ),
                        ingest_rate_limit_per_sec: replaced(
                            request.ingest_rate_limit_per_sec,
                            base.ingest_rate_limit_per_sec,
                        ),
                        query_concurrency_limit: replaced(
                            request.query_concurrency_limit,
                            base.query_concurrency_limit,
                        ),
                        labels: labels->Ok_0,
                        updated_unix_ms: now,
                        ..base
                    },
                )
            }
        },
    }
}

fn find_tenant_home(given: &Option<String>, is_new: bool, old_value: &String) -> (home: Result<
    String,
    String,
>)
    ensures
        fields::outcome_text(home) == tenant_home(text::opt_text(*given), is_new, old_value@),
{
    match given {
        Some(value) => fields::validate_resource_id("deploymentId", value.as_str()),
        None => if is_new {
            Err(text::owned("deploymentId is required when creating a managed tenant"))
        } else {
            Ok(old_value.clone())
        },
    }
}

/// Decides on a request to create a tenant or to change it.
pub fn decide_tenant(
    state: &ManagedControlPlaneState,
    tenant_id: &str,
    request: &ManagedTenantApplyRequest,
    now_unix_ms: u64,
) -> (decision: Result<ManagedTenant, String>)
    ensures
        tenant_outcome(decision) == tenant_applied(state@, tenant_id@, request@, now_unix_ms),
{
    let id = text::owned(tenant_id);
    let existing = state.tenants.get(&id);
    let is_new = existing.is_none();
    let mut tenant = match existing {
        Some(found) => found.clone(),
        None => {
            let fresh = ManagedTenant {
                id: text::owned(tenant_id),
                deployment_id: String::new(),
                display_name: text::owned(tenant_id),
                lifecycle: TenantLifecycleState::Provisioning,
                retention_days: None,
                storage_limit_bytes: None,
                ingest_rate_limit_per_sec: None,
                query_concurrency_limit: None,
                labels: Labels::new(),
                created_unix_ms: now_unix_ms,
                updated_unix_ms: now_unix_ms,
                lifecycle_note: None,
            };
            assert(fresh@ =~= new_tenant(tenant_id@, now_unix_ms));
            fresh
        },
    };
    let home = match find_tenant_home(&request.deployment_id, is_new, &tenant.deployment_id) {
        Ok(home) => home,
        Err(message) => {
            return Err(message);
        },
    };
    let home_lifecycle = match state.deployments.get(&home) {
        Some(deployment) => deployment.lifecycle,
        None => {
            return Err(unknown_deployment_message(home.as_str()));
        },
    };
    let lifecycle = match request.lifecycle {
        Some(given) => given,
        None => tenant.lifecycle,
    };
    if (home_lifecycle == DeploymentLifecycleState::Decommissioning || home_lifecycle
        == DeploymentLifecycleState::Decommissioned) && !(lifecycle
        == TenantLifecycleState::Deleting || lifecycle == TenantLifecycleState::Deleted) {
        return Err(
            text::text3("deployment '", home.as_str(), "' is not accepting active tenants"),
        );
    }
    if lifecycle == TenantLifecycleState::Active && home_lifecycle
        != DeploymentLifecycleState::Ready {
        return Err(not_ready_message(tenant_id, home.as_str()));
    }
    tenant.deployment_id = home;
    match &request.display_name {
        Some(value) => {
            tenant.display_name = match fields::validate_non_empty_field(
                "displayName",
                value.as_str(),
            ) {
                Ok(kept) => kept,
                Err(message) => {
                    return Err(message);
                },
            };
        },
        None => {},
    }
    tenant.lifecycle = lifecycle;
    if request.retention_days.is_some() {
        tenant.retention_days = request.retention_days;
    }
    if request.storage_limit_bytes.is_some() {
        tenant.storage_limit_bytes = request.storage_limit_bytes;
    }
    if request.ingest_rate_limit_per_sec.is_some() {
        tenant.ingest_rate_limit_per_sec = request.ingest_rate_limit_per_sec;
    }
    if request.query_concurrency_limit.is_some() {
        tenant.query_concurrency_limit = request.query_concurrency_limit;
    }
    match &request.labels {
        Some(labels) => {
            tenant.labels = match fields::normalize_labels(labels, "labels") {
                Ok(kept) => kept,
                Err(message) => {
                    return Err(message);
                },
            };
        },
        None => {},
    }
    tenant.updated_unix_ms = now_unix_ms;
    Ok(tenant)
}

/// The decision on a request to move a tenant to another stage of its life.
pub open spec fn tenant_moved(
    state: StateView,
    id: Seq<char>,
    request: TenantLifecycleRequestView,
    now: u64,
) -> Result<TenantView, Seq<char>> {
    if !state.tenants.contains_key(id) {
        Err("unknown tenant '"@ + id + "'"@)
    } else {
        let base = state.tenants[id];
        let home = base.deployment_id;
        let activates = request.lifecycle == TenantLifecycleState::Active;
        if activates && !state.deployments.contains_key(home) {
            Err(unknown_deployment(home))
        } else if activates && state.deployments[home].lifecycle
            != DeploymentLifecycleState::Ready {
            Err(not_ready(id, home))
        } else {
            Ok(
                TenantView {
                    lifecycle: request.lifecycle,
                    lifecycle_note: renewed(request.note, base.lifecycle_note),
                    updated_unix_ms: now,
                    ..base
                },
            )
        }
    }
}

/// Decides on a request to move a tenant to another stage of its life.
pub fn decide_tenant_lifecycle(
    state: &ManagedControlPlaneState,
    tenant_id: &str,
    request: &ManagedTenantLifecycleRequest,
    now_unix_ms: u64,
) -> (decision: Result<ManagedTenant, String>)
    ensures
        tenant_outcome(decision) == tenant_moved(state@, tenant_id@, request@, now_unix_ms),
{
    let id = text::owned(tenant_id);
    let mut tenant = match state.tenants.get(&id) {
        Some(found) => found.clone(),
        None => {
            return Err(text::text3("unknown tenant '", tenant_id, "'"));
        },
    };
    if request.lifecycle == TenantLifecycleState::Active {
        match state.deployments.get(&tenant.deployment_id) {
            None => {
                return Err(unknown_deployment_message(tenant.deployment_id.as_str()));
            },
            Some(deployment) => {
                if deployment.lifecycle != DeploymentLifecycleState::Ready {
                    return Err(not_ready_message(tenant_id, tenant.deployment_id.as_str()));
                }
            },
        }
    }
    tenant.lifecycle = request.lifecycle;
    tenant.lifecycle_note = renew(&request.note, &tenant.lifecycle_note);
    tenant.updated_unix_ms = now_unix_ms;
    Ok(tenant)
}

} // verus!
