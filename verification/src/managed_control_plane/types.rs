//! The records of the managed control plane and the requests that change them.

use vstd::prelude::*;

use crate::ordered::Copied;
use crate::ordered::KeyMap;
use crate::text;

verus! {

/// Labels by name, in the order of their names.
pub type Labels = KeyMap<String, String>;

/// What a list of texts says.
pub open spec fn texts(values: Seq<String>) -> Seq<Seq<char>> {
    Seq::new(values.len(), |i: int| values[i]@)
}

/// What an optional list of texts says.
pub open spec fn opt_texts(values: Option<Vec<String>>) -> Option<Seq<Seq<char>>> {
    match values {
        Some(list) => Some(texts(list@)),
        None => None,
    }
}

/// What optional labels say.
pub open spec fn opt_labels(values: Option<Labels>) -> Option<Map<Seq<char>, Seq<char>>> {
    match values {
        Some(labels) => Some(labels@),
        None => None,
    }
}

/// A copy of a list of texts.
pub fn copy_texts(values: &Vec<String>) -> (copy: Vec<String>)
    ensures
        texts(copy@) == texts(values@),
{
    let mut copy: Vec<String> = Vec::new();
    let mut i: usize = 0;
    while i < values.len()
        invariant
            i <= values.len(),
            copy@.len() == i,
            forall|k: int| 0 <= k < i ==> (#[trigger] copy@[k])@ == values@[k]@,
        decreases values.len() - i,
    {
        copy.push(values[i].clone());
        i = i + 1;
    }
    assert(texts(copy@) =~= texts(values@));
    copy
}

/// A copy of an optional list of texts.
pub fn copy_opt_texts(values: &Option<Vec<String>>) -> (copy: Option<Vec<String>>)
    ensures
        opt_texts(copy) == opt_texts(*values),
{
    match values {
        Some(list) => Some(copy_texts(list)),
        None => None,
    }
}

/// A copy of optional labels.
pub fn copy_opt_labels(values: &Option<Labels>) -> (copy: Option<Labels>)
    ensures
        opt_labels(copy) == opt_labels(*values),
{
    match values {
        Some(labels) => Some(labels.copied()),
        None => None,
    }
}

/// The stages of the life of a deployment.
#[derive(Debug, Clone, Copy, PartialEq, Eq, Structural)]
pub enum DeploymentLifecycleState {
    Requested,
    Provisioning,
    Ready,
    Decommissioning,
    Decommissioned,
}

impl Default for DeploymentLifecycleState {
    fn default() -> (state: Self)
        ensures
            state == DeploymentLifecycleState::Requested,
    {
        DeploymentLifecycleState::Requested
    }
}

/// The stages of a rollout.
#[derive(Debug, Clone, Copy, PartialEq, Eq, Structural)]
pub enum UpgradeRolloutState {
    Idle,
    Pending,
    InProgress,
    Complete,
    Paused,
    Cancelled,
}

impl Default for UpgradeRolloutState {
    fn default() -> (state: Self)
        ensures
            state == UpgradeRolloutState::Idle,
    {
        UpgradeRolloutState::Idle
    }
}

/// The stages of the life of a tenant.
#[derive(Debug, Clone, Copy, PartialEq, Eq, Structural)]
pub enum TenantLifecycleState {
    Provisioning,
    Active,
    Suspended,
    Deleting,
    Deleted,
}

impl Default for TenantLifecycleState {
    fn default() -> (state: Self)
        ensures
            state == TenantLifecycleState::Provisioning,
    {
        TenantLifecycleState::Provisioning
    }
}

/// How a backup run ended.
#[derive(Debug, Clone, Copy, PartialEq, Eq, Structural)]
pub enum BackupRunOutcome {
    Success,
    Failed,
}

/// Who asks for a change.
#[derive(Debug, PartialEq, Eq)]
pub struct ManagedControlPlaneActor {
    pub id: String,
    pub scope: String,
}

/// What a value of [`ManagedControlPlaneActor`] says.
#[verifier::ext_equal]
pub struct ActorView {
    pub id: Seq<char>,
    pub scope: Seq<char>,
}

impl View for ManagedControlPlaneActor {
    type V = ActorView;

    open spec fn view(&self) -> ActorView {
        ActorView {
            id: self.id@,
            scope: self.scope@,
        }
    }
}

impl Clone for ManagedControlPlaneActor {
    fn clone(&self) -> (copy: Self)
        ensures
            copy@ == self@,
    {
        ManagedControlPlaneActor {
            id: self.id.clone(),
            scope: self.scope.clone(),
        }
    }
}

/// When and where a deployment is backed up, and how that went.
#[derive(Debug, PartialEq, Eq)]
pub struct ManagedBackupPolicy {
    pub enabled: bool,
    pub schedule: Option<String>,
    pub retention_copies: u32,
    pub target: Option<String>,
    pub last_attempt_unix_ms: Option<u64>,
    pub last_success_unix_ms: Option<u64>,
    pub last_snapshot_path: Option<String>,
    pub last_error: Option<String>,
    pub runs_total: u64,
    pub failures_total: u64,
}

/// What a value of [`ManagedBackupPolicy`] says.
#[verifier::ext_equal]
pub struct BackupPolicyView {
    pub enabled: bool,
    pub schedule: Option<Seq<char>>,
    pub retention_copies: u32,
    pub target: Option<Seq<char>>,
    pub last_attempt_unix_ms: Option<u64>,
    pub last_success_unix_ms: Option<u64>,
    pub last_snapshot_path: Option<Seq<char>>,
    pub last_error: Option<Seq<char>>,
    pub runs_total: u64,
    pub failures_total: u64,
}

impl View for ManagedBackupPolicy {
    type V = BackupPolicyView;

    open spec fn view(&self) -> BackupPolicyView {
        BackupPolicyView {
            enabled: self.enabled,
            schedule: text::opt_text(self.schedule),
            retention_copies: self.retention_copies,
            target: text::opt_text(self.target),
            last_attempt_unix_ms: self.last_attempt_unix_ms,
            last_success_unix_ms: self.last_success_unix_ms,
            last_snapshot_path: text::opt_text(self.last_snapshot_path),
            last_error: text::opt_text(self.last_error),
            runs_total: self.runs_total,
            failures_total: self.failures_total,
        }
    }
}

impl Clone for ManagedBackupPolicy {
    fn clone(&self) -> (copy: Self)
        ensures
            copy@ == self@,
    {
        ManagedBackupPolicy {
            enabled: self.enabled,
            schedule: text::owned_opt(&self.schedule),
            retention_copies: self.retention_copies,
            target: text::owned_opt(&self.target),
            last_attempt_unix_ms: self.last_attempt_unix_ms,
            last_success_unix_ms: self.last_success_unix_ms,
            last_snapshot_path: text::owned_opt(&self.last_snapshot_path),
            last_error: text::owned_opt(&self.last_error),
            runs_total: self.runs_total,
            failures_total: self.failures_total,
        }
    }
}

/// Whether and when a deployment is under maintenance.
#[derive(Debug, PartialEq, Eq)]
pub struct ManagedMaintenancePolicy {
    pub active: bool,
    pub reason: Option<String>,
    pub window_start_unix_ms: Option<u64>,
    pub window_end_unix_ms: Option<u64>,
    pub allowed_mutations: Vec<String>,
    pub updated_unix_ms: u64,
}

/// What a value of [`ManagedMaintenancePolicy`] says.
#[verifier::ext_equal]
pub struct MaintenancePolicyView {
    pub active: bool,
    pub reason: Option<Seq<char>>,
    pub window_start_unix_ms: Option<u64>,
    pub window_end_unix_ms: Option<u64>,
    pub allowed_mutations: Seq<Seq<char>>,
    pub updated_unix_ms: u64,
}

impl View for ManagedMaintenancePolicy {
    type V = MaintenancePolicyView;

    open spec fn view(&self) -> MaintenancePolicyView {
        MaintenancePolicyView {
            active: self.active,
            reason: text::opt_text(self.reason),
            window_start_unix_ms: self.window_start_unix_ms,
            window_end_unix_ms: self.window_end_unix_ms,
            allowed_mutations: texts(self.allowed_mutations@),
            updated_unix_ms: self.updated_unix_ms,
        }
    }
}

impl Clone for ManagedMaintenancePolicy {
    fn clone(&self) -> (copy: Self)
        ensures
            copy@ == self@,
    {
        ManagedMaintenancePolicy {
            active: self.active,
            reason: text::owned_opt(&self.reason),
            window_start_unix_ms: self.window_start_unix_ms,
            window_end_unix_ms: self.window_end_unix_ms,
            allowed_mutations: copy_texts(&self.allowed_mutations),
            updated_unix_ms: self.updated_unix_ms,
        }
    }
}

/// The version that a deployment is to run, and how far its rollout has come.
#[derive(Debug, PartialEq, Eq)]
pub struct ManagedUpgradePlan {
    pub desired_version: Option<String>,
    pub observed_version: Option<String>,
    pub channel: String,
    pub strategy: String,
    pub state: UpgradeRolloutState,
    pub requested_unix_ms: Option<u64>,
    pub started_unix_ms: Option<u64>,
    pub completed_unix_ms: Option<u64>,
    pub notes: Option<String>,
}

/// What a value of [`ManagedUpgradePlan`] says.
#[verifier::ext_equal]
pub struct UpgradePlanView {
    pub desired_version: Option<Seq<char>>,
    pub observed_version: Option<Seq<char>>,
    pub channel: Seq<char>,
    pub strategy: Seq<char>,
    pub state: UpgradeRolloutState,
    pub requested_unix_ms: Option<u64>,
    pub started_unix_ms: Option<u64>,
    pub completed_unix_ms: Option<u64>,
    pub notes: Option<Seq<char>>,
}

impl View for ManagedUpgradePlan {
    type V = UpgradePlanView;

    open spec fn view(&self) -> UpgradePlanView {
        UpgradePlanView {
            desired_version: text::opt_text(self.desired_version),
            observed_version: text::opt_text(self.observed_version),
            channel: self.channel@,
            strategy: self.strategy@,
            state: self.state,
            requested_unix_ms: self.requested_unix_ms,
            started_unix_ms: self.started_unix_ms,
            completed_unix_ms: self.completed_unix_ms,
            notes: text::opt_text(self.notes),
        }
    }
}

impl Clone for ManagedUpgradePlan {
    fn clone(&self) -> (copy: Self)
        ensures
            copy@ == self@,
    {
        ManagedUpgradePlan {
            desired_version: text::owned_opt(&self.desired_version),
            observed_version: text::owned_opt(&self.observed_version),
            channel: self.channel.clone(),
            strategy: self.strategy.clone(),
            state: self.state,
            requested_unix_ms: self.requested_unix_ms,
            started_unix_ms: self.started_unix_ms,
            completed_unix_ms: self.completed_unix_ms,
            notes: text::owned_opt(&self.notes),
        }
    }
}

/// A deployment.
#[derive(Debug, PartialEq, Eq)]
pub struct ManagedDeployment {
    pub id: String,
    pub display_name: String,
    pub region: String,
    pub plan: String,
    pub control_plane_endpoint: Option<String>,
    pub data_plane_endpoint: Option<String>,
    pub object_store_path: Option<String>,
    pub lifecycle: DeploymentLifecycleState,
    pub labels: Labels,
    pub created_unix_ms: u64,
    pub updated_unix_ms: u64,
    pub backup_policy: ManagedBackupPolicy,
    pub maintenance: ManagedMaintenancePolicy,
    pub upgrade: ManagedUpgradePlan,
}

/// What a value of [`ManagedDeployment`] says.
#[verifier::ext_equal]
pub struct DeploymentView {
    pub id: Seq<char>,
    pub display_name: Seq<char>,
    pub region: Seq<char>,
    pub plan: Seq<char>,
    pub control_plane_endpoint: Option<Seq<char>>,
    pub data_plane_endpoint: Option<Seq<char>>,
    pub object_store_path: Option<Seq<char>>,
    pub lifecycle: DeploymentLifecycleState,
    pub labels: Map<Seq<char>, Seq<char>>,
    pub created_unix_ms: u64,
    pub updated_unix_ms: u64,
    pub backup_policy: BackupPolicyView,
    pub maintenance: MaintenancePolicyView,
    pub upgrade: UpgradePlanView,
}

impl View for ManagedDeployment {
    type V = DeploymentView;

    open spec fn view(&self) -> DeploymentView {
        DeploymentView {
            id: self.id@,
            display_name: self.display_name@,
            region: self.region@,
            plan: self.plan@,
            control_plane_endpoint: text::opt_text(self.control_plane_endpoint),
            data_plane_endpoint: text::opt_text(self.data_plane_endpoint),
            object_store_path: text::opt_text(self.object_store_path),
            lifecycle: self.lifecycle,
            labels: self.labels@,
            created_unix_ms: self.created_unix_ms,
            updated_unix_ms: self.updated_unix_ms,
            backup_policy: self.backup_policy@,
            maintenance: self.maintenance@,
            upgrade: self.upgrade@,
        }
    }
}

impl Clone for ManagedDeployment {
    fn clone(&self) -> (copy: Self)
        ensures
            copy@ == self@,
    {
        ManagedDeployment {
            id: self.id.clone(),
            display_name: self.display_name.clone(),
            region: self.region.clone(),
            plan: self.plan.clone(),
            control_plane_endpoint: text::owned_opt(&self.control_plane_endpoint),
            data_plane_endpoint: text::owned_opt(&self.data_plane_endpoint),
            object_store_path: text::owned_opt(&self.object_store_path),
            lifecycle: self.lifecycle,
            labels: self.labels.copied(),
            created_unix_ms: self.created_unix_ms,
            updated_unix_ms: self.updated_unix_ms,
            backup_policy: self.backup_policy.clone(),
            maintenance: self.maintenance.clone(),
            upgrade: self.upgrade.clone(),
        }
    }
}

/// A tenant of a deployment.
#[derive(Debug, PartialEq, Eq)]
pub struct ManagedTenant {
    pub id: String,
    pub deployment_id: String,
    pub display_name: String,
    pub lifecycle: TenantLifecycleState,
    pub retention_days: Option<u32>,
    pub storage_limit_bytes: Option<u64>,
    pub ingest_rate_limit_per_sec: Option<u64>,
    pub query_concurrency_limit: Option<u32>,
    pub labels: Labels,
    pub created_unix_ms: u64,
    pub updated_unix_ms: u64,
    pub lifecycle_note: Option<String>,
}

/// What a value of [`ManagedTenant`] says.
#[verifier::ext_equal]
pub struct TenantView {
    pub id: Seq<char>,
    pub deployment_id: Seq<char>,
    pub display_name: Seq<char>,
    pub lifecycle: TenantLifecycleState,
    pub retention_days: Option<u32>,
    pub storage_limit_bytes: Option<u64>,
    pub ingest_rate_limit_per_sec: Option<u64>,
    pub query_concurrency_limit: Option<u32>,
    pub labels: Map<Seq<char>, Seq<char>>,
    pub created_unix_ms: u64,
    pub updated_unix_ms: u64,
    pub lifecycle_note: Option<Seq<char>>,
}

impl View for ManagedTenant {
    type V = TenantView;

    open spec fn view(&self) -> TenantView {
        TenantView {
            id: self.id@,
            deployment_id: self.deployment_id@,
            display_name: self.display_name@,
            lifecycle: self.lifecycle,
            retention_days: self.retention_days,
            storage_limit_bytes: self.storage_limit_bytes,
            ingest_rate_limit_per_sec: self.ingest_rate_limit_per_sec,
            query_concurrency_limit: self.query_concurrency_limit,
            labels: self.labels@,
            created_unix_ms: self.created_unix_ms,
            updated_unix_ms: self.updated_unix_ms,
            lifecycle_note: text::opt_text(self.lifecycle_note),
        }
    }
}

impl Clone for ManagedTenant {
    fn clone(&self) -> (copy: Self)
        ensures
            copy@ == self@,
    {
        ManagedTenant {
            id: self.id.clone(),
            deployment_id: self.deployment_id.clone(),
            display_name: self.display_name.clone(),
            lifecycle: self.lifecycle,
            retention_days: self.retention_days,
            storage_limit_bytes: self.storage_limit_bytes,
            ingest_rate_limit_per_sec: self.ingest_rate_limit_per_sec,
            query_concurrency_limit: self.query_concurrency_limit,
            labels: self.labels.copied(),
            created_unix_ms: self.created_unix_ms,
            updated_unix_ms: self.updated_unix_ms,
            lifecycle_note: text::owned_opt(&self.lifecycle_note),
        }
    }
}

/// What was asked for, by whom, and what came of it.
#[derive(Debug, PartialEq, Eq)]
pub struct ManagedControlPlaneAuditEntry {
    pub seq: u64,
    pub unix_ms: u64,
    pub actor_id: String,
    pub actor_scope: String,
    pub operation: String,
    pub target_kind: String,
    pub target_id: String,
    pub outcome: String,
    pub detail: Option<String>,
}

/// What a value of [`ManagedControlPlaneAuditEntry`] says.
#[verifier::ext_equal]
pub struct AuditEntryView {
    pub seq: u64,
    pub unix_ms: u64,
    pub actor_id: Seq<char>,
    pub actor_scope: Seq<char>,
    pub operation: Seq<char>,
    pub target_kind: Seq<char>,
    pub target_id: Seq<char>,
    pub outcome: Seq<char>,
    pub detail: Option<Seq<char>>,
}

impl View for ManagedControlPlaneAuditEntry {
    type V = AuditEntryView;

    open spec fn view(&self) -> AuditEntryView {
        AuditEntryView {
            seq: self.seq,
            unix_ms: self.unix_ms,
            actor_id: self.actor_id@,
            actor_scope: self.actor_scope@,
            operation: self.operation@,
            target_kind: self.target_kind@,
            target_id: self.target_id@,
            outcome: self.outcome@,
            detail: text::opt_text(self.detail),
        }
    }
}

impl Clone for ManagedControlPlaneAuditEntry {
    fn clone(&self) -> (copy: Self)
        ensures
            copy@ == self@,
    {
        ManagedControlPlaneAuditEntry {
            seq: self.seq,
            unix_ms: self.unix_ms,
            actor_id: self.actor_id.clone(),
            actor_scope: self.actor_scope.clone(),
            operation: self.operation.clone(),
            target_kind: self.target_kind.clone(),
            target_id: self.target_id.clone(),
            outcome: self.outcome.clone(),
            detail: text::owned_opt(&self.detail),
        }
    }
}

/// A request to create a deployment or to change it.
#[derive(Debug, PartialEq, Eq)]
pub struct ManagedDeploymentProvisionRequest {
    pub deployment_id: String,
    pub display_name: Option<String>,
    pub region: Option<String>,
    pub plan: Option<String>,
    pub control_plane_endpoint: Option<String>,
    pub data_plane_endpoint: Option<String>,
    pub object_store_path: Option<String>,
    pub lifecycle: Option<DeploymentLifecycleState>,
    pub labels: Option<Labels>,
}

/// What a value of [`ManagedDeploymentProvisionRequest`] says.
#[verifier::ext_equal]
pub struct DeploymentProvisionRequestView {
    pub deployment_id: Seq<char>,
    pub display_name: Option<Seq<char>>,
    pub region: Option<Seq<char>>,
    pub plan: Option<Seq<char>>,
    pub control_plane_endpoint: Option<Seq<char>>,
    pub data_plane_endpoint: Option<Seq<char>>,
    pub object_store_path: Option<Seq<char>>,
    pub lifecycle: Option<DeploymentLifecycleState>,
    pub labels: Option<Map<Seq<char>, Seq<char>>>,
}

impl View for ManagedDeploymentProvisionRequest {
    type V = DeploymentProvisionRequestView;

    open spec fn view(&self) -> DeploymentProvisionRequestView {
        DeploymentProvisionRequestView {
            deployment_id: self.deployment_id@,
            display_name: text::opt_text(self.display_name),
            region: text::opt_text(self.region),
            plan: text::opt_text(self.plan),
            control_plane_endpoint: text::opt_text(self.control_plane_endpoint),
            data_plane_endpoint: text::opt_text(self.data_plane_endpoint),
            object_store_path: text::opt_text(self.object_store_path),
            lifecycle: self.lifecycle,
            labels: opt_labels(self.labels),
        }
    }
}

impl Clone for ManagedDeploymentProvisionRequest {
    fn clone(&self) -> (copy: Self)
        ensures
            copy@ == self@,
    {
        ManagedDeploymentProvisionRequest {
            deployment_id: self.deployment_id.clone(),
            display_name: text::owned_opt(&self.display_name),
            region: text::owned_opt(&self.region),
            plan: text::owned_opt(&self.plan),
            control_plane_endpoint: text::owned_opt(&self.control_plane_endpoint),
            data_plane_endpoint: text::owned_opt(&self.data_plane_endpoint),
            object_store_path: text::owned_opt(&self.object_store_path),
            lifecycle: self.lifecycle,
            labels: copy_opt_labels(&self.labels),
        }
    }
}

/// A request to change a backup policy.
#[derive(Debug, PartialEq, Eq)]
pub struct ManagedBackupPolicyApplyRequest {
    pub deployment_id: String,
    pub enabled: Option<bool>,
    pub schedule: Option<String>,
    pub retention_copies: Option<u32>,
    pub target: Option<String>,
}

/// What a value of [`ManagedBackupPolicyApplyRequest`] says.
#[verifier::ext_equal]
pub struct BackupPolicyApplyRequestView {
    pub deployment_id: Seq<char>,
    pub enabled: Option<bool>,
    pub schedule: Option<Seq<char>>,
    pub retention_copies: Option<u32>,
    pub target: Option<Seq<char>>,
}

impl View for ManagedBackupPolicyApplyRequest {
    type V = BackupPolicyApplyRequestView;

    open spec fn view(&self) -> BackupPolicyApplyRequestView {
        BackupPolicyApplyRequestView {
            deployment_id: self.deployment_id@,
            enabled: self.enabled,
            schedule: text::opt_text(self.schedule),
            retention_copies: self.retention_copies,
            target: text::opt_text(self.target),
        }
    }
}

impl Clone for ManagedBackupPolicyApplyRequest {
    fn clone(&self) -> (copy: Self)
        ensures
            copy@ == self@,
    {
        ManagedBackupPolicyApplyRequest {
            deployment_id: self.deployment_id.clone(),
            enabled: self.enabled,
            schedule: text::owned_opt(&self.schedule),
            retention_copies: self.retention_copies,
            target: text::owned_opt(&self.target),
        }
    }
}

/// A report of a backup run.
#[derive(Debug, PartialEq, Eq)]
pub struct ManagedBackupRunRecordRequest {
    pub deployment_id: String,
    pub outcome: BackupRunOutcome,
    pub completed_unix_ms: Option<u64>,
    pub snapshot_path: Option<String>,
    pub error: Option<String>,
}

/// What a value of [`ManagedBackupRunRecordRequest`] says.
#[verifier::ext_equal]
pub struct BackupRunRecordRequestView {
    pub deployment_id: Seq<char>,
    pub outcome: BackupRunOutcome,
    pub completed_unix_ms: Option<u64>,
    pub snapshot_path: Option<Seq<char>>,
    pub error: Option<Seq<char>>,
}

impl View for ManagedBackupRunRecordRequest {
    type V = BackupRunRecordRequestView;

    open spec fn view(&self) -> BackupRunRecordRequestView {
        BackupRunRecordRequestView {
            deployment_id: self.deployment_id@,
            outcome: self.outcome,
            completed_unix_ms: self.completed_unix_ms,
            snapshot_path: text::opt_text(self.snapshot_path),
            error: text::opt_text(self.error),
        }
    }
}

impl Clone for ManagedBackupRunRecordRequest {
    fn clone(&self) -> (copy: Self)
        ensures
            copy@ == self@,
    {
        ManagedBackupRunRecordRequest {
            deployment_id: self.deployment_id.clone(),
            outcome: self.outcome,
            completed_unix_ms: self.completed_unix_ms,
            snapshot_path: text::owned_opt(&self.snapshot_path),
            error: text::owned_opt(&self.error),
        }
    }
}

/// A request to change what is known of maintenance.
#[derive(Debug, PartialEq, Eq)]
pub struct ManagedMaintenanceApplyRequest {
    pub deployment_id: String,
    pub active: Option<bool>,
    pub reason: Option<String>,
    pub window_start_unix_ms: Option<u64>,
    pub window_end_unix_ms: Option<u64>,
    pub allowed_mutations: Option<Vec<String>>,
}

/// What a value of [`ManagedMaintenanceApplyRequest`] says.
#[verifier::ext_equal]
pub struct MaintenanceApplyRequestView {
    pub deployment_id: Seq<char>,
    pub active: Option<bool>,
    pub reason: Option<Seq<char>>,
    pub window_start_unix_ms: Option<u64>,
    pub window_end_unix_ms: Option<u64>,
    pub allowed_mutations: Option<Seq<Seq<char>>>,
}

impl View for ManagedMaintenanceApplyRequest {
    type V = MaintenanceApplyRequestView;

    open spec fn view(&self) -> MaintenanceApplyRequestView {
        MaintenanceApplyRequestView {
            deployment_id: self.deployment_id@,
            active: self.active,
            reason: text::opt_text(self.reason),
            window_start_unix_ms: self.window_start_unix_ms,
            window_end_unix_ms: self.window_end_unix_ms,
            allowed_mutations: opt_texts(self.allowed_mutations),
        }
    }
}

impl Clone for ManagedMaintenanceApplyRequest {
    fn clone(&self) -> (copy: Self)
        ensures
            copy@ == self@,
    {
        ManagedMaintenanceApplyRequest {
            deployment_id: self.deployment_id.clone(),
            active: self.active,
            reason: text::owned_opt(&self.reason),
            window_start_unix_ms: self.window_start_unix_ms,
            window_end_unix_ms: self.window_end_unix_ms,
            allowed_mutations: copy_opt_texts(&self.allowed_mutations),
        }
    }
}

/// A request to change an upgrade plan.
#[derive(Debug, PartialEq, Eq)]
pub struct ManagedUpgradeApplyRequest {
    pub deployment_id: String,
    pub desired_version: Option<String>,
    pub observed_version: Option<String>,
    pub channel: Option<String>,
    pub strategy: Option<String>,
    pub state: Option<UpgradeRolloutState>,
    pub notes: Option<String>,
}

/// What a value of [`ManagedUpgradeApplyRequest`] says.
#[verifier::ext_equal]
pub struct UpgradeApplyRequestView {
    pub deployment_id: Seq<char>,
    pub desired_version: Option<Seq<char>>,
    pub observed_version: Option<Seq<char>>,
    pub channel: Option<Seq<char>>,
    pub strategy: Option<Seq<char>>,
    pub state: Option<UpgradeRolloutState>,
    pub notes: Option<Seq<char>>,
}

impl View for ManagedUpgradeApplyRequest {
    type V = UpgradeApplyRequestView;

    open spec fn view(&self) -> UpgradeApplyRequestView {
        UpgradeApplyRequestView {
            deployment_id: self.deployment_id@,
            desired_version: text::opt_text(self.desired_version),
            observed_version: text::opt_text(self.observed_version),
            channel: text::opt_text(self.channel),
            strategy: text::opt_text(self.strategy),
            state: self.state,
            notes: text::opt_text(self.notes),
        }
    }
}

impl Clone for ManagedUpgradeApplyRequest {
    fn clone(&self) -> (copy: Self)
        ensures
            copy@ == self@,
    {
        ManagedUpgradeApplyRequest {
            deployment_id: self.deployment_id.clone(),
            desired_version: text::owned_opt(&self.desired_version),
            observed_version: text::owned_opt(&self.observed_version),
            channel: text::owned_opt(&self.channel),
            strategy: text::owned_opt(&self.strategy),
            state: self.state,
            notes: text::owned_opt(&self.notes),
        }
    }
}

/// A request to create a tenant or to change it.
#[derive(Debug, PartialEq, Eq)]
pub struct ManagedTenantApplyRequest {
    pub tenant_id: String,
    pub deployment_id: Option<String>,
    pub display_name: Option<String>,
    pub lifecycle: Option<TenantLifecycleState>,
    pub retention_days: Option<u32>,
    pub storage_limit_bytes: Option<u64>,
    pub ingest_rate_limit_per_sec: Option<u64>,
    pub query_concurrency_limit: Option<u32>,
    pub labels: Option<Labels>,
}

/// What a value of [`ManagedTenantApplyRequest`] says.
#[verifier::ext_equal]
pub struct TenantApplyRequestView {
    pub tenant_id: Seq<char>,
    pub deployment_id: Option<Seq<char>>,
    pub display_name: Option<Seq<char>>,
    pub lifecycle: Option<TenantLifecycleState>,
    pub retention_days: Option<u32>,
    pub storage_limit_bytes: Option<u64>,
    pub ingest_rate_limit_per_sec: Option<u64>,
    pub query_concurrency_limit: Option<u32>,
    pub labels: Option<Map<Seq<char>, Seq<char>>>,
}

impl View for ManagedTenantApplyRequest {
    type V = TenantApplyRequestView;

    open spec fn view(&self) -> TenantApplyRequestView {
        TenantApplyRequestView {
            tenant_id: self.tenant_id@,
            deployment_id: text::opt_text(self.deployment_id),
            display_name: text::opt_text(self.display_name),
            lifecycle: self.lifecycle,
            retention_days: self.retention_days,
            storage_limit_bytes: self.storage_limit_bytes,
            ingest_rate_limit_per_sec: self.ingest_rate_limit_per_sec,
            query_concurrency_limit: self.query_concurrency_limit,
            labels: opt_labels(self.labels),
        }
    }
}

impl Clone for ManagedTenantApplyRequest {
    fn clone(&self) -> (copy: Self)
        ensures
            copy@ == self@,
    {
        ManagedTenantApplyRequest {
            tenant_id: self.tenant_id.clone(),
            deployment_id: text::owned_opt(&self.deployment_id),
            display_name: text::owned_opt(&self.display_name),
            lifecycle: self.lifecycle,
            retention_days: self.retention_days,
            storage_limit_bytes: self.storage_limit_bytes,
            ingest_rate_limit_per_sec: self.ingest_rate_limit_per_sec,
            query_concurrency_limit: self.query_concurrency_limit,
            labels: copy_opt_labels(&self.labels),
        }
    }
}

/// A request to move a tenant to another stage of its life.
#[derive(Debug, PartialEq, Eq)]
pub struct ManagedTenantLifecycleRequest {
    pub tenant_id: String,
    pub lifecycle: TenantLifecycleState,
    pub note: Option<String>,
}

/// What a value of [`ManagedTenantLifecycleRequest`] says.
#[verifier::ext_equal]
pub struct TenantLifecycleRequestView {
    pub tenant_id: Seq<char>,
    pub lifecycle: TenantLifecycleState,
    pub note: Option<Seq<char>>,
}

impl View for ManagedTenantLifecycleRequest {
    type V = TenantLifecycleRequestView;

    open spec fn view(&self) -> TenantLifecycleRequestView {
        TenantLifecycleRequestView {
            tenant_id: self.tenant_id@,
            lifecycle: self.lifecycle,
            note: text::opt_text(self.note),
        }
    }
}

impl Clone for ManagedTenantLifecycleRequest {
    fn clone(&self) -> (copy: Self)
        ensures
            copy@ == self@,
    {
        ManagedTenantLifecycleRequest {
            tenant_id: self.tenant_id.clone(),
            lifecycle: self.lifecycle,
            note: text::owned_opt(&self.note),
        }
    }
}

/// Which audit entries to show.
#[derive(Debug, PartialEq, Eq)]
pub struct ManagedControlPlaneAuditFilter {
    pub limit: usize,
    pub target_kind: Option<String>,
    pub target_id: Option<String>,
    pub operation: Option<String>,
}

/// What a value of [`ManagedControlPlaneAuditFilter`] says.
#[verifier::ext_equal]
pub struct AuditFilterView {
    pub limit: usize,
    pub target_kind: Option<Seq<char>>,
    pub target_id: Option<Seq<char>>,
    pub operation: Option<Seq<char>>,
}

impl View for ManagedControlPlaneAuditFilter {
    type V = AuditFilterView;

    open spec fn view(&self) -> AuditFilterView {
        AuditFilterView {
            limit: self.limit,
            target_kind: text::opt_text(self.target_kind),
            target_id: text::opt_text(self.target_id),
            operation: text::opt_text(self.operation),
        }
    }
}

impl Clone for ManagedControlPlaneAuditFilter {
    fn clone(&self) -> (copy: Self)
        ensures
            copy@ == self@,
    {
        ManagedControlPlaneAuditFilter {
            limit: self.limit,
            target_kind: text::owned_opt(&self.target_kind),
            target_id: text::owned_opt(&self.target_id),
            operation: text::owned_opt(&self.operation),
        }
    }
}

/// Counts over the state.
#[derive(Debug, PartialEq, Eq)]
pub struct ManagedControlPlaneStatusSnapshot {
    pub durable: bool,
    pub state_path: Option<String>,
    pub deployments_total: u64,
    pub tenants_total: u64,
    pub active_tenants_total: u64,
    pub maintenance_active_total: u64,
    pub upgrade_rollouts_in_progress_total: u64,
    pub backup_policies_total: u64,
    pub audit_records_total: u64,
    pub updated_unix_ms: u64,
}

/// What a value of [`ManagedControlPlaneStatusSnapshot`] says.
#[verifier::ext_equal]
pub struct StatusSnapshotView {
    pub durable: bool,
    pub state_path: Option<Seq<char>>,
    pub deployments_total: u64,
    pub tenants_total: u64,
    pub active_tenants_total: u64,
    pub maintenance_active_total: u64,
    pub upgrade_rollouts_in_progress_total: u64,
    pub backup_policies_total: u64,
    pub audit_records_total: u64,
    pub updated_unix_ms: u64,
}

impl View for ManagedControlPlaneStatusSnapshot {
    type V = StatusSnapshotView;

    open spec fn view(&self) -> StatusSnapshotView {
        StatusSnapshotView {
            durable: self.durable,
            state_path: text::opt_text(self.state_path),
            deployments_total: self.deployments_total,
            tenants_total: self.tenants_total,
            active_tenants_total: self.active_tenants_total,
            maintenance_active_total: self.maintenance_active_total,
            upgrade_rollouts_in_progress_total: self.upgrade_rollouts_in_progress_total,
            backup_policies_total: self.backup_policies_total,
            audit_records_total: self.audit_records_total,
            updated_unix_ms: self.updated_unix_ms,
        }
    }
}

impl Clone for ManagedControlPlaneStatusSnapshot {
    fn clone(&self) -> (copy: Self)
        ensures
            copy@ == self@,
    {
        ManagedControlPlaneStatusSnapshot {
            durable: self.durable,
            state_path: text::owned_opt(&self.state_path),
            deployments_total: self.deployments_total,
            tenants_total: self.tenants_total,
            active_tenants_total: self.active_tenants_total,
            maintenance_active_total: self.maintenance_active_total,
            upgrade_rollouts_in_progress_total: self.upgrade_rollouts_in_progress_total,
            backup_policies_total: self.backup_policies_total,
            audit_records_total: self.audit_records_total,
            updated_unix_ms: self.updated_unix_ms,
        }
    }
}

/// A deployment in short.
#[derive(Debug, PartialEq, Eq)]
pub struct ManagedDeploymentSummary {
    pub id: String,
    pub region: String,
    pub plan: String,
    pub lifecycle: DeploymentLifecycleState,
    pub tenant_count: u64,
    pub active_tenant_count: u64,
    pub backup_enabled: bool,
    pub maintenance_active: bool,
    pub upgrade_state: UpgradeRolloutState,
    pub desired_version: Option<String>,
    pub observed_version: Option<String>,
}

/// What a value of [`ManagedDeploymentSummary`] says.
#[verifier::ext_equal]
pub struct DeploymentSummaryView {
    pub id: Seq<char>,
    pub region: Seq<char>,
    pub plan: Seq<char>,
    pub lifecycle: DeploymentLifecycleState,
    pub tenant_count: u64,
    pub active_tenant_count: u64,
    pub backup_enabled: bool,
    pub maintenance_active: bool,
    pub upgrade_state: UpgradeRolloutState,
    pub desired_version: Option<Seq<char>>,
    pub observed_version: Option<Seq<char>>,
}

impl View for ManagedDeploymentSummary {
    type V = DeploymentSummaryView;

    open spec fn view(&self) -> DeploymentSummaryView {
        DeploymentSummaryView {
            id: self.id@,
            region: self.region@,
            plan: self.plan@,
            lifecycle: self.lifecycle,
            tenant_count: self.tenant_count,
            active_tenant_count: self.active_tenant_count,
            backup_enabled: self.backup_enabled,
            maintenance_active: self.maintenance_active,
            upgrade_state: self.upgrade_state,
            desired_version: text::opt_text(self.desired_version),
            observed_version: text::opt_text(self.observed_version),
        }
    }
}

impl Clone for ManagedDeploymentSummary {
    fn clone(&self) -> (copy: Self)
        ensures
            copy@ == self@,
    {
        ManagedDeploymentSummary {
            id: self.id.clone(),
            region: self.region.clone(),
            plan: self.plan.clone(),
            lifecycle: self.lifecycle,
            tenant_count: self.tenant_count,
            active_tenant_count: self.active_tenant_count,
            backup_enabled: self.backup_enabled,
            maintenance_active: self.maintenance_active,
            upgrade_state: self.upgrade_state,
            desired_version: text::owned_opt(&self.desired_version),
            observed_version: text::owned_opt(&self.observed_version),
        }
    }
}

impl Copied for ManagedDeployment {
    fn copied(&self) -> (copy: Self) {
        self.clone()
    }
}

impl Copied for ManagedTenant {
    fn copied(&self) -> (copy: Self) {
        self.clone()
    }
}

impl BackupPolicyView {
    /// What nothing was said of.
    pub open spec fn initial() -> Self {
        BackupPolicyView {
            enabled: false,
            schedule: None,
            retention_copies: 7u32,
            target: None,
            last_attempt_unix_ms: None,
            last_success_unix_ms: None,
            last_snapshot_path: None,
            last_error: None,
            runs_total: 0u64,
            failures_total: 0u64,
        }
    }
}

impl Default for ManagedBackupPolicy {
    fn default() -> (value: Self)
        ensures
            value@ == BackupPolicyView::initial(),
    {
        let value = ManagedBackupPolicy {
            enabled: false,
            schedule: None,
            retention_copies: 7,
            target: None,
            last_attempt_unix_ms: None,
            last_success_unix_ms: None,
            last_snapshot_path: None,
            last_error: None,
            runs_total: 0,
            failures_total: 0,
        };
        assert(value@ =~~= BackupPolicyView::initial());
        value
    }
}

impl MaintenancePolicyView {
    /// What nothing was said of.
    pub open spec fn initial() -> Self {
        MaintenancePolicyView {
            active: false,
            reason: None,
            window_start_unix_ms: None,
            window_end_unix_ms: None,
            allowed_mutations: Seq::empty(),
            updated_unix_ms: 0u64,
        }
    }
}

impl Default for ManagedMaintenancePolicy {
    fn default() -> (value: Self)
        ensures
            value@ == MaintenancePolicyView::initial(),
    {
        let value = ManagedMaintenancePolicy {
            active: false,
            reason: None,
            window_start_unix_ms: None,
            window_end_unix_ms: None,
            allowed_mutations: Vec::new(),
            updated_unix_ms: 0,
        };
        assert(value@ =~~= MaintenancePolicyView::initial());
        value
    }
}

impl UpgradePlanView {
    /// What nothing was said of.
    pub open spec fn initial() -> Self {
        UpgradePlanView {
            desired_version: None,
            observed_version: None,
            channel: "stable"@,
            strategy: "rolling"@,
            state: UpgradeRolloutState::Idle,
            requested_unix_ms: None,
            started_unix_ms: None,
            completed_unix_ms: None,
            notes: None,
        }
    }
}

impl Default for ManagedUpgradePlan {
    fn default() -> (value: Self)
        ensures
            value@ == UpgradePlanView::initial(),
    {
        let value = ManagedUpgradePlan {
            desired_version: None,
            observed_version: None,
            channel: text::owned("stable"),
            strategy: text::owned("rolling"),
            state: UpgradeRolloutState::Idle,
            requested_unix_ms: None,
            started_unix_ms: None,
            completed_unix_ms: None,
            notes: None,
        };
        assert(value@ =~~= UpgradePlanView::initial());
        value
    }
}

impl DeploymentProvisionRequestView {
    /// What nothing was said of.
    pub open spec fn initial() -> Self {
        DeploymentProvisionRequestView {
            deployment_id: Seq::empty(),
            display_name: None,
            region: None,
            plan: None,
            control_plane_endpoint: None,
            data_plane_endpoint: None,
            object_store_path: None,
            lifecycle: None,
            labels: None,
        }
    }
}

impl Default for ManagedDeploymentProvisionRequest {
    fn default() -> (value: Self)
        ensures
            value@ == DeploymentProvisionRequestView::initial(),
    {
        let value = ManagedDeploymentProvisionRequest {
            deployment_id: String::new(),
            display_name: None,
            region: None,
            plan: None,
            control_plane_endpoint: None,
            data_plane_endpoint: None,
            object_store_path: None,
            lifecycle: None,
            labels: None,
        };
        assert(value@ =~~= DeploymentProvisionRequestView::initial());
        value
    }
}

impl BackupPolicyApplyRequestView {
    /// What nothing was said of.
    pub open spec fn initial() -> Self {
        BackupPolicyApplyRequestView {
            deployment_id: Seq::empty(),
            enabled: None,
            schedule: None,
            retention_copies: None,
            target: None,
        }
    }
}

impl Default for ManagedBackupPolicyApplyRequest {
    fn default() -> (value: Self)
        ensures
            value@ == BackupPolicyApplyRequestView::initial(),
    {
        let value = ManagedBackupPolicyApplyRequest {
            deployment_id: String::new(),
            enabled: None,
            schedule: None,
            retention_copies: None,
            target: None,
        };
        assert(value@ =~~= BackupPolicyApplyRequestView::initial());
        value
    }
}

impl MaintenanceApplyRequestView {
    /// What nothing was said of.
    pub open spec fn initial() -> Self {
        MaintenanceApplyRequestView {
            deployment_id: Seq::empty(),
            active: None,
            reason: None,
            window_start_unix_ms: None,
            window_end_unix_ms: None,
            allowed_mutations: None,
        }
    }
}

impl Default for ManagedMaintenanceApplyRequest {
    fn default() -> (value: Self)
        ensures
            value@ == MaintenanceApplyRequestView::initial(),
    {
        let value = ManagedMaintenanceApplyRequest {
            deployment_id: String::new(),
            active: None,
            reason: None,
            window_start_unix_ms: None,
            window_end_unix_ms: None,
            allowed_mutations: None,
        };
        assert(value@ =~~= MaintenanceApplyRequestView::initial());
        value
    }
}

impl UpgradeApplyRequestView {
    /// What nothing was said of.
    pub open spec fn initial() -> Self {
        UpgradeApplyRequestView {
            deployment_id: Seq::empty(),
            desired_version: None,
            observed_version: None,
            channel: None,
            strategy: None,
            state: None,
            notes: None,
        }
    }
}

impl Default for ManagedUpgradeApplyRequest {
    fn default() -> (value: Self)
        ensures
            value@ == UpgradeApplyRequestView::initial(),
    {
        let value = ManagedUpgradeApplyRequest {
            deployment_id: String::new(),
            desired_version: None,
            observed_version: None,
            channel: None,
            strategy: None,
            state: None,
            notes: None,
        };
        assert(value@ =~~= UpgradeApplyRequestView::initial());
        value
    }
}

impl TenantApplyRequestView {
    /// What nothing was said of.
    pub open spec fn initial() -> Self {
        TenantApplyRequestView {
            tenant_id: Seq::empty(),
            deployment_id: None,
            display_name: None,
            lifecycle: None,
            retention_days: None,
            storage_limit_bytes: None,
            ingest_rate_limit_per_sec: None,
            query_concurrency_limit: None,
            labels: None,
        }
    }
}

impl Default for ManagedTenantApplyRequest {
    fn default() -> (value: Self)
        ensures
            value@ == TenantApplyRequestView::initial(),
    {
        let value = ManagedTenantApplyRequest {
            tenant_id: String::new(),
            deployment_id: None,
            display_name: None,
            lifecycle: None,
            retention_days: None,
            storage_limit_bytes: None,
            ingest_rate_limit_per_sec: None,
            query_concurrency_limit: None,
            labels: None,
        };
        assert(value@ =~~= TenantApplyRequestView::initial());
        value
    }
}

impl AuditFilterView {
    /// What nothing was said of.
    pub open spec fn initial() -> Self {
        AuditFilterView {
            limit: 0usize,
            target_kind: None,
            target_id: None,
            operation: None,
        }
    }
}

impl Default for ManagedControlPlaneAuditFilter {
    fn default() -> (value: Self)
        ensures
            value@ == AuditFilterView::initial(),
    {
        let value = ManagedControlPlaneAuditFilter {
            limit: 0,
            target_kind: None,
            target_id: None,
            operation: None,
        };
        assert(value@ =~~= AuditFilterView::initial());
        value
    }
}

} // verus!
