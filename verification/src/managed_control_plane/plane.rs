//! The managed control plane.

use vstd::prelude::*;

use crate::budget;
use crate::budget::QueryBudgetError;
use crate::managed_control_plane::decisions;
use crate::managed_control_plane::fields;
use crate::managed_control_plane::state;
use crate::managed_control_plane::state::ManagedControlPlaneState;
use crate::managed_control_plane::state::StateView;
use crate::managed_control_plane::status;
use crate::managed_control_plane::status::ManagedControlPlaneStatusProjection;
use crate::managed_control_plane::tenant_policy;
use crate::managed_control_plane::tenant_policy::ManagedTenantRequestGuard;
use crate::managed_control_plane::tenant_policy::ManagedTenantRequestPolicy;
use crate::managed_control_plane::tenant_policy::ManagedTenantRequestRuntime;
use crate::managed_control_plane::tenant_policy::RuntimeView;
use crate::managed_control_plane::tenant_policy::TenantAdmissionSurface;
use crate::managed_control_plane::tenant_policy::TenantRequestError;
use crate::managed_control_plane::types::ActorView;
use crate::managed_control_plane::types::AuditEntryView;
use crate::managed_control_plane::types::AuditFilterView;
use crate::managed_control_plane::types::DeploymentView;
use crate::managed_control_plane::types::ManagedBackupPolicyApplyRequest;
use crate::managed_control_plane::types::ManagedBackupRunRecordRequest;
use crate::managed_control_plane::types::ManagedControlPlaneActor;
use crate::managed_control_plane::types::ManagedControlPlaneAuditEntry;
use crate::managed_control_plane::types::ManagedControlPlaneAuditFilter;
use crate::managed_control_plane::types::ManagedControlPlaneStatusSnapshot;
use crate::managed_control_plane::types::ManagedDeployment;
use crate::managed_control_plane::types::ManagedDeploymentProvisionRequest;
use crate::managed_control_plane::types::ManagedDeploymentSummary;
use crate::managed_control_plane::types::ManagedMaintenanceApplyRequest;
use crate::managed_control_plane::types::ManagedTenant;
use crate::managed_control_plane::types::ManagedTenantApplyRequest;
use crate::managed_control_plane::types::ManagedTenantLifecycleRequest;
use crate::managed_control_plane::types::ManagedUpgradeApplyRequest;
use crate::managed_control_plane::types::TenantView;
use crate::names;
use crate::ordered::Copied;
use crate::ordered::KeyMap;
use crate::text;

verus! {

/// How many audit entries are shown where no number is asked for.
pub const DEFAULT_AUDIT_QUERY_LIMIT: usize = 100;

impl AuditFilterView {
    /// The filter with its texts trimmed and a number of entries filled in.
    pub open spec fn normalized(self) -> Self {
        AuditFilterView {
            limit: if self.limit == 0 {
                DEFAULT_AUDIT_QUERY_LIMIT
            } else {
                self.limit
            },
            target_kind: fields::optional_field(self.target_kind),
            target_id: fields::optional_field(self.target_id),
            operation: fields::optional_field(self.operation),
        }
    }

    /// Whether an entry is one that the filter asks for.
    pub open spec fn takes(self, entry: AuditEntryView) -> bool {
        &&& self.target_kind matches Some(kind) ==> entry.target_kind == kind
        &&& self.target_id matches Some(id) ==> entry.target_id == id
        &&& self.operation matches Some(operation) ==> entry.operation == operation
    }
}

impl ManagedControlPlaneAuditFilter {
    /// Trims the texts of the filter and fills in a number of entries.
    pub fn normalize(self) -> (filter: Self)
        ensures
            filter@ == self@.normalized(),
    {
        ManagedControlPlaneAuditFilter {
            limit: if self.limit == 0 {
                DEFAULT_AUDIT_QUERY_LIMIT
            } else {
                self.limit
            },
            target_kind: fields::normalize_optional_field(&self.target_kind),
            target_id: fields::normalize_optional_field(&self.target_id),
            operation: fields::normalize_optional_field(&self.operation),
        }
    }

    fn takes_entry(&self, entry: &ManagedControlPlaneAuditEntry) -> (taken: bool)
        ensures
            taken == self@.takes(entry@),
    {
        let kind = match &self.target_kind {
            Some(value) => names::same_text(entry.target_kind.as_str(), value.as_str()),
            None => true,
        };
        let id = match &self.target_id {
            Some(value) => names::same_text(entry.target_id.as_str(), value.as_str()),
            None => true,
        };
        let operation = match &self.operation {
            Some(value) => names::same_text(entry.operation.as_str(), value.as_str()),
            None => true,
        };
        kind && id && operation
    }
}

/// The latest entries of an audit trail that a filter asks for, the latest first.
pub open spec fn latest(
    entries: Seq<AuditEntryView>,
    filter: AuditFilterView,
    room: nat,
) -> Seq<AuditEntryView>
    decreases entries.len(),
{
    if room == 0 || entries.len() == 0 {
        Seq::empty()
    } else if filter.takes(entries.last()) {
        seq![entries.last()] + latest(entries.drop_last(), filter, (room - 1) as nat)
    } else {
        latest(entries.drop_last(), filter, room)
    }
}

/// What a filter shows of an audit trail.
pub open spec fn audit_answer(
    entries: Seq<AuditEntryView>,
    filter: AuditFilterView,
) -> Seq<AuditEntryView> {
    latest(entries, filter.normalized(), filter.normalized().limit as nat)
}

/// Why a change was not made.
#[derive(Debug, PartialEq, Eq)]
pub enum ManagedControlPlaneMutationError {
    /// The request cannot be met.
    Rejected(String),
    /// The changed state could not be kept.
    Persistence(String),
}

impl ManagedControlPlaneMutationError {
    /// The message of the failure.
    pub open spec fn message_text(self) -> Seq<char> {
        match self {
            ManagedControlPlaneMutationError::Rejected(detail) => detail@,
            ManagedControlPlaneMutationError::Persistence(
                source,
            ) => "managed control-plane state persistence failed: "@ + source@,
        }
    }

    /// The message of the failure.
    pub fn message(&self) -> (message: String)
        ensures
            message@ == self.message_text(),
    {
        match self {
            ManagedControlPlaneMutationError::Rejected(detail) => detail.clone(),
            ManagedControlPlaneMutationError::Persistence(source) => text::text2(
                "managed control-plane state persistence failed: ",
                source.as_str(),
            ),
        }
    }
}

/// A state and the counts over it.
pub struct ManagedControlPlaneStateSnapshot {
    pub status: ManagedControlPlaneStatusSnapshot,
    pub deployments: Vec<ManagedDeployment>,
    pub tenants: Vec<ManagedTenant>,
}

impl Copied for ManagedTenantRequestRuntime {
    fn copied(&self) -> (copy: Self) {
        self.duplicate()
    }
}

/// What a control plane is: where its state is kept, the state, and what is being done for tenants.
#[verifier::ext_equal]
pub struct PlaneView {
    pub state_path: Option<Seq<char>>,
    pub state: StateView,
    pub runtimes: Map<Seq<char>, RuntimeView>,
}

impl PlaneView {
    /// The control plane with another state.
    pub open spec fn with_state(self, state: StateView) -> Self {
        PlaneView { state, ..self }
    }

    /// What is being done for a tenant.
    pub open spec fn runtime_of(self, tenant_id: Seq<char>) -> RuntimeView {
        if self.runtimes.contains_key(tenant_id) {
            self.runtimes[tenant_id]
        } else {
            RuntimeView::idle()
        }
    }

    /// The control plane with something else being done for a tenant.
    pub open spec fn with_runtime(self, tenant_id: Seq<char>, runtime: RuntimeView) -> Self {
        PlaneView { runtimes: self.runtimes.insert(tenant_id, runtime), ..self }
    }
}

/// The state that a decision on a deployment leads to: the change where there is one, and an audit
/// entry in any case.
pub open spec fn deployment_candidate(
    before: StateView,
    actor: ActorView,
    operation: Seq<char>,
    id: Seq<char>,
    decision: Result<DeploymentView, Seq<char>>,
    now: u64,
) -> StateView {
    match decision {
        Ok(deployment) => before.with_deployment(id, deployment).audited(
            now,
            actor,
            operation,
            "deployment"@,
            id,
            "success"@,
            None,
        ),
        Err(message) => before.audited(
            now,
            actor,
            operation,
            "deployment"@,
            id,
            "error"@,
            Some(message),
        ),
    }
}

/// The state that a decision on a tenant leads to: the change where there is one, and an audit
/// entry in any case.
pub open spec fn tenant_candidate(
    before: StateView,
    actor: ActorView,
    operation: Seq<char>,
    id: Seq<char>,
    decision: Result<TenantView, Seq<char>>,
    now: u64,
) -> StateView {
    match decision {
        Ok(tenant) => before.with_tenant(id, tenant).audited(
            now,
            actor,
            operation,
            "tenant"@,
            id,
            "success"@,
            None,
        ),
        Err(message) => before.audited(
            now,
            actor,
            operation,
            "tenant"@,
            id,
            "error"@,
            Some(message),
        ),
    }
}

/// Whether a candidate state was kept, or the control plane stayed as it was because it could not
/// be kept.
pub open spec fn kept<P: FnOnce(&ManagedControlPlaneState) -> Result<(), String>>(
    before: PlaneView,
    after: PlaneView,
    candidate: StateView,
    persist: P,
    failure: Option<String>,
) -> bool {
    if before.state_path is None {
        failure is None && after == before.with_state(candidate)
    } else {
        exists|offered: ManagedControlPlaneState, outcome: Result<(), String>|
            offered@ == candidate && #[trigger] call_ensures(persist, (&offered,), outcome)
                && match outcome {
                Ok(_) => failure is None && after == before.with_state(candidate),
                Err(error) => failure == Some(error) && after == before,
            }
    }
}

/// What a change of a deployment comes to.
pub open spec fn deployment_changed<P: FnOnce(&ManagedControlPlaneState) -> Result<(), String>>(
    before: PlaneView,
    after: PlaneView,
    done: Result<ManagedDeployment, ManagedControlPlaneMutationError>,
    persist: P,
    candidate: StateView,
    decision: Result<DeploymentView, Seq<char>>,
) -> bool {
    exists|failure: Option<String>| #[trigger]
        kept(before, after, candidate, persist, failure) && match failure {
            Some(error) => done == Err::<ManagedDeployment, ManagedControlPlaneMutationError>(
                ManagedControlPlaneMutationError::Persistence(error),
            ),
            None => match decision {
                Ok(deployment) => done matches Ok(found) && found@ == deployment,
                Err(message) => done matches Err(ManagedControlPlaneMutationError::Rejected(text))
                    && text@ == message,
            },
        }
}

/// What a change of a tenant comes to.
pub open spec fn tenant_changed<P: FnOnce(&ManagedControlPlaneState) -> Result<(), String>>(
    before: PlaneView,
    after: PlaneView,
    done: Result<ManagedTenant, ManagedControlPlaneMutationError>,
    persist: P,
    candidate: StateView,
    decision: Result<TenantView, Seq<char>>,
) -> bool {
    exists|failure: Option<String>| #[trigger]
        kept(before, after, candidate, persist, failure) && match failure {
            Some(error) => done == Err::<ManagedTenant, ManagedControlPlaneMutationError>(
                ManagedControlPlaneMutationError::Persistence(error),
            ),
            None => match decision {
                Ok(tenant) => done matches Ok(found) && found@ == tenant,
                Err(message) => done matches Err(ManagedControlPlaneMutationError::Rejected(text))
                    && text@ == message,
            },
        }
}

/// The managed control plane.
pub struct ManagedControlPlane {
    state_path: Option<String>,
    state: ManagedControlPlaneState,
    request_runtimes: KeyMap<String, ManagedTenantRequestRuntime>,
}

impl View for ManagedControlPlane {
    type V = PlaneView;

    closed spec fn view(&self) -> PlaneView {
        PlaneView {
            state_path: text::opt_text(self.state_path),
            state: self.state@,
            runtimes: self.request_runtimes@,
        }
    }
}

impl ManagedControlPlane {
    /// A control plane that starts out with a state, and keeps it where a path says if there is
    /// one.
    pub fn open(state_path: Option<String>, state: ManagedControlPlaneState) -> (plane: Self)
        ensures
            plane@ == (PlaneView {
                state_path: text::opt_text(state_path),
                state: state@,
                runtimes: Map::empty(),
            }),
    {
        ManagedControlPlane { state_path, state, request_runtimes: KeyMap::new() }
    }

    /// What is let through for a tenant, if it is known.
    pub fn tenant_request_policy(&self, tenant_id: &str) -> (policy: Option<
        ManagedTenantRequestPolicy,
    >)
        ensures
            match policy {
                Some(found) => status::tenant_of(self@.state, tenant_id@) == Some(found@),
                None => status::tenant_of(self@.state, tenant_id@) is None,
            },
    {
        match self.tenant_snapshot(tenant_id) {
            Some(tenant) => Some(ManagedTenantRequestPolicy::new(tenant)),
            None => None,
        }
    }

    /// What is being done for a tenant.
    fn request_runtime_for(&self, tenant_id: &str) -> (runtime: ManagedTenantRequestRuntime)
        ensures
            runtime@ == self@.runtime_of(tenant_id@),
    {
        let id = text::owned(tenant_id);
        match self.request_runtimes.get(&id) {
            Some(runtime) => runtime.duplicate(),
            None => ManagedTenantRequestRuntime::new(),
        }
    }

    /// Lets a request of a known tenant through, or turns it away; all requests of one tenant count
    /// together. Nothing is decided on a tenant that is not known.
    pub fn admit_tenant_request(
        &mut self,
        tenant_id: &str,
        surface: TenantAdmissionSurface,
        requested_units: usize,
        stored_bytes: Option<u64>,
        now_unix_ms: u64,
    ) -> (admitted: Option<Result<ManagedTenantRequestGuard, TenantRequestError>>)
        ensures
            match status::tenant_of(old(self)@.state, tenant_id@) {
                None => admitted is None && final(self)@ == old(self)@,
                Some(tenant) => {
                    let expected = tenant_policy::admission(
                        tenant,
                        old(self)@.runtime_of(tenant_id@),
                        surface,
                        requested_units as u64,
                        stored_bytes,
                        now_unix_ms,
                    );
                    &&& final(self)@ == old(self)@.with_runtime(tenant_id@, expected.runtime)
                    &&& match expected.outcome {
                        Ok(held) => admitted matches Some(Ok(guard)) && guard.held() == held,
                        Err(refusal) => admitted matches Some(Err(error)) && error@ == refusal,
                    }
                },
            },
    {
        match self.tenant_request_policy(tenant_id) {
            None => None,
            Some(policy) => {
                let mut runtime = self.request_runtime_for(tenant_id);
                let admitted = policy.admit_request(
                    &mut runtime,
                    surface,
                    requested_units,
                    stored_bytes,
                    now_unix_ms,
                );
                self.request_runtimes.insert(text::owned(tenant_id), runtime);
                Some(admitted)
            },
        }
    }

    /// Gives back what a request of a tenant held.
    pub fn release_tenant_request(&mut self, tenant_id: &str, guard: ManagedTenantRequestGuard)
        ensures
            final(self)@ == old(self)@.with_runtime(
                tenant_id@,
                tenant_policy::released(old(self)@.runtime_of(tenant_id@), guard.held()),
            ),
    {
        let mut runtime = self.request_runtime_for(tenant_id);
        runtime.release(guard);
        self.request_runtimes.insert(text::owned(tenant_id), runtime);
    }

    /// The state and the counts over it.
    pub fn state_snapshot(&self) -> (snapshot: ManagedControlPlaneStateSnapshot)
        ensures
            ({
                let deployments = status::values_listed(self@.state.deployments);
                let tenants = status::values_listed(self@.state.tenants);
                &&& snapshot.status@ == status::status_of(self@.state, self@.state_path)
                &&& snapshot.deployments@.len() == deployments.len()
                &&& forall|i: int|
                    0 <= i < deployments.len() ==> (#[trigger] snapshot.deployments@[i])@
                        == deployments[i]
                &&& snapshot.tenants@.len() == tenants.len()
                &&& forall|i: int|
                    0 <= i < tenants.len() ==> (#[trigger] snapshot.tenants@[i])@ == tenants[i]
            }),
    {
        ManagedControlPlaneStateSnapshot {
            status: self.status_snapshot(),
            deployments: status::copy_values(&self.state.deployments),
            tenants: status::copy_values(&self.state.tenants),
        }
    }

    /// The counts over the state.
    pub fn status_snapshot(&self) -> (snapshot: ManagedControlPlaneStatusSnapshot)
        ensures
            snapshot@ == status::status_of(self@.state, self@.state_path),
    {
        status::status_snapshot_for_state(&self.state, &self.state_path)
    }

    /// The deployments in short, in the order of their keys.
    pub fn deployment_summaries(&self) -> (summaries: Vec<ManagedDeploymentSummary>)
        ensures
            status::summary_views(summaries@) == status::summaries_of(self@.state),
    {
        status::deployment_summaries_for_state(&self.state)
    }

    /// The tenant under a key, if there is one.
    pub fn tenant_snapshot(&self, tenant_id: &str) -> (tenant: Option<ManagedTenant>)
        ensures
            status::opt_tenant(tenant) == status::tenant_of(self@.state, tenant_id@),
    {
        let id = text::owned(tenant_id);
        match self.state.tenants.get(&id) {
            Some(found) => Some(found.clone()),
            None => None,
        }
    }

    /// What is shown of the state to one tenant, with its memory charged to a query budget:
    /// `checkpoint` asks whether to go on, `reserve` charges the whole modeled cost before any text
    /// is copied, and `resize` charges what the copies hold. Where `reserve` refuses, nothing is
    /// copied; and of a query that was stopped nothing is charged.
    pub fn status_projection_for_with_execution<
        C: Fn() -> Result<(), QueryBudgetError>,
        R: FnOnce(u64) -> Result<(), QueryBudgetError>,
        S: FnOnce(u64) -> Result<(), QueryBudgetError>,
    >(&self, tenant_id: &str, checkpoint: &C, reserve: R, resize: S) -> (projected: Result<
        (ManagedControlPlaneStatusProjection, u64),
        QueryBudgetError,
    >)
        requires
            call_requires(*checkpoint, ()),
            budget::may_pass(*checkpoint) ==> call_requires(
                reserve,
                (status::projection_peak(self@.state, self@.state_path, tenant_id@),),
            ),
            forall|bytes: u64|
                bytes >= status::projection_peak(self@.state, self@.state_path, tenant_id@)
                    && budget::may_pass(*checkpoint) && budget::granted(
                    reserve,
                    status::projection_peak(self@.state, self@.state_path, tenant_id@),
                ) ==> #[trigger] call_requires(resize, (bytes,)),
        ensures
            exists|held: u64|
                status::projection_peak(self@.state, self@.state_path, tenant_id@) <= held
                    && #[trigger] status::projected_as(
                    self@.state,
                    self@.state_path,
                    tenant_id@,
                    *checkpoint,
                    reserve,
                    resize,
                    held,
                    projected,
                ),
            budget::never_stops(*checkpoint) && budget::always_grants(reserve)
                && budget::always_grants(resize) ==> projected is Ok,
            budget::never_stops(*checkpoint) && !budget::granted(
                reserve,
                status::projection_peak(self@.state, self@.state_path, tenant_id@),
            ) ==> (projected matches Err(error) && budget::refused(
                reserve,
                status::projection_peak(self@.state, self@.state_path, tenant_id@),
                error,
            )),
            budget::always_stops(*checkpoint) ==> (projected matches Err(error) && budget::may_stop(
                *checkpoint,
                error,
            )),
    {
        let projected = status::status_projection_for_state(
            &self.state,
            &self.state_path,
            tenant_id,
            checkpoint,
            reserve,
            resize,
        );
        proof {
            let held = choose|held: u64|
                status::projection_peak(self@.state, self@.state_path, tenant_id@) <= held
                    && #[trigger] status::projected_as(
                    self.state@,
                    text::opt_text(self.state_path),
                    tenant_id@,
                    *checkpoint,
                    reserve,
                    resize,
                    held,
                    projected,
                );
            assert(status::projected_as(
                self@.state,
                self@.state_path,
                tenant_id@,
                *checkpoint,
                reserve,
                resize,
                held,
                projected,
            ));
        }
        projected
    }

    /// The latest audit entries that a filter asks for, the latest first.
    pub fn query_audit(&self, filter: ManagedControlPlaneAuditFilter) -> (found: Vec<
        ManagedControlPlaneAuditEntry,
    >)
        ensures
            state::audit_views(found@) == audit_answer(self@.state.audit_entries, filter@),
    {
        let filter = filter.normalize();
        let ghost all = self@.state.audit_entries;
        let ghost asked = filter@;
        let mut found: Vec<ManagedControlPlaneAuditEntry> = Vec::new();
        let mut i: usize = self.state.audit_entries.len();
        proof {
            assert(all.subrange(0, i as int) =~= all);
            assert(state::audit_views(found@) + latest(all, asked, asked.limit as nat) =~= latest(
                all,
                asked,
                asked.limit as nat,
            ));
        }
        while i > 0 && found.len() < filter.limit
            invariant
                i <= self.state.audit_entries.len(),
                all == state::audit_views(self.state.audit_entries@),
                asked == filter@,
                found@.len() <= filter.limit,
                state::audit_views(found@) + latest(
                    all.subrange(0, i as int),
                    asked,
                    (asked.limit - found@.len()) as nat,
                ) == latest(all, asked, asked.limit as nat),
            decreases i,
        {
            let ghost before = state::audit_views(found@);
            let ghost room = (asked.limit - found@.len()) as nat;
            let ghost rest = all.subrange(0, i as int);
            let entry = &self.state.audit_entries[i - 1];
            proof {
                assert(rest.last() == entry@);
                assert(rest.drop_last() =~= all.subrange(0, i as int - 1));
            }
            if filter.takes_entry(entry) {
                found.push(entry.clone());
                proof {
                    assert(state::audit_views(found@) =~= before.push(entry@));
                    let tail = latest(rest.drop_last(), asked, (room - 1) as nat);
                    assert(before + (seq![entry@] + tail) =~= before.push(entry@) + tail);
                }
            }
            i = i - 1;
        }
        proof {
            assert(latest(
                all.subrange(0, i as int),
                asked,
                (asked.limit - found@.len()) as nat,
            ) =~= Seq::empty());
            assert(state::audit_views(found@) + Seq::<AuditEntryView>::empty()
                =~= state::audit_views(found@));
        }
        found
    }

    /// Keeps a candidate state and takes it over, or stays as it was.
    fn keep<P: FnOnce(&ManagedControlPlaneState) -> Result<(), String>>(
        &mut self,
        candidate: ManagedControlPlaneState,
        persist: P,
    ) -> (failure: Option<String>)
        requires
            forall|offered: &ManagedControlPlaneState|
                old(self)@.state_path is Some && offered@ == candidate@
                    ==> #[trigger] call_requires(persist, (offered,)),
        ensures
            kept(old(self)@, final(self)@, candidate@, persist, failure),
    {
        if self.state_path.is_some() {
            let outcome = persist(&candidate);
            assert(call_ensures(persist, (&candidate,), outcome));
            match outcome {
                Ok(()) => {},
                Err(error) => {
                    return Some(error);
                },
            }
        }
        self.state = candidate;
        None
    }

    /// Makes a change of a deployment that was decided on, or notes why it was not made.
    fn mutate_deployment<P: FnOnce(&ManagedControlPlaneState) -> Result<(), String>>(
        &mut self,
        actor: &ManagedControlPlaneActor,
        operation: &str,
        deployment_id: &str,
        decision: Result<ManagedDeployment, String>,
        now_unix_ms: u64,
        persist: P,
    ) -> (done: Result<ManagedDeployment, ManagedControlPlaneMutationError>)
        requires
            forall|offered: &ManagedControlPlaneState|
                old(self)@.state_path is Some && offered@ == deployment_candidate(
                    old(self)@.state,
                    actor@,
                    operation@,
                    deployment_id@,
                    decisions::deployment_outcome(decision),
                    now_unix_ms,
                )
                    ==> #[trigger] call_requires(persist, (offered,)),
        ensures
            deployment_changed(
                old(self)@,
                final(self)@,
                done,
                persist,
                deployment_candidate(
                    old(self)@.state,
                    actor@,
                    operation@,
                    deployment_id@,
                    decisions::deployment_outcome(decision),
                    now_unix_ms,
                ),
                decisions::deployment_outcome(decision),
            ),
    {
        let mut candidate = self.state.copied();
        match decision {
            Ok(deployment) => {
                candidate.deployments.insert(text::owned(deployment_id), deployment.clone());
                candidate.append_audit_entry(
                    now_unix_ms,
                    actor,
                    operation,
                    "deployment",
                    deployment_id,
                    "success",
                    None,
                );
                match self.keep(candidate, persist) {
                    Some(error) => Err(ManagedControlPlaneMutationError::Persistence(error)),
                    None => Ok(deployment),
                }
            },
            Err(message) => {
                candidate.append_audit_entry(
                    now_unix_ms,
                    actor,
                    operation,
                    "deployment",
                    deployment_id,
                    "error",
                    Some(message.clone()),
                );
                match self.keep(candidate, persist) {
                    Some(error) => Err(ManagedControlPlaneMutationError::Persistence(error)),
                    None => Err(ManagedControlPlaneMutationError::Rejected(message)),
                }
            },
        }
    }

    /// Makes a change of a tenant that was decided on, or notes why it was not made.
    fn mutate_tenant<P: FnOnce(&ManagedControlPlaneState) -> Result<(), String>>(
        &mut self,
        actor: &ManagedControlPlaneActor,
        operation: &str,
        tenant_id: &str,
        decision: Result<ManagedTenant, String>,
        now_unix_ms: u64,
        persist: P,
    ) -> (done: Result<ManagedTenant, ManagedControlPlaneMutationError>)
        requires
            forall|offered: &ManagedControlPlaneState|
                old(self)@.state_path is Some && offered@ == tenant_candidate(
                    old(self)@.state,
                    actor@,
                    operation@,
                    tenant_id@,
                    decisions::tenant_outcome(decision),
                    now_unix_ms,
                )
                    ==> #[trigger] call_requires(persist, (offered,)),
        ensures
            tenant_changed(
                old(self)@,
                final(self)@,
                done,
                persist,
                tenant_candidate(
                    old(self)@.state,
                    actor@,
                    operation@,
                    tenant_id@,
                    decisions::tenant_outcome(decision),
                    now_unix_ms,
                ),
                decisions::tenant_outcome(decision),
            ),
    {
        let mut candidate = self.state.copied();
        match decision {
            Ok(tenant) => {
                candidate.tenants.insert(text::owned(tenant_id), tenant.clone());
                candidate.append_audit_entry(
                    now_unix_ms,
                    actor,
                    operation,
                    "tenant",
                    tenant_id,
                    "success",
                    None,
                );
                match self.keep(candidate, persist) {
                    Some(error) => Err(ManagedControlPlaneMutationError::Persistence(error)),
                    None => Ok(tenant),
                }
            },
            Err(message) => {
                candidate.append_audit_entry(
                    now_unix_ms,
                    actor,
                    operation,
                    "tenant",
                    tenant_id,
                    "error",
                    Some(message.clone()),
                );
                match self.keep(candidate, persist) {
                    Some(error) => Err(ManagedControlPlaneMutationError::Persistence(error)),
                    None => Err(ManagedControlPlaneMutationError::Rejected(message)),
                }
            },
        }
    }

    /// Creates a deployment or changes it. The change and its audit entry become visible once
    /// `persist` has kept them; a control plane without a path does not call it. A request that
    /// cannot be met leaves an audit entry and nothing else.
    pub fn provision_deployment<P: FnOnce(&ManagedControlPlaneState) -> Result<(), String>>(
        &mut self,
        actor: &ManagedControlPlaneActor,
        request: &ManagedDeploymentProvisionRequest,
        now_unix_ms: u64,
        persist: P,
    ) -> (done: Result<ManagedDeployment, ManagedControlPlaneMutationError>)
        requires
            forall|offered: &ManagedControlPlaneState|
                old(self)@.state_path is Some && (match fields::resource_id(
                    "deploymentId"@,
                    request@.deployment_id,
                ) {
                    Err(_) => false,
                    Ok(id) => {
                        let decision = decisions::provisioned(
                            old(self)@.state,
                            id,
                            request@,
                            now_unix_ms,
                        );
                        offered@ == deployment_candidate(
                            old(self)@.state,
                            actor@,
                            "provision_deployment"@,
                            id,
                            decision,
                            now_unix_ms,
                        )
                    },
                }) ==> #[trigger] call_requires(persist, (offered,)),
        ensures
            match fields::resource_id("deploymentId"@, request@.deployment_id) {
                Err(message) => {
                    &&& done matches Err(ManagedControlPlaneMutationError::Rejected(text)) && text@
                        == message
                    &&& final(self)@ == old(self)@
                },
                Ok(id) => {
                    let decision = decisions::provisioned(
                        old(self)@.state,
                        id,
                        request@,
                        now_unix_ms,
                    );
                    deployment_changed(
                        old(self)@,
                        final(self)@,
                        done,
                        persist,
                        deployment_candidate(
                            old(self)@.state,
                            actor@,
                            "provision_deployment"@,
                            id,
                            decision,
                            now_unix_ms,
                        ),
                        decision,
                    )
                },
            },
    {
        match fields::validate_resource_id("deploymentId", request.deployment_id.as_str()) {
            Err(message) => Err(ManagedControlPlaneMutationError::Rejected(message)),
            Ok(id) => {
                let decision = decisions::decide_provision(
                    &self.state,
                    id.as_str(),
                    request,
                    now_unix_ms,
                );
                self.mutate_deployment(
                    actor,
                    "provision_deployment",
                    id.as_str(),
                    decision,
                    now_unix_ms,
                    persist,
                )
            },
        }
    }

    /// Changes the backup policy of a deployment. The change and its audit entry become visible
    /// once `persist` has kept them; a control plane without a path does not call it. A request
    /// that cannot be met leaves an audit entry and nothing else.
    pub fn apply_backup_policy<P: FnOnce(&ManagedControlPlaneState) -> Result<(), String>>(
        &mut self,
        actor: &ManagedControlPlaneActor,
        request: &ManagedBackupPolicyApplyRequest,
        now_unix_ms: u64,
        persist: P,
    ) -> (done: Result<ManagedDeployment, ManagedControlPlaneMutationError>)
        requires
            forall|offered: &ManagedControlPlaneState|
                old(self)@.state_path is Some && (match fields::resource_id(
                    "deploymentId"@,
                    request@.deployment_id,
                ) {
                    Err(_) => false,
                    Ok(id) => {
                        let decision = decisions::backup_policy_applied(
                            old(self)@.state,
                            id,
                            request@,
                            now_unix_ms,
                        );
                        offered@ == deployment_candidate(
                            old(self)@.state,
                            actor@,
                            "apply_backup_policy"@,
                            id,
                            decision,
                            now_unix_ms,
                        )
                    },
                }) ==> #[trigger] call_requires(persist, (offered,)),
        ensures
            match fields::resource_id("deploymentId"@, request@.deployment_id) {
                Err(message) => {
                    &&& done matches Err(ManagedControlPlaneMutationError::Rejected(text)) && text@
                        == message
                    &&& final(self)@ == old(self)@
                },
                Ok(id) => {
                    let decision = decisions::backup_policy_applied(
                        old(self)@.state,
                        id,
                        request@,
                        now_unix_ms,
                    );
                    deployment_changed(
                        old(self)@,
                        final(self)@,
                        done,
                        persist,
                        deployment_candidate(
                            old(self)@.state,
                            actor@,
                            "apply_backup_policy"@,
                            id,
                            decision,
                            now_unix_ms,
                        ),
                        decision,
                    )
                },
            },
    {
        match fields::validate_resource_id("deploymentId", request.deployment_id.as_str()) {
            Err(message) => Err(ManagedControlPlaneMutationError::Rejected(message)),
            Ok(id) => {
                let decision = decisions::decide_backup_policy(
                    &self.state,
                    id.as_str(),
                    request,
                    now_unix_ms,
                );
                self.mutate_deployment(
                    actor,
                    "apply_backup_policy",
                    id.as_str(),
                    decision,
                    now_unix_ms,
                    persist,
                )
            },
        }
    }

    /// Takes a report of a backup run. The change and its audit entry become visible once `persist`
    /// has kept them; a control plane without a path does not call it. A request that cannot be met
    /// leaves an audit entry and nothing else.
    pub fn record_backup_run<P: FnOnce(&ManagedControlPlaneState) -> Result<(), String>>(
        &mut self,
        actor: &ManagedControlPlaneActor,
        request: &ManagedBackupRunRecordRequest,
        now_unix_ms: u64,
        persist: P,
    ) -> (done: Result<ManagedDeployment, ManagedControlPlaneMutationError>)
        requires
            forall|offered: &ManagedControlPlaneState|
                old(self)@.state_path is Some && (match fields::resource_id(
                    "deploymentId"@,
                    request@.deployment_id,
                ) {
                    Err(_) => false,
                    Ok(id) => {
                        let decision = decisions::backup_run_recorded(
                            old(self)@.state,
                            id,
                            request@,
                            now_unix_ms,
                        );
                        offered@ == deployment_candidate(
                            old(self)@.state,
                            actor@,
                            "record_backup_run"@,
                            id,
                            decision,
                            now_unix_ms,
                        )
                    },
                }) ==> #[trigger] call_requires(persist, (offered,)),
        ensures
            match fields::resource_id("deploymentId"@, request@.deployment_id) {
                Err(message) => {
                    &&& done matches Err(ManagedControlPlaneMutationError::Rejected(text)) && text@
                        == message
                    &&& final(self)@ == old(self)@
                },
                Ok(id) => {
                    let decision = decisions::backup_run_recorded(
                        old(self)@.state,
                        id,
                        request@,
                        now_unix_ms,
                    );
                    deployment_changed(
                        old(self)@,
                        final(self)@,
                        done,
                        persist,
                        deployment_candidate(
                            old(self)@.state,
                            actor@,
                            "record_backup_run"@,
                            id,
                            decision,
                            now_unix_ms,
                        ),
                        decision,
                    )
                },
            },
    {
        match fields::validate_resource_id("deploymentId", request.deployment_id.as_str()) {
            Err(message) => Err(ManagedControlPlaneMutationError::Rejected(message)),
            Ok(id) => {
                let decision = decisions::decide_backup_run(
                    &self.state,
                    id.as_str(),
                    request,
                    now_unix_ms,
                );
                self.mutate_deployment(
                    actor,
                    "record_backup_run",
                    id.as_str(),
                    decision,
                    now_unix_ms,
                    persist,
                )
            },
        }
    }

    /// Changes what is known of the maintenance of a deployment. The change and its audit entry
    /// become visible once `persist` has kept them; a control plane without a path does not call
    /// it. A request that cannot be met leaves an audit entry and nothing else.
    pub fn apply_maintenance<P: FnOnce(&ManagedControlPlaneState) -> Result<(), String>>(
        &mut self,
        actor: &ManagedControlPlaneActor,
        request: &ManagedMaintenanceApplyRequest,
        now_unix_ms: u64,
        persist: P,
    ) -> (done: Result<ManagedDeployment, ManagedControlPlaneMutationError>)
        requires
            forall|offered: &ManagedControlPlaneState|
                old(self)@.state_path is Some && (match fields::resource_id(
                    "deploymentId"@,
                    request@.deployment_id,
                ) {
                    Err(_) => false,
                    Ok(id) => {
                        let decision = decisions::maintenance_applied(
                            old(self)@.state,
                            id,
                            request@,
                            now_unix_ms,
                        );
                        offered@ == deployment_candidate(
                            old(self)@.state,
                            actor@,
                            "apply_maintenance"@,
                            id,
                            decision,
                            now_unix_ms,
                        )
                    },
                }) ==> #[trigger] call_requires(persist, (offered,)),
        ensures
            match fields::resource_id("deploymentId"@, request@.deployment_id) {
                Err(message) => {
                    &&& done matches Err(ManagedControlPlaneMutationError::Rejected(text)) && text@
                        == message
                    &&& final(self)@ == old(self)@
                },
                Ok(id) => {
                    let decision = decisions::maintenance_applied(
                        old(self)@.state,
                        id,
                        request@,
                        now_unix_ms,
                    );
                    deployment_changed(
                        old(self)@,
                        final(self)@,
                        done,
                        persist,
                        deployment_candidate(
                            old(self)@.state,
                            actor@,
                            "apply_maintenance"@,
                            id,
                            decision,
                            now_unix_ms,
                        ),
                        decision,
                    )
                },
            },
    {
        match fields::validate_resource_id("deploymentId", request.deployment_id.as_str()) {
            Err(message) => Err(ManagedControlPlaneMutationError::Rejected(message)),
            Ok(id) => {
                let decision = decisions::decide_maintenance(
                    &self.state,
                    id.as_str(),
                    request,
                    now_unix_ms,
                );
                self.mutate_deployment(
                    actor,
                    "apply_maintenance",
                    id.as_str(),
                    decision,
                    now_unix_ms,
                    persist,
                )
            },
        }
    }

    /// Changes the upgrade plan of a deployment. The change and its audit entry become visible once
    /// `persist` has kept them; a control plane without a path does not call it. A request that
    /// cannot be met leaves an audit entry and nothing else.
    pub fn apply_upgrade<P: FnOnce(&ManagedControlPlaneState) -> Result<(), String>>(
        &mut self,
        actor: &ManagedControlPlaneActor,
        request: &ManagedUpgradeApplyRequest,
        now_unix_ms: u64,
        persist: P,
    ) -> (done: Result<ManagedDeployment, ManagedControlPlaneMutationError>)
        requires
            forall|offered: &ManagedControlPlaneState|
                old(self)@.state_path is Some && (match fields::resource_id(
                    "deploymentId"@,
                    request@.deployment_id,
                ) {
                    Err(_) => false,
                    Ok(id) => {
                        let decision = decisions::upgrade_applied(
                            old(self)@.state,
                            id,
                            request@,
                            now_unix_ms,
                        );
                        offered@ == deployment_candidate(
                            old(self)@.state,
                            actor@,
                            "apply_upgrade"@,
                            id,
                            decision,
                            now_unix_ms,
                        )
                    },
                }) ==> #[trigger] call_requires(persist, (offered,)),
        ensures
            match fields::resource_id("deploymentId"@, request@.deployment_id) {
                Err(message) => {
                    &&& done matches Err(ManagedControlPlaneMutationError::Rejected(text)) && text@
                        == message
                    &&& final(self)@ == old(self)@
                },
                Ok(id) => {
                    let decision = decisions::upgrade_applied(
                        old(self)@.state,
                        id,
                        request@,
                        now_unix_ms,
                    );
                    deployment_changed(
                        old(self)@,
                        final(self)@,
                        done,
                        persist,
                        deployment_candidate(
                            old(self)@.state,
                            actor@,
                            "apply_upgrade"@,
                            id,
                            decision,
                            now_unix_ms,
                        ),
                        decision,
                    )
                },
            },
    {
        match fields::validate_resource_id("deploymentId", request.deployment_id.as_str()) {
            Err(message) => Err(ManagedControlPlaneMutationError::Rejected(message)),
            Ok(id) => {
                let decision = decisions::decide_upgrade(
                    &self.state,
                    id.as_str(),
                    request,
                    now_unix_ms,
                );
                self.mutate_deployment(
                    actor,
                    "apply_upgrade",
                    id.as_str(),
                    decision,
                    now_unix_ms,
                    persist,
                )
            },
        }
    }

    /// Creates a tenant or changes it. The change and its audit entry become visible once `persist`
    /// has kept them; a control plane without a path does not call it. A request that cannot be met
    /// leaves an audit entry and nothing else.
    pub fn apply_tenant<P: FnOnce(&ManagedControlPlaneState) -> Result<(), String>>(
        &mut self,
        actor: &ManagedControlPlaneActor,
        request: &ManagedTenantApplyRequest,
        now_unix_ms: u64,
        persist: P,
    ) -> (done: Result<ManagedTenant, ManagedControlPlaneMutationError>)
        requires
            forall|offered: &ManagedControlPlaneState|
                old(self)@.state_path is Some && (match fields::resource_id(
                    "tenantId"@,
                    request@.tenant_id,
                ) {
                    Err(_) => false,
                    Ok(id) => {
                        let decision = decisions::tenant_applied(
                            old(self)@.state,
                            id,
                            request@,
                            now_unix_ms,
                        );
                        offered@ == tenant_candidate(
                            old(self)@.state,
                            actor@,
                            "apply_tenant"@,
                            id,
                            decision,
                            now_unix_ms,
                        )
                    },
                }) ==> #[trigger] call_requires(persist, (offered,)),
        ensures
            match fields::resource_id("tenantId"@, request@.tenant_id) {
                Err(message) => {
                    &&& done matches Err(ManagedControlPlaneMutationError::Rejected(text)) && text@
                        == message
                    &&& final(self)@ == old(self)@
                },
                Ok(id) => {
                    let decision = decisions::tenant_applied(
                        old(self)@.state,
                        id,
                        request@,
                        now_unix_ms,
                    );
                    tenant_changed(
                        old(self)@,
                        final(self)@,
                        done,
                        persist,
                        tenant_candidate(
                            old(self)@.state,
                            actor@,
                            "apply_tenant"@,
                            id,
                            decision,
                            now_unix_ms,
                        ),
                        decision,
                    )
                },
            },
    {
        match fields::validate_resource_id("tenantId", request.tenant_id.as_str()) {
            Err(message) => Err(ManagedControlPlaneMutationError::Rejected(message)),
            Ok(id) => {
                let decision = decisions::decide_tenant(
                    &self.state,
                    id.as_str(),
                    request,
                    now_unix_ms,
                );
                self.mutate_tenant(
                    actor,
                    "apply_tenant",
                    id.as_str(),
                    decision,
                    now_unix_ms,
                    persist,
                )
            },
        }
    }

    /// Moves a tenant to another stage of its life. The change and its audit entry become visible
    /// once `persist` has kept them; a control plane without a path does not call it. A request
    /// that cannot be met leaves an audit entry and nothing else.
    pub fn apply_tenant_lifecycle<P: FnOnce(&ManagedControlPlaneState) -> Result<(), String>>(
        &mut self,
        actor: &ManagedControlPlaneActor,
        request: &ManagedTenantLifecycleRequest,
        now_unix_ms: u64,
        persist: P,
    ) -> (done: Result<ManagedTenant, ManagedControlPlaneMutationError>)
        requires
            forall|offered: &ManagedControlPlaneState|
                old(self)@.state_path is Some && (match fields::resource_id(
                    "tenantId"@,
                    request@.tenant_id,
                ) {
                    Err(_) => false,
                    Ok(id) => {
                        let decision = decisions::tenant_moved(
                            old(self)@.state,
                            id,
                            request@,
                            now_unix_ms,
                        );
                        offered@ == tenant_candidate(
                            old(self)@.state,
                            actor@,
                            "apply_tenant_lifecycle"@,
                            id,
                            decision,
                            now_unix_ms,
                        )
                    },
                }) ==> #[trigger] call_requires(persist, (offered,)),
        ensures
            match fields::resource_id("tenantId"@, request@.tenant_id) {
                Err(message) => {
                    &&& done matches Err(ManagedControlPlaneMutationError::Rejected(text)) && text@
                        == message
                    &&& final(self)@ == old(self)@
                },
                Ok(id) => {
                    let decision = decisions::tenant_moved(
                        old(self)@.state,
                        id,
                        request@,
                        now_unix_ms,
                    );
                    tenant_changed(
                        old(self)@,
                        final(self)@,
                        done,
                        persist,
                        tenant_candidate(
                            old(self)@.state,
                            actor@,
                            "apply_tenant_lifecycle"@,
                            id,
                            decision,
                            now_unix_ms,
                        ),
                        decision,
                    )
                },
            },
    {
        match fields::validate_resource_id("tenantId", request.tenant_id.as_str()) {
            Err(message) => Err(ManagedControlPlaneMutationError::Rejected(message)),
            Ok(id) => {
                let decision = decisions::decide_tenant_lifecycle(
                    &self.state,
                    id.as_str(),
                    request,
                    now_unix_ms,
                );
                self.mutate_tenant(
                    actor,
                    "apply_tenant_lifecycle",
                    id.as_str(),
                    decision,
                    now_unix_ms,
                    persist,
                )
            },
        }
    }
}

} // verus!
