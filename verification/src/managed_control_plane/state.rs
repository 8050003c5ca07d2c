//! The state of the managed control plane.

use vstd::prelude::*;

use crate::managed_control_plane::types::ActorView;
use crate::managed_control_plane::types::AuditEntryView;
use crate::managed_control_plane::types::DeploymentView;
use crate::managed_control_plane::types::ManagedControlPlaneActor;
use crate::managed_control_plane::types::ManagedControlPlaneAuditEntry;
use crate::managed_control_plane::types::ManagedDeployment;
use crate::managed_control_plane::types::ManagedTenant;
use crate::managed_control_plane::types::TenantView;
use crate::names;
use crate::ordered::KeyMap;
use crate::sizes;
use crate::text;

verus! {

/// The deployments, the tenants and the audit trail.
pub struct ManagedControlPlaneState {
    pub updated_unix_ms: u64,
    pub last_audit_seq: u64,
    pub deployments: KeyMap<String, ManagedDeployment>,
    pub tenants: KeyMap<String, ManagedTenant>,
    pub audit_entries: Vec<ManagedControlPlaneAuditEntry>,
}

/// What a state says.
#[verifier::ext_equal]
pub struct StateView {
    pub updated_unix_ms: u64,
    pub last_audit_seq: u64,
    pub deployments: Map<Seq<char>, DeploymentView>,
    pub tenants: Map<Seq<char>, TenantView>,
    pub audit_entries: Seq<AuditEntryView>,
}

/// What an audit trail says.
pub open spec fn audit_views(entries: Seq<ManagedControlPlaneAuditEntry>) -> Seq<AuditEntryView> {
    Seq::new(entries.len(), |i: int| entries[i]@)
}

impl View for ManagedControlPlaneState {
    type V = StateView;

    open spec fn view(&self) -> StateView {
        StateView {
            updated_unix_ms: self.updated_unix_ms,
            last_audit_seq: self.last_audit_seq,
            deployments: self.deployments@,
            tenants: self.tenants@,
            audit_entries: audit_views(self.audit_entries@),
        }
    }
}

/// A copy of an audit trail.
fn copy_audit(entries: &Vec<ManagedControlPlaneAuditEntry>) -> (copy: Vec<
    ManagedControlPlaneAuditEntry,
>)
    ensures
        audit_views(copy@) == audit_views(entries@),
{
    let mut copy: Vec<ManagedControlPlaneAuditEntry> = Vec::new();
    let mut i: usize = 0;
    while i < entries.len()
        invariant
            i <= entries.len(),
            copy@.len() == i,
            forall|k: int| 0 <= k < i ==> (#[trigger] copy@[k])@ == entries@[k]@,
        decreases entries.len() - i,
    {
        copy.push(entries[i].clone());
        i = i + 1;
    }
    assert(audit_views(copy@) =~= audit_views(entries@));
    copy
}

impl StateView {
    /// A state without deployments, tenants and audit entries.
    pub open spec fn initial(now: u64) -> Self {
        StateView {
            updated_unix_ms: now,
            last_audit_seq: 0,
            deployments: Map::empty(),
            tenants: Map::empty(),
            audit_entries: Seq::empty(),
        }
    }

    /// The state with one deployment put in.
    pub open spec fn with_deployment(self, id: Seq<char>, deployment: DeploymentView) -> Self {
        StateView { deployments: self.deployments.insert(id, deployment), ..self }
    }

    /// The state with one tenant put in.
    pub open spec fn with_tenant(self, id: Seq<char>, tenant: TenantView) -> Self {
        StateView { tenants: self.tenants.insert(id, tenant), ..self }
    }

    /// The state with one more entry in the audit trail.
    pub open spec fn audited(
        self,
        now: u64,
        actor: ActorView,
        operation: Seq<char>,
        target_kind: Seq<char>,
        target_id: Seq<char>,
        outcome: Seq<char>,
        detail: Option<Seq<char>>,
    ) -> Self {
        let seq = sizes::sat64(self.last_audit_seq + 1);
        StateView {
            updated_unix_ms: now,
            last_audit_seq: seq,
            audit_entries: self.audit_entries.push(
                AuditEntryView {
                    seq,
                    unix_ms: now,
                    actor_id: actor.id,
                    actor_scope: actor.scope,
                    operation,
                    target_kind,
                    target_id,
                    outcome,
                    detail,
                },
            ),
            ..self
        }
    }
}

impl ManagedControlPlaneState {
    /// A state without deployments, tenants and audit entries.
    pub fn new(now_unix_ms: u64) -> (state: Self)
        ensures
            state@ == StateView::initial(now_unix_ms),
    {
        let state = ManagedControlPlaneState {
            updated_unix_ms: now_unix_ms,
            last_audit_seq: 0,
            deployments: KeyMap::new(),
            tenants: KeyMap::new(),
            audit_entries: Vec::new(),
        };
        assert(state@ =~= StateView::initial(now_unix_ms));
        state
    }

    /// A state that says the same.
    pub fn copied(&self) -> (copy: Self)
        ensures
            copy@ == self@,
    {
        ManagedControlPlaneState {
            updated_unix_ms: self.updated_unix_ms,
            last_audit_seq: self.last_audit_seq,
            deployments: self.deployments.copied(),
            tenants: self.tenants.copied(),
            audit_entries: copy_audit(&self.audit_entries),
        }
    }

    /// Puts one more entry into the audit trail.
    pub fn append_audit_entry(
        &mut self,
        now_unix_ms: u64,
        actor: &ManagedControlPlaneActor,
        operation: &str,
        target_kind: &str,
        target_id: &str,
        outcome: &str,
        detail: Option<String>,
    )
        ensures
            final(self)@ == old(self)@.audited(
                now_unix_ms,
                actor@,
                operation@,
                target_kind@,
                target_id@,
                outcome@,
                text::opt_text(detail),
            ),
    {
        let ghost before = self@;
        self.updated_unix_ms = now_unix_ms;
        self.last_audit_seq = self.last_audit_seq.saturating_add(1);
        let entry = ManagedControlPlaneAuditEntry {
            seq: self.last_audit_seq,
            unix_ms: now_unix_ms,
            actor_id: actor.id.clone(),
            actor_scope: actor.scope.clone(),
            operation: text::owned(operation),
            target_kind: text::owned(target_kind),
            target_id: text::owned(target_id),
            outcome: text::owned(outcome),
            detail,
        };
        let ghost added = entry@;
        self.audit_entries.push(entry);
        assert(audit_views(self.audit_entries@) =~= before.audit_entries.push(added));
    }
}

/// The only schema version that is read.
pub const MANAGED_CONTROL_PLANE_SCHEMA_VERSION: u16 = 1;

/// Checks the head of a state file.
pub fn accept_state_file(path: &str, magic: &str, schema_version: u16) -> (accepted: Result<
    (),
    String,
>)
    ensures
        if magic@ != "tsink-managed-control-plane"@ {
            accepted matches Err(message) && message@ == "managed control-plane state "@ + path@
                + " has unsupported magic '"@ + magic@ + "'"@
        } else if schema_version != MANAGED_CONTROL_PLANE_SCHEMA_VERSION {
            accepted matches Err(message) && message@ == "managed control-plane state "@ + path@
                + " has unsupported schema version "@ + text::decimal(schema_version as nat)
        } else {
            accepted is Ok
        },
{
    if !names::same_text(magic, "tsink-managed-control-plane") {
        return Err(
            text::text5(
                "managed control-plane state ",
                path,
                " has unsupported magic '",
                magic,
                "'",
            ),
        );
    }
    if schema_version != MANAGED_CONTROL_PLANE_SCHEMA_VERSION {
        return Err(
            text::text4(
                "managed control-plane state ",
                path,
                " has unsupported schema version ",
                text::format_u64(schema_version as u64).as_str(),
            ),
        );
    }
    Ok(())
}

} // verus!
