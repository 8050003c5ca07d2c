//! What a request leaves behind, setting by setting.

use vstd::prelude::*;

use crate::managed_control_plane::decisions;
use crate::managed_control_plane::fields;
use crate::managed_control_plane::plane;
use crate::managed_control_plane::plane::ManagedControlPlaneMutationError;
use crate::managed_control_plane::plane::PlaneView;
use crate::managed_control_plane::state::ManagedControlPlaneState;
use crate::managed_control_plane::state::StateView;
use crate::managed_control_plane::types::ActorView;
use crate::managed_control_plane::types::BackupRunOutcome;
use crate::managed_control_plane::types::DeploymentLifecycleState;
use crate::managed_control_plane::types::DeploymentView;
use crate::managed_control_plane::types::ManagedBackupPolicyApplyRequest;
use crate::managed_control_plane::types::ManagedBackupRunRecordRequest;
use crate::managed_control_plane::types::ManagedDeployment;
use crate::managed_control_plane::types::ManagedDeploymentProvisionRequest;
use crate::managed_control_plane::types::ManagedMaintenanceApplyRequest;
use crate::managed_control_plane::types::ManagedTenant;
use crate::managed_control_plane::types::ManagedTenantApplyRequest;
use crate::managed_control_plane::types::ManagedTenantLifecycleRequest;
use crate::managed_control_plane::types::ManagedUpgradeApplyRequest;
use crate::managed_control_plane::types::TenantLifecycleState;
use crate::managed_control_plane::types::TenantView;
use crate::managed_control_plane::types::UpgradeRolloutState;
use crate::ordered;
use crate::text;

verus! {

/// Whether a text is what stands between two places of another, with nothing but white space before
/// and behind, and none at its own ends.
pub open spec fn cut_at(inner: Seq<char>, given: Seq<char>, from: int, to: int) -> bool {
    &&& 0 <= from <= to <= given.len()
    &&& inner == given.subrange(from, to)
    &&& forall|k: int| 0 <= k < from ==> text::char_whitespace(#[trigger] given[k])
    &&& forall|k: int| to <= k < given.len() ==> text::char_whitespace(#[trigger] given[k])
    &&& from < to ==> !text::char_whitespace(given[from]) && !text::char_whitespace(given[to - 1])
}

/// Whether a text is another without the white space around it.
#[verifier::opaque]
pub open spec fn inner_of(inner: Seq<char>, given: Seq<char>) -> bool {
    exists|from: int, to: int| #[trigger] cut_at(inner, given, from, to)
}

/// Whether a text holds nothing but white space.
pub open spec fn blank(given: Seq<char>) -> bool {
    forall|k: int| 0 <= k < given.len() ==> text::char_whitespace(#[trigger] given[k])
}

/// Whether there is a control character between the white space around a text.
pub open spec fn inner_control(given: Seq<char>) -> bool {
    exists|inner: Seq<char>, k: int| #[trigger]
        inner_of(inner, given) && 0 <= k < inner.len() && text::char_control(#[trigger] inner[k])
}

proof fn lemma_start_cut(given: Seq<char>) -> (from: int)
    ensures
        0 <= from <= given.len(),
        text::trim_start(given) == given.subrange(from, given.len() as int),
        forall|k: int| 0 <= k < from ==> text::char_whitespace(#[trigger] given[k]),
        from < given.len() ==> !text::char_whitespace(given[from]),
    decreases given.len(),
{
    if given.len() > 0 && text::char_whitespace(given[0]) {
        let rest = given.subrange(1, given.len() as int);
        let from = lemma_start_cut(rest);
        assert(rest.subrange(from, rest.len() as int) =~= given.subrange(
            from + 1,
            given.len() as int,
        ));
        assert forall|k: int| 0 <= k < from + 1 implies text::char_whitespace(
            #[trigger] given[k],
        ) by {
            if k > 0 {
                assert(given[k] == rest[k - 1]);
            }
        }
        if from + 1 < given.len() {
            assert(given[from + 1] == rest[from]);
        }
        from + 1
    } else {
        assert(given.subrange(0, given.len() as int) =~= given);
        0
    }
}

proof fn lemma_end_cut(given: Seq<char>) -> (to: int)
    ensures
        0 <= to <= given.len(),
        text::trim_end(given) == given.subrange(0, to),
        forall|k: int| to <= k < given.len() ==> text::char_whitespace(#[trigger] given[k]),
        to > 0 ==> !text::char_whitespace(given[to - 1]),
    decreases given.len(),
{
    if given.len() > 0 && text::char_whitespace(given[given.len() - 1]) {
        let rest = given.subrange(0, given.len() - 1);
        let to = lemma_end_cut(rest);
        assert(rest.subrange(0, to) =~= given.subrange(0, to));
        assert forall|k: int| to <= k < given.len() implies text::char_whitespace(
            #[trigger] given[k],
        ) by {
            if k < given.len() - 1 {
                assert(given[k] == rest[k]);
            }
        }
        if to > 0 {
            assert(given[to - 1] == rest[to - 1]);
        }
        to
    } else {
        assert(given.subrange(0, given.len() as int) =~= given);
        given.len() as int
    }
}

/// Trimming a text takes away the white space around it and nothing else, and what is left is empty
/// only where the text holds nothing but white space.
pub proof fn lemma_trimming_keeps_inner_text(given: Seq<char>)
    ensures
        inner_of(text::trimmed(given), given),
        text::trimmed(given).len() == 0 <==> blank(given),
        forall|inner: Seq<char>| #[trigger] inner_of(inner, given) ==> inner == text::trimmed(given),
{
    reveal(inner_of);
    let from = lemma_start_cut(given);
    let rest = text::trim_start(given);
    let end = lemma_end_cut(rest);
    let to = from + end;
    let inner = text::trimmed(given);
    assert(inner =~= given.subrange(from, to));
    assert forall|k: int| to <= k < given.len() implies text::char_whitespace(
        #[trigger] given[k],
    ) by {
        assert(given[k] == rest[k - from]);
    }
    if from < to {
        assert(given[to - 1] == rest[end - 1]);
        assert(given[from] == rest[0]);
    }
    assert(cut_at(inner, given, from, to));
    assert forall|other: Seq<char>| #[trigger] inner_of(other, given) implies other == inner by {
        let (a, b) = choose|a: int, b: int| #[trigger] cut_at(other, given, a, b);
        if from < to {
            if a >= b {
                assert(text::char_whitespace(given[from]));
            }
            if a < from {
                assert(text::char_whitespace(given[a]));
            }
            if a > from {
                assert(text::char_whitespace(given[from]));
            }
            if b > to {
                assert(text::char_whitespace(given[b - 1]));
            }
            if b < to {
                assert(text::char_whitespace(given[to - 1]));
            }
        } else {
            if a < b {
                assert(text::char_whitespace(given[a]));
            }
        }
        assert(other =~= inner);
    }
    if blank(given) && inner.len() > 0 {
        assert(text::char_whitespace(given[from]));
    }
    if inner.len() == 0 {
        assert forall|k: int| 0 <= k < given.len() implies text::char_whitespace(
            #[trigger] given[k],
        ) by {
            if k < from {
            } else {
                assert(k >= to);
            }
        }
    }
}

proof fn lemma_control_inside(given: Seq<char>)
    ensures
        text::has_control(text::trimmed(given)) <==> inner_control(given),
{
    lemma_trimming_keeps_inner_text(given);
    let inner = text::trimmed(given);
    if text::has_control(inner) {
        let k = choose|k: int| 0 <= k < inner.len() && text::char_control(#[trigger] inner[k]);
        assert(inner_of(inner, given) && 0 <= k < inner.len() && text::char_control(inner[k]));
    }
}

/// Whether a text of a setting is good: it is not blank and has no control character inside.
#[verifier::opaque]
pub open spec fn good_text(given: Seq<char>) -> bool {
    !blank(given) && !inner_control(given)
}

/// Whether a text came of an optional text: the given one without the white space around it, or
/// none where it was blank.
pub open spec fn optional_came(found: Option<Seq<char>>, given: Seq<char>) -> bool {
    match found {
        None => blank(given),
        Some(inner) => !blank(given) && inner_of(inner, given),
    }
}

proof fn lemma_optional(given: Seq<char>)
    ensures
        optional_came(fields::optional_field(Some(given)), given),
{
    lemma_trimming_keeps_inner_text(given);
}

proof fn lemma_required(field: Seq<char>, given: Seq<char>)
    ensures
        fields::non_empty_field(field, given) is Ok <==> good_text(given),
        fields::non_empty_field(field, given) matches Ok(inner) ==> inner_of(inner, given),
{
    reveal(good_text);
    lemma_trimming_keeps_inner_text(given);
    lemma_control_inside(given);
}

/// Whether labels came of given ones: each is one that was given, its name and its value without the
/// white space around them, and each that was given is there by its name.
pub open spec fn labels_came(
    found: Map<Seq<char>, Seq<char>>,
    given: Map<Seq<char>, Seq<char>>,
) -> bool {
    &&& forall|name: Seq<char>| #[trigger]
        found.contains_key(name) ==> exists|from: Seq<char>| #[trigger]
            given.contains_key(from) && inner_of(name, from) && inner_of(found[name], given[from])
    &&& forall|from: Seq<char>| #[trigger]
        given.contains_key(from) ==> exists|name: Seq<char>| #[trigger]
            found.contains_key(name) && inner_of(name, from)
}

/// Whether the names and the values of labels are good texts.
pub open spec fn good_labels(given: Map<Seq<char>, Seq<char>>) -> bool {
    forall|from: Seq<char>| #[trigger]
        given.contains_key(from) ==> good_text(from) && good_text(given[from])
}

proof fn lemma_labels_listed(field: Seq<char>, listed: Seq<(Seq<char>, Seq<char>)>)
    ensures
        fields::labels_kept(field, listed) is Ok <==> forall|i: int|
            0 <= i < listed.len() ==> good_text((#[trigger] listed[i]).0) && good_text(listed[i].1),
        fields::labels_kept(field, listed) matches Ok(found) ==> {
            &&& forall|name: Seq<char>| #[trigger]
                found.contains_key(name) ==> exists|i: int|
                    0 <= i < listed.len() && inner_of(name, (#[trigger] listed[i]).0) && inner_of(
                        found[name],
                        listed[i].1,
                    )
            &&& forall|i: int|
                0 <= i < listed.len() ==> exists|name: Seq<char>| #[trigger]
                    found.contains_key(name) && inner_of(name, (#[trigger] listed[i]).0)
        },
    decreases listed.len(),
{
    if listed.len() > 0 {
        let rest = listed.drop_last();
        let n = listed.len() - 1;
        lemma_labels_listed(field, rest);
        lemma_required(field, listed.last().0);
        lemma_required(field, listed.last().1);
        assert(forall|i: int| 0 <= i < n ==> #[trigger] rest[i] == listed[i]);
        assert(listed.last() == listed[n]);
        if let Ok(found) = fields::labels_kept(field, listed) {
            let before = fields::labels_kept(field, rest)->Ok_0;
            let key = fields::non_empty_field(field, listed.last().0)->Ok_0;
            assert forall|name: Seq<char>| #[trigger] found.contains_key(name) implies exists|i: int|
                0 <= i < listed.len() && inner_of(name, (#[trigger] listed[i]).0) && inner_of(
                    found[name],
                    listed[i].1,
                ) by {
                if name == key {
                    assert(inner_of(name, listed[n].0) && inner_of(found[name], listed[n].1));
                } else {
                    assert(before.contains_key(name));
                    let i = choose|i: int|
                        0 <= i < rest.len() && inner_of(name, (#[trigger] rest[i]).0) && inner_of(
                            before[name],
                            rest[i].1,
                        );
                    assert(rest[i] == listed[i]);
                }
            }
            assert forall|i: int| 0 <= i < listed.len() implies exists|name: Seq<char>| #[trigger]
                found.contains_key(name) && inner_of(name, (#[trigger] listed[i]).0) by {
                if i == n {
                    assert(found.contains_key(key) && inner_of(key, listed[n].0));
                } else {
                    assert(rest[i] == listed[i]);
                    let name = choose|name: Seq<char>| #[trigger]
                        before.contains_key(name) && inner_of(name, rest[i].0);
                    assert(found.contains_key(name));
                }
            }
            assert forall|i: int| 0 <= i < listed.len() implies good_text((#[trigger] listed[i]).0)
                && good_text(listed[i].1) by {
                if i < n {
                    assert(rest[i] == listed[i]);
                }
            }
        } else if forall|i: int|
            0 <= i < listed.len() ==> good_text((#[trigger] listed[i]).0) && good_text(
                listed[i].1,
            ) {
            assert forall|i: int| 0 <= i < rest.len() implies good_text((#[trigger] rest[i]).0)
                && good_text(rest[i].1) by {
                assert(rest[i] == listed[i]);
            }
            assert(good_text(listed[n].0));
        }
    }
}

proof fn lemma_labels(field: Seq<char>, given: Map<Seq<char>, Seq<char>>)
    requires
        ordered::listable::<String, Seq<char>>(given),
    ensures
        fields::normalized_labels(field, given) is Ok <==> good_labels(given),
        fields::normalized_labels(field, given) matches Ok(found) ==> labels_came(found, given),
{
    let listed = ordered::listing::<String, Seq<char>>(given);
    ordered::lemma_listable::<String, Seq<char>>(given);
    lemma_labels_listed(field, listed);
    assert forall|i: int| 0 <= i < listed.len() implies given.contains_key(
        (#[trigger] listed[i]).0,
    ) && given[listed[i].0] == listed[i].1 by {
        ordered::lemma_keyed_map_at::<String, Seq<char>>(listed, i);
    }
    assert forall|from: Seq<char>| #[trigger] given.contains_key(from) implies exists|i: int|
        0 <= i < listed.len() && (#[trigger] listed[i]).0 == from && listed[i].1 == given[from] by {
        let i = choose|i: int| ordered::key_stands::<String, Seq<char>>(listed, from, i);
        assert(listed[i].0 == from);
    }
    if fields::normalized_labels(field, given) is Ok {
        assert forall|from: Seq<char>| #[trigger] given.contains_key(from) implies good_text(from)
            && good_text(given[from]) by {
            let i = choose|i: int|
                0 <= i < listed.len() && (#[trigger] listed[i]).0 == from && listed[i].1
                    == given[from];
            assert(good_text(listed[i].0));
        }
        let found = fields::normalized_labels(field, given)->Ok_0;
        assert forall|name: Seq<char>| #[trigger] found.contains_key(name) implies exists|
            from: Seq<char>,
        | #[trigger]
            given.contains_key(from) && inner_of(name, from) && inner_of(
                found[name],
                given[from],
            ) by {
            let i = choose|i: int|
                0 <= i < listed.len() && inner_of(name, (#[trigger] listed[i]).0) && inner_of(
                    found[name],
                    listed[i].1,
                );
            assert(given.contains_key(listed[i].0));
        }
        assert forall|from: Seq<char>| #[trigger] given.contains_key(from) implies exists|
            name: Seq<char>,
        | #[trigger] found.contains_key(name) && inner_of(name, from) by {
            let i = choose|i: int|
                0 <= i < listed.len() && (#[trigger] listed[i]).0 == from && listed[i].1
                    == given[from];
            let name = choose|name: Seq<char>| #[trigger]
                found.contains_key(name) && inner_of(name, listed[i].0);
            assert(found.contains_key(name));
        }
    }
}

/// A tenant request that is taken sets every setting that it gives and leaves every other as it was
/// on the tenant, or as a new tenant has it: what is answered, and what is kept under the tenant's
/// identifier, is the tenant with exactly those settings, and no other tenant and no deployment is
/// touched.
pub proof fn lemma_tenant_request_sets_what_it_gives<
    P: FnOnce(&ManagedControlPlaneState) -> Result<(), String>,
>(
    before: PlaneView,
    after: PlaneView,
    actor: ActorView,
    request: ManagedTenantApplyRequest,
    id: Seq<char>,
    now: u64,
    persist: P,
    found: ManagedTenant,
)
    requires
        request.labels matches Some(labels) ==> ordered::listable::<String, Seq<char>>(labels@),
        ({
            let decision = decisions::tenant_applied(before.state, id, request@, now);
            plane::tenant_changed(
                before,
                after,
                Ok(found),
                persist,
                plane::tenant_candidate(
                    before.state,
                    actor,
                    "apply_tenant"@,
                    id,
                    decision,
                    now,
                ),
                decision,
            )
        }),
    ensures
        ({
            let known = before.state.tenants.contains_key(id);
            let was = before.state.tenants[id];
            &&& found.retention_days == match request.retention_days {
                Some(days) => Some(days),
                None => if known { was.retention_days } else { None },
            }
            &&& found.storage_limit_bytes == match request.storage_limit_bytes {
                Some(bytes) => Some(bytes),
                None => if known { was.storage_limit_bytes } else { None },
            }
            &&& found.ingest_rate_limit_per_sec == match request.ingest_rate_limit_per_sec {
                Some(rate) => Some(rate),
                None => if known { was.ingest_rate_limit_per_sec } else { None },
            }
            &&& found.query_concurrency_limit == match request.query_concurrency_limit {
                Some(limit) => Some(limit),
                None => if known { was.query_concurrency_limit } else { None },
            }
            &&& match request.lifecycle {
                Some(lifecycle) => found.lifecycle == lifecycle,
                None => found.lifecycle == if known {
                    was.lifecycle
                } else {
                    TenantLifecycleState::Provisioning
                },
            }
            &&& match request.display_name {
                Some(name) => good_text(name@) && inner_of(found.display_name@, name@),
                None => found.display_name@ == if known { was.display_name } else { id },
            }
            &&& match request.deployment_id {
                Some(home) => inner_of(found.deployment_id@, home@),
                None => known && found.deployment_id@ == was.deployment_id,
            }
            &&& match request.labels {
                Some(labels) => labels_came(found.labels@, labels@),
                None => found.labels@ == if known { was.labels } else { Map::empty() },
            }
            &&& found.id@ == if known { was.id } else { id }
            &&& found.created_unix_ms == if known { was.created_unix_ms } else { now }
            &&& found.updated_unix_ms == now
            &&& text::opt_text(found.lifecycle_note) == if known {
                was.lifecycle_note
            } else {
                None
            }
            &&& after.state.tenants == before.state.tenants.insert(id, found@)
            &&& after.state.deployments == before.state.deployments
            &&& after.runtimes == before.runtimes
            &&& after.state_path == before.state_path
        }),
{
    if let Some(name) = request.display_name {
        lemma_required("displayName"@, name@);
    }
    if let Some(home) = request.deployment_id {
        lemma_trimming_keeps_inner_text(home@);
    }
    if let Some(labels) = request.labels {
        lemma_labels("labels"@, labels@);
    }
}

/// A tenant request is taken exactly where the deployment that it names, or that the tenant is on,
/// is known, does not go away under a tenant that stays, is ready where the tenant becomes or stays
/// active, and no text that it gives is blank or holds control characters.
pub proof fn lemma_tenant_request_taken(
    state: StateView,
    request: ManagedTenantApplyRequest,
    id: Seq<char>,
    now: u64,
)
    requires
        request.labels matches Some(labels) ==> ordered::listable::<String, Seq<char>>(labels@),
        request.deployment_id matches Some(home) ==> fields::resource_id(
            "deploymentId"@,
            home@,
        ) is Ok,
    ensures
        ({
            let known = state.tenants.contains_key(id);
            let stage = match request.lifecycle {
                Some(lifecycle) => lifecycle,
                None => if known {
                    state.tenants[id].lifecycle
                } else {
                    TenantLifecycleState::Provisioning
                },
            };
            decisions::tenant_applied(state, id, request@, now) is Ok <==> {
                &&& known || request.deployment_id is Some
                &&& forall|home: Seq<char>| #[trigger]
                    is_home(state, id, request, home) ==> {
                        &&& state.deployments.contains_key(home)
                        &&& (state.deployments[home].lifecycle
                            == DeploymentLifecycleState::Decommissioning
                            || state.deployments[home].lifecycle
                            == DeploymentLifecycleState::Decommissioned) ==> (stage
                            == TenantLifecycleState::Deleting || stage
                            == TenantLifecycleState::Deleted)
                        &&& stage == TenantLifecycleState::Active
                            ==> state.deployments[home].lifecycle
                            == DeploymentLifecycleState::Ready
                    }
                &&& request.display_name matches Some(name) ==> good_text(name@)
                &&& request.labels matches Some(labels) ==> good_labels(labels@)
            }
        }),
{
    if let Some(name) = request.display_name {
        lemma_required("displayName"@, name@);
    }
    if let Some(home) = request.deployment_id {
        lemma_trimming_keeps_inner_text(home@);
        assert(is_home(state, id, request, text::trimmed(home@)));
    } else if state.tenants.contains_key(id) {
        assert(is_home(state, id, request, state.tenants[id].deployment_id));
    }
    if let Some(labels) = request.labels {
        lemma_labels("labels"@, labels@);
    }
}

/// Whether a deployment is the one that a tenant request puts the tenant on.
pub open spec fn is_home(
    state: StateView,
    id: Seq<char>,
    request: ManagedTenantApplyRequest,
    home: Seq<char>,
) -> bool {
    match request.deployment_id {
        Some(given) => inner_of(home, given@),
        None => state.tenants.contains_key(id) && home == state.tenants[id].deployment_id,
    }
}

/// An identifier is taken exactly where it is not blank, is not longer than it may be and holds no
/// control characters, and is then what was given without the white space around it.
pub proof fn lemma_identifier_taken(field: Seq<char>, given: Seq<char>)
    ensures
        fields::resource_id(field, given) is Ok <==> good_text(given) && (forall|inner: Seq<char>|
         #[trigger]
            inner_of(inner, given) ==> text::utf8_len(inner) <= 128),
        fields::resource_id(field, given) matches Ok(id) ==> inner_of(id, given),
{
    reveal(good_text);
    lemma_trimming_keeps_inner_text(given);
    lemma_control_inside(given);
}

/// Moving a tenant changes its stage, its note where one is given, and nothing else of it; it is
/// done for every known tenant but one that would become active on a deployment that is not ready.
pub proof fn lemma_tenant_move_changes_stage<
    P: FnOnce(&ManagedControlPlaneState) -> Result<(), String>,
>(
    before: PlaneView,
    after: PlaneView,
    actor: ActorView,
    request: ManagedTenantLifecycleRequest,
    id: Seq<char>,
    now: u64,
    persist: P,
    found: ManagedTenant,
)
    requires
        ({
            let decision = decisions::tenant_moved(before.state, id, request@, now);
            plane::tenant_changed(
                before,
                after,
                Ok(found),
                persist,
                plane::tenant_candidate(
                    before.state,
                    actor,
                    "apply_tenant_lifecycle"@,
                    id,
                    decision,
                    now,
                ),
                decision,
            )
        }),
    ensures
        ({
            let was = before.state.tenants[id];
            &&& before.state.tenants.contains_key(id)
            &&& found.lifecycle == request.lifecycle
            &&& match request.note {
                Some(note) => optional_came(text::opt_text(found.lifecycle_note), note@),
                None => text::opt_text(found.lifecycle_note) == was.lifecycle_note,
            }
            &&& found.id@ == was.id
            &&& found.deployment_id@ == was.deployment_id
            &&& found.display_name@ == was.display_name
            &&& found.retention_days == was.retention_days
            &&& found.storage_limit_bytes == was.storage_limit_bytes
            &&& found.ingest_rate_limit_per_sec == was.ingest_rate_limit_per_sec
            &&& found.query_concurrency_limit == was.query_concurrency_limit
            &&& found.labels@ == was.labels
            &&& found.created_unix_ms == was.created_unix_ms
            &&& found.updated_unix_ms == now
            &&& after.state.tenants == before.state.tenants.insert(id, found@)
            &&& after.state.deployments == before.state.deployments
        }),
{
    if let Some(note) = request.note {
        lemma_optional(note@);
    }
}

/// A tenant is moved exactly where it is known and, if it is to become active, its deployment is
/// known and ready.
pub proof fn lemma_tenant_move_taken(
    state: StateView,
    request: ManagedTenantLifecycleRequest,
    id: Seq<char>,
    now: u64,
)
    ensures
        decisions::tenant_moved(state, id, request@, now) is Ok <==> state.tenants.contains_key(id)
            && (request.lifecycle == TenantLifecycleState::Active ==> ({
            let home = state.tenants[id].deployment_id;
            state.deployments.contains_key(home) && state.deployments[home].lifecycle
                == DeploymentLifecycleState::Ready
        })),
{
}

/// Whether an answered deployment has the fields of one as it was, but for its settings, its backup
/// policy, its maintenance and its upgrade.
pub open spec fn same_settings(found: ManagedDeployment, was: DeploymentView) -> bool {
    &&& found.id@ == was.id
    &&& found.display_name@ == was.display_name
    &&& found.region@ == was.region
    &&& found.plan@ == was.plan
    &&& text::opt_text(found.control_plane_endpoint) == was.control_plane_endpoint
    &&& text::opt_text(found.data_plane_endpoint) == was.data_plane_endpoint
    &&& text::opt_text(found.object_store_path) == was.object_store_path
    &&& found.lifecycle == was.lifecycle
    &&& found.labels@ == was.labels
    &&& found.created_unix_ms == was.created_unix_ms
}

/// Whether an optional text of a deployment came of a request: it is the given one without the white
/// space around it, or none where that is blank, and where none is given it is as it was.
pub open spec fn text_renewed(
    found: Option<String>,
    given: Option<String>,
    was: Option<Seq<char>>,
) -> bool {
    match given {
        Some(value) => optional_came(text::opt_text(found), value@),
        None => text::opt_text(found) == was,
    }
}

proof fn lemma_text_renewed(
    found: Option<String>,
    given: Option<String>,
    was: Option<Seq<char>>,
)
    requires
        text::opt_text(found) == decisions::renewed(text::opt_text(given), was),
    ensures
        text_renewed(found, given, was),
{
    if let Some(value) = given {
        lemma_optional(value@);
    }
}

/// A provisioning request that is taken sets what it gives and leaves the rest as it was: of a new
/// deployment the region and the plan are given, its name is its identifier where none is given, it
/// was requested, and its backups are off.
pub proof fn lemma_provisioning_sets_what_it_gives<
    P: FnOnce(&ManagedControlPlaneState) -> Result<(), String>,
>(
    before: PlaneView,
    after: PlaneView,
    actor: ActorView,
    request: ManagedDeploymentProvisionRequest,
    id: Seq<char>,
    now: u64,
    persist: P,
    found: ManagedDeployment,
)
    requires
        request.labels matches Some(labels) ==> ordered::listable::<String, Seq<char>>(labels@),
        ({
            let decision = decisions::provisioned(before.state, id, request@, now);
            plane::deployment_changed(
                before,
                after,
                Ok(found),
                persist,
                plane::deployment_candidate(
                    before.state,
                    actor,
                    "provision_deployment"@,
                    id,
                    decision,
                    now,
                ),
                decision,
            )
        }),
    ensures
        ({
            let known = before.state.deployments.contains_key(id);
            let was = before.state.deployments[id];
            &&& match request.display_name {
                Some(name) => good_text(name@) && inner_of(found.display_name@, name@),
                None => found.display_name@ == if known { was.display_name } else { id },
            }
            &&& match request.region {
                Some(region) => good_text(region@) && inner_of(found.region@, region@),
                None => known && found.region@ == was.region,
            }
            &&& match request.plan {
                Some(plan) => good_text(plan@) && inner_of(found.plan@, plan@),
                None => known && found.plan@ == was.plan,
            }
            &&& text_renewed(
                found.control_plane_endpoint,
                request.control_plane_endpoint,
                if known { was.control_plane_endpoint } else { None },
            )
            &&& text_renewed(
                found.data_plane_endpoint,
                request.data_plane_endpoint,
                if known { was.data_plane_endpoint } else { None },
            )
            &&& text_renewed(
                found.object_store_path,
                request.object_store_path,
                if known { was.object_store_path } else { None },
            )
            &&& match request.lifecycle {
                Some(lifecycle) => found.lifecycle == lifecycle,
                None => found.lifecycle == if known {
                    was.lifecycle
                } else {
                    DeploymentLifecycleState::Requested
                },
            }
            &&& match request.labels {
                Some(labels) => labels_came(found.labels@, labels@),
                None => found.labels@ == if known { was.labels } else { Map::empty() },
            }
            &&& found.id@ == if known { was.id } else { id }
            &&& found.created_unix_ms == if known { was.created_unix_ms } else { now }
            &&& found.updated_unix_ms == now
            &&& known ==> found.backup_policy@ == was.backup_policy && found.maintenance@
                == was.maintenance && found.upgrade@ == was.upgrade
            &&& !known ==> !found.backup_policy.enabled && found.backup_policy.runs_total == 0
                && !found.maintenance.active && found.upgrade.state == UpgradeRolloutState::Idle
                && found.upgrade.desired_version is None
            &&& after.state.deployments == before.state.deployments.insert(id, found@)
            &&& after.state.tenants == before.state.tenants
            &&& after.runtimes == before.runtimes
        }),
{
    let known = before.state.deployments.contains_key(id);
    let was = before.state.deployments[id];
    if let Some(name) = request.display_name {
        lemma_required("displayName"@, name@);
    }
    if let Some(region) = request.region {
        lemma_required("region"@, region@);
    }
    if let Some(plan) = request.plan {
        lemma_required("plan"@, plan@);
    }
    if let Some(labels) = request.labels {
        lemma_labels("labels"@, labels@);
    }
    lemma_text_renewed(
        found.control_plane_endpoint,
        request.control_plane_endpoint,
        if known { was.control_plane_endpoint } else { None },
    );
    lemma_text_renewed(
        found.data_plane_endpoint,
        request.data_plane_endpoint,
        if known { was.data_plane_endpoint } else { None },
    );
    lemma_text_renewed(
        found.object_store_path,
        request.object_store_path,
        if known { was.object_store_path } else { None },
    );
}

/// A provisioning request is taken exactly where the texts and the labels that it gives are good,
/// where a new deployment is given a region and a plan, and where a deployment that is taken down
/// for good has no tenant left that is not deleted.
pub proof fn lemma_provisioning_taken(
    state: StateView,
    request: ManagedDeploymentProvisionRequest,
    id: Seq<char>,
    now: u64,
)
    requires
        request.labels matches Some(labels) ==> ordered::listable::<String, Seq<char>>(labels@),
    ensures
        decisions::provisioned(state, id, request@, now) is Ok <==> {
            &&& request.display_name matches Some(name) ==> good_text(name@)
            &&& request.region matches Some(region) ==> good_text(region@)
            &&& request.plan matches Some(plan) ==> good_text(plan@)
            &&& !state.deployments.contains_key(id) ==> request.region is Some && request.plan is Some
            &&& request.labels matches Some(labels) ==> good_labels(labels@)
            &&& request.lifecycle == Some(DeploymentLifecycleState::Decommissioned) ==> forall|
                key: Seq<char>,
            | #[trigger]
                state.tenants.contains_key(key) && state.tenants[key].deployment_id == id
                    ==> state.tenants[key].lifecycle == TenantLifecycleState::Deleted
        },
{
    if let Some(name) = request.display_name {
        lemma_required("displayName"@, name@);
    }
    if let Some(region) = request.region {
        lemma_required("region"@, region@);
    }
    if let Some(plan) = request.plan {
        lemma_required("plan"@, plan@);
    }
    if let Some(labels) = request.labels {
        lemma_labels("labels"@, labels@);
    }
}

/// A request on a backup policy that is taken sets what it gives of the policy and leaves the rest of
/// it, what is known of the runs, and the deployment as they were.
pub proof fn lemma_backup_policy_sets_what_it_gives<
    P: FnOnce(&ManagedControlPlaneState) -> Result<(), String>,
>(
    before: PlaneView,
    after: PlaneView,
    actor: ActorView,
    request: ManagedBackupPolicyApplyRequest,
    id: Seq<char>,
    now: u64,
    persist: P,
    found: ManagedDeployment,
)
    requires
        ({
            let decision = decisions::backup_policy_applied(before.state, id, request@, now);
            plane::deployment_changed(
                before,
                after,
                Ok(found),
                persist,
                plane::deployment_candidate(
                    before.state,
                    actor,
                    "apply_backup_policy"@,
                    id,
                    decision,
                    now,
                ),
                decision,
            )
        }),
    ensures
        ({
            let was = before.state.deployments[id];
            let policy = found.backup_policy;
            &&& before.state.deployments.contains_key(id)
            &&& policy.enabled == match request.enabled {
                Some(enabled) => enabled,
                None => was.backup_policy.enabled,
            }
            &&& policy.retention_copies == match request.retention_copies {
                Some(copies) => copies,
                None => was.backup_policy.retention_copies,
            }
            &&& policy.retention_copies > 0
            &&& text_renewed(policy.schedule, request.schedule, was.backup_policy.schedule)
            &&& text_renewed(policy.target, request.target, was.backup_policy.target)
            &&& policy.enabled ==> policy.schedule is Some && policy.target is Some
            &&& policy.last_attempt_unix_ms == was.backup_policy.last_attempt_unix_ms
            &&& policy.last_success_unix_ms == was.backup_policy.last_success_unix_ms
            &&& text::opt_text(policy.last_snapshot_path) == was.backup_policy.last_snapshot_path
            &&& text::opt_text(policy.last_error) == was.backup_policy.last_error
            &&& policy.runs_total == was.backup_policy.runs_total
            &&& policy.failures_total == was.backup_policy.failures_total
            &&& same_settings(found, was)
            &&& found.maintenance@ == was.maintenance
            &&& found.upgrade@ == was.upgrade
            &&& found.updated_unix_ms == now
            &&& after.state.deployments == before.state.deployments.insert(id, found@)
            &&& after.state.tenants == before.state.tenants
        }),
{
    let was = before.state.deployments[id];
    lemma_text_renewed(
        found.backup_policy.schedule,
        request.schedule,
        was.backup_policy.schedule,
    );
    lemma_text_renewed(found.backup_policy.target, request.target, was.backup_policy.target);
}

/// A request on a backup policy is taken exactly where the deployment is known, the policy keeps at
/// least one copy, and it says when and where to if it is on.
pub proof fn lemma_backup_policy_taken(
    state: StateView,
    request: ManagedBackupPolicyApplyRequest,
    id: Seq<char>,
    now: u64,
)
    ensures
        ({
            let was = state.deployments[id].backup_policy;
            let on = request.enabled == Some(true) || request.enabled is None && was.enabled;
            decisions::backup_policy_applied(state, id, request@, now) is Ok <==> {
                &&& state.deployments.contains_key(id)
                &&& request.retention_copies != Some(0u32)
                &&& request.retention_copies is None ==> was.retention_copies != 0
                &&& on ==> match request.schedule {
                    Some(given) => !blank(given@),
                    None => was.schedule is Some,
                }
                &&& on ==> match request.target {
                    Some(given) => !blank(given@),
                    None => was.target is Some,
                }
            }
        }),
{
    if let Some(given) = request.schedule {
        lemma_optional(given@);
    }
    if let Some(given) = request.target {
        lemma_optional(given@);
    }
}

/// A backup run that is recorded counts once, at the time that was given or else now: a success
/// notes its time and its snapshot and clears the error, a failure counts as one and notes the
/// error, and keeps the last success. The policy and the rest of the deployment stay.
pub proof fn lemma_backup_run_counts_once<
    P: FnOnce(&ManagedControlPlaneState) -> Result<(), String>,
>(
    before: PlaneView,
    after: PlaneView,
    actor: ActorView,
    request: ManagedBackupRunRecordRequest,
    id: Seq<char>,
    now: u64,
    persist: P,
    found: ManagedDeployment,
)
    requires
        ({
            let decision = decisions::backup_run_recorded(before.state, id, request@, now);
            plane::deployment_changed(
                before,
                after,
                Ok(found),
                persist,
                plane::deployment_candidate(
                    before.state,
                    actor,
                    "record_backup_run"@,
                    id,
                    decision,
                    now,
                ),
                decision,
            )
        }),
    ensures
        ({
            let was = before.state.deployments[id];
            let policy = found.backup_policy;
            let at = match request.completed_unix_ms {
                Some(given) => given,
                None => now,
            };
            &&& before.state.deployments.contains_key(id)
            &&& was.backup_policy.enabled
            &&& policy.last_attempt_unix_ms == Some(at)
            &&& was.backup_policy.runs_total < u64::MAX ==> policy.runs_total
                == was.backup_policy.runs_total + 1
            &&& match request.outcome {
                BackupRunOutcome::Success => {
                    &&& policy.last_success_unix_ms == Some(at)
                    &&& policy.last_error is None
                    &&& policy.failures_total == was.backup_policy.failures_total
                    &&& request.snapshot_path matches Some(given) && policy.last_snapshot_path
                        matches Some(path) && !blank(given@) && inner_of(path@, given@)
                },
                BackupRunOutcome::Failed => {
                    &&& policy.last_success_unix_ms == was.backup_policy.last_success_unix_ms
                    &&& text::opt_text(policy.last_snapshot_path)
                        == was.backup_policy.last_snapshot_path
                    &&& was.backup_policy.failures_total < u64::MAX ==> policy.failures_total
                        == was.backup_policy.failures_total + 1
                    &&& policy.last_error matches Some(said) && match request.error {
                        Some(given) => if blank(given@) {
                            said@ == "backup run failed without a recorded error"@
                        } else {
                            inner_of(said@, given@)
                        },
                        None => said@ == "backup run failed without a recorded error"@,
                    }
                },
            }
            &&& policy.enabled == was.backup_policy.enabled
            &&& text::opt_text(policy.schedule) == was.backup_policy.schedule
            &&& text::opt_text(policy.target) == was.backup_policy.target
            &&& policy.retention_copies == was.backup_policy.retention_copies
            &&& same_settings(found, was)
            &&& found.maintenance@ == was.maintenance
            &&& found.upgrade@ == was.upgrade
            &&& found.updated_unix_ms == now
            &&& after.state.deployments == before.state.deployments.insert(id, found@)
            &&& after.state.tenants == before.state.tenants
        }),
{
    if let Some(given) = request.snapshot_path {
        lemma_optional(given@);
    }
    if let Some(given) = request.error {
        lemma_optional(given@);
    }
}

/// A backup run is recorded exactly where the deployment is known, its backups are on, and a success
/// says where its snapshot is.
pub proof fn lemma_backup_run_taken(
    state: StateView,
    request: ManagedBackupRunRecordRequest,
    id: Seq<char>,
    now: u64,
)
    ensures
        decisions::backup_run_recorded(state, id, request@, now) is Ok <==> {
            &&& state.deployments.contains_key(id)
            &&& state.deployments[id].backup_policy.enabled
            &&& request.outcome == BackupRunOutcome::Success ==> (
            request.snapshot_path matches Some(given) && !blank(given@))
        },
{
    if let Some(given) = request.snapshot_path {
        lemma_optional(given@);
    }
}

/// A maintenance request that is taken sets what it gives of the maintenance and leaves the rest of
/// it and of the deployment as they were.
pub proof fn lemma_maintenance_sets_what_it_gives<
    P: FnOnce(&ManagedControlPlaneState) -> Result<(), String>,
>(
    before: PlaneView,
    after: PlaneView,
    actor: ActorView,
    request: ManagedMaintenanceApplyRequest,
    id: Seq<char>,
    now: u64,
    persist: P,
    found: ManagedDeployment,
)
    requires
        ({
            let decision = decisions::maintenance_applied(before.state, id, request@, now);
            plane::deployment_changed(
                before,
                after,
                Ok(found),
                persist,
                plane::deployment_candidate(
                    before.state,
                    actor,
                    "apply_maintenance"@,
                    id,
                    decision,
                    now,
                ),
                decision,
            )
        }),
    ensures
        ({
            let was = before.state.deployments[id];
            let work = found.maintenance;
            &&& before.state.deployments.contains_key(id)
            &&& work.active == match request.active {
                Some(active) => active,
                None => was.maintenance.active,
            }
            &&& text_renewed(work.reason, request.reason, was.maintenance.reason)
            &&& work.window_start_unix_ms == match request.window_start_unix_ms {
                Some(start) => Some(start),
                None => was.maintenance.window_start_unix_ms,
            }
            &&& work.window_end_unix_ms == match request.window_end_unix_ms {
                Some(end) => Some(end),
                None => was.maintenance.window_end_unix_ms,
            }
            &&& match request.allowed_mutations {
                Some(given) => names_came(
                    work.allowed_mutations@.map_values(|name: String| name@),
                    given@.map_values(|name: String| name@),
                ),
                None => work.allowed_mutations@.map_values(|name: String| name@)
                    == was.maintenance.allowed_mutations,
            }
            &&& work.updated_unix_ms == now
            &&& same_settings(found, was)
            &&& found.backup_policy@ == was.backup_policy
            &&& found.upgrade@ == was.upgrade
            &&& found.updated_unix_ms == now
            &&& after.state.deployments == before.state.deployments.insert(id, found@)
            &&& after.state.tenants == before.state.tenants
        }),
{
    let was = before.state.deployments[id];
    lemma_text_renewed(found.maintenance.reason, request.reason, was.maintenance.reason);
    let listed = found.maintenance.allowed_mutations@.map_values(|name: String| name@);
    assert(listed =~= found.maintenance@.allowed_mutations);
    if let Some(given) = request.allowed_mutations {
        lemma_names("allowedMutations"@, request@.allowed_mutations->0);
        assert(given@.map_values(|name: String| name@) =~= request@.allowed_mutations->0);
    }
}

/// Whether a name is one of given ones without the white space around it.
#[verifier::opaque]
pub open spec fn given_among(name: Seq<char>, given: Seq<Seq<char>>) -> bool {
    exists|j: int| 0 <= j < given.len() && inner_of(name, #[trigger] given[j])
}

/// Whether a given name, without the white space around it, is one of some names.
#[verifier::opaque]
pub open spec fn kept_among(given: Seq<char>, names: Seq<Seq<char>>) -> bool {
    exists|i: int| 0 <= i < names.len() && inner_of(#[trigger] names[i], given)
}

/// Whether names came of given ones: each is one that was given, without the white space around it,
/// each that was given is there, and none is there twice.
pub open spec fn names_came(found: Seq<Seq<char>>, given: Seq<Seq<char>>) -> bool {
    &&& forall|i: int| 0 <= i < found.len() ==> given_among(#[trigger] found[i], given)
    &&& forall|j: int| 0 <= j < given.len() ==> kept_among(#[trigger] given[j], found)
    &&& forall|i: int, j: int|
        0 <= i < j < found.len() ==> #[trigger] found[i] != #[trigger] found[j]
}

/// Whether a given name, without the white space around it, is a key.
#[verifier::opaque]
spec fn keyed_among(given: Seq<char>, members: Map<Seq<char>, ()>) -> bool {
    exists|name: Seq<char>| #[trigger] members.contains_key(name) && inner_of(name, given)
}

proof fn lemma_members(field: Seq<char>, values: Seq<Seq<char>>)
    ensures
        fields::list_members(field, values) is Ok <==> forall|j: int|
            0 <= j < values.len() ==> good_text(#[trigger] values[j]),
        fields::list_members(field, values) matches Ok(members) ==> {
            &&& ordered::listable::<String, ()>(members)
            &&& forall|name: Seq<char>| #[trigger]
                members.contains_key(name) ==> given_among(name, values)
            &&& forall|j: int|
                0 <= j < values.len() ==> keyed_among(#[trigger] values[j], members)
        },
    decreases values.len(),
{
    if values.len() == 0 {
        let none = Seq::<(Seq<char>, ())>::empty();
        assert(ordered::sorted_keys::<String, ()>(none));
        assert(ordered::keyed_map::<String, ()>(none) =~= Map::empty());
    } else {
        let rest = values.drop_last();
        let n = values.len() - 1;
        lemma_members(field, rest);
        lemma_required(field, values.last());
        assert(forall|j: int| 0 <= j < n ==> #[trigger] rest[j] == values[j]);
        assert(values.last() == values[n]);
        if let Ok(members) = fields::list_members(field, values) {
            let before = fields::list_members(field, rest)->Ok_0;
            let key = fields::non_empty_field(field, values.last())->Ok_0;
            ordered::lemma_listing_insert::<String, ()>(before, key, ());
            assert forall|name: Seq<char>| #[trigger] members.contains_key(name) implies
                given_among(name, values) by {
                reveal(given_among);
                if name == key {
                    assert(inner_of(name, values[n]));
                } else {
                    assert(before.contains_key(name));
                    assert(given_among(name, rest));
                    let j = choose|j: int|
                        0 <= j < rest.len() && inner_of(name, #[trigger] rest[j]);
                    assert(rest[j] == values[j]);
                }
            }
            assert forall|j: int| 0 <= j < values.len() implies keyed_among(
                #[trigger] values[j],
                members,
            ) by {
                reveal(keyed_among);
                if j == n {
                    assert(members.contains_key(key) && inner_of(key, values[n]));
                } else {
                    assert(keyed_among(rest[j], before));
                    let name = choose|name: Seq<char>| #[trigger]
                        before.contains_key(name) && inner_of(name, rest[j]);
                    assert(members.contains_key(name));
                }
            }
            assert forall|j: int| 0 <= j < values.len() implies good_text(#[trigger] values[j]) by {
                if j < n {
                    assert(rest[j] == values[j]);
                }
            }
        } else if forall|j: int| 0 <= j < values.len() ==> good_text(#[trigger] values[j]) {
            assert forall|j: int| 0 <= j < rest.len() implies good_text(#[trigger] rest[j]) by {
                assert(rest[j] == values[j]);
            }
            assert(good_text(values[n]));
        }
    }
}

proof fn lemma_names(field: Seq<char>, values: Seq<Seq<char>>)
    ensures
        fields::normalized_list(field, values) is Ok <==> forall|j: int|
            0 <= j < values.len() ==> good_text(#[trigger] values[j]),
        fields::normalized_list(field, values) matches Ok(listed) ==> names_came(listed, values),
{
    lemma_members(field, values);
    if let Ok(listed) = fields::normalized_list(field, values) {
        let members = fields::list_members(field, values)->Ok_0;
        let pairs = ordered::listing::<String, ()>(members);
        ordered::lemma_listable::<String, ()>(members);
        assert forall|i: int| 0 <= i < listed.len() implies given_among(
            #[trigger] listed[i],
            values,
        ) by {
            ordered::lemma_keyed_map_at::<String, ()>(pairs, i);
            assert(members.contains_key(listed[i]));
        }
        assert forall|j: int| 0 <= j < values.len() implies kept_among(
            #[trigger] values[j],
            listed,
        ) by {
            reveal(keyed_among);
            reveal(kept_among);
            assert(keyed_among(values[j], members));
            let name = choose|name: Seq<char>| #[trigger]
                members.contains_key(name) && inner_of(name, values[j]);
            let i = choose|i: int| ordered::key_stands::<String, ()>(pairs, name, i);
            assert(listed[i] == name);
        }
        assert forall|i: int, j: int| 0 <= i < j < listed.len() implies #[trigger] listed[i]
            != #[trigger] listed[j] by {
            if pairs[i].0 == pairs[j].0 {
                ordered::lemma_key_stands_once::<String, ()>(pairs, i, j);
            }
        }
    }
}

/// A maintenance request is taken exactly where the deployment is known and every mutation that it
/// allows has a good name.
pub proof fn lemma_maintenance_taken(
    state: StateView,
    request: ManagedMaintenanceApplyRequest,
    id: Seq<char>,
    now: u64,
)
    ensures
        decisions::maintenance_applied(state, id, request@, now) is Ok
            <==> state.deployments.contains_key(id) && (request.allowed_mutations matches Some(given)
            ==> forall|j: int| 0 <= j < given@.len() ==> good_text((#[trigger] given@[j])@)),
{
    if let Some(given) = request.allowed_mutations {
        let values = request@.allowed_mutations->0;
        lemma_names("allowedMutations"@, values);
        assert(forall|j: int| 0 <= j < given@.len() ==> values[j] == (#[trigger] given@[j])@);
        if forall|j: int| 0 <= j < given@.len() ==> good_text((#[trigger] given@[j])@) {
            assert forall|j: int| 0 <= j < values.len() implies good_text(#[trigger] values[j]) by {
                assert(values[j] == given@[j]@);
            }
        }
    }
}

/// An upgrade request that is taken sets what it gives of the plan and leaves the rest of the plan
/// and of the deployment as they were. Another version that is wanted is a new request, and is
/// pending unless the request says how far it is.
pub proof fn lemma_upgrade_sets_what_it_gives<
    P: FnOnce(&ManagedControlPlaneState) -> Result<(), String>,
>(
    before: PlaneView,
    after: PlaneView,
    actor: ActorView,
    request: ManagedUpgradeApplyRequest,
    id: Seq<char>,
    now: u64,
    persist: P,
    found: ManagedDeployment,
)
    requires
        ({
            let decision = decisions::upgrade_applied(before.state, id, request@, now);
            plane::deployment_changed(
                before,
                after,
                Ok(found),
                persist,
                plane::deployment_candidate(
                    before.state,
                    actor,
                    "apply_upgrade"@,
                    id,
                    decision,
                    now,
                ),
                decision,
            )
        }),
    ensures
        ({
            let was = before.state.deployments[id];
            let plan = found.upgrade;
            let anew = text::opt_text(plan.desired_version) != was.upgrade.desired_version;
            &&& before.state.deployments.contains_key(id)
            &&& text_renewed(
                plan.desired_version,
                request.desired_version,
                was.upgrade.desired_version,
            )
            &&& plan.desired_version is Some
            &&& match request.channel {
                Some(channel) => good_text(channel@) && inner_of(plan.channel@, channel@),
                None => plan.channel@ == was.upgrade.channel,
            }
            &&& match request.strategy {
                Some(strategy) => good_text(strategy@) && inner_of(plan.strategy@, strategy@),
                None => plan.strategy@ == was.upgrade.strategy,
            }
            &&& text_renewed(plan.notes, request.notes, was.upgrade.notes)
            &&& plan.state == match request.state {
                Some(given) => given,
                None => if anew {
                    UpgradeRolloutState::Pending
                } else {
                    was.upgrade.state
                },
            }
            &&& plan.state == UpgradeRolloutState::Complete ==> {
                &&& plan.completed_unix_ms == Some(now)
                &&& plan.observed_version is Some
                &&& ((request.observed_version matches Some(given) && blank(given@))
                    || request.observed_version is None && was.upgrade.observed_version is None)
                    ==> text::opt_text(plan.observed_version) == text::opt_text(
                    plan.desired_version,
                )
            }
            &&& (plan.state != UpgradeRolloutState::Complete || (request.observed_version matches
                Some(given) && !blank(given@)) || request.observed_version is None
                && was.upgrade.observed_version is Some) ==> text_renewed(
                plan.observed_version,
                request.observed_version,
                was.upgrade.observed_version,
            )
            &&& plan.state == UpgradeRolloutState::Cancelled ==> plan.completed_unix_ms == Some(now)
            &&& (plan.state == UpgradeRolloutState::Pending || plan.state
                == UpgradeRolloutState::InProgress || plan.state == UpgradeRolloutState::Paused
                || plan.state == UpgradeRolloutState::Idle) ==> plan.completed_unix_ms is None
            &&& (plan.state == UpgradeRolloutState::InProgress || plan.state
                == UpgradeRolloutState::Complete || plan.state == UpgradeRolloutState::Paused)
                ==> plan.started_unix_ms == match was.upgrade.started_unix_ms {
                Some(started) => Some(started),
                None => Some(now),
            }
            &&& (plan.state == UpgradeRolloutState::Pending || plan.state
                == UpgradeRolloutState::Cancelled) ==> plan.started_unix_ms
                == was.upgrade.started_unix_ms
            &&& plan.state == UpgradeRolloutState::Idle ==> plan.started_unix_ms is None
            &&& plan.requested_unix_ms == if anew || plan.state == UpgradeRolloutState::Pending {
                Some(now)
            } else {
                was.upgrade.requested_unix_ms
            }
            &&& same_settings(found, was)
            &&& found.backup_policy@ == was.backup_policy
            &&& found.maintenance@ == was.maintenance
            &&& found.updated_unix_ms == now
            &&& after.state.deployments == before.state.deployments.insert(id, found@)
            &&& after.state.tenants == before.state.tenants
        }),
{
    let was = before.state.deployments[id];
    let plan = found.upgrade;
    lemma_text_renewed(
        plan.desired_version,
        request.desired_version,
        was.upgrade.desired_version,
    );
    lemma_text_renewed(plan.notes, request.notes, was.upgrade.notes);
    if let Some(channel) = request.channel {
        lemma_required("channel"@, channel@);
    }
    if let Some(strategy) = request.strategy {
        lemma_required("strategy"@, strategy@);
    }
    if let Some(given) = request.observed_version {
        lemma_optional(given@);
    }
}

/// An upgrade request is taken exactly where the deployment is known, a version is wanted, and the
/// channel and the strategy that it gives are good texts.
pub proof fn lemma_upgrade_taken(
    state: StateView,
    request: ManagedUpgradeApplyRequest,
    id: Seq<char>,
    now: u64,
)
    ensures
        decisions::upgrade_applied(state, id, request@, now) is Ok <==> {
            &&& state.deployments.contains_key(id)
            &&& match request.desired_version {
                Some(given) => !blank(given@),
                None => state.deployments[id].upgrade.desired_version is Some,
            }
            &&& request.channel matches Some(channel) ==> good_text(channel@)
            &&& request.strategy matches Some(strategy) ==> good_text(strategy@)
        },
{
    if let Some(given) = request.desired_version {
        lemma_optional(given@);
    }
    if let Some(channel) = request.channel {
        lemma_required("channel"@, channel@);
    }
    if let Some(strategy) = request.strategy {
        lemma_required("strategy"@, strategy@);
    }
}

/// Every request that is decided on leaves one entry in the audit trail, behind those that were
/// there, with who asked, for what, of which deployment, when, and how it came out: unless it could
/// not be kept, and then everything is as it was.
pub proof fn lemma_deployment_request_is_audited<
    P: FnOnce(&ManagedControlPlaneState) -> Result<(), String>,
>(
    before: PlaneView,
    after: PlaneView,
    actor: ActorView,
    operation: Seq<char>,
    id: Seq<char>,
    decision: Result<DeploymentView, Seq<char>>,
    now: u64,
    persist: P,
    done: Result<ManagedDeployment, ManagedControlPlaneMutationError>,
)
    requires
        plane::deployment_changed(
            before,
            after,
            done,
            persist,
            plane::deployment_candidate(before.state, actor, operation, id, decision, now),
            decision,
        ),
    ensures
        done matches Err(ManagedControlPlaneMutationError::Persistence(_)) ==> after == before,
        !(done matches Err(ManagedControlPlaneMutationError::Persistence(_))) ==> {
            let trail = after.state.audit_entries;
            let n = before.state.audit_entries.len();
            &&& trail.len() == n + 1
            &&& forall|i: int| 0 <= i < n ==> #[trigger] trail[i] == before.state.audit_entries[i]
            &&& trail[n as int].unix_ms == now
            &&& trail[n as int].actor_id == actor.id
            &&& trail[n as int].actor_scope == actor.scope
            &&& trail[n as int].operation == operation
            &&& trail[n as int].target_kind == "deployment"@
            &&& trail[n as int].target_id == id
            &&& before.state.last_audit_seq < u64::MAX ==> trail[n as int].seq
                == before.state.last_audit_seq + 1
            &&& after.state.last_audit_seq == trail[n as int].seq
            &&& after.state.updated_unix_ms == now
            &&& done is Ok <==> trail[n as int].outcome == "success"@
            &&& done is Ok ==> trail[n as int].detail is None
            &&& done matches Err(ManagedControlPlaneMutationError::Rejected(message)) ==> {
                &&& trail[n as int].outcome == "error"@
                &&& trail[n as int].detail == Some(message@)
                &&& after.state.deployments == before.state.deployments
                &&& after.state.tenants == before.state.tenants
            }
        },
{
    reveal_strlit("success");
    reveal_strlit("error");
    assert("success"@.len() != "error"@.len());
}

/// Every request that is decided on leaves one entry in the audit trail, behind those that were
/// there, with who asked, for what, of which tenant, when, and how it came out: unless it could not
/// be kept, and then everything is as it was.
pub proof fn lemma_tenant_request_is_audited<
    P: FnOnce(&ManagedControlPlaneState) -> Result<(), String>,
>(
    before: PlaneView,
    after: PlaneView,
    actor: ActorView,
    operation: Seq<char>,
    id: Seq<char>,
    decision: Result<TenantView, Seq<char>>,
    now: u64,
    persist: P,
    done: Result<ManagedTenant, ManagedControlPlaneMutationError>,
)
    requires
        plane::tenant_changed(
            before,
            after,
            done,
            persist,
            plane::tenant_candidate(before.state, actor, operation, id, decision, now),
            decision,
        ),
    ensures
        done matches Err(ManagedControlPlaneMutationError::Persistence(_)) ==> after == before,
        !(done matches Err(ManagedControlPlaneMutationError::Persistence(_))) ==> {
            let trail = after.state.audit_entries;
            let n = before.state.audit_entries.len();
            &&& trail.len() == n + 1
            &&& forall|i: int| 0 <= i < n ==> #[trigger] trail[i] == before.state.audit_entries[i]
            &&& trail[n as int].unix_ms == now
            &&& trail[n as int].actor_id == actor.id
            &&& trail[n as int].actor_scope == actor.scope
            &&& trail[n as int].operation == operation
            &&& trail[n as int].target_kind == "tenant"@
            &&& trail[n as int].target_id == id
            &&& before.state.last_audit_seq < u64::MAX ==> trail[n as int].seq
                == before.state.last_audit_seq + 1
            &&& after.state.last_audit_seq == trail[n as int].seq
            &&& after.state.updated_unix_ms == now
            &&& done is Ok <==> trail[n as int].outcome == "success"@
            &&& done is Ok ==> trail[n as int].detail is None
            &&& done matches Err(ManagedControlPlaneMutationError::Rejected(message)) ==> {
                &&& trail[n as int].outcome == "error"@
                &&& trail[n as int].detail == Some(message@)
                &&& after.state.deployments == before.state.deployments
                &&& after.state.tenants == before.state.tenants
            }
        },
{
    reveal_strlit("success");
    reveal_strlit("error");
    assert("success"@.len() != "error"@.len());
}

} // verus!
