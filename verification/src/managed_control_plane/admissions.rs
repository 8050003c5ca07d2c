//! Which requests of a tenant are let through, what the audit trail answers, and what the status
//! counts, in terms of what was asked and what is held.

use vstd::prelude::*;

use crate::budget::QueryBudgetError;
use crate::managed_control_plane::fields;
use crate::managed_control_plane::plane;
use crate::managed_control_plane::plane::PlaneView;
use crate::managed_control_plane::requests;
use crate::managed_control_plane::state::StateView;
use crate::managed_control_plane::status;
use crate::managed_control_plane::status::ManagedControlPlaneStatusProjection;
use crate::managed_control_plane::tenant_policy;
use crate::managed_control_plane::tenant_policy::ManagedTenantIngestWindowEntry;
use crate::managed_control_plane::tenant_policy::RuntimeView;
use crate::managed_control_plane::tenant_policy::TenantAdmissionSurface;
use crate::managed_control_plane::types::AuditEntryView;
use crate::managed_control_plane::types::AuditFilterView;
use crate::managed_control_plane::types::DeploymentView;
use crate::managed_control_plane::types::TenantLifecycleState;
use crate::managed_control_plane::types::TenantView;
use crate::ordered;
use crate::sizes;
use crate::text;

verus! {

/// Whether an entry is a second old or older; at the end of the clock, whether it is of the last
/// second too.
pub open spec fn second_old(entry: ManagedTenantIngestWindowEntry, now: u64) -> bool {
    now - entry.unix_ms >= 1000 || now == u64::MAX && entry.unix_ms > u64::MAX - 1000
}

/// Whether a window is another without the entries at its front that are a second old, of which
/// there are so many.
pub open spec fn drops_front(
    kept: Seq<ManagedTenantIngestWindowEntry>,
    window: Seq<ManagedTenantIngestWindowEntry>,
    now: u64,
    n: int,
) -> bool {
    &&& 0 <= n <= window.len()
    &&& kept == window.skip(n)
    &&& forall|i: int| 0 <= i < n ==> second_old(#[trigger] window[i], now)
    &&& n < window.len() ==> !second_old(window[n], now)
}

/// The units of the first entries of a window.
pub open spec fn units_sum(window: Seq<ManagedTenantIngestWindowEntry>, n: int) -> nat
    decreases n,
{
    if n <= 0 {
        0
    } else {
        units_sum(window, n - 1) + window[n - 1].units as nat
    }
}

/// Whether entries came one after the other and none is ahead of the time.
pub open spec fn in_time_order(window: Seq<ManagedTenantIngestWindowEntry>) -> bool {
    forall|i: int, j: int| 0 <= i < j < window.len() ==> window[i].unix_ms <= window[j].unix_ms
}

proof fn lemma_front_dropped(window: Seq<ManagedTenantIngestWindowEntry>, now: u64) -> (n: int)
    ensures
        drops_front(tenant_policy::trimmed_window(window, now), window, now, n),
    decreases window.len(),
{
    if window.len() > 0 && tenant_policy::is_past(window[0], now) {
        let rest = window.subrange(1, window.len() as int);
        let n = lemma_front_dropped(rest, now);
        assert(rest.skip(n) =~= window.skip(n + 1));
        assert forall|i: int| 0 <= i < n + 1 implies second_old(#[trigger] window[i], now) by {
            if i > 0 {
                assert(rest[i - 1] == window[i]);
            }
        }
        if n + 1 < window.len() {
            assert(rest[n] == window[n + 1]);
        }
        n + 1
    } else {
        assert(window.skip(0) =~= window);
        0
    }
}

proof fn lemma_units_summed(window: Seq<ManagedTenantIngestWindowEntry>, n: int)
    requires
        0 <= n <= window.len(),
    ensures
        sizes::total(tenant_policy::window_units(window).subrange(0, n)) == units_sum(window, n),
    decreases n,
{
    let units = tenant_policy::window_units(window);
    if n > 0 {
        lemma_units_summed(window, n - 1);
        sizes::lemma_total_step(units, n - 1);
    } else {
        assert(units.subrange(0, 0) =~= Seq::empty());
    }
}

/// In a window whose entries came one after the other, the entries that are kept are exactly those
/// that are less than a second old.
pub proof fn lemma_window_keeps_last_second(
    window: Seq<ManagedTenantIngestWindowEntry>,
    now: u64,
    i: int,
) -> (n: int)
    requires
        in_time_order(window),
        0 <= i < window.len(),
        now < u64::MAX,
    ensures
        tenant_policy::trimmed_window(window, now) == window.skip(n),
        0 <= n <= window.len(),
        i >= n <==> now - window[i].unix_ms < 1000,
{
    let n = lemma_front_dropped(window, now);
    if i >= n {
        assert(!second_old(window[n], now));
        if i > n {
            assert(window[n].unix_ms <= window[i].unix_ms);
        }
    } else {
        assert(second_old(window[i], now));
    }
    n
}

/// An ingest request of an active tenant is let through exactly where the tenant stores less than
/// its limit, if it has one, and the units of the last second with those of the request do not
/// exceed its rate, if it has one. What is let through under a rate is counted from then on at the
/// time of the request; nothing else about the tenant's requests changes, but that what is a second
/// old is forgotten.
pub proof fn lemma_ingest_let_through(
    tenant: TenantView,
    runtime: RuntimeView,
    requested: u64,
    stored: Option<u64>,
    now: u64,
) -> (recent: Seq<ManagedTenantIngestWindowEntry>)
    requires
        tenant.lifecycle == TenantLifecycleState::Active,
    ensures
        exists|n: int| #[trigger] drops_front(recent, runtime.recent_ingest_units, now, n),
        ({
            let came = tenant_policy::admission(
                tenant,
                runtime,
                TenantAdmissionSurface::Ingest,
                requested,
                stored,
                now,
            );
            let held: u64 = if stored is Some {
                stored->0
            } else {
                0
            };
            let stores_less = tenant.storage_limit_bytes matches Some(limit) ==> held < limit;
            let sum = units_sum(recent, recent.len() as int) + requested;
            let keeps_rate = tenant.ingest_rate_limit_per_sec matches Some(limit) ==> sum <= limit
                || limit == u64::MAX;
            &&& came.outcome is Ok <==> stores_less && keeps_rate
            &&& came.outcome matches Ok(units) ==> units is None
            &&& came.runtime.active_query_units == runtime.active_query_units
            &&& came.outcome is Ok && tenant.ingest_rate_limit_per_sec is Some && requested > 0
                ==> came.runtime.recent_ingest_units == recent.push(
                ManagedTenantIngestWindowEntry { unix_ms: now, units: requested },
            )
            &&& came.outcome is Ok && tenant.ingest_rate_limit_per_sec is Some && requested == 0
                ==> came.runtime.recent_ingest_units == recent
            &&& stores_less && !keeps_rate ==> came.runtime.recent_ingest_units == recent
            &&& tenant.ingest_rate_limit_per_sec is None || !stores_less ==> came.runtime
                == runtime
            &&& came.outcome matches Err(refusal) ==> (if !stores_less {
                &&& refusal.status == 413
                &&& refusal.code == "tenant_managed_storage_limit_exceeded"@
                &&& refusal.message == "tenant '"@ + tenant.id
                    + "' exceeded managed storage limit: "@ + text::decimal(held as nat) + " >= "@
                    + text::decimal(tenant.storage_limit_bytes->0 as nat)
            } else {
                &&& refusal.status == 429
                &&& refusal.code == "tenant_managed_ingest_rate_limit_exceeded"@
                &&& sum <= u64::MAX ==> refusal.message == "tenant '"@ + tenant.id
                    + "' exceeded managed ingest rate limit: "@ + text::decimal(sum as nat)
                    + " > "@ + text::decimal(tenant.ingest_rate_limit_per_sec->0 as nat)
                    + " rows/sec"@
            })
        }),
{
    let recent = tenant_policy::trimmed_window(runtime.recent_ingest_units, now);
    let n = lemma_front_dropped(runtime.recent_ingest_units, now);
    let units = tenant_policy::window_units(recent);
    lemma_units_summed(recent, recent.len() as int);
    assert(units.subrange(0, recent.len() as int) =~= units);
    recent
}

/// A query of an active tenant is let through exactly where the tenant has no limit on what runs at
/// a time, or where what runs with what the query asks for, one at least, is within it. It then
/// holds what it asked for until it gives it back; without a limit nothing is held or counted.
pub proof fn lemma_query_let_through(
    tenant: TenantView,
    runtime: RuntimeView,
    requested: u64,
    stored: Option<u64>,
    now: u64,
)
    requires
        tenant.lifecycle == TenantLifecycleState::Active,
    ensures
        ({
            let came = tenant_policy::admission(
                tenant,
                runtime,
                TenantAdmissionSurface::Query,
                requested,
                stored,
                now,
            );
            let asked: int = if requested == 0 {
                1
            } else {
                requested as int
            };
            let sum = runtime.active_query_units + asked;
            &&& came.outcome is Ok <==> (tenant.query_concurrency_limit matches Some(limit) ==> sum
                <= limit)
            &&& came.runtime.recent_ingest_units == runtime.recent_ingest_units
            &&& tenant.query_concurrency_limit is None ==> came.runtime == runtime
                && came.outcome == Ok::<Option<u64>, tenant_policy::TenantRequestErrorView>(None)
            &&& tenant.query_concurrency_limit is Some && came.outcome is Ok ==> {
                &&& came.runtime.active_query_units == sum
                &&& came.outcome matches Ok(Some(held)) && held == asked
                &&& tenant_policy::released(came.runtime, came.outcome->Ok_0) == runtime
            }
            &&& came.outcome matches Err(refusal) ==> {
                &&& came.runtime == runtime
                &&& refusal.status == 429
                &&& refusal.code == "tenant_managed_query_concurrency_limit_exceeded"@
                &&& sum <= u64::MAX ==> refusal.message == "tenant '"@ + tenant.id
                    + "' exceeded managed query concurrency limit: "@ + text::decimal(sum as nat)
                    + " > "@ + text::decimal(tenant.query_concurrency_limit->0 as nat)
            }
        }),
{
}

/// Requests for metadata and retention of an active tenant are let through and leave no trace.
pub proof fn lemma_other_requests_let_through(
    tenant: TenantView,
    runtime: RuntimeView,
    surface: TenantAdmissionSurface,
    requested: u64,
    stored: Option<u64>,
    now: u64,
)
    requires
        tenant.lifecycle == TenantLifecycleState::Active,
        surface is Metadata || surface is Retention,
    ensures
        ({
            let came = tenant_policy::admission(tenant, runtime, surface, requested, stored, now);
            came.runtime == runtime && came.outcome is Ok && came.outcome->Ok_0 is None
        }),
{
}

/// No request of a tenant that is not active is let through; the answer names its stage.
pub proof fn lemma_inactive_tenant_turned_away(
    tenant: TenantView,
    runtime: RuntimeView,
    surface: TenantAdmissionSurface,
    requested: u64,
    stored: Option<u64>,
    now: u64,
)
    requires
        tenant.lifecycle != TenantLifecycleState::Active,
    ensures
        ({
            let came = tenant_policy::admission(tenant, runtime, surface, requested, stored, now);
            let stage = match tenant.lifecycle {
                TenantLifecycleState::Provisioning => "provisioning"@,
                TenantLifecycleState::Suspended => "suspended"@,
                TenantLifecycleState::Deleting => "deleting"@,
                _ => "deleted"@,
            };
            &&& came.runtime == runtime
            &&& came.outcome matches Err(refusal) && refusal.status == 403 && refusal.code
                == "tenant_managed_lifecycle_blocked"@ && refusal.message == "tenant '"@
                + tenant.id + "' is "@ + stage + " and not accepting data-plane traffic"@
        }),
{
}

/// Whether an entry of the audit trail has what a field of a filter asks for: nothing where the
/// field is not given or blank, else the given text without the white space around it.
pub open spec fn has_asked(asked: Option<Seq<char>>, found: Seq<char>) -> bool {
    asked matches Some(given) ==> requests::blank(given) || requests::inner_of(found, given)
}

/// Whether an entry of the audit trail is one that a filter asks for.
pub open spec fn audit_asked(filter: AuditFilterView, entry: AuditEntryView) -> bool {
    &&& has_asked(filter.target_kind, entry.target_kind)
    &&& has_asked(filter.target_id, entry.target_id)
    &&& has_asked(filter.operation, entry.operation)
}

proof fn lemma_field_asked(asked: Option<Seq<char>>, found: Seq<char>)
    ensures
        has_asked(asked, found) <==> (fields::optional_field(asked) matches Some(inner) ==> found
            == inner),
{
    match asked {
        Some(given) => requests::lemma_trimming_keeps_inner_text(given),
        None => {},
    }
}

proof fn lemma_latest_are_first_reversed(
    entries: Seq<AuditEntryView>,
    filter: AuditFilterView,
    room: nat,
)
    ensures
        ({
            let all = entries.filter(|entry: AuditEntryView| audit_asked(filter, entry)).reverse();
            plane::latest(entries, filter.normalized(), room) == if room < all.len() {
                all.take(room as int)
            } else {
                all
            }
        }),
    decreases entries.len(),
{
    let keep = |entry: AuditEntryView| audit_asked(filter, entry);
    let all = entries.filter(keep).reverse();
    let found = plane::latest(entries, filter.normalized(), room);
    reveal(Seq::filter);
    if entries.len() == 0 {
        assert(all =~= Seq::empty());
    } else {
        let last = entries.last();
        let rest = entries.drop_last();
        let fewer = rest.filter(keep).reverse();
        lemma_field_asked(filter.target_kind, last.target_kind);
        lemma_field_asked(filter.target_id, last.target_id);
        lemma_field_asked(filter.operation, last.operation);
        assert(keep(last) == filter.normalized().takes(last));
        if keep(last) {
            assert(all =~= seq![last] + fewer);
            if room > 0 {
                lemma_latest_are_first_reversed(rest, filter, (room - 1) as nat);
                if room < all.len() {
                    assert(all.take(room as int) =~= seq![last] + fewer.take(room - 1));
                }
            } else {
                assert(all.take(0) =~= Seq::empty());
            }
        } else {
            assert(all =~= fewer);
            if room > 0 {
                lemma_latest_are_first_reversed(rest, filter, room);
            } else if all.len() > 0 {
                assert(all.take(0) =~= Seq::empty());
            }
        }
    }
}

/// The audit trail answers with the entries that the filter asks for, the latest first, as many as
/// the filter's limit, a hundred where the limit is zero.
pub proof fn lemma_audit_answers_latest_first(entries: Seq<AuditEntryView>, filter: AuditFilterView)
    ensures
        ({
            let all = entries.filter(|entry: AuditEntryView| audit_asked(filter, entry)).reverse();
            let most: int = if filter.limit == 0 {
                100
            } else {
                filter.limit as int
            };
            plane::audit_answer(entries, filter) == if most < all.len() {
                all.take(most)
            } else {
                all
            }
        }),
{
    lemma_latest_are_first_reversed(entries, filter, filter.normalized().limit as nat);
}

/// The keys of a map under which stands something with a property.
pub open spec fn keys_where<T>(map: Map<Seq<char>, T>, property: spec_fn(T) -> bool) -> Set<
    Seq<char>,
> {
    Set::new(|key: Seq<char>| map.contains_key(key) && property(map[key]))
}

spec fn first_keys_where<T>(
    listed: Seq<(Seq<char>, T)>,
    n: int,
    property: spec_fn(T) -> bool,
) -> Set<Seq<char>> {
    Set::new(
        |key: Seq<char>|
            exists|i: int| 0 <= i < n && (#[trigger] listed[i]).0 == key && property(listed[i].1),
    )
}

proof fn lemma_first_counted<T>(
    listed: Seq<(Seq<char>, T)>,
    n: int,
    property: spec_fn(T) -> bool,
)
    requires
        ordered::sorted_keys::<String, T>(listed),
        0 <= n <= listed.len(),
    ensures
        first_keys_where(listed, n, property).finite(),
        first_keys_where(listed, n, property).len() == status::count_where(
            Seq::new(listed.len(), |i: int| listed[i].1).take(n),
            property,
        ),
    decreases n,
{
    let values = Seq::new(listed.len(), |i: int| listed[i].1);
    let keys = first_keys_where(listed, n, property);
    if n == 0 {
        assert(keys =~= Set::empty());
        assert(values.take(0) =~= Seq::empty());
    } else {
        let fewer = first_keys_where(listed, n - 1, property);
        let own = listed[n - 1].0;
        lemma_first_counted(listed, n - 1, property);
        assert(values.take(n).drop_last() =~= values.take(n - 1));
        assert(values.take(n).last() == listed[n - 1].1);
        assert(!fewer.contains(own)) by {
            if fewer.contains(own) {
                let i = choose|i: int|
                    0 <= i < n - 1 && (#[trigger] listed[i]).0 == own && property(listed[i].1);
                ordered::lemma_key_stands_once::<String, T>(listed, i, n - 1);
            }
        }
        if property(listed[n - 1].1) {
            assert forall|key: Seq<char>| keys.contains(key) <==> fewer.insert(own).contains(key) by {
                if keys.contains(key) && key != own {
                    let i = choose|i: int|
                        0 <= i < n && (#[trigger] listed[i]).0 == key && property(listed[i].1);
                    assert(i < n - 1);
                }
                if fewer.contains(key) {
                    let i = choose|i: int|
                        0 <= i < n - 1 && (#[trigger] listed[i]).0 == key && property(listed[i].1);
                    assert(i < n);
                }
            }
            assert(keys =~= fewer.insert(own));
        } else {
            assert forall|key: Seq<char>| keys.contains(key) <==> fewer.contains(key) by {
                if keys.contains(key) {
                    let i = choose|i: int|
                        0 <= i < n && (#[trigger] listed[i]).0 == key && property(listed[i].1);
                    assert(i < n - 1);
                }
                if fewer.contains(key) {
                    let i = choose|i: int|
                        0 <= i < n - 1 && (#[trigger] listed[i]).0 == key && property(listed[i].1);
                    assert(i < n);
                }
            }
            assert(keys =~= fewer);
        }
    }
}

proof fn lemma_counted<T>(map: Map<Seq<char>, T>, property: spec_fn(T) -> bool)
    requires
        ordered::listable::<String, T>(map),
    ensures
        keys_where(map, property).finite(),
        status::count_where(status::values_listed(map), property) == keys_where(
            map,
            property,
        ).len(),
        status::values_listed(map).len() == map.dom().len(),
        map.dom().finite(),
{
    let listed = ordered::listing::<String, T>(map);
    let values = status::values_listed(map);
    ordered::lemma_listing_len::<String, T>(map);
    ordered::lemma_listable::<String, T>(map);
    lemma_first_counted(listed, listed.len() as int, property);
    assert(values =~= Seq::new(listed.len(), |i: int| listed[i].1));
    assert(values.take(listed.len() as int) =~= values);
    let keys = first_keys_where(listed, listed.len() as int, property);
    assert forall|key: Seq<char>| keys.contains(key) <==> keys_where(map, property).contains(key) by {
        if keys.contains(key) {
            let i = choose|i: int|
                0 <= i < listed.len() && (#[trigger] listed[i]).0 == key && property(listed[i].1);
            ordered::lemma_keyed_map_at::<String, T>(listed, i);
        }
        if keys_where(map, property).contains(key) {
            let at = choose|i: int| ordered::key_stands::<String, T>(listed, key, i);
            ordered::lemma_keyed_map_at::<String, T>(listed, at);
            assert(listed[at].0 == key);
        }
    }
    assert(keys =~= keys_where(map, property));
}

/// Whether a number tells how many there are, as far as it goes.
pub open spec fn tells(number: u64, count: nat) -> bool {
    number == count || count > u64::MAX && number == u64::MAX
}

/// The status counts the deployments and tenants that are held, the tenants that are active, the
/// deployments in maintenance, those with an upgrade that is pending, under way or paused, those
/// with backups on, and the entries of the audit trail.
pub proof fn lemma_status_counts_what_is_held(state: StateView, path: Option<Seq<char>>)
    requires
        ordered::listable::<String, DeploymentView>(state.deployments),
        ordered::listable::<String, TenantView>(state.tenants),
    ensures
        ({
            let shown = status::status_of(state, path);
            &&& shown.durable <==> path is Some
            &&& shown.state_path == path
            &&& shown.updated_unix_ms == state.updated_unix_ms
            &&& tells(shown.deployments_total, state.deployments.dom().len())
            &&& tells(shown.tenants_total, state.tenants.dom().len())
            &&& tells(shown.audit_records_total, state.audit_entries.len())
            &&& tells(
                shown.active_tenants_total,
                keys_where(
                    state.tenants,
                    |tenant: TenantView| tenant.lifecycle is Active,
                ).len(),
            )
            &&& tells(
                shown.maintenance_active_total,
                keys_where(
                    state.deployments,
                    |deployment: DeploymentView| deployment.maintenance.active,
                ).len(),
            )
            &&& tells(
                shown.upgrade_rollouts_in_progress_total,
                keys_where(
                    state.deployments,
                    |deployment: DeploymentView|
                        deployment.upgrade.state is Pending || deployment.upgrade.state
                            is InProgress || deployment.upgrade.state is Paused,
                ).len(),
            )
            &&& tells(
                shown.backup_policies_total,
                keys_where(
                    state.deployments,
                    |deployment: DeploymentView| deployment.backup_policy.enabled,
                ).len(),
            )
        }),
{
    lemma_counted(state.tenants, status::is_active());
    lemma_counted(state.deployments, status::in_maintenance());
    lemma_counted(state.deployments, status::in_rollout());
    lemma_counted(state.deployments, status::is_backed_up());
    assert(keys_where(state.tenants, |tenant: TenantView| tenant.lifecycle is Active) =~= keys_where(
        state.tenants,
        status::is_active(),
    ));
    assert(keys_where(
        state.deployments,
        |deployment: DeploymentView| deployment.maintenance.active,
    ) =~= keys_where(state.deployments, status::in_maintenance()));
    assert(keys_where(
        state.deployments,
        |deployment: DeploymentView|
            deployment.upgrade.state is Pending || deployment.upgrade.state is InProgress
                || deployment.upgrade.state is Paused,
    ) =~= keys_where(state.deployments, status::in_rollout()));
    assert(keys_where(
        state.deployments,
        |deployment: DeploymentView| deployment.backup_policy.enabled,
    ) =~= keys_where(state.deployments, status::is_backed_up()));
}

/// There is one summary of each deployment. It shows the deployment's own settings, how many tenants
/// are on it and how many of these are active.
pub proof fn lemma_summaries_show_deployments(state: StateView, key: Seq<char>) -> (at: int)
    requires
        ordered::listable::<String, DeploymentView>(state.deployments),
        ordered::listable::<String, TenantView>(state.tenants),
        state.deployments.contains_key(key),
    ensures
        status::summaries_of(state).len() == state.deployments.dom().len(),
        0 <= at < status::summaries_of(state).len(),
        ({
            let shown = status::summaries_of(state)[at];
            let held = state.deployments[key];
            &&& shown.id == held.id
            &&& shown.region == held.region
            &&& shown.plan == held.plan
            &&& shown.lifecycle == held.lifecycle
            &&& shown.backup_enabled == held.backup_policy.enabled
            &&& shown.maintenance_active == held.maintenance.active
            &&& shown.upgrade_state == held.upgrade.state
            &&& shown.desired_version == held.upgrade.desired_version
            &&& shown.observed_version == held.upgrade.observed_version
            &&& tells(
                shown.tenant_count,
                keys_where(
                    state.tenants,
                    |tenant: TenantView| tenant.deployment_id == held.id,
                ).len(),
            )
            &&& tells(
                shown.active_tenant_count,
                keys_where(
                    state.tenants,
                    |tenant: TenantView|
                        tenant.deployment_id == held.id && tenant.lifecycle is Active,
                ).len(),
            )
        }),
{
    let listed = ordered::listing::<String, DeploymentView>(state.deployments);
    let held = state.deployments[key];
    ordered::lemma_listing_len::<String, DeploymentView>(state.deployments);
    ordered::lemma_listable::<String, DeploymentView>(state.deployments);
    let at = choose|i: int| ordered::key_stands::<String, DeploymentView>(listed, key, i);
    ordered::lemma_keyed_map_at::<String, DeploymentView>(listed, at);
    lemma_counted(state.tenants, status::is_on(held.id));
    lemma_counted(state.tenants, status::is_active_on(held.id));
    assert(keys_where(state.tenants, |tenant: TenantView| tenant.deployment_id == held.id)
        =~= keys_where(state.tenants, status::is_on(held.id)));
    assert(keys_where(
        state.tenants,
        |tenant: TenantView| tenant.deployment_id == held.id && tenant.lifecycle is Active,
    ) =~= keys_where(state.tenants, status::is_active_on(held.id)));
    at
}

/// What is counted of a tenant's requests is counted apart from the others: of a tenant with no
/// request yet, nothing; once something is counted, that, and of every other tenant what it was.
pub proof fn lemma_tenants_counted_apart(
    before: PlaneView,
    tenant_id: Seq<char>,
    runtime: RuntimeView,
    other: Seq<char>,
)
    ensures
        ({
            let after = before.with_runtime(tenant_id, runtime);
            &&& after.state == before.state
            &&& after.state_path == before.state_path
            &&& after.runtime_of(tenant_id) == runtime
            &&& other != tenant_id ==> after.runtime_of(other) == before.runtime_of(other)
            &&& !before.runtimes.contains_key(other) ==> before.runtime_of(
                other,
            ).active_query_units == 0 && before.runtime_of(other).recent_ingest_units.len() == 0
        }),
{
}

/// What is shown to a tenant is the status, the summary of every deployment, and the tenant itself
/// if it is held; the budget was asked for the most that this takes and for what it holds.
pub proof fn lemma_projection_shows_tenant<
    C: Fn() -> Result<(), QueryBudgetError>,
    R: FnOnce(u64) -> Result<(), QueryBudgetError>,
    S: FnOnce(u64) -> Result<(), QueryBudgetError>,
>(
    state: StateView,
    path: Option<Seq<char>>,
    tenant_id: Seq<char>,
    checkpoint: C,
    reserve: R,
    resize: S,
    held: u64,
    projection: ManagedControlPlaneStatusProjection,
    charged: u64,
)
    requires
        status::projected_as(
            state,
            path,
            tenant_id,
            checkpoint,
            reserve,
            resize,
            held,
            Ok((projection, charged)),
        ),
    ensures
        projection.current_tenant is Some <==> state.tenants.contains_key(tenant_id),
        projection.current_tenant matches Some(tenant) ==> tenant@ == state.tenants[tenant_id],
        projection.status@ == status::status_of(state, path),
        status::summary_views(projection.deployments@) == status::summaries_of(state),
        charged == held,
        exists|outcome: Result<(), QueryBudgetError>| #[trigger]
            call_ensures(resize, (held,), outcome) && outcome is Ok,
{
}

} // verus!
