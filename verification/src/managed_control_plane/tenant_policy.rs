//! The admission of tenant traffic: what a tenant's stage of life and its limits let through.

use vstd::prelude::*;

use crate::managed_control_plane::types::ManagedTenant;
use crate::managed_control_plane::types::TenantLifecycleState;
use crate::managed_control_plane::types::TenantView;
use crate::sizes;
use crate::text;

verus! {

/// How long an admitted ingest request counts against the rate limit.
pub const MANAGED_TENANT_INGEST_WINDOW_MS: u64 = 1_000;

/// What a request of a tenant is for.
#[derive(Debug, Clone, Copy, PartialEq, Eq, Structural)]
pub enum TenantAdmissionSurface {
    Ingest,
    Query,
    Metadata,
    Retention,
}

/// A request of a tenant that was turned away: the status of the answer, its stable code and its
/// message.
#[derive(Debug, PartialEq, Eq)]
pub struct TenantRequestError {
    pub status: u16,
    pub code: &'static str,
    pub message: String,
}

/// What a refusal says.
#[verifier::ext_equal]
pub struct TenantRequestErrorView {
    pub status: u16,
    pub code: Seq<char>,
    pub message: Seq<char>,
}

impl View for TenantRequestError {
    type V = TenantRequestErrorView;

    open spec fn view(&self) -> TenantRequestErrorView {
        TenantRequestErrorView { status: self.status, code: self.code@, message: self.message@ }
    }
}

/// An ingest request that was let through: when, and how many rows it brought.
#[derive(Debug, Clone, Copy, PartialEq, Eq, Structural)]
pub struct ManagedTenantIngestWindowEntry {
    pub unix_ms: u64,
    pub units: u64,
}

/// The units of a list of ingest requests.
pub open spec fn window_units(window: Seq<ManagedTenantIngestWindowEntry>) -> Seq<nat> {
    Seq::new(window.len(), |i: int| window[i].units as nat)
}

/// The rows that a list of ingest requests brought.
pub open spec fn window_total(window: Seq<ManagedTenantIngestWindowEntry>) -> nat {
    sizes::total(window_units(window))
}

/// Whether a request no longer counts.
pub open spec fn is_past(entry: ManagedTenantIngestWindowEntry, now: u64) -> bool {
    sizes::sat64(entry.unix_ms + MANAGED_TENANT_INGEST_WINDOW_MS) <= now
}

/// The requests that still count: from the first that is not past on.
pub open spec fn trimmed_window(
    window: Seq<ManagedTenantIngestWindowEntry>,
    now: u64,
) -> Seq<ManagedTenantIngestWindowEntry>
    decreases window.len(),
{
    if window.len() > 0 && is_past(window[0], now) {
        trimmed_window(window.subrange(1, window.len() as int), now)
    } else {
        window
    }
}

/// What is being done for a tenant: the query units in use, and the recent ingest requests.
#[derive(Debug, PartialEq, Eq)]
pub struct ManagedTenantRequestRuntime {
    active_query_units: u64,
    recent_ingest_units: Vec<ManagedTenantIngestWindowEntry>,
}

/// What a runtime says.
#[verifier::ext_equal]
pub struct RuntimeView {
    pub active_query_units: u64,
    pub recent_ingest_units: Seq<ManagedTenantIngestWindowEntry>,
}

impl View for ManagedTenantRequestRuntime {
    type V = RuntimeView;

    closed spec fn view(&self) -> RuntimeView {
        RuntimeView {
            active_query_units: self.active_query_units,
            recent_ingest_units: self.recent_ingest_units@,
        }
    }
}

impl RuntimeView {
    /// Nothing is being done.
    pub open spec fn idle() -> Self {
        RuntimeView { active_query_units: 0, recent_ingest_units: Seq::empty() }
    }
}

proof fn lemma_window_tail(window: Seq<ManagedTenantIngestWindowEntry>, i: int)
    requires
        0 <= i <= window.len(),
    ensures
        window_total(window) == window_total(window.subrange(0, i)) + window_total(
            window.subrange(i, window.len() as int),
        ),
    decreases window.len(),
{
    let head = window.subrange(0, i);
    let tail = window.subrange(i, window.len() as int);
    if i == window.len() {
        assert(head =~= window);
        assert(window_units(tail) =~= Seq::<nat>::empty());
    } else {
        let shorter = window.drop_last();
        lemma_window_tail(shorter, i);
        assert(shorter.subrange(0, i) =~= head);
        assert(shorter.subrange(i, shorter.len() as int) =~= tail.drop_last());
        assert(window_units(window).drop_last() =~= window_units(shorter));
        assert(window_units(tail).drop_last() =~= window_units(tail.drop_last()));
    }
}

proof fn lemma_trimmed_from(
    window: Seq<ManagedTenantIngestWindowEntry>,
    now: u64,
    i: int,
)
    requires
        0 <= i <= window.len(),
        forall|k: int| 0 <= k < i ==> is_past(#[trigger] window[k], now),
        i < window.len() ==> !is_past(window[i], now),
    ensures
        trimmed_window(window, now) == window.subrange(i, window.len() as int),
    decreases i,
{
    if i == 0 {
        assert(window.subrange(0, window.len() as int) =~= window);
    } else {
        let rest = window.subrange(1, window.len() as int);
        assert(is_past(window[0], now));
        assert forall|k: int| 0 <= k < i - 1 implies is_past(#[trigger] rest[k], now) by {
            assert(rest[k] == window[k + 1]);
        }
        lemma_trimmed_from(rest, now, i - 1);
        assert(rest.subrange(i - 1, rest.len() as int) =~= window.subrange(
            i,
            window.len() as int,
        ));
    }
}

/// Forgetting requests that are past never makes the rest count more.
pub proof fn lemma_trimmed_total(window: Seq<ManagedTenantIngestWindowEntry>, now: u64)
    ensures
        window_total(trimmed_window(window, now)) <= window_total(window),
    decreases window.len(),
{
    if window.len() > 0 && is_past(window[0], now) {
        lemma_trimmed_total(window.subrange(1, window.len() as int), now);
        lemma_window_tail(window, 1);
    }
}

/// Forgets the requests that no longer count.
fn trim_managed_ingest_window(
    recent: &mut Vec<ManagedTenantIngestWindowEntry>,
    now_unix_ms: u64,
)
    ensures
        final(recent)@ == trimmed_window(old(recent)@, now_unix_ms),
{
    let ghost window = recent@;
    let mut start: usize = 0;
    while start < recent.len() && recent[start].unix_ms.saturating_add(
        MANAGED_TENANT_INGEST_WINDOW_MS,
    ) <= now_unix_ms
        invariant
            start <= recent.len(),
            recent@ == window,
            forall|k: int| 0 <= k < start ==> is_past(#[trigger] window[k], now_unix_ms),
        ensures
            start <= recent.len(),
            recent@ == window,
            forall|k: int| 0 <= k < start ==> is_past(#[trigger] window[k], now_unix_ms),
            start < recent.len() ==> !is_past(window[start as int], now_unix_ms),
        decreases recent.len() - start,
    {
        start = start + 1;
    }
    proof {
        lemma_trimmed_from(window, now_unix_ms, start as int);
    }
    let mut kept: Vec<ManagedTenantIngestWindowEntry> = Vec::new();
    let mut i: usize = start;
    while i < recent.len()
        invariant
            start <= i <= recent.len(),
            recent@ == window,
            kept@ == window.subrange(start as int, i as int),
        decreases recent.len() - i,
    {
        kept.push(recent[i]);
        proof {
            assert(kept@ =~= window.subrange(start as int, i as int + 1));
        }
        i = i + 1;
    }
    *recent = kept;
}

/// Permission for a request that was let through. It is given back when the request is done.
#[derive(Debug, PartialEq, Eq)]
pub struct ManagedTenantRequestGuard {
    query_units: Option<u64>,
}

impl ManagedTenantRequestGuard {
    /// The query units that the request holds.
    pub closed spec fn held(&self) -> Option<u64> {
        self.query_units
    }
}

impl ManagedTenantRequestRuntime {
    /// A runtime in which nothing is being done.
    pub fn new() -> (runtime: Self)
        ensures
            runtime@ == RuntimeView::idle(),
    {
        ManagedTenantRequestRuntime { active_query_units: 0, recent_ingest_units: Vec::new() }
    }

    /// A runtime that says the same.
    pub fn duplicate(&self) -> (copy: Self)
        ensures
            copy@ == self@,
    {
        let mut recent: Vec<ManagedTenantIngestWindowEntry> = Vec::new();
        let mut i: usize = 0;
        while i < self.recent_ingest_units.len()
            invariant
                i <= self.recent_ingest_units.len(),
                recent@ == self.recent_ingest_units@.subrange(0, i as int),
            decreases self.recent_ingest_units.len() - i,
        {
            recent.push(self.recent_ingest_units[i]);
            proof {
                assert(recent@ =~= self.recent_ingest_units@.subrange(0, i as int + 1));
            }
            i = i + 1;
        }
        assert(recent@ =~= self.recent_ingest_units@);
        ManagedTenantRequestRuntime {
            active_query_units: self.active_query_units,
            recent_ingest_units: recent,
        }
    }

    /// Gives back what a request held.
    pub fn release(&mut self, guard: ManagedTenantRequestGuard)
        ensures
            final(self)@ == released(old(self)@, guard.held()),
    {
        match guard.query_units {
            Some(units) => {
                self.active_query_units = self.active_query_units.saturating_sub(units);
            },
            None => {},
        }
    }
}

/// A runtime once a request gave back what it held.
pub open spec fn released(runtime: RuntimeView, held: Option<u64>) -> RuntimeView {
    match held {
        Some(units) => RuntimeView {
            active_query_units: if runtime.active_query_units >= units {
                (runtime.active_query_units - units) as u64
            } else {
                0
            },
            ..runtime
        },
        None => runtime,
    }
}

/// How a stage of life is named in a refusal.
pub open spec fn stage_words(lifecycle: TenantLifecycleState) -> Seq<char> {
    match lifecycle {
        TenantLifecycleState::Active => "active"@,
        TenantLifecycleState::Provisioning => "provisioning"@,
        TenantLifecycleState::Suspended => "suspended"@,
        TenantLifecycleState::Deleting => "deleting"@,
        TenantLifecycleState::Deleted => "deleted"@,
    }
}

/// The refusal of a tenant that is not active.
pub open spec fn blocked(tenant: TenantView) -> TenantRequestErrorView {
    TenantRequestErrorView {
        status: 403,
        code: "tenant_managed_lifecycle_blocked"@,
        message: "tenant '"@ + tenant.id + "' is "@ + stage_words(tenant.lifecycle)
            + " and not accepting data-plane traffic"@,
    }
}

/// The refusal of a tenant that stores too much.
pub open spec fn storage_exceeded(tenant: TenantView, stored: u64, limit: u64) -> TenantRequestErrorView {
    TenantRequestErrorView {
        status: 413,
        code: "tenant_managed_storage_limit_exceeded"@,
        message: "tenant '"@ + tenant.id + "' exceeded managed storage limit: "@ + text::decimal(
            stored as nat,
        ) + " >= "@ + text::decimal(limit as nat),
    }
}

/// The refusal of a tenant that ingests too fast.
pub open spec fn ingest_exceeded(tenant: TenantView, units: u64, limit: u64) -> TenantRequestErrorView {
    TenantRequestErrorView {
        status: 429,
        code: "tenant_managed_ingest_rate_limit_exceeded"@,
        message: "tenant '"@ + tenant.id + "' exceeded managed ingest rate limit: "@
            + text::decimal(units as nat) + " > "@ + text::decimal(limit as nat) + " rows/sec"@,
    }
}

/// The refusal of a tenant that queries too much at a time.
pub open spec fn query_exceeded(tenant: TenantView, units: u64, limit: u64) -> TenantRequestErrorView {
    TenantRequestErrorView {
        status: 429,
        code: "tenant_managed_query_concurrency_limit_exceeded"@,
        message: "tenant '"@ + tenant.id + "' exceeded managed query concurrency limit: "@
            + text::decimal(units as nat) + " > "@ + text::decimal(limit as nat),
    }
}

/// What comes of a request: the units that it holds from then on and the runtime, or the refusal.
pub struct Admission {
    pub runtime: RuntimeView,
    pub outcome: Result<Option<u64>, TenantRequestErrorView>,
}

/// What comes of an ingest request.
pub open spec fn ingest_admission(
    tenant: TenantView,
    runtime: RuntimeView,
    requested: u64,
    stored: u64,
    now: u64,
) -> Admission {
    if tenant.storage_limit_bytes is Some && stored >= tenant.storage_limit_bytes->0 {
        Admission {
            runtime,
            outcome: Err(storage_exceeded(tenant, stored, tenant.storage_limit_bytes->0)),
        }
    } else {
        match tenant.ingest_rate_limit_per_sec {
            None => Admission { runtime, outcome: Ok(None) },
            Some(limit) => {
                let recent = trimmed_window(runtime.recent_ingest_units, now);
                let units = sizes::sat64((window_total(recent) + requested) as int);
                if units > limit {
                    Admission {
                        runtime: RuntimeView { recent_ingest_units: recent, ..runtime },
                        outcome: Err(ingest_exceeded(tenant, units, limit)),
                    }
                } else {
                    Admission {
                        runtime: RuntimeView {
                            recent_ingest_units: if requested > 0 {
                                recent.push(
                                    ManagedTenantIngestWindowEntry {
                                        unix_ms: now,
                                        units: requested,
                                    },
                                )
                            } else {
                                recent
                            },
                            ..runtime
                        },
                        outcome: Ok(None),
                    }
                }
            },
        }
    }
}

/// What comes of a query.
pub open spec fn query_admission(
    tenant: TenantView,
    runtime: RuntimeView,
    requested: u64,
) -> Admission {
    let asked = sizes::greatest(requested as int, 1) as u64;
    match tenant.query_concurrency_limit {
        None => Admission { runtime, outcome: Ok(None) },
        Some(limit) => {
            let units = sizes::sat64(runtime.active_query_units + asked);
            if units > limit {
                Admission { runtime, outcome: Err(query_exceeded(tenant, units, limit as u64)) }
            } else {
                Admission {
                    runtime: RuntimeView { active_query_units: units, ..runtime },
                    outcome: Ok(Some(asked)),
                }
            }
        },
    }
}

/// What comes of a request of a tenant. `stored` is what the tenant stores, as far as it is known.
pub open spec fn admission(
    tenant: TenantView,
    runtime: RuntimeView,
    surface: TenantAdmissionSurface,
    requested: u64,
    stored: Option<u64>,
    now: u64,
) -> Admission {
    if tenant.lifecycle != TenantLifecycleState::Active {
        Admission { runtime, outcome: Err(blocked(tenant)) }
    } else {
        match surface {
            TenantAdmissionSurface::Ingest => ingest_admission(
                tenant,
                runtime,
                requested,
                match stored {
                    Some(bytes) => bytes,
                    None => 0,
                },
                now,
            ),
            TenantAdmissionSurface::Query => query_admission(tenant, runtime, requested),
            _ => Admission { runtime, outcome: Ok(None) },
        }
    }
}

/// What the control plane lets a tenant do.
pub struct ManagedTenantRequestPolicy {
    tenant: ManagedTenant,
}

impl View for ManagedTenantRequestPolicy {
    type V = TenantView;

    closed spec fn view(&self) -> TenantView {
        self.tenant@
    }
}

/// The rows that a list of ingest requests brought, or the largest number where they are more.
fn total_units(window: &Vec<ManagedTenantIngestWindowEntry>) -> (sum: u64)
    ensures
        sum == sizes::sat64(window_total(window@) as int),
{
    let ghost units = window_units(window@);
    let mut sum: u64 = 0;
    let mut i: usize = 0;
    proof {
        assert(units.subrange(0, 0) =~= Seq::<nat>::empty());
    }
    while i < window.len()
        invariant
            i <= window.len(),
            units == window_units(window@),
            sum == sizes::sat64(sizes::total(units.subrange(0, i as int)) as int),
        decreases window.len() - i,
    {
        proof {
            sizes::lemma_total_step(units, i as int);
        }
        sum = sum.saturating_add(window[i].units);
        i = i + 1;
    }
    proof {
        assert(units.subrange(0, i as int) =~= units);
    }
    sum
}

impl ManagedTenantRequestPolicy {
    /// What is let through for a tenant.
    pub fn new(tenant: ManagedTenant) -> (policy: Self)
        ensures
            policy@ == tenant@,
    {
        ManagedTenantRequestPolicy { tenant }
    }

    /// Lets an active tenant through and no other.
    pub fn authorize(&self) -> (answer: Result<(), TenantRequestError>)
        ensures
            if self@.lifecycle == TenantLifecycleState::Active {
                answer is Ok
            } else {
                answer matches Err(error) && error@ == blocked(self@)
            },
    {
        let stage = match self.tenant.lifecycle {
            TenantLifecycleState::Active => {
                return Ok(());
            },
            TenantLifecycleState::Provisioning => "provisioning",
            TenantLifecycleState::Suspended => "suspended",
            TenantLifecycleState::Deleting => "deleting",
            TenantLifecycleState::Deleted => "deleted",
        };
        Err(
            TenantRequestError {
                status: 403,
                code: "tenant_managed_lifecycle_blocked",
                message: text::text5(
                    "tenant '",
                    self.tenant.id.as_str(),
                    "' is ",
                    stage,
                    " and not accepting data-plane traffic",
                ),
            },
        )
    }

    /// Lets a request of a tenant through, or turns it away. `stored_bytes` is what the tenant
    /// stores, as far as it is known.
    pub fn admit_request(
        &self,
        runtime: &mut ManagedTenantRequestRuntime,
        surface: TenantAdmissionSurface,
        requested_units: usize,
        stored_bytes: Option<u64>,
        now_unix_ms: u64,
    ) -> (admitted: Result<ManagedTenantRequestGuard, TenantRequestError>)
        ensures
            ({
                let expected = admission(
                    self@,
                    old(runtime)@,
                    surface,
                    requested_units as u64,
                    stored_bytes,
                    now_unix_ms,
                );
                &&& final(runtime)@ == expected.runtime
                &&& match expected.outcome {
                    Ok(held) => admitted matches Ok(guard) && guard.held() == held,
                    Err(refusal) => admitted matches Err(error) && error@ == refusal,
                }
            }),
    {
        match self.authorize() {
            Ok(()) => {},
            Err(error) => {
                return Err(error);
            },
        }
        match surface {
            TenantAdmissionSurface::Ingest => self.admit_ingest(
                runtime,
                requested_units as u64,
                stored_bytes,
                now_unix_ms,
            ),
            TenantAdmissionSurface::Query => self.admit_query(runtime, requested_units as u64),
            _ => Ok(ManagedTenantRequestGuard { query_units: None }),
        }
    }

    fn admit_ingest(
        &self,
        runtime: &mut ManagedTenantRequestRuntime,
        requested: u64,
        stored_bytes: Option<u64>,
        now_unix_ms: u64,
    ) -> (admitted: Result<ManagedTenantRequestGuard, TenantRequestError>)
        ensures
            ({
                let expected = ingest_admission(
                    self@,
                    old(runtime)@,
                    requested,
                    match stored_bytes {
                        Some(bytes) => bytes,
                        None => 0,
                    },
                    now_unix_ms,
                );
                &&& final(runtime)@ == expected.runtime
                &&& match expected.outcome {
                    Ok(held) => admitted matches Ok(guard) && guard.held() == held,
                    Err(refusal) => admitted matches Err(error) && error@ == refusal,
                }
            }),
    {
        let stored = match stored_bytes {
            Some(bytes) => bytes,
            None => 0,
        };
        match self.tenant.storage_limit_bytes {
            Some(limit) => {
                if stored >= limit {
                    let mut message = text::text5(
                        "tenant '",
                        self.tenant.id.as_str(),
                        "' exceeded managed storage limit: ",
                        text::format_u64(stored).as_str(),
                        " >= ",
                    );
                    message = text::text2(message.as_str(), text::format_u64(limit).as_str());
                    return Err(
                        TenantRequestError {
                            status: 413,
                            code: "tenant_managed_storage_limit_exceeded",
                            message,
                        },
                    );
                }
            },
            None => {},
        }
        let limit = match self.tenant.ingest_rate_limit_per_sec {
            Some(limit) => limit,
            None => {
                return Ok(ManagedTenantRequestGuard { query_units: None });
            },
        };
        trim_managed_ingest_window(&mut runtime.recent_ingest_units, now_unix_ms);
        let used = total_units(&runtime.recent_ingest_units);
        let units = used.saturating_add(requested);
        if units > limit {
            let message = text::text2(
                text::text5(
                    "tenant '",
                    self.tenant.id.as_str(),
                    "' exceeded managed ingest rate limit: ",
                    text::format_u64(units).as_str(),
                    " > ",
                ).as_str(),
                text::format_u64(limit).as_str(),
            );
            return Err(
                TenantRequestError {
                    status: 429,
                    code: "tenant_managed_ingest_rate_limit_exceeded",
                    message: text::text2(message.as_str(), " rows/sec"),
                },
            );
        }
        if requested > 0 {
            runtime.recent_ingest_units.push(
                ManagedTenantIngestWindowEntry { unix_ms: now_unix_ms, units: requested },
            );
        }
        Ok(ManagedTenantRequestGuard { query_units: None })
    }

    fn admit_query(
        &self,
        runtime: &mut ManagedTenantRequestRuntime,
        requested: u64,
    ) -> (admitted: Result<ManagedTenantRequestGuard, TenantRequestError>)
        ensures
            ({
                let expected = query_admission(self@, old(runtime)@, requested);
                &&& final(runtime)@ == expected.runtime
                &&& match expected.outcome {
                    Ok(held) => admitted matches Ok(guard) && guard.held() == held,
                    Err(refusal) => admitted matches Err(error) && error@ == refusal,
                }
            }),
    {
        let limit = match self.tenant.query_concurrency_limit {
            Some(limit) => limit as u64,
            None => {
                return Ok(ManagedTenantRequestGuard { query_units: None });
            },
        };
        let asked = sizes::max64(requested, 1);
        let units = runtime.active_query_units.saturating_add(asked);
        if units > limit {
            return Err(
                TenantRequestError {
                    status: 429,
                    code: "tenant_managed_query_concurrency_limit_exceeded",
                    message: text::text2(
                        text::text5(
                            "tenant '",
                            self.tenant.id.as_str(),
                            "' exceeded managed query concurrency limit: ",
                            text::format_u64(units).as_str(),
                            " > ",
                        ).as_str(),
                        text::format_u64(limit).as_str(),
                    ),
                },
            );
        }
        runtime.active_query_units = units;
        Ok(ManagedTenantRequestGuard { query_units: Some(asked) })
    }
}

/// A query that is let through and then done leaves the query units as they were.
pub proof fn lemma_query_release_restores(
    tenant: TenantView,
    runtime: RuntimeView,
    requested: u64,
)
    ensures
        ({
            let admitted = query_admission(tenant, runtime, requested);
            admitted.outcome matches Ok(held) ==> released(admitted.runtime, held) == runtime
        }),
{
}

/// The query units in use never rise above the limit of the tenant: a query that is let through
/// leaves them within it, and one that is turned away leaves them as they were.
pub proof fn lemma_query_units_within_limit(
    tenant: TenantView,
    runtime: RuntimeView,
    requested: u64,
)
    ensures
        ({
            let admitted = query_admission(tenant, runtime, requested);
            tenant.query_concurrency_limit matches Some(limit) ==> if admitted.outcome is Ok {
                admitted.runtime.active_query_units <= limit
            } else {
                admitted.runtime == runtime
            }
        }),
{
}

/// The rows of the ingest requests that still count never rise above the limit of the tenant by a
/// request that is let through.
pub proof fn lemma_ingest_within_limit(
    tenant: TenantView,
    runtime: RuntimeView,
    requested: u64,
    stored: u64,
    now: u64,
)
    ensures
        ({
            let admitted = ingest_admission(tenant, runtime, requested, stored, now);
            tenant.ingest_rate_limit_per_sec matches Some(limit) ==> admitted.outcome is Ok
                && limit < u64::MAX ==> window_total(admitted.runtime.recent_ingest_units)
                <= limit
        }),
{
    let recent = trimmed_window(runtime.recent_ingest_units, now);
    let longer = recent.push(ManagedTenantIngestWindowEntry { unix_ms: now, units: requested });
    assert(window_units(longer).drop_last() =~= window_units(recent));
}

/// A tenant that is not active gets nothing through, whatever it asks for.
pub proof fn lemma_inactive_is_blocked(
    tenant: TenantView,
    runtime: RuntimeView,
    surface: TenantAdmissionSurface,
    requested: u64,
    stored: Option<u64>,
    now: u64,
)
    requires
        tenant.lifecycle != TenantLifecycleState::Active,
    ensures
        admission(tenant, runtime, surface, requested, stored, now).outcome == Err::<
            Option<u64>,
            TenantRequestErrorView,
        >(blocked(tenant)),
        admission(tenant, runtime, surface, requested, stored, now).runtime == runtime,
{
}

} // verus!
