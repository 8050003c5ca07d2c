//! Updating what the rules store knows of evaluations.

use vstd::layout;
use vstd::prelude::*;

use crate::ordered;
use crate::ordered::Copied;
use crate::ordered::KeyMap;
use crate::rules::accounting;
use crate::rules::accounting::Held;
use crate::rules::accounting::RulesLimitSurface;
use crate::rules::accounting::RulesStoreAccounting;
use crate::rules::accounting::RulesStoreError;
use crate::rules::accounting::StoreProblem;
use crate::rules::fingerprint;
use crate::rules::limits::RulesStoreLimits;
use crate::rules::model;
use crate::rules::persist::always_encodes;
use crate::rules::persist::always_writes;
use crate::rules::persist::hold;
use crate::rules::persist::lemma_peaks_twice;
use crate::rules::persist::lemma_writable_beside_less;
use crate::rules::persist::persisted_as;
use crate::rules::persist::writable;
use crate::rules::persist::write_refusal;
use crate::rules::persist::written;
use crate::rules::replace::Screened;
use crate::rules::replace::screened_by;
use crate::rules::restart;
use crate::rules::store::RulesStore;
use crate::rules::types::PersistedRuleRuntimeState;
use crate::rules::types::PersistedRulesStoreState;
use crate::rules::types::RulesStateView;
use crate::rules::types::RuntimeMap;
use crate::rules::types::RuntimeView;
use crate::rules::validate;
use crate::sizes;
use crate::stable;

verus! {

/// An update of what is known of the evaluation of a rule, by its identifier.
pub type RuntimeUpdate = (String, PersistedRuleRuntimeState);

/// Whether an update is for a rule that is there, with the definition that it has.
pub open spec fn update_fits(
    current: Map<Seq<char>, RuntimeView>,
    id: Seq<char>,
    runtime: RuntimeView,
) -> bool {
    current.contains_key(id) && current[id].fingerprint == runtime.fingerprint
}

/// The updates that are for rules that are there, the last of each rule.
pub open spec fn accepted(
    updates: Seq<(Seq<char>, RuntimeView)>,
    current: Map<Seq<char>, RuntimeView>,
) -> Map<Seq<char>, RuntimeView>
    decreases updates.len(),
{
    if updates.len() == 0 {
        Map::empty()
    } else {
        let rest = accepted(updates.drop_last(), current);
        if update_fits(current, updates.last().0, updates.last().1) {
            rest.insert(updates.last().0, updates.last().1)
        } else {
            rest
        }
    }
}

/// What is wrong with the first update, among those for rules that are there, that is wrong.
pub open spec fn updates_problem(
    updates: Seq<(Seq<char>, RuntimeView)>,
    current: Map<Seq<char>, RuntimeView>,
    limits: RulesStoreLimits,
) -> Option<StoreProblem>
    decreases updates.len(),
{
    if updates.len() == 0 {
        None
    } else if updates_problem(updates.drop_last(), current, limits) is Some {
        updates_problem(updates.drop_last(), current, limits)
    } else if update_fits(current, updates.last().0, updates.last().1) {
        validate::runtime_problem(updates.last().1, limits)
    } else {
        None
    }
}

proof fn lemma_updates_stop(
    updates: Seq<(Seq<char>, RuntimeView)>,
    n: int,
    current: Map<Seq<char>, RuntimeView>,
    limits: RulesStoreLimits,
)
    requires
        0 <= n <= updates.len(),
        updates_problem(updates.subrange(0, n), current, limits) is Some,
    ensures
        updates_problem(updates, current, limits) == updates_problem(
            updates.subrange(0, n),
            current,
            limits,
        ),
    decreases updates.len() - n,
{
    if n == updates.len() {
        assert(updates.subrange(0, n) =~= updates);
    } else {
        assert(updates.subrange(0, n + 1).drop_last() =~= updates.subrange(0, n));
        lemma_updates_stop(updates, n + 1, current, limits);
    }
}

/// Every accepted update is for a rule that is there, with the definition that it has.
pub proof fn lemma_accepted_fit(
    updates: Seq<(Seq<char>, RuntimeView)>,
    current: Map<Seq<char>, RuntimeView>,
)
    ensures
        forall|id: Seq<char>| #[trigger]
            accepted(updates, current).contains_key(id) ==> update_fits(
                current,
                id,
                accepted(updates, current)[id],
            ),
    decreases updates.len(),
{
    if updates.len() > 0 {
        let rest = accepted(updates.drop_last(), current);
        lemma_accepted_fit(updates.drop_last(), current);
        assert forall|id: Seq<char>| #[trigger]
            accepted(updates, current).contains_key(id) implies update_fits(
            current,
            id,
            accepted(updates, current)[id],
        ) by {
            if rest.contains_key(id) {
                assert(update_fits(current, id, rest[id]));
            }
        }
    }
}

/// Updates as plain values.
pub open spec fn update_views(updates: Seq<RuntimeUpdate>) -> Seq<(Seq<char>, RuntimeView)> {
    Seq::new(updates.len(), |i: int| (updates[i].0@, updates[i].1@))
}

fn accept_updates(
    updates: Vec<RuntimeUpdate>,
    current: &RuntimeMap,
    limits: &RulesStoreLimits,
) -> (taken: Result<RuntimeMap, RulesStoreError>)
    ensures
        match updates_problem(update_views(updates@), current@, *limits) {
            None => taken matches Ok(map) && map@ == accepted(update_views(updates@), current@),
            Some(problem) => taken matches Err(error) && accounting::is_problem(error, problem),
        },
{
    let ghost all = update_views(updates@);
    let ghost given = updates@;
    let mut left = stable::reversed(updates);
    let mut taken: RuntimeMap = KeyMap::new();
    let ghost mut done: int = 0;
    proof {
        assert(all.subrange(0, 0) =~= Seq::empty());
    }
    while left.len() > 0
        invariant
            0 <= done,
            done + left@.len() == all.len(),
            all == update_views(given),
            given == updates@,
            forall|i: int|
                0 <= i < left@.len() ==> #[trigger] left@[i] == given[given.len() - 1 - i],
            updates_problem(all.subrange(0, done), current@, *limits) is None,
            taken@ == accepted(all.subrange(0, done), current@),
        decreases left@.len(),
    {
        match left.pop() {
            None => {},
            Some(update) => {
                proof {
                    assert(update == given[done]);
                    assert(all.subrange(0, done + 1).drop_last() =~= all.subrange(0, done));
                    assert(all.subrange(0, done + 1).last() == (update.0@, update.1@));
                }
                let (id, runtime) = update;
                let fits = match current.get(&id) {
                    Some(existing) => existing.fingerprint == runtime.fingerprint,
                    None => false,
                };
                if fits {
                    match validate::validate_runtime_state_with_limits(&runtime, limits) {
                        Err(error) => {
                            proof {
                                lemma_updates_stop(all, done + 1, current@, *limits);
                            }
                            return Err(error);
                        },
                        Ok(_) => {},
                    }
                    taken.insert(id, runtime);
                }
                proof {
                    done = done + 1;
                }
            },
        }
    }
    proof {
        assert(all.subrange(0, done) =~= all);
    }
    Ok(taken)
}

/// The bytes of updates beside the list that they stand in.
pub open spec fn updates_cost(updates: Seq<(Seq<char>, RuntimeView)>) -> nat
    decreases updates.len(),
{
    if updates.len() == 0 {
        0
    } else {
        updates_cost(updates.drop_last()) + model::text_cost(updates.last().0)
            + model::runtime_cost(updates.last().1)
    }
}

/// The bytes that updates are measured to hold.
fn update_input_bytes(updates: &Vec<RuntimeUpdate>) -> (bytes: usize)
    ensures
        bytes >= sizes::sat_size(
            model::list_cost::<RuntimeUpdate>(updates@.len()) as int + updates_cost(
                update_views(updates@),
            ),
        ),
{
    let ghost all = update_views(updates@);
    let ghost list = model::list_cost::<RuntimeUpdate>(updates@.len());
    let mut bytes: usize = model::modeled_owned_vec_bytes(updates);
    let mut i: usize = 0;
    assert(all.subrange(0, 0) =~= Seq::empty());
    while i < updates.len()
        invariant
            i <= updates@.len(),
            all == update_views(updates@),
            bytes >= sizes::sat_size(list as int + updates_cost(all.subrange(0, i as int))),
        decreases updates@.len() - i,
    {
        proof {
            assert(all.subrange(0, i as int + 1).drop_last() =~= all.subrange(0, i as int));
        }
        bytes =
        bytes.saturating_add(model::modeled_owned_string_bytes(&updates[i].0)).saturating_add(
            model::modeled_runtime_state_heap_bytes(&updates[i].1),
        );
        i = i + 1;
    }
    assert(all.subrange(0, i as int) =~= all);
    bytes
}

/// The bytes that updating what is known of evaluations is measured to hold: the state, the
/// updates, those that are accepted, and the new state.
pub struct UpdateBytes {
    pub state: usize,
    pub input: usize,
    pub taken: usize,
    pub merged: usize,
}

impl UpdateBytes {
    /// Whether the measured bytes are at least those that texts and lists without spare room take.
    /// How far they are above is the allocator's choice.
    pub open spec fn covers(
        self,
        before: RulesStateView,
        updates: Seq<(Seq<char>, RuntimeView)>,
    ) -> bool {
        let taken = accepted(updates, before.runtime);
        &&& self.state >= sizes::sat_size(model::state_cost(before) as int)
        &&& self.input >= sizes::sat_size(
            model::list_cost::<RuntimeUpdate>(updates.len()) as int + updates_cost(updates),
        )
        &&& self.taken >= sizes::sat_size(model::runtime_map_cost(taken) as int)
        &&& self.merged >= sizes::sat_size(
            layout::size_of::<PersistedRulesStoreState>() as int + model::groups_cost(
                before.groups,
            ) + model::overlaid_entries_cost(
                ordered::listing::<String, RuntimeView>(before.runtime),
                taken,
            ),
        )
    }

    /// What is held while accepted updates are merged.
    pub open spec fn peak(self, count: nat) -> usize {
        sizes::sat_size(
            self.state as int + self.taken + sizes::sat_size(
                model::list_cost::<RuntimeUpdate>(count) as int,
            ),
        )
    }
}

/// What becomes of updates before they are merged: they are held against the limit, and those that
/// are accepted are checked.
pub open spec fn update_screening(
    limits: RulesStoreLimits,
    before: RulesStoreAccounting,
    updates: Seq<(Seq<char>, RuntimeView)>,
    current: Map<Seq<char>, RuntimeView>,
    state_bytes: usize,
    input: usize,
) -> Screened {
    let held = Held::start(before).then_on(
        RulesLimitSurface::RuntimeUpdate,
        sizes::sat_size(
            state_bytes as int + input + sizes::sat_size(
                sizes::sat_size(model::runtime_node_cost() as int) * updates.len(),
            ),
        ),
        limits.max_runtime_update_transient_bytes,
    );
    if held.over is Some {
        screened_by(held)
    } else {
        match updates_problem(updates, current, limits) {
            Some(StoreProblem::Limit(surface)) => Screened {
                counters: held.counters.rejected(surface),
                problem: Some(StoreProblem::Limit(surface)),
            },
            Some(problem) => Screened { counters: held.counters, problem: Some(problem) },
            None => Screened { counters: held.counters, problem: None },
        }
    }
}

/// The state with accepted updates merged, held against the limits; both count as an update.
pub open spec fn held_merged(
    limits: RulesStoreLimits,
    before: RulesStoreAccounting,
    merged: usize,
    peak: usize,
) -> Held {
    Held::start(before).then_on(
        RulesLimitSurface::RuntimeUpdate,
        merged,
        limits.max_total_retained_state_bytes,
    ).then_on(
        RulesLimitSurface::RuntimeUpdate,
        peak,
        limits.max_runtime_update_transient_bytes,
    )
}

/// Whether accepted updates may be held against the limits, written and merged like this, with the
/// counters after it.
#[verifier::opaque]
pub open spec fn merged_as<
    E: FnOnce(&PersistedRulesStoreState, &RuntimeMap) -> Option<Vec<u8>>,
    W: FnOnce(&Vec<u8>) -> Result<(), String>,
>(
    store: RulesStore,
    taken: Map<Seq<char>, RuntimeView>,
    merged: usize,
    peak: usize,
    encode: E,
    write: W,
    applied: Result<usize, RulesStoreError>,
    after: RulesStoreAccounting,
) -> bool {
    let held = held_merged(store.limits, store.accounting, merged, peak);
    let count = ordered::listing::<String, RuntimeView>(taken).len() as usize;
    match held.over {
        Some(surface) => {
            &&& applied == Err::<usize, RulesStoreError>(RulesStoreError::Limit(surface))
            &&& after == held.counters
        },
        None => if !store.durable {
            &&& applied == Ok::<usize, RulesStoreError>(count)
            &&& after == held.counters.published(merged, None)
        } else {
            exists|persisted: Result<Option<usize>, RulesStoreError>, kept: RulesStoreAccounting|
                #[trigger] persisted_as(
                    store.limits,
                    RulesLimitSurface::RuntimeUpdate,
                    peak,
                    encode,
                    write,
                    store.state@,
                    taken,
                    held.counters,
                    persisted,
                    kept,
                ) && match persisted {
                    Ok(len) => {
                        &&& applied == Ok::<usize, RulesStoreError>(count)
                        &&& after == kept.published(merged, len)
                    },
                    Err(error) => {
                        &&& applied == Err::<usize, RulesStoreError>(error)
                        &&& after == kept
                    },
                }
        },
    }
}

/// Whether updating what is known of evaluations may come out like this, with the bytes that were
/// measured.
#[verifier::opaque]
pub open spec fn updated_as<
    E: FnOnce(&PersistedRulesStoreState, &RuntimeMap) -> Option<Vec<u8>>,
    W: FnOnce(&Vec<u8>) -> Result<(), String>,
>(
    before: RulesStore,
    updates: Seq<(Seq<char>, RuntimeView)>,
    bytes: UpdateBytes,
    encode: E,
    write: W,
    applied: Result<usize, RulesStoreError>,
    after: RulesStoreAccounting,
) -> bool {
    let taken = accepted(updates, before.state@.runtime);
    let count = ordered::listing::<String, RuntimeView>(taken).len();
    let screened = update_screening(
        before.limits,
        before.accounting,
        updates,
        before.state@.runtime,
        bytes.state,
        bytes.input,
    );
    if updates.len() == 0 {
        &&& applied == Ok::<usize, RulesStoreError>(0)
        &&& after == before.accounting
    } else if screened.problem is Some {
        &&& applied matches Err(error) && accounting::is_problem(error, screened.problem->0)
        &&& after == screened.counters
    } else if count == 0 {
        &&& applied == Ok::<usize, RulesStoreError>(0)
        &&& after == screened.counters
    } else {
        merged_as(
            RulesStore { accounting: screened.counters, ..before },
            taken,
            bytes.merged,
            bytes.peak(count),
            encode,
            write,
            applied,
            after,
        )
    }
}

/// Whether updating what is known of evaluations may come out like this, with the counters after
/// it. What the bytes are measured to be is the allocator's choice.
#[verifier::opaque]
pub open spec fn may_be_updated<
    E: FnOnce(&PersistedRulesStoreState, &RuntimeMap) -> Option<Vec<u8>>,
    W: FnOnce(&Vec<u8>) -> Result<(), String>,
>(
    before: RulesStore,
    updates: Seq<(Seq<char>, RuntimeView)>,
    encode: E,
    write: W,
    applied: Result<usize, RulesStoreError>,
    after: RulesStoreAccounting,
) -> bool {
    exists|bytes: UpdateBytes|
        bytes.covers(before.state@, updates) && #[trigger] updated_as(
            before,
            updates,
            bytes,
            encode,
            write,
            applied,
            after,
        )
}

/// Whether updates may be refused like this, with the counters after it.
#[verifier::opaque]
pub open spec fn update_refusal<
    E: FnOnce(&PersistedRulesStoreState, &RuntimeMap) -> Option<Vec<u8>>,
    W: FnOnce(&Vec<u8>) -> Result<(), String>,
>(
    store: RulesStore,
    updates: Seq<(Seq<char>, RuntimeView)>,
    encode: E,
    write: W,
    error: RulesStoreError,
    after: RulesStoreAccounting,
) -> bool {
    let before = store.accounting;
    ||| error == RulesStoreError::Limit(RulesLimitSurface::RuntimeUpdate) && (
    store.limits.max_runtime_update_transient_bytes < usize::MAX
        || store.limits.max_total_retained_state_bytes < usize::MAX) && after.rejected_once(
        before,
        RulesLimitSurface::RuntimeUpdate,
    )
    ||| match updates_problem(updates, store.state@.runtime, store.limits) {
        None => false,
        Some(StoreProblem::Limit(surface)) => error == RulesStoreError::Limit(surface)
            && after.rejected_once(before, surface),
        Some(StoreProblem::Invalid(said)) => (error matches RulesStoreError::Invalid(message)
            && message@ == said) && after.only_peaks_rose(before),
    }
    ||| store.durable && write_refusal(
        store.limits,
        RulesLimitSurface::RuntimeUpdate,
        encode,
        write,
        error,
        before,
        after,
    )
}

/// Holds updates against the limit, and gives those that are accepted once they were checked.
fn screen_updates(
    limits: &RulesStoreLimits,
    accounting: &mut RulesStoreAccounting,
    current: &RuntimeMap,
    state_bytes: usize,
    input: usize,
    updates: Vec<RuntimeUpdate>,
) -> (taken: Result<RuntimeMap, RulesStoreError>)
    ensures
        ({
            let stated = update_screening(
                *limits,
                *old(accounting),
                update_views(updates@),
                current@,
                state_bytes,
                input,
            );
            &&& *final(accounting) == stated.counters
            &&& match stated.problem {
                None => taken matches Ok(map) && map@ == accepted(
                    update_views(updates@),
                    current@,
                ),
                Some(problem) => taken matches Err(error) && accounting::is_problem(
                    error,
                    problem,
                ),
            }
        }),
{
    let nodes = sizes::times_size(model::modeled_runtime_map_node_bytes(), updates.len());
    match accounting.enforce_limit(
        RulesLimitSurface::RuntimeUpdate,
        state_bytes.saturating_add(input).saturating_add(nodes),
        limits.max_runtime_update_transient_bytes,
    ) {
        Err(error) => {
            return Err(error);
        },
        Ok(_) => {},
    }
    match accept_updates(updates, current, limits) {
        Err(error) => {
            if let RulesStoreError::Limit(surface) = error {
                accounting.reject(surface);
            }
            Err(error)
        },
        Ok(taken) => Ok(taken),
    }
}

/// Updates that nothing turned away raised nothing but peaks; what turned others away warrants it.
proof fn lemma_update_screens<
    E: FnOnce(&PersistedRulesStoreState, &RuntimeMap) -> Option<Vec<u8>>,
    W: FnOnce(&Vec<u8>) -> Result<(), String>,
>(
    store: RulesStore,
    updates: Seq<(Seq<char>, RuntimeView)>,
    state_bytes: usize,
    input: usize,
    encode: E,
    write: W,
)
    ensures
        ({
            let stated = update_screening(
                store.limits,
                store.accounting,
                updates,
                store.state@.runtime,
                state_bytes,
                input,
            );
            match stated.problem {
                None => {
                    &&& updates_problem(updates, store.state@.runtime, store.limits) is None
                    &&& stated.counters.only_peaks_rose(store.accounting)
                },
                Some(problem) => {
                    &&& stated.counters.at_least(store.accounting)
                    &&& forall|error: RulesStoreError| #[trigger]
                        accounting::is_problem(error, problem) ==> update_refusal(
                            store,
                            updates,
                            encode,
                            write,
                            error,
                            stated.counters,
                        ) && !no_update_refused(store, updates, encode, write)
                },
            }
        }),
{
    reveal(update_refusal);
    reveal(no_update_refused);
}

/// Whether nothing can refuse updates: those that are accepted are valid, there are no limits on
/// bytes, and where the store is on disk encoding and writing always succeed.
#[verifier::opaque]
pub open spec fn no_update_refused<
    E: FnOnce(&PersistedRulesStoreState, &RuntimeMap) -> Option<Vec<u8>>,
    W: FnOnce(&Vec<u8>) -> Result<(), String>,
>(store: RulesStore, updates: Seq<(Seq<char>, RuntimeView)>, encode: E, write: W) -> bool {
    &&& updates_problem(updates, store.state@.runtime, store.limits) is None
    &&& store.limits.max_runtime_update_transient_bytes == usize::MAX
    &&& store.limits.max_total_retained_state_bytes == usize::MAX
    &&& store.limits.max_durable_file_bytes == usize::MAX
    &&& store.durable ==> always_encodes(encode) && always_writes(write)
}

/// What holds of accepted updates that are merged after they were screened holds since then.
proof fn lemma_merged_since<
    E: FnOnce(&PersistedRulesStoreState, &RuntimeMap) -> Option<Vec<u8>>,
    W: FnOnce(&Vec<u8>) -> Result<(), String>,
>(
    before: RulesStore,
    screened: RulesStore,
    updates: Seq<(Seq<char>, RuntimeView)>,
    encode: E,
    write: W,
    applied: Result<usize, RulesStoreError>,
    after: RulesStoreAccounting,
)
    requires
        screened.durable == before.durable,
        screened.limits == before.limits,
        screened.accounting.only_peaks_rose(before.accounting),
        applied is Ok ==> after.at_least(screened.accounting) && after.limit_rejections_total
            == screened.accounting.limit_rejections_total,
        applied matches Err(error) ==> merge_refusal(screened, encode, write, error, after),
    ensures
        after.at_least(before.accounting),
        applied is Ok ==> after.limit_rejections_total == before.accounting.limit_rejections_total,
        applied matches Err(error) ==> update_refusal(
            before,
            updates,
            encode,
            write,
            error,
            after,
        ) && !no_update_refused(before, updates, encode, write),
{
    reveal(update_refusal);
    reveal(no_update_refused);
    let surface = RulesLimitSurface::RuntimeUpdate;
    lemma_peaks_twice(before.accounting, screened.accounting, after);
    lemma_peaks_twice(
        before.accounting.write_failed(),
        screened.accounting.write_failed(),
        after,
    );
    lemma_peaks_twice(
        before.accounting.rejected(surface),
        screened.accounting.rejected(surface),
        after,
    );
}

/// Whether accepted updates may be refused like this when they are merged, with the counters after
/// it.
pub open spec fn merge_refusal<
    E: FnOnce(&PersistedRulesStoreState, &RuntimeMap) -> Option<Vec<u8>>,
    W: FnOnce(&Vec<u8>) -> Result<(), String>,
>(store: RulesStore, encode: E, write: W, error: RulesStoreError, after: RulesStoreAccounting) -> bool {
    ||| error == RulesStoreError::Limit(RulesLimitSurface::RuntimeUpdate) && (
    store.limits.max_runtime_update_transient_bytes < usize::MAX
        || store.limits.max_total_retained_state_bytes < usize::MAX) && after.rejected_once(
        store.accounting,
        RulesLimitSurface::RuntimeUpdate,
    )
    ||| store.durable && write_refusal(
        store.limits,
        RulesLimitSurface::RuntimeUpdate,
        encode,
        write,
        error,
        store.accounting,
        after,
    )
}

/// What is held at least while accepted updates are merged.
pub open spec fn least_update_peak(
    before: RulesStateView,
    taken: Map<Seq<char>, RuntimeView>,
) -> nat {
    model::state_cost(before) + model::runtime_map_cost(taken) + model::list_cost::<RuntimeUpdate>(
        ordered::listing::<String, RuntimeView>(taken).len(),
    )
}

/// Whether updates may be written: the store is on disk, some are accepted and none is refused,
/// and what is held to merge them is within the limit.
#[verifier::opaque]
pub open spec fn updates_writable(
    store: RulesStore,
    updates: Seq<(Seq<char>, RuntimeView)>,
) -> bool {
    let taken = accepted(updates, store.state@.runtime);
    &&& store.durable
    &&& ordered::listing::<String, RuntimeView>(taken).len() > 0
    &&& updates_problem(updates, store.state@.runtime, store.limits) is None
    &&& sizes::sat_size(least_update_peak(store.state@, taken) as int)
        <= store.limits.max_runtime_update_transient_bytes
}

/// Whether bytes may be what updates are written as: the updates may be written, and the bytes are
/// what the state with them is encoded to, within the limits.
pub open spec fn writes_updates<
    E: FnOnce(&PersistedRulesStoreState, &RuntimeMap) -> Option<Vec<u8>>,
>(
    store: RulesStore,
    updates: Seq<(Seq<char>, RuntimeView)>,
    encode: E,
    bytes: Vec<u8>,
) -> bool {
    let taken = accepted(updates, store.state@.runtime);
    &&& updates_writable(store, updates)
    &&& writable(
        store.limits,
        RulesLimitSurface::RuntimeUpdate,
        least_update_peak(store.state@, taken),
        encode,
        store.state@,
        taken,
        bytes,
    )
}

/// Updates that nothing turned away may be written where the store is on disk, and what is within
/// the limits beside what was measured is within them.
proof fn lemma_updates_writable<
    E: FnOnce(&PersistedRulesStoreState, &RuntimeMap) -> Option<Vec<u8>>,
>(
    store: RulesStore,
    updates: Seq<(Seq<char>, RuntimeView)>,
    bytes: UpdateBytes,
    encode: E,
)
    requires
        bytes.covers(store.state@, updates),
        updates_problem(updates, store.state@.runtime, store.limits) is None,
        ordered::listing::<String, RuntimeView>(
            accepted(updates, store.state@.runtime),
        ).len() > 0,
    ensures
        ({
            let taken = accepted(updates, store.state@.runtime);
            let peak = bytes.peak(ordered::listing::<String, RuntimeView>(taken).len());
            &&& store.durable && peak <= store.limits.max_runtime_update_transient_bytes
                ==> updates_writable(store, updates)
            &&& forall|document: Vec<u8>|
                store.durable && peak <= store.limits.max_runtime_update_transient_bytes
                    && #[trigger] writable(
                    store.limits,
                    RulesLimitSurface::RuntimeUpdate,
                    peak as nat,
                    encode,
                    store.state@,
                    taken,
                    document,
                ) ==> writes_updates(store, updates, encode, document)
        }),
{
    let taken = accepted(updates, store.state@.runtime);
    let peak = bytes.peak(ordered::listing::<String, RuntimeView>(taken).len());
    reveal(updates_writable);
    lemma_writable_beside_less(
        store.limits,
        RulesLimitSurface::RuntimeUpdate,
        peak as nat,
        least_update_peak(store.state@, taken),
        encode,
        store.state@,
        taken,
    );
}

/// What may be written of updates that nothing turned away may be written when they are merged.
proof fn lemma_merge_may_write<
    E: FnOnce(&PersistedRulesStoreState, &RuntimeMap) -> Option<Vec<u8>>,
    W: FnOnce(&Vec<u8>) -> Result<(), String>,
>(
    store: RulesStore,
    updates: Seq<(Seq<char>, RuntimeView)>,
    bytes: UpdateBytes,
    encode: E,
    write: W,
)
    requires
        bytes.covers(store.state@, updates),
        updates_problem(updates, store.state@.runtime, store.limits) is None,
        ordered::listing::<String, RuntimeView>(
            accepted(updates, store.state@.runtime),
        ).len() > 0,
        forall|state: &PersistedRulesStoreState, over: &RuntimeMap|
            updates_writable(store, updates) && state@ == store.state@ && over@ == accepted(
                updates,
                store.state@.runtime,
            ) ==> #[trigger] call_requires(encode, (state, over)),
        forall|document: &Vec<u8>|
            writes_updates(store, updates, encode, *document) ==> #[trigger] call_requires(
                write,
                (document,),
            ),
    ensures
        ({
            let taken = accepted(updates, store.state@.runtime);
            let peak = bytes.peak(ordered::listing::<String, RuntimeView>(taken).len());
            let fits = store.durable && peak <= store.limits.max_runtime_update_transient_bytes;
            &&& forall|state: &PersistedRulesStoreState, over: &RuntimeMap|
                fits && state@ == store.state@ && over@ == taken ==> #[trigger] call_requires(
                    encode,
                    (state, over),
                )
            &&& forall|document: &Vec<u8>|
                fits && writable(
                    store.limits,
                    RulesLimitSurface::RuntimeUpdate,
                    peak as nat,
                    encode,
                    store.state@,
                    taken,
                    *document,
                ) ==> #[trigger] call_requires(write, (document,))
        }),
{
    lemma_updates_writable(store, updates, bytes, encode);
}

impl RulesStore {
    /// Updates what is known of evaluations, for the rules that are there with the definition that
    /// they have, and tells how many rules that were. Whatever goes wrong, the state stays as it
    /// was. Where no update is accepted, or one is refused, nothing is encoded or written.
    pub fn apply_runtime_updates<
        E: FnOnce(&PersistedRulesStoreState, &RuntimeMap) -> Option<Vec<u8>>,
        W: FnOnce(&Vec<u8>) -> Result<(), String>,
    >(&mut self, updates: Vec<RuntimeUpdate>, encode: E, write: W) -> (applied: Result<
        usize,
        RulesStoreError,
    >)
        requires
            forall|state: &PersistedRulesStoreState, over: &RuntimeMap|
                updates_writable(*old(self), update_views(updates@)) && state@ == old(self).state@
                    && over@ == accepted(update_views(updates@), old(self).state@.runtime)
                    ==> #[trigger] call_requires(encode, (state, over)),
            forall|bytes: &Vec<u8>|
                writes_updates(*old(self), update_views(updates@), encode, *bytes)
                    ==> #[trigger] call_requires(write, (bytes,)),
        ensures
            final(self).durable == old(self).durable,
            final(self).limits == old(self).limits,
            final(self).state.groups == old(self).state.groups,
            final(self).accounting.at_least(old(self).accounting),
            match applied {
                Ok(count) => {
                    let taken = accepted(update_views(updates@), old(self).state@.runtime);
                    &&& updates_problem(
                        update_views(updates@),
                        old(self).state@.runtime,
                        old(self).limits,
                    ) is None
                    &&& count == ordered::listing::<String, RuntimeView>(taken).len()
                    &&& final(self).state@.runtime == old(self).state@.runtime.union_prefer_right(
                        taken,
                    )
                    &&& final(self).accounting.limit_rejections_total == old(
                        self,
                    ).accounting.limit_rejections_total
                    &&& count == 0 ==> final(self).accounting.only_peaks_rose(
                        old(self).accounting,
                    )
                    &&& count > 0 && old(self).durable ==> written(
                        encode,
                        write,
                        old(self).state@,
                        taken,
                        final(self).accounting.durable_file_bytes as nat,
                    )
                },
                Err(error) => {
                    &&& final(self).state == old(self).state
                    &&& update_refusal(
                        *old(self),
                        update_views(updates@),
                        encode,
                        write,
                        error,
                        final(self).accounting,
                    )
                },
            },
            validate::stays_valid(old(self).state@, final(self).state@, old(self).limits),
            no_update_refused(*old(self), update_views(updates@), encode, write) ==> applied is Ok,
            may_be_updated(
                *old(self),
                update_views(updates@),
                encode,
                write,
                applied,
                final(self).accounting,
            ),
    {
        let ghost before = *self;
        let ghost given = update_views(updates@);
        if updates.len() == 0 {
            proof {
                assert(given =~= Seq::empty());
                lemma_no_updates(before, encode, write);
            }
            return Ok(0);
        }
        let (prepared, state_bytes, input) = self.prepare_updates(updates);
        let ghost screened = *self;
        match prepared {
            Err(error) => {
                proof {
                    lemma_updates_refused(
                        before,
                        given,
                        state_bytes,
                        input,
                        encode,
                        write,
                        error,
                        screened.accounting,
                    );
                }
                Err(error)
            },
            Ok(taken) => {
                let count = taken.len();
                if count == 0 {
                    proof {
                        ordered::lemma_listing::<String, RuntimeView>(taken.entries());
                        assert(taken.entries() =~= Seq::empty());
                        assert(taken@ =~= Map::empty());
                        assert(self.state@ == before.state@);
                        lemma_none_accepted(
                            before,
                            given,
                            state_bytes,
                            input,
                            encode,
                            write,
                            screened.accounting,
                        );
                    }
                    return Ok(0);
                }
                proof {
                    ordered::lemma_listing::<String, RuntimeView>(taken.entries());
                }
                let applied = self.apply_accepted(
                    taken,
                    state_bytes,
                    input,
                    Ghost(before),
                    Ghost(given),
                    encode,
                    write,
                );
                proof {
                    restart::lemma_updates_stay_valid(before.state@, given, before.limits);
                    if applied is Ok {
                        assert(self.state@ == restart::overlaid(
                            before.state@,
                            accepted(given, before.state@.runtime),
                        ));
                    }
                }
                applied
            },
        }
    }

    /// Merges accepted updates, of which there are some, into the state as it was before.
    fn apply_accepted<
        E: FnOnce(&PersistedRulesStoreState, &RuntimeMap) -> Option<Vec<u8>>,
        W: FnOnce(&Vec<u8>) -> Result<(), String>,
    >(
        &mut self,
        taken: RuntimeMap,
        state_bytes: usize,
        input: usize,
        before: Ghost<RulesStore>,
        given: Ghost<Seq<(Seq<char>, RuntimeView)>>,
        encode: E,
        write: W,
    ) -> (applied: Result<usize, RulesStoreError>)
        requires
            old(self).durable == before@.durable,
            old(self).limits == before@.limits,
            old(self).state == before@.state,
            given@.len() > 0,
            taken@ == accepted(given@, before@.state@.runtime),
            ordered::listing::<String, RuntimeView>(taken@).len() > 0,
            state_bytes >= sizes::sat_size(model::state_cost(before@.state@) as int),
            input >= sizes::sat_size(
                model::list_cost::<RuntimeUpdate>(given@.len()) as int + updates_cost(given@),
            ),
            ({
                let stated = update_screening(
                    before@.limits,
                    before@.accounting,
                    given@,
                    before@.state@.runtime,
                    state_bytes,
                    input,
                );
                &&& old(self).accounting == stated.counters
                &&& stated.problem is None
            }),
            forall|state: &PersistedRulesStoreState, over: &RuntimeMap|
                updates_writable(before@, given@) && state@ == before@.state@ && over@ == taken@
                    ==> #[trigger] call_requires(encode, (state, over)),
            forall|bytes: &Vec<u8>|
                writes_updates(before@, given@, encode, *bytes) ==> #[trigger] call_requires(
                    write,
                    (bytes,),
                ),
        ensures
            final(self).durable == before@.durable,
            final(self).limits == before@.limits,
            final(self).state.groups == before@.state.groups,
            final(self).accounting.at_least(before@.accounting),
            updates_problem(given@, before@.state@.runtime, before@.limits) is None,
            may_be_updated(before@, given@, encode, write, applied, final(self).accounting),
            no_update_refused(before@, given@, encode, write) ==> applied is Ok,
            match applied {
                Ok(count) => {
                    &&& count == ordered::listing::<String, RuntimeView>(taken@).len()
                    &&& final(self).state@.runtime == before@.state@.runtime.union_prefer_right(
                        taken@,
                    )
                    &&& final(self).accounting.limit_rejections_total
                        == before@.accounting.limit_rejections_total
                    &&& before@.durable ==> written(
                        encode,
                        write,
                        before@.state@,
                        taken@,
                        final(self).accounting.durable_file_bytes as nat,
                    )
                },
                Err(error) => {
                    &&& final(self).state == before@.state
                    &&& update_refusal(
                        before@,
                        given@,
                        encode,
                        write,
                        error,
                        final(self).accounting,
                    )
                },
            },
    {
        let ghost screened = *self;
        let (merged, peak, bytes) = self.measure_merge(&taken, state_bytes, input, given);
        proof {
            lemma_merge_may_write(before@, given@, bytes@, encode, write);
        }
        let applied = self.merge_updates(taken, merged, peak, encode, write);
        proof {
            lemma_updates_merged(
                before@,
                screened,
                given@,
                bytes@,
                encode,
                write,
                applied,
                self.accounting,
            );
        }
        applied
    }

    /// The bytes that the state with accepted updates merged is measured to hold, and what is held
    /// while they are merged.
    fn measure_merge(
        &self,
        taken: &RuntimeMap,
        state_bytes: usize,
        input: usize,
        given: Ghost<Seq<(Seq<char>, RuntimeView)>>,
    ) -> (measured: (usize, usize, Ghost<UpdateBytes>))
        requires
            taken@ == accepted(given@, self.state@.runtime),
            state_bytes >= sizes::sat_size(model::state_cost(self.state@) as int),
            input >= sizes::sat_size(
                model::list_cost::<RuntimeUpdate>(given@.len()) as int + updates_cost(given@),
            ),
        ensures
            measured.2@.covers(self.state@, given@),
            measured.2@.state == state_bytes,
            measured.2@.input == input,
            measured.0 == measured.2@.merged,
            measured.1 == measured.2@.peak(
                ordered::listing::<String, RuntimeView>(taken@).len(),
            ),
    {
        let taken_bytes = model::modeled_runtime_map_bytes(taken);
        let merged = model::modeled_rules_state_bytes_with_runtime_overlay(&self.state, taken);
        let count = taken.len();
        assert(count == ordered::listing::<String, RuntimeView>(taken@).len()) by {
            ordered::lemma_listing::<String, RuntimeView>(taken.entries());
        }
        let slots = model::modeled_vec_len_bytes::<RuntimeUpdate>(count);
        let peak = state_bytes.saturating_add(taken_bytes).saturating_add(slots);
        let ghost bytes = UpdateBytes { state: state_bytes, input, taken: taken_bytes, merged };
        assert(bytes.covers(self.state@, given@));
        assert(peak == bytes.peak(count as nat));
        (merged, peak, Ghost(bytes))
    }

    /// Measures updates, holds them against the limit, and gives those that are accepted once they
    /// were checked, with the bytes that the state and the updates are measured to hold.
    fn prepare_updates(&mut self, updates: Vec<RuntimeUpdate>) -> (prepared: (
        Result<RuntimeMap, RulesStoreError>,
        usize,
        usize,
    ))
        ensures
            final(self).durable == old(self).durable,
            final(self).limits == old(self).limits,
            final(self).state == old(self).state,
            model::is_table(old(self).state@.runtime),
            prepared.1 >= sizes::sat_size(model::state_cost(old(self).state@) as int),
            prepared.2 >= sizes::sat_size(
                model::list_cost::<RuntimeUpdate>(updates@.len()) as int + updates_cost(
                    update_views(updates@),
                ),
            ),
            ({
                let stated = update_screening(
                    old(self).limits,
                    old(self).accounting,
                    update_views(updates@),
                    old(self).state@.runtime,
                    prepared.1,
                    prepared.2,
                );
                &&& final(self).accounting == stated.counters
                &&& match stated.problem {
                    None => prepared.0 matches Ok(map) && map@ == accepted(
                        update_views(updates@),
                        old(self).state@.runtime,
                    ),
                    Some(problem) => prepared.0 matches Err(error) && accounting::is_problem(
                        error,
                        problem,
                    ),
                }
            }),
    {
        let limits = self.limits;
        let state_bytes = model::modeled_rules_state_bytes(&self.state);
        let input = update_input_bytes(&updates);
        let taken = screen_updates(
            &limits,
            &mut self.accounting,
            &self.state.runtime,
            state_bytes,
            input,
            updates,
        );
        (taken, state_bytes, input)
    }

    /// Holds the state with accepted updates merged against the limits, writes it, where the store
    /// is on disk, and merges them.
    fn merge_updates<
        E: FnOnce(&PersistedRulesStoreState, &RuntimeMap) -> Option<Vec<u8>>,
        W: FnOnce(&Vec<u8>) -> Result<(), String>,
    >(&mut self, taken: RuntimeMap, merged: usize, peak: usize, encode: E, write: W) -> (applied:
        Result<usize, RulesStoreError>)
        requires
            forall|state: &PersistedRulesStoreState, over: &RuntimeMap|
                old(self).durable && peak <= old(self).limits.max_runtime_update_transient_bytes
                    && state@ == old(self).state@ && over@ == taken@
                    ==> #[trigger] call_requires(encode, (state, over)),
            forall|bytes: &Vec<u8>|
                old(self).durable && peak <= old(self).limits.max_runtime_update_transient_bytes
                    && writable(
                    old(self).limits,
                    RulesLimitSurface::RuntimeUpdate,
                    peak as nat,
                    encode,
                    old(self).state@,
                    taken@,
                    *bytes,
                ) ==> #[trigger] call_requires(write, (bytes,)),
        ensures
            final(self).durable == old(self).durable,
            final(self).limits == old(self).limits,
            final(self).state.groups == old(self).state.groups,
            merged_as(
                *old(self),
                taken@,
                merged,
                peak,
                encode,
                write,
                applied,
                final(self).accounting,
            ),
            match applied {
                Ok(count) => {
                    &&& count == ordered::listing::<String, RuntimeView>(taken@).len()
                    &&& final(self).state@.runtime == old(self).state@.runtime.union_prefer_right(
                        taken@,
                    )
                    &&& final(self).accounting.at_least(old(self).accounting)
                    &&& final(self).accounting.limit_rejections_total == old(
                        self,
                    ).accounting.limit_rejections_total
                    &&& old(self).durable ==> written(
                        encode,
                        write,
                        old(self).state@,
                        taken@,
                        final(self).accounting.durable_file_bytes as nat,
                    )
                },
                Err(error) => {
                    &&& final(self).state == old(self).state
                    &&& merge_refusal(*old(self), encode, write, error, final(self).accounting)
                },
            },
    {
        let limits = self.limits;
        let count = taken.len();
        proof {
            ordered::lemma_listing::<String, RuntimeView>(taken.entries());
        }
        match self.accounting.enforce_limit(
            RulesLimitSurface::RuntimeUpdate,
            merged,
            limits.max_total_retained_state_bytes,
        ) {
            Err(error) => {
                proof {
                    reveal(merged_as);
                }
                return Err(error);
            },
            Ok(_) => {},
        }
        match self.accounting.enforce_limit(
            RulesLimitSurface::RuntimeUpdate,
            peak,
            limits.max_runtime_update_transient_bytes,
        ) {
            Err(error) => {
                proof {
                    reveal(merged_as);
                }
                return Err(error);
            },
            Ok(_) => {},
        }
        let ghost before = old(self).accounting;
        let ghost held = self.accounting;
        let persisted = RulesStore::persist_serializable_state(
            self.durable,
            &limits,
            &mut self.accounting,
            &self.state,
            &taken,
            RulesLimitSurface::RuntimeUpdate,
            peak,
            encode,
            write,
        );
        proof {
            lemma_peaks_twice(before, held, self.accounting);
            lemma_peaks_twice(before.write_failed(), held.write_failed(), self.accounting);
            lemma_peaks_twice(
                before.rejected(RulesLimitSurface::RuntimeUpdate),
                held.rejected(RulesLimitSurface::RuntimeUpdate),
                self.accounting,
            );
            reveal(merged_as);
            assert(held == held_merged(limits, before, merged, peak).counters);
            assert(self.durable ==> persisted_as(
                limits,
                RulesLimitSurface::RuntimeUpdate,
                peak,
                encode,
                write,
                old(self).state@,
                taken@,
                held,
                persisted,
                self.accounting,
            ));
        }
        match persisted {
            Err(error) => Err(error),
            Ok(durable_file_bytes) => {
                self.state.runtime.absorb(&taken);
                self.accounting.publish_state(merged, durable_file_bytes);
                Ok(count)
            },
        }
    }
}

/// The largest numbers of bytes.
spec fn most_update_bytes() -> UpdateBytes {
    UpdateBytes {
        state: usize::MAX,
        input: usize::MAX,
        taken: usize::MAX,
        merged: usize::MAX,
    }
}

/// No updates come to nothing.
proof fn lemma_no_updates<
    E: FnOnce(&PersistedRulesStoreState, &RuntimeMap) -> Option<Vec<u8>>,
    W: FnOnce(&Vec<u8>) -> Result<(), String>,
>(store: RulesStore, encode: E, write: W)
    ensures
        ({
            let updates = Seq::<(Seq<char>, RuntimeView)>::empty();
            let current = store.state@.runtime;
            &&& updates_problem(updates, current, store.limits) is None
            &&& ordered::listing::<String, RuntimeView>(accepted(updates, current)).len() == 0
            &&& current.union_prefer_right(accepted(updates, current)) == current
            &&& may_be_updated(store, updates, encode, write, Ok(0), store.accounting)
        }),
{
    let updates = Seq::<(Seq<char>, RuntimeView)>::empty();
    let current = store.state@.runtime;
    assert(ordered::keyed_map::<String, RuntimeView>(updates) =~= Map::empty());
    ordered::lemma_listing::<String, RuntimeView>(updates);
    assert(current.union_prefer_right(Map::empty()) =~= current);
    reveal(updated_as);
    reveal(may_be_updated);
    let bytes = most_update_bytes();
    assert(bytes.covers(store.state@, updates));
    assert(updated_as(store, updates, bytes, encode, write, Ok(0), store.accounting));
}

/// What holds of updates that were turned away before they were merged.
proof fn lemma_updates_refused<
    E: FnOnce(&PersistedRulesStoreState, &RuntimeMap) -> Option<Vec<u8>>,
    W: FnOnce(&Vec<u8>) -> Result<(), String>,
>(
    before: RulesStore,
    updates: Seq<(Seq<char>, RuntimeView)>,
    state_bytes: usize,
    input: usize,
    encode: E,
    write: W,
    error: RulesStoreError,
    after: RulesStoreAccounting,
)
    requires
        updates.len() > 0,
        state_bytes >= sizes::sat_size(model::state_cost(before.state@) as int),
        input >= sizes::sat_size(
            model::list_cost::<RuntimeUpdate>(updates.len()) as int + updates_cost(updates),
        ),
        ({
            let stated = update_screening(
                before.limits,
                before.accounting,
                updates,
                before.state@.runtime,
                state_bytes,
                input,
            );
            &&& after == stated.counters
            &&& stated.problem matches Some(problem) && accounting::is_problem(error, problem)
        }),
    ensures
        update_refusal(before, updates, encode, write, error, after),
        !no_update_refused(before, updates, encode, write),
        may_be_updated(before, updates, encode, write, Err(error), after),
        after.at_least(before.accounting),
{
    lemma_update_screens(before, updates, state_bytes, input, encode, write);
    reveal(updated_as);
    reveal(may_be_updated);
    let bytes = UpdateBytes { state: state_bytes, input, ..most_update_bytes() };
    assert(bytes.covers(before.state@, updates));
    assert(updated_as(before, updates, bytes, encode, write, Err(error), after));
}

/// What holds of updates of which none is accepted.
proof fn lemma_none_accepted<
    E: FnOnce(&PersistedRulesStoreState, &RuntimeMap) -> Option<Vec<u8>>,
    W: FnOnce(&Vec<u8>) -> Result<(), String>,
>(
    before: RulesStore,
    updates: Seq<(Seq<char>, RuntimeView)>,
    state_bytes: usize,
    input: usize,
    encode: E,
    write: W,
    after: RulesStoreAccounting,
)
    requires
        updates.len() > 0,
        accepted(updates, before.state@.runtime) == Map::<Seq<char>, RuntimeView>::empty(),
        state_bytes >= sizes::sat_size(model::state_cost(before.state@) as int),
        input >= sizes::sat_size(
            model::list_cost::<RuntimeUpdate>(updates.len()) as int + updates_cost(updates),
        ),
        ({
            let stated = update_screening(
                before.limits,
                before.accounting,
                updates,
                before.state@.runtime,
                state_bytes,
                input,
            );
            &&& after == stated.counters
            &&& stated.problem is None
        }),
    ensures
        ({
            let taken = accepted(updates, before.state@.runtime);
            &&& updates_problem(updates, before.state@.runtime, before.limits) is None
            &&& ordered::listing::<String, RuntimeView>(taken).len() == 0
            &&& before.state@.runtime.union_prefer_right(taken) == before.state@.runtime
        }),
        may_be_updated(before, updates, encode, write, Ok(0), after),
        after.only_peaks_rose(before.accounting),
{
    lemma_update_screens(before, updates, state_bytes, input, encode, write);
    lemma_no_updates(before, encode, write);
    let none = Seq::<(Seq<char>, RuntimeView)>::empty();
    assert(accepted(none, before.state@.runtime) == Map::<Seq<char>, RuntimeView>::empty());
    reveal(updated_as);
    reveal(may_be_updated);
    let bytes = UpdateBytes { state: state_bytes, input, ..most_update_bytes() };
    assert(bytes.covers(before.state@, updates));
    assert(updated_as(before, updates, bytes, encode, write, Ok(0), after));
}

/// What holds of updates of which some were accepted and merged, or refused then.
proof fn lemma_updates_merged<
    E: FnOnce(&PersistedRulesStoreState, &RuntimeMap) -> Option<Vec<u8>>,
    W: FnOnce(&Vec<u8>) -> Result<(), String>,
>(
    before: RulesStore,
    screened: RulesStore,
    updates: Seq<(Seq<char>, RuntimeView)>,
    bytes: UpdateBytes,
    encode: E,
    write: W,
    applied: Result<usize, RulesStoreError>,
    after: RulesStoreAccounting,
)
    requires
        updates.len() > 0,
        bytes.covers(before.state@, updates),
        screened.durable == before.durable,
        screened.limits == before.limits,
        screened.state == before.state,
        ({
            let stated = update_screening(
                before.limits,
                before.accounting,
                updates,
                before.state@.runtime,
                bytes.state,
                bytes.input,
            );
            &&& screened.accounting == stated.counters
            &&& stated.problem is None
        }),
        ({
            let taken = accepted(updates, before.state@.runtime);
            let count = ordered::listing::<String, RuntimeView>(taken).len();
            &&& count > 0
            &&& merged_as(
                screened,
                taken,
                bytes.merged,
                bytes.peak(count),
                encode,
                write,
                applied,
                after,
            )
        }),
        applied is Ok ==> after.at_least(screened.accounting) && after.limit_rejections_total
            == screened.accounting.limit_rejections_total,
        applied matches Err(error) ==> merge_refusal(screened, encode, write, error, after),
    ensures
        updates_problem(updates, before.state@.runtime, before.limits) is None,
        may_be_updated(before, updates, encode, write, applied, after),
        after.at_least(before.accounting),
        applied is Ok ==> after.limit_rejections_total == before.accounting.limit_rejections_total,
        applied matches Err(error) ==> update_refusal(
            before,
            updates,
            encode,
            write,
            error,
            after,
        ) && !no_update_refused(before, updates, encode, write),
{
    lemma_update_screens(before, updates, bytes.state, bytes.input, encode, write);
    lemma_merged_since(before, screened, updates, encode, write, applied, after);
    assert(RulesStore { accounting: screened.accounting, ..before } == screened);
    reveal(updated_as);
    reveal(may_be_updated);
    assert(updated_as(before, updates, bytes, encode, write, applied, after));
}

} // verus!
