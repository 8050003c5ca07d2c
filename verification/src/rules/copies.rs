//! Copies of the state of the rules store, kept in memory or written elsewhere.

use vstd::prelude::*;

use crate::ordered::Copied;
use crate::ordered::KeyMap;
use crate::rules::accounting;
use crate::rules::accounting::Held;
use crate::rules::accounting::RulesLimitSurface;
use crate::rules::accounting::RulesStoreAccounting;
use crate::rules::limits::RulesStoreLimits;
use crate::rules::model;
use crate::rules::persist::always_encodes;
use crate::rules::persist::always_writes;
use crate::rules::persist::encoded_from;
use crate::rules::persist::hold;
use crate::rules::persist::may_not_encode;
use crate::rules::persist::may_not_write;
use crate::rules::persist::written;
use crate::rules::replace::retained;
use crate::rules::store::RulesStore;
use crate::rules::types::PersistedRulesStoreState;
use crate::rules::types::RuntimeMap;
use crate::rules::types::RuntimeView;
use crate::sizes;
use crate::text;

verus! {

/// A copy of the state held against the limit, before it is made and after.
pub open spec fn held_copy(
    limits: RulesStoreLimits,
    before: RulesStoreAccounting,
    state_bytes: usize,
    copy_bytes: usize,
) -> Held {
    Held::start(before).then_on(
        RulesLimitSurface::SnapshotStatus,
        sizes::sat_size(state_bytes * 2),
        limits.max_snapshot_status_bytes,
    ).then_on(
        RulesLimitSurface::SnapshotStatus,
        sizes::sat_size(state_bytes as int + copy_bytes),
        limits.max_snapshot_status_bytes,
    )
}

/// Whether a copy of the durable state may be held against the limit and written like this, with
/// the counters after it.
pub open spec fn copy_written_as<W: FnOnce(&Vec<u8>) -> Result<(), String>>(
    store: RulesStore,
    bytes: Vec<u8>,
    state_bytes: usize,
    room_bytes: usize,
    write: W,
    copied: Result<(), String>,
    after: RulesStoreAccounting,
) -> bool {
    let surface = RulesLimitSurface::SnapshotFile;
    let held = Held::start(store.accounting).and(
        RulesLimitSurface::DurableFile,
        surface,
        bytes@.len() as usize,
        store.limits.max_durable_file_bytes,
    );
    let seen = held.counters.observed(
        surface,
        sizes::sat_size(
            state_bytes as int + sizes::sat_size(model::allocation(bytes@.len()) as int),
        ),
    ).observed(surface, sizes::sat_size(state_bytes as int + room_bytes));
    if held.over is Some {
        &&& copied matches Err(message) && message@ == RulesLimitSurface::DurableFile.message_text()
        &&& after == held.counters
    } else {
        exists|outcome: Result<(), String>| #[trigger]
            call_ensures(write, (&bytes,), outcome) && if outcome is Ok {
                copied is Ok && after == seen
            } else {
                &&& copied matches Err(message) && message@ == "failed to write rules snapshot"@
                &&& after == seen.write_failed()
            }
    }
}

/// Whether a copy of the durable state may come out like this, with the counters after it. What the
/// bytes are measured to be is the allocator's choice.
#[verifier::opaque]
pub open spec fn copied_as<
    E: FnOnce(&PersistedRulesStoreState, &RuntimeMap) -> Option<Vec<u8>>,
    W: FnOnce(&Vec<u8>) -> Result<(), String>,
>(
    store: RulesStore,
    encode: E,
    write: W,
    copied: Result<(), String>,
    after: RulesStoreAccounting,
) -> bool {
    exists|given: PersistedRulesStoreState, over: RuntimeMap, encoded: Option<Vec<u8>>|
        given@ == store.state@ && over@ == Map::<Seq<char>, RuntimeView>::empty()
            && #[trigger] call_ensures(encode, (&given, &over), encoded) && match encoded {
            None => {
                &&& copied matches Err(message) && message@
                    == "failed to encode rules durable state"@
                &&& after == store.accounting
            },
            Some(bytes) => exists|state_bytes: usize, room_bytes: usize|
                state_bytes >= sizes::sat_size(model::state_cost(store.state@) as int)
                    && room_bytes >= sizes::sat_size(
                    model::list_cost::<u8>(bytes@.len()) as int,
                ) && #[trigger] copy_written_as(
                    store,
                    bytes,
                    state_bytes,
                    room_bytes,
                    write,
                    copied,
                    after,
                ),
        }
}

/// Whether nothing can refuse a copy of the durable state.
#[verifier::opaque]
pub open spec fn no_copy_refused<
    E: FnOnce(&PersistedRulesStoreState, &RuntimeMap) -> Option<Vec<u8>>,
    W: FnOnce(&Vec<u8>) -> Result<(), String>,
>(store: RulesStore, encode: E, write: W) -> bool {
    &&& store.limits.max_durable_file_bytes == usize::MAX
    &&& always_encodes(encode)
    &&& always_writes(write)
}

impl RulesStore {
    /// A copy of the state.
    pub fn snapshot(&mut self) -> (copy: Result<PersistedRulesStoreState, String>)
        ensures
            final(self).durable == old(self).durable,
            final(self).limits == old(self).limits,
            final(self).state == old(self).state,
            match copy {
                Ok(state) => state@ == old(self).state@ && final(self).accounting.only_peaks_rose(
                    old(self).accounting,
                ),
                Err(message) => {
                    &&& old(self).limits.max_snapshot_status_bytes < usize::MAX
                    &&& message@ == RulesLimitSurface::SnapshotStatus.message_text()
                    &&& final(self).accounting.rejected_once(
                        old(self).accounting,
                        RulesLimitSurface::SnapshotStatus,
                    )
                },
            },
            exists|state_bytes: usize, copy_bytes: usize|
                ({
                    let held = #[trigger] held_copy(
                        old(self).limits,
                        old(self).accounting,
                        state_bytes,
                        copy_bytes,
                    );
                    &&& model::state_measures(old(self).state@, state_bytes)
                    &&& model::state_measures(old(self).state@, copy_bytes)
                    &&& final(self).accounting == held.counters
                    &&& copy is Ok <==> held.over is None
                }),
    {
        let retained = model::modeled_rules_state_bytes(&self.state);
        let ghost first = held_copy(self.limits, self.accounting, retained, usize::MAX);
        proof {
            assert(self.accounting.only_peaks_rose(old(self).accounting));
        }
        match hold(
            &mut self.accounting,
            RulesLimitSurface::SnapshotStatus,
            sizes::times_size(retained, 2),
            self.limits.max_snapshot_status_bytes,
        ) {
            Err(message) => {
                return Err(message);
            },
            Ok(_) => {},
        }
        let copy = self.state.copied();
        let copy_bytes = model::modeled_rules_state_bytes(&copy);
        let ghost held = held_copy(self.limits, old(self).accounting, retained, copy_bytes);
        match hold(
            &mut self.accounting,
            RulesLimitSurface::SnapshotStatus,
            retained.saturating_add(copy_bytes),
            self.limits.max_snapshot_status_bytes,
        ) {
            Err(message) => Err(message),
            Ok(_) => Ok(copy),
        }
    }

    /// Writes a copy of the durable state elsewhere. A copy that is over the limit is not written.
    pub fn snapshot_into<
        E: FnOnce(&PersistedRulesStoreState, &RuntimeMap) -> Option<Vec<u8>>,
        W: FnOnce(&Vec<u8>) -> Result<(), String>,
    >(&mut self, encode: E, write: W) -> (copied: Result<(), String>)
        requires
            forall|state: &PersistedRulesStoreState, over: &RuntimeMap|
                state@ == old(self).state@ && over@ == Map::<Seq<char>, RuntimeView>::empty()
                    ==> #[trigger] call_requires(encode, (state, over)),
            forall|bytes: &Vec<u8>|
                encoded_from(encode, old(self).state@, Map::empty(), *bytes) && bytes@.len() <= old(
                    self,
                ).limits.max_durable_file_bytes ==> #[trigger] call_requires(write, (bytes,)),
        ensures
            final(self).durable == old(self).durable,
            final(self).limits == old(self).limits,
            final(self).state == old(self).state,
            match copied {
                Ok(_) => {
                    &&& exists|len: nat|
                        len <= old(self).limits.max_durable_file_bytes && #[trigger] written(
                            encode,
                            write,
                            old(self).state@,
                            Map::empty(),
                            len,
                        )
                    &&& final(self).accounting.only_peaks_rose(old(self).accounting)
                },
                Err(message) => {
                    ||| message@ == "failed to encode rules durable state"@ && may_not_encode(
                        encode,
                    ) && final(self).accounting == old(self).accounting
                    ||| message@ == RulesLimitSurface::DurableFile.message_text() && old(
                        self,
                    ).limits.max_durable_file_bytes < usize::MAX && final(self).accounting.rejected_once(
                        old(self).accounting,
                        RulesLimitSurface::SnapshotFile,
                    )
                    ||| message@ == "failed to write rules snapshot"@ && (exists|said: String|
                        may_not_write(write, said)) && final(self).accounting.only_peaks_rose(
                        old(self).accounting.write_failed(),
                    )
                },
            },
            no_copy_refused(*old(self), encode, write) ==> copied is Ok,
            copied_as(*old(self), encode, write, copied, final(self).accounting),
    {
        let ghost before = *self;
        let state_bytes = model::modeled_rules_state_bytes(&self.state);
        let nothing: RuntimeMap = KeyMap::new();
        let encoded = match encode(&self.state, &nothing) {
            None => {
                proof {
                    assert(call_ensures(encode, (&self.state, &nothing), None::<Vec<u8>>));
                    reveal(copied_as);
                    reveal(no_copy_refused);
                }
                return Err(text::owned("failed to encode rules durable state"));
            },
            Some(encoded) => encoded,
        };
        proof {
            assert(call_ensures(encode, (&self.state, &nothing), Some(encoded)));
            assert(encoded_from(encode, self.state@, Map::empty(), encoded));
        }
        let copied = self.write_copy(state_bytes, &encoded, write);
        proof {
            reveal(copied_as);
            reveal(no_copy_refused);
            if copied is Ok {
                assert(written(encode, write, self.state@, Map::empty(), encoded@.len()));
            }
        }
        copied
    }

    /// Holds a copy of the durable state against the limit, and writes it.
    fn write_copy<W: FnOnce(&Vec<u8>) -> Result<(), String>>(
        &mut self,
        state_bytes: usize,
        encoded: &Vec<u8>,
        write: W,
    ) -> (copied: Result<(), String>)
        requires
            encoded@.len() <= old(self).limits.max_durable_file_bytes ==> call_requires(
                write,
                (encoded,),
            ),
        ensures
            final(self).durable == old(self).durable,
            final(self).limits == old(self).limits,
            final(self).state == old(self).state,
            exists|room_bytes: usize|
                room_bytes >= sizes::sat_size(model::list_cost::<u8>(encoded@.len()) as int)
                    && #[trigger] copy_written_as(
                    *old(self),
                    *encoded,
                    state_bytes,
                    room_bytes,
                    write,
                    copied,
                    final(self).accounting,
                ),
            match copied {
                Ok(_) => {
                    &&& encoded@.len() <= old(self).limits.max_durable_file_bytes
                    &&& call_ensures(write, (encoded,), Ok::<(), String>(()))
                    &&& final(self).accounting.only_peaks_rose(old(self).accounting)
                },
                Err(message) => {
                    ||| message@ == RulesLimitSurface::DurableFile.message_text() && old(
                        self,
                    ).limits.max_durable_file_bytes < usize::MAX
                        && final(self).accounting.rejected_once(
                        old(self).accounting,
                        RulesLimitSurface::SnapshotFile,
                    )
                    ||| message@ == "failed to write rules snapshot"@ && (exists|said: String|
                        may_not_write(write, said)) && final(self).accounting.only_peaks_rose(
                        old(self).accounting.write_failed(),
                    )
                },
            },
    {
        let ghost before = *self;
        let encoded_len = encoded.len();
        let room_bytes = model::modeled_owned_vec_bytes(encoded);
        match self.accounting.enforce_limit_for_operation(
            RulesLimitSurface::DurableFile,
            RulesLimitSurface::SnapshotFile,
            encoded_len,
            self.limits.max_durable_file_bytes,
        ) {
            Err(error) => {
                let copied: Result<(), String> = Err(error.message());
                proof {
                    assert(copy_written_as(
                        before,
                        *encoded,
                        state_bytes,
                        room_bytes,
                        write,
                        copied,
                        self.accounting,
                    ));
                }
                return copied;
            },
            Ok(_) => {},
        }
        self.accounting.observe_peak(
            RulesLimitSurface::SnapshotFile,
            state_bytes.saturating_add(model::modeled_allocation_bytes(encoded_len)),
        );
        self.accounting.observe_peak(
            RulesLimitSurface::SnapshotFile,
            state_bytes.saturating_add(room_bytes),
        );
        let outcome = write(encoded);
        proof {
            assert(call_ensures(write, (encoded,), outcome));
            if outcome is Err {
                assert(may_not_write(write, outcome->Err_0));
            } else {
                let done = outcome->Ok_0;
                assert(done == ());
                assert(outcome == Ok::<(), String>(done));
            }
        }
        let copied: Result<(), String> = match outcome {
            Err(_) => {
                self.accounting.persistence_failure();
                Err(text::owned("failed to write rules snapshot"))
            },
            Ok(_) => Ok(()),
        };
        proof {
            assert(copy_written_as(
                before,
                *encoded,
                state_bytes,
                room_bytes,
                write,
                copied,
                self.accounting,
            ));
        }
        copied
    }
}

} // verus!
