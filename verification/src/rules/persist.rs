//! Writing the state of the rules store within its limits.

use vstd::prelude::*;

use crate::ordered::Copied;
use crate::rules::accounting;
use crate::rules::accounting::Held;
use crate::rules::accounting::RulesLimitSurface;
use crate::rules::accounting::RulesStoreAccounting;
use crate::rules::accounting::RulesStoreError;
use crate::rules::limits::RulesStoreLimits;
use crate::rules::model;
use crate::rules::replace::replaced;
use crate::rules::store::RulesStore;
use crate::rules::types::PersistedRulesStoreState;
use crate::rules::types::RulesStateView;
use crate::rules::types::RuntimeMap;
use crate::rules::types::RuntimeView;
use crate::sizes;

verus! {

/// Whether the state, with some of what is known of evaluations replaced, may be encoded as a
/// number of bytes and was written.
pub open spec fn written<
    E: FnOnce(&PersistedRulesStoreState, &RuntimeMap) -> Option<Vec<u8>>,
    W: FnOnce(&Vec<u8>) -> Result<(), String>,
>(encode: E, write: W, state: RulesStateView, replacements: Map<Seq<char>, RuntimeView>, len: nat) -> bool {
    exists|
        given: PersistedRulesStoreState,
        over: RuntimeMap,
        bytes: Vec<u8>,
        outcome: Result<(), String>,
    |
        given@ == state && over@ == replacements && bytes@.len() == len && outcome is Ok
            && #[trigger] call_ensures(encode, (&given, &over), Some(bytes)) && #[trigger] call_ensures(
            write,
            (&bytes,),
            outcome,
        )
}

/// Whether bytes may be what a state is encoded to, with some of what is known of evaluations
/// replaced.
pub open spec fn encoded_from<
    E: FnOnce(&PersistedRulesStoreState, &RuntimeMap) -> Option<Vec<u8>>,
>(
    encode: E,
    state: RulesStateView,
    replacements: Map<Seq<char>, RuntimeView>,
    bytes: Vec<u8>,
) -> bool {
    exists|given: PersistedRulesStoreState, over: RuntimeMap|
        given@ == state && over@ == replacements && #[trigger] call_ensures(
            encode,
            (&given, &over),
            Some(bytes),
        )
}

/// Whether bytes may be written by an operation on a surface that holds at least so much besides:
/// they are what the state is encoded to, and they are within the limits on the file and on what
/// the operation holds.
#[verifier::opaque]
pub open spec fn writable<
    E: FnOnce(&PersistedRulesStoreState, &RuntimeMap) -> Option<Vec<u8>>,
>(
    limits: RulesStoreLimits,
    surface: RulesLimitSurface,
    resident: nat,
    encode: E,
    state: RulesStateView,
    replacements: Map<Seq<char>, RuntimeView>,
    bytes: Vec<u8>,
) -> bool {
    &&& encoded_from(encode, state, replacements, bytes)
    &&& bytes@.len() <= limits.max_durable_file_bytes
    &&& sizes::sat_size(resident + model::allocation(bytes@.len()) as int) <= transient_limit(
        limits,
        surface,
    )
}

/// Bytes that may be written beside more may be written beside less.
pub(crate) proof fn lemma_writable_beside_less<
    E: FnOnce(&PersistedRulesStoreState, &RuntimeMap) -> Option<Vec<u8>>,
>(
    limits: RulesStoreLimits,
    surface: RulesLimitSurface,
    more: nat,
    less: nat,
    encode: E,
    state: RulesStateView,
    replacements: Map<Seq<char>, RuntimeView>,
)
    requires
        more >= sizes::sat_size(less as int),
    ensures
        forall|bytes: Vec<u8>| #[trigger]
            writable(limits, surface, more, encode, state, replacements, bytes) ==> writable(
                limits,
                surface,
                less,
                encode,
                state,
                replacements,
                bytes,
            ),
{
    reveal(writable);
}

/// Whether encoding always succeeds.
pub open spec fn always_encodes<
    E: FnOnce(&PersistedRulesStoreState, &RuntimeMap) -> Option<Vec<u8>>,
>(encode: E) -> bool {
    forall|
        state: &PersistedRulesStoreState,
        over: &RuntimeMap,
        bytes: Option<Vec<u8>>,
    | #[trigger]
        call_ensures(encode, (state, over), bytes) ==> bytes is Some
}

/// Whether writing always succeeds.
pub open spec fn always_writes<W: FnOnce(&Vec<u8>) -> Result<(), String>>(write: W) -> bool {
    forall|bytes: &Vec<u8>, outcome: Result<(), String>| #[trigger]
        call_ensures(write, (bytes,), outcome) ==> outcome is Ok
}

/// Whether writing may fail like this.
pub open spec fn may_not_write<W: FnOnce(&Vec<u8>) -> Result<(), String>>(
    write: W,
    message: String,
) -> bool {
    exists|bytes: Vec<u8>| #[trigger]
        call_ensures(write, (&bytes,), Err::<(), String>(message))
}

/// Whether encoding may fail.
pub open spec fn may_not_encode<
    E: FnOnce(&PersistedRulesStoreState, &RuntimeMap) -> Option<Vec<u8>>,
>(encode: E) -> bool {
    exists|state: PersistedRulesStoreState, over: RuntimeMap| #[trigger]
        call_ensures(encode, (&state, &over), None::<Vec<u8>>)
}

/// The limit on what an operation holds while it writes the state.
pub open spec fn transient_limit(limits: RulesStoreLimits, surface: RulesLimitSurface) -> usize {
    match surface {
        RulesLimitSurface::RuntimeUpdate => limits.max_runtime_update_transient_bytes,
        RulesLimitSurface::SnapshotStatus => limits.max_snapshot_status_bytes,
        _ => limits.max_replacement_transient_bytes,
    }
}

fn limit_of(limits: &RulesStoreLimits, surface: RulesLimitSurface) -> (limit: usize)
    ensures
        limit == transient_limit(*limits, surface),
{
    match surface {
        RulesLimitSurface::RuntimeUpdate => limits.max_runtime_update_transient_bytes,
        RulesLimitSurface::SnapshotStatus => limits.max_snapshot_status_bytes,
        _ => limits.max_replacement_transient_bytes,
    }
}

/// Whether an operation on a surface may fail to write the state like this, with the counters
/// before and after.
pub open spec fn write_refusal<
    E: FnOnce(&PersistedRulesStoreState, &RuntimeMap) -> Option<Vec<u8>>,
    W: FnOnce(&Vec<u8>) -> Result<(), String>,
>(
    limits: RulesStoreLimits,
    surface: RulesLimitSurface,
    encode: E,
    write: W,
    error: RulesStoreError,
    before: RulesStoreAccounting,
    after: RulesStoreAccounting,
) -> bool {
    match error {
        RulesStoreError::Limit(over) => {
            &&& over == surface && transient_limit(limits, surface) < usize::MAX || over
                == RulesLimitSurface::DurableFile && limits.max_durable_file_bytes < usize::MAX
            &&& after.rejected_once(before, surface)
        },
        RulesStoreError::Internal(message) => {
            &&& message@ == "failed to encode rules durable state"@
            &&& may_not_encode(encode)
            &&& after.only_peaks_rose(before)
        },
        RulesStoreError::Persistence(message) => {
            &&& may_not_write(write, message)
            &&& after.only_peaks_rose(before.write_failed())
        },
        RulesStoreError::Invalid(_) => false,
    }
}

/// The bytes of an encoded state held against the limits, with the bytes that an operation holds
/// besides and the room that the encoded state has.
pub open spec fn held_encoded(
    limits: RulesStoreLimits,
    surface: RulesLimitSurface,
    resident: usize,
    len: usize,
    room_bytes: usize,
    before: RulesStoreAccounting,
) -> Held {
    let limit = transient_limit(limits, surface);
    Held::start(before).and(
        RulesLimitSurface::DurableFile,
        surface,
        len,
        limits.max_durable_file_bytes,
    ).then_on(
        surface,
        sizes::sat_size(resident as int + sizes::sat_size(model::allocation(len as nat) as int)),
        limit,
    ).then_on(surface, sizes::sat_size(resident as int + room_bytes), limit)
}

/// Whether an encoded state may be written like this, with the counters before and after.
pub open spec fn bytes_written_as<W: FnOnce(&Vec<u8>) -> Result<(), String>>(
    write: W,
    bytes: Vec<u8>,
    before: Held,
    persisted: Result<Option<usize>, RulesStoreError>,
    after: RulesStoreAccounting,
) -> bool {
    match before.over {
        Some(surface) => {
            &&& persisted == Err::<Option<usize>, RulesStoreError>(RulesStoreError::Limit(surface))
            &&& after == before.counters
        },
        None => exists|outcome: Result<(), String>| #[trigger]
            call_ensures(write, (&bytes,), outcome) && match outcome {
                Ok(_) => {
                    &&& persisted == Ok::<Option<usize>, RulesStoreError>(
                        Some(bytes@.len() as usize),
                    )
                    &&& after == before.counters
                },
                Err(message) => {
                    &&& persisted == Err::<Option<usize>, RulesStoreError>(
                        RulesStoreError::Persistence(message),
                    )
                    &&& after == before.counters.write_failed()
                },
            },
    }
}

/// Whether an encoded state may be held against the limits and written like this, with the counters
/// before and after. The room that it has is the allocator's choice.
pub open spec fn encoded_written_as<W: FnOnce(&Vec<u8>) -> Result<(), String>>(
    limits: RulesStoreLimits,
    surface: RulesLimitSurface,
    resident: usize,
    write: W,
    bytes: Vec<u8>,
    before: RulesStoreAccounting,
    persisted: Result<Option<usize>, RulesStoreError>,
    after: RulesStoreAccounting,
) -> bool {
    exists|room_bytes: usize|
        room_bytes >= sizes::sat_size(model::list_cost::<u8>(bytes@.len()) as int)
            && #[trigger] bytes_written_as(
            write,
            bytes,
            held_encoded(
                limits,
                surface,
                resident,
                bytes@.len() as usize,
                room_bytes,
                before,
            ),
            persisted,
            after,
        )
}

/// Whether a state, with some of what is known of evaluations replaced, may be encoded and written
/// like this by an operation on a surface that holds bytes besides, with the counters before and
/// after.
#[verifier::opaque]
pub open spec fn persisted_as<
    E: FnOnce(&PersistedRulesStoreState, &RuntimeMap) -> Option<Vec<u8>>,
    W: FnOnce(&Vec<u8>) -> Result<(), String>,
>(
    limits: RulesStoreLimits,
    surface: RulesLimitSurface,
    resident: usize,
    encode: E,
    write: W,
    state: RulesStateView,
    replacements: Map<Seq<char>, RuntimeView>,
    before: RulesStoreAccounting,
    persisted: Result<Option<usize>, RulesStoreError>,
    after: RulesStoreAccounting,
) -> bool {
    exists|given: PersistedRulesStoreState, over: RuntimeMap, encoded: Option<Vec<u8>>|
        given@ == state && over@ == replacements && #[trigger] call_ensures(
            encode,
            (&given, &over),
            encoded,
        ) && match encoded {
            None => {
                &&& persisted matches Err(RulesStoreError::Internal(message)) && message@
                    == "failed to encode rules durable state"@
                &&& after == before
            },
            Some(bytes) => encoded_written_as(
                limits,
                surface,
                resident,
                write,
                bytes,
                before,
                persisted,
                after,
            ),
        }
}

/// Holds the bytes of an encoded state against the limits.
fn hold_encoded(
    limits: &RulesStoreLimits,
    accounting: &mut RulesStoreAccounting,
    surface: RulesLimitSurface,
    resident: usize,
    len: usize,
    room_bytes: usize,
) -> (held: Result<(), RulesStoreError>)
    ensures
        ({
            let stated = held_encoded(
                *limits,
                surface,
                resident,
                len,
                room_bytes,
                *old(accounting),
            );
            &&& *final(accounting) == stated.counters
            &&& match stated.over {
                None => held is Ok,
                Some(over) => held == Err::<(), RulesStoreError>(RulesStoreError::Limit(over)),
            }
        }),
        match held {
            Ok(_) => {
                &&& len <= limits.max_durable_file_bytes
                &&& sizes::sat_size(resident + model::allocation(len as nat) as int)
                    <= transient_limit(*limits, surface)
                &&& final(accounting).only_peaks_rose(*old(accounting))
            },
            Err(RulesStoreError::Limit(over)) => {
                &&& over == surface && transient_limit(*limits, surface) < usize::MAX || over
                    == RulesLimitSurface::DurableFile && limits.max_durable_file_bytes < usize::MAX
                &&& final(accounting).rejected_once(*old(accounting), surface)
            },
            Err(_) => false,
        },
{
    let limit = limit_of(limits, surface);
    match accounting.enforce_limit_for_operation(
        RulesLimitSurface::DurableFile,
        surface,
        len,
        limits.max_durable_file_bytes,
    ) {
        Err(error) => {
            return Err(error);
        },
        Ok(_) => {},
    }
    match accounting.enforce_limit(
        surface,
        resident.saturating_add(model::modeled_allocation_bytes(len)),
        limit,
    ) {
        Err(error) => {
            return Err(error);
        },
        Ok(_) => {},
    }
    accounting.enforce_limit(surface, resident.saturating_add(room_bytes), limit)
}

/// Holds an encoded state against the limits, and writes it.
fn write_encoded<W: FnOnce(&Vec<u8>) -> Result<(), String>>(
    limits: &RulesStoreLimits,
    accounting: &mut RulesStoreAccounting,
    surface: RulesLimitSurface,
    resident: usize,
    encoded: &Vec<u8>,
    write: W,
) -> (persisted: Result<Option<usize>, RulesStoreError>)
    requires
        encoded@.len() <= limits.max_durable_file_bytes && sizes::sat_size(
            resident + model::allocation(encoded@.len()) as int,
        ) <= transient_limit(*limits, surface) ==> call_requires(write, (encoded,)),
    ensures
        encoded_written_as(
            *limits,
            surface,
            resident,
            write,
            *encoded,
            *old(accounting),
            persisted,
            *final(accounting),
        ),
        match persisted {
            Ok(None) => false,
            Ok(Some(len)) => {
                &&& len == encoded@.len()
                &&& len <= limits.max_durable_file_bytes
                &&& call_ensures(write, (encoded,), Ok::<(), String>(()))
                &&& final(accounting).only_peaks_rose(*old(accounting))
            },
            Err(RulesStoreError::Limit(over)) => {
                &&& over == surface && transient_limit(*limits, surface) < usize::MAX || over
                    == RulesLimitSurface::DurableFile && limits.max_durable_file_bytes < usize::MAX
                &&& final(accounting).rejected_once(*old(accounting), surface)
            },
            Err(RulesStoreError::Persistence(message)) => {
                &&& call_ensures(write, (encoded,), Err::<(), String>(message))
                &&& final(accounting).only_peaks_rose(old(accounting).write_failed())
            },
            Err(_) => false,
        },
{
    let encoded_len = encoded.len();
    let room_bytes = model::modeled_owned_vec_bytes(encoded);
    let ghost before = *accounting;
    let ghost held = held_encoded(*limits, surface, resident, encoded_len, room_bytes, before);
    if let Err(error) = hold_encoded(
        limits,
        accounting,
        surface,
        resident,
        encoded_len,
        room_bytes,
    ) {
        proof {
            assert(bytes_written_as(write, *encoded, held, Err(error), *accounting));
        }
        return Err(error);
    }
    let outcome = write(encoded);
    proof {
        assert(call_ensures(write, (encoded,), outcome));
    }
    match outcome {
        Err(message) => {
            accounting.persistence_failure();
            let persisted: Result<Option<usize>, RulesStoreError> = Err(
                RulesStoreError::Persistence(message),
            );
            proof {
                assert(bytes_written_as(write, *encoded, held, persisted, *accounting));
            }
            persisted
        },
        Ok(done) => {
            proof {
                assert(outcome == Ok::<(), String>(()));
                assert(bytes_written_as(
                    write,
                    *encoded,
                    held,
                    Ok(Some(encoded_len)),
                    *accounting,
                ));
            }
            Ok(Some(encoded_len))
        },
    }
}

impl RulesStore {
    pub(crate) fn persist_serializable_state<
        E: FnOnce(&PersistedRulesStoreState, &RuntimeMap) -> Option<Vec<u8>>,
        W: FnOnce(&Vec<u8>) -> Result<(), String>,
    >(
        durable: bool,
        limits: &RulesStoreLimits,
        accounting: &mut RulesStoreAccounting,
        state: &PersistedRulesStoreState,
        replacements: &RuntimeMap,
        surface: RulesLimitSurface,
        resident_transient_bytes: usize,
        encode: E,
        write: W,
    ) -> (persisted: Result<Option<usize>, RulesStoreError>)
        requires
            durable ==> call_requires(encode, (state, replacements)),
            forall|bytes: &Vec<u8>|
                durable && writable(
                    *limits,
                    surface,
                    resident_transient_bytes as nat,
                    encode,
                    state@,
                    replacements@,
                    *bytes,
                ) ==> #[trigger] call_requires(write, (bytes,)),
        ensures
            match persisted {
                Ok(None) => !durable && *final(accounting) == *old(accounting),
                Ok(Some(len)) => {
                    &&& durable
                    &&& len <= limits.max_durable_file_bytes
                    &&& written(encode, write, state@, replacements@, len as nat)
                    &&& final(accounting).only_peaks_rose(*old(accounting))
                },
                Err(error) => durable && write_refusal(
                    *limits,
                    surface,
                    encode,
                    write,
                    error,
                    *old(accounting),
                    *final(accounting),
                ),
            },
            durable ==> persisted_as(
                *limits,
                surface,
                resident_transient_bytes,
                encode,
                write,
                state@,
                replacements@,
                *old(accounting),
                persisted,
                *final(accounting),
            ),
    {
        if !durable {
            return Ok(None);
        }
        let encoded = match encode(state, replacements) {
            None => {
                proof {
                    assert(call_ensures(encode, (state, replacements), None::<Vec<u8>>));
                    reveal(persisted_as);
                }
                return Err(RulesStoreError::Internal("failed to encode rules durable state"));
            },
            Some(encoded) => encoded,
        };
        proof {
            assert(call_ensures(encode, (state, replacements), Some(encoded)));
            reveal(writable);
            assert(encoded_from(encode, state@, replacements@, encoded));
        }
        let persisted = write_encoded(
            limits,
            accounting,
            surface,
            resident_transient_bytes,
            &encoded,
            write,
        );
        proof {
            reveal(persisted_as);
        }
        persisted
    }
}

/// Peaks that rose twice rose.
pub(crate) proof fn lemma_peaks_twice(
    before: RulesStoreAccounting,
    between: RulesStoreAccounting,
    after: RulesStoreAccounting,
)
    ensures
        between.only_peaks_rose(before) && after.only_peaks_rose(between) ==> after.only_peaks_rose(
            before,
        ),
{
}

/// Holds a number of bytes against a limit; seen from any earlier counters of which only peaks
/// rose, either again only peaks rose or one rejection was counted.
pub(crate) fn hold(
    accounting: &mut RulesStoreAccounting,
    surface: RulesLimitSurface,
    observed: usize,
    limit: usize,
) -> (held: Result<(), String>)
    ensures
        match held {
            Ok(_) => observed <= limit,
            Err(message) => observed > limit && message@ == surface.message_text(),
        },
        *final(accounting) == Held::start(*old(accounting)).then_on(
            surface,
            observed,
            limit,
        ).counters,
        forall|before: RulesStoreAccounting| #[trigger]
            old(accounting).only_peaks_rose(before) ==> if held is Ok {
                final(accounting).only_peaks_rose(before)
            } else {
                final(accounting).rejected_once(before, surface)
            },
{
    match accounting.enforce_limit(surface, observed, limit) {
        Err(error) => Err(error.message()),
        Ok(_) => Ok(()),
    }
}

} // verus!
