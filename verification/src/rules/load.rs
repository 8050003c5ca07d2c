//! Loading the durable state of the rules store within finite limits.

use vstd::layout;
use vstd::prelude::*;

use crate::names;
use crate::rules::accounting;
use crate::rules::accounting::RulesLimitSurface;
use crate::rules::accounting::RulesStoreAccounting;
use crate::rules::accounting::RulesStoreError;
use crate::rules::accounting::StoreProblem;
use crate::rules::limits::RulesStoreLimits;
use crate::rules::model;
use crate::rules::types::PersistedRulesStoreState;
use crate::rules::types::RuleGroupSpec;
use crate::rules::types::RulesStateView;
use crate::rules::validate;
use crate::rules::validate::ChecksView;
use crate::rules::validate::RuleChecks;
use crate::sizes;

verus! {


/// The version of the durable file.
pub const RULES_STORE_SCHEMA_VERSION: u16 = 1;

/// The deepest nesting of the durable file.
pub const RULES_STARTUP_MAX_JSON_DEPTH: usize = 64;

/// A value of `serde_json`, of which only the size is used.
#[verifier::external_type_specification]
#[verifier::external_body]
pub struct ExJsonValue(serde_json::Value);

/// How far a scan of JSON has come: how deep it is, how many values it has seen begin, and whether
/// it is in a string or behind a backslash in one.
#[verifier::ext_equal]
pub struct JsonScan {
    pub depth: usize,
    pub structural_values: usize,
    pub in_string: bool,
    pub escaped: bool,
}

/// The scan with one more byte, or what is wrong.
pub open spec fn scan_byte(scan: JsonScan, byte: u8) -> Result<JsonScan, Seq<char>> {
    if scan.in_string {
        if scan.escaped {
            Ok(JsonScan { escaped: false, ..scan })
        } else if byte == 92 {
            Ok(JsonScan { escaped: true, ..scan })
        } else if byte == 34 {
            Ok(JsonScan { in_string: false, ..scan })
        } else {
            Ok(scan)
        }
    } else if byte == 34 {
        Ok(JsonScan { in_string: true, ..scan })
    } else if byte == 123 || byte == 91 {
        if sizes::sat_size(scan.depth + 1) > RULES_STARTUP_MAX_JSON_DEPTH {
            Err("rules store JSON exceeds its nesting-depth limit"@)
        } else {
            Ok(
                JsonScan {
                    depth: sizes::sat_size(scan.depth + 1),
                    structural_values: sizes::sat_size(scan.structural_values + 1),
                    ..scan
                },
            )
        }
    } else if byte == 125 || byte == 93 {
        if scan.depth == 0 {
            Err("rules store contains malformed JSON"@)
        } else {
            Ok(JsonScan { depth: (scan.depth - 1) as usize, ..scan })
        }
    } else if byte == 44 || byte == 58 {
        Ok(JsonScan { structural_values: sizes::sat_size(scan.structural_values + 1), ..scan })
    } else {
        Ok(scan)
    }
}

/// The scan of bytes, or what is wrong first.
pub open spec fn scan_bytes(bytes: Seq<u8>) -> Result<JsonScan, Seq<char>>
    decreases bytes.len(),
{
    if bytes.len() == 0 {
        Ok(JsonScan { depth: 0, structural_values: 0, in_string: false, escaped: false })
    } else {
        match scan_bytes(bytes.drop_last()) {
            Err(message) => Err(message),
            Ok(scan) => scan_byte(scan, bytes.last()),
        }
    }
}

/// The most that decoding bytes is modeled to take, or what is wrong with them.
pub open spec fn preflight(bytes: Seq<u8>) -> Result<usize, Seq<char>> {
    match scan_bytes(bytes) {
        Err(message) => Err(message),
        Ok(scan) => if scan.in_string || scan.escaped || scan.depth != 0 {
            Err("rules store contains malformed JSON"@)
        } else {
            Ok(
                sizes::sat_size(
                    bytes.len() * 2 + scan.structural_values * (
                    model::RULES_ALLOCATION_ALLOWANCE_BYTES + layout::size_of::<
                        serde_json::Value,
                    >()),
                ),
            )
        },
    }
}

proof fn lemma_scan_stops(bytes: Seq<u8>, n: int)
    requires
        0 <= n <= bytes.len(),
        scan_bytes(bytes.subrange(0, n)) is Err,
    ensures
        scan_bytes(bytes) == scan_bytes(bytes.subrange(0, n)),
    decreases bytes.len() - n,
{
    if n == bytes.len() {
        assert(bytes.subrange(0, n) =~= bytes);
    } else {
        assert(bytes.subrange(0, n + 1).drop_last() =~= bytes.subrange(0, n));
        lemma_scan_stops(bytes, n + 1);
    }
}

/// The most that decoding bytes is modeled to take, found without decoding them.
pub fn preflight_rules_json(raw: &Vec<u8>) -> (upper: Result<usize, RulesStoreError>)
    ensures
        match preflight(raw@) {
            Ok(bytes) => upper == Ok::<usize, RulesStoreError>(bytes),
            Err(message) => upper matches Err(RulesStoreError::Invalid(text)) && text@ == message,
        },
{
    let mut depth: usize = 0;
    let mut structural_values: usize = 0;
    let mut in_string: bool = false;
    let mut escaped: bool = false;
    let mut i: usize = 0;
    assert(raw@.subrange(0, 0) =~= Seq::empty());
    while i < raw.len()
        invariant
            i <= raw@.len(),
            scan_bytes(raw@.subrange(0, i as int)) == Ok::<JsonScan, Seq<char>>(
                (JsonScan { depth, structural_values, in_string, escaped }),
            ),
        decreases raw@.len() - i,
    {
        let byte: u8 = raw[i];
        proof {
            assert(raw@.subrange(0, i as int + 1).drop_last() =~= raw@.subrange(0, i as int));
            if scan_bytes(raw@.subrange(0, i as int + 1)) is Err {
                lemma_scan_stops(raw@, i as int + 1);
            }
        }
        if in_string {
            if escaped {
                escaped = false;
            } else if byte == 92 {
                escaped = true;
            } else if byte == 34 {
                in_string = false;
            }
        } else if byte == 34 {
            in_string = true;
        } else if byte == 123 || byte == 91 {
            depth = depth.saturating_add(1);
            structural_values = structural_values.saturating_add(1);
            if depth > RULES_STARTUP_MAX_JSON_DEPTH {
                return Err(
                    RulesStoreError::Invalid("rules store JSON exceeds its nesting-depth limit"),
                );
            }
        } else if byte == 125 || byte == 93 {
            if depth == 0 {
                return Err(RulesStoreError::Invalid("rules store contains malformed JSON"));
            }
            depth = depth - 1;
        } else if byte == 44 || byte == 58 {
            structural_values = structural_values.saturating_add(1);
        }
        i = i + 1;
    }
    assert(raw@.subrange(0, i as int) =~= raw@);
    if in_string || escaped || depth != 0 {
        return Err(RulesStoreError::Invalid("rules store contains malformed JSON"));
    }
    let each = model::RULES_ALLOCATION_ALLOWANCE_BYTES.saturating_add(
        core::mem::size_of::<serde_json::Value>(),
    );
    proof {
        let exact = model::RULES_ALLOCATION_ALLOWANCE_BYTES + layout::size_of::<
            serde_json::Value,
        >();
        lemma_saturated_product(structural_values as nat, exact as nat);
    }
    Ok(
        sizes::times_size(raw.len(), 2).saturating_add(
            sizes::times_size(structural_values, each),
        ),
    )
}

/// A product with a factor that was cut off at the largest machine word, cut off there too.
proof fn lemma_saturated_product(count: nat, size: nat)
    ensures
        sizes::sat_size(count * sizes::sat_size(size as int)) == sizes::sat_size(
            (count * size) as int,
        ),
{
    if size > usize::MAX && count > 0 {
        assert(count * usize::MAX >= usize::MAX) by (nonlinear_arith)
            requires
                count > 0,
        ;
        assert(count * size >= usize::MAX) by (nonlinear_arith)
            requires
                count > 0,
                size > usize::MAX,
        ;
    } else if count == 0 {
        assert(count * size == 0) by (nonlinear_arith)
            requires
                count == 0,
        ;
        assert(count * sizes::sat_size(size as int) == 0) by (nonlinear_arith)
            requires
                count == 0,
        ;
    }
}

/// What is wrong with the length of a durable file.
pub open spec fn file_problem(len: u64, limits: RulesStoreLimits) -> Option<StoreProblem> {
    if len > limits.max_durable_file_bytes {
        Some(StoreProblem::Limit(RulesLimitSurface::DurableFile))
    } else if len > limits.max_startup_transient_bytes {
        Some(StoreProblem::Limit(RulesLimitSurface::Startup))
    } else {
        None
    }
}

/// Checks the length of a durable file before it is read.
pub fn check_rules_file(len: u64, limits: &RulesStoreLimits) -> (checked: Result<
    (),
    RulesStoreError,
>)
    ensures
        accounting::checked_as(checked, file_problem(len, *limits)),
{
    if len > limits.max_durable_file_bytes as u64 {
        return Err(RulesStoreError::Limit(RulesLimitSurface::DurableFile));
    }
    if len > limits.max_startup_transient_bytes as u64 {
        return Err(RulesStoreError::Limit(RulesLimitSurface::Startup));
    }
    Ok(())
}

/// A durable file as it was decoded.
#[derive(Debug)]
pub struct PersistedRulesStore {
    pub magic: String,
    pub schema_version: u16,
    pub state: PersistedRulesStoreState,
}

/// Why a durable file could not be decoded: it holds something else, or more behind it.
#[derive(Debug, Clone, Copy, PartialEq, Eq, Structural)]
pub enum RulesDecodeError {
    Malformed,
    TrailingData,
}

/// A state that was loaded, the bytes of its file, and the most that loading it took.
#[derive(Debug)]
pub struct LoadedRulesStoreState {
    pub state: PersistedRulesStoreState,
    pub durable_file_bytes: usize,
    pub startup_transient_bytes: usize,
}

/// Whether a decoded file is of the format that is known.
pub open spec fn known_format(persisted: PersistedRulesStore) -> bool {
    persisted.magic@ == "tsink-rules-store"@ && persisted.schema_version
        == RULES_STORE_SCHEMA_VERSION
}

/// What is wrong with a decoded file, apart from the bytes it holds; every limit counts as one on
/// the startup, and every other fault is said alike.
pub open spec fn decoded_problem(
    persisted: PersistedRulesStore,
    checks: ChecksView,
    limits: RulesStoreLimits,
) -> Option<StoreProblem> {
    if !known_format(persisted) {
        Some(StoreProblem::Invalid("rules store has an unsupported durable format"@))
    } else {
        match validate::state_problem(persisted.state@, checks, limits) {
            None => None,
            Some(StoreProblem::Limit(_)) => Some(
                StoreProblem::Limit(RulesLimitSurface::Startup),
            ),
            Some(StoreProblem::Invalid(_)) => Some(
                StoreProblem::Invalid("rules store contains invalid bounded state"@),
            ),
        }
    }
}

/// Whether a decoded file comes out like this, with the counters before and after, when its state
/// is measured to hold a number of bytes when it is checked and again when it is kept. The file is
/// so long, and so much was held until it was decoded.
pub open spec fn accepted_as(
    limits: RulesStoreLimits,
    before: RulesStoreAccounting,
    len: usize,
    peak: usize,
    persisted: PersistedRulesStore,
    checks: ChecksView,
    checked_bytes: usize,
    kept_bytes: usize,
    loaded: Result<LoadedRulesStoreState, RulesStoreError>,
    after: RulesStoreAccounting,
) -> bool {
    let held = sizes::sat_size(len as int + kept_bytes);
    let rejected = before.rejected(RulesLimitSurface::Startup);
    match decoded_problem(persisted, checks, limits) {
        Some(problem) => {
            &&& loaded matches Err(error) && accounting::is_problem(error, problem)
            &&& after == if problem is Limit {
                rejected
            } else {
                before
            }
        },
        None => if checked_bytes > limits.max_total_retained_state_bytes || kept_bytes
            > limits.max_total_retained_state_bytes || held > limits.max_startup_transient_bytes {
            &&& loaded matches Err(error) && error == RulesStoreError::Limit(
                RulesLimitSurface::Startup,
            )
            &&& after == rejected
        } else {
            &&& loaded matches Ok(found) && found.state == persisted.state
                && found.durable_file_bytes == len && found.startup_transient_bytes
                == sizes::greatest(peak as int, held as int)
            &&& after == before
        },
    }
}

/// Whether a decoded file may come out like this. What its state is measured to hold is the
/// allocator's choice.
pub open spec fn may_be_accepted<C: FnOnce(&Vec<RuleGroupSpec>) -> RuleChecks>(
    limits: RulesStoreLimits,
    before: RulesStoreAccounting,
    len: usize,
    peak: usize,
    persisted: PersistedRulesStore,
    check: C,
    loaded: Result<LoadedRulesStoreState, RulesStoreError>,
    after: RulesStoreAccounting,
) -> bool {
    exists|checks: RuleChecks, checked_bytes: usize, kept_bytes: usize|
        decoded_as(check, persisted, checks) && model::state_measures(
            persisted.state@,
            checked_bytes,
        ) && model::state_measures(persisted.state@, kept_bytes) && #[trigger] accepted_as(
            limits,
            before,
            len,
            peak,
            persisted,
            checks@,
            checked_bytes,
            kept_bytes,
            loaded,
            after,
        )
}

/// Whether the durable file may be loaded like this, with the counters before and after.
pub open spec fn may_be_loaded<
    D: FnOnce(&Vec<u8>) -> Result<PersistedRulesStore, RulesDecodeError>,
    C: FnOnce(&Vec<RuleGroupSpec>) -> RuleChecks,
>(
    limits: RulesStoreLimits,
    before: RulesStoreAccounting,
    raw: Vec<u8>,
    decode: D,
    check: C,
    loaded: Result<LoadedRulesStoreState, RulesStoreError>,
    after: RulesStoreAccounting,
) -> bool {
    match preflight(raw@) {
        Err(message) => {
            &&& loaded matches Err(RulesStoreError::Invalid(text)) && text@ == message
            &&& after == before
        },
        Ok(upper) => {
            let peak = sizes::sat_size(raw@.len() as int + upper);
            let seen = before.observed(RulesLimitSurface::Startup, peak);
            if peak > limits.max_startup_transient_bytes {
                &&& loaded matches Err(error) && error == RulesStoreError::Limit(
                    RulesLimitSurface::Startup,
                )
                &&& after == seen.rejected(RulesLimitSurface::Startup)
            } else {
                exists|decoded: Result<PersistedRulesStore, RulesDecodeError>| #[trigger]
                    call_ensures(decode, (&raw,), decoded) && match decoded {
                        Err(RulesDecodeError::Malformed) => {
                            &&& loaded matches Err(RulesStoreError::Invalid(text)) && text@
                                == "rules store contains invalid durable state"@
                            &&& after == seen
                        },
                        Err(RulesDecodeError::TrailingData) => {
                            &&& loaded matches Err(RulesStoreError::Invalid(text)) && text@
                                == "rules store contains trailing data"@
                            &&& after == seen
                        },
                        Ok(persisted) => may_be_accepted(
                            limits,
                            seen,
                            raw@.len() as usize,
                            peak,
                            persisted,
                            check,
                            loaded,
                            after,
                        ),
                    }
            }
        },
    }
}

/// Whether this may be what is said of the groups of a decoded file of a known format; of another
/// format nothing is asked.
pub open spec fn decoded_as<C: FnOnce(&Vec<RuleGroupSpec>) -> RuleChecks>(
    check: C,
    persisted: PersistedRulesStore,
    checks: RuleChecks,
) -> bool {
    known_format(persisted) ==> call_ensures(check, (&persisted.state.groups,), checks)
}

/// Whether the durable file is decoded: nothing is wrong with its bytes, and what is held to decode
/// them is within the limit.
pub open spec fn decodes(limits: RulesStoreLimits, raw: Seq<u8>) -> bool {
    preflight(raw) matches Ok(upper) && sizes::sat_size(raw.len() as int + upper)
        <= limits.max_startup_transient_bytes
}

/// Whether groups may be those of a decoded file of a known format.
pub open spec fn decoded_groups<D: FnOnce(&Vec<u8>) -> Result<PersistedRulesStore, RulesDecodeError>>(
    decode: D,
    raw: Vec<u8>,
    groups: Vec<RuleGroupSpec>,
) -> bool {
    exists|persisted: PersistedRulesStore| #[trigger]
        call_ensures(decode, (&raw,), Ok(persisted)) && known_format(persisted)
            && persisted.state.groups == groups
}

fn is_known_format(persisted: &PersistedRulesStore) -> (known: bool)
    ensures
        known == known_format(*persisted),
{
    names::same_text(persisted.magic.as_str(), "tsink-rules-store") && persisted.schema_version
        == RULES_STORE_SCHEMA_VERSION
}

/// Checks a decoded file, and holds its state against the limits, when it is measured to hold a
/// number of bytes when it is checked and again when it is kept. The file is so long, and so much
/// was held until it was decoded.
pub fn accept_measured(
    limits: &RulesStoreLimits,
    counters: &mut RulesStoreAccounting,
    len: usize,
    peak: usize,
    persisted: PersistedRulesStore,
    checks: &RuleChecks,
    checked_bytes: usize,
    kept_bytes: usize,
) -> (loaded: Result<LoadedRulesStoreState, RulesStoreError>)
    ensures
        accepted_as(
            *limits,
            *old(counters),
            len,
            peak,
            persisted,
            checks@,
            checked_bytes,
            kept_bytes,
            loaded,
            *final(counters),
        ),
{
    if !is_known_format(&persisted) {
        return Err(RulesStoreError::Invalid("rules store has an unsupported durable format"));
    }
    match validate::validate_state_contents(&persisted.state, checks, limits) {
        Err(RulesStoreError::Limit(_)) => {
            counters.reject(RulesLimitSurface::Startup);
            return Err(RulesStoreError::Limit(RulesLimitSurface::Startup));
        },
        Err(_) => {
            return Err(RulesStoreError::Invalid("rules store contains invalid bounded state"));
        },
        Ok(_) => {},
    }
    let held = len.saturating_add(kept_bytes);
    if validate::check_retained(checked_bytes, limits).is_err() || kept_bytes
        > limits.max_total_retained_state_bytes || held > limits.max_startup_transient_bytes {
        counters.reject(RulesLimitSurface::Startup);
        return Err(RulesStoreError::Limit(RulesLimitSurface::Startup));
    }
    Ok(
        LoadedRulesStoreState {
            state: persisted.state,
            durable_file_bytes: len,
            startup_transient_bytes: sizes::max_size(peak, held),
        },
    )
}

/// Checks a decoded file, and holds its state against the limits: `check` says what the storage and
/// the query language say of its groups, and is not asked for a file of another format. The file is
/// so long, and so much was held until it was decoded.
pub fn accept_decoded<C: FnOnce(&Vec<RuleGroupSpec>) -> RuleChecks>(
    limits: &RulesStoreLimits,
    counters: &mut RulesStoreAccounting,
    len: usize,
    peak: usize,
    persisted: PersistedRulesStore,
    check: C,
) -> (loaded: Result<LoadedRulesStoreState, RulesStoreError>)
    requires
        known_format(persisted) ==> call_requires(check, (&persisted.state.groups,)),
    ensures
        may_be_accepted(
            *limits,
            *old(counters),
            len,
            peak,
            persisted,
            check,
            loaded,
            *final(counters),
        ),
{
    let ghost before = *counters;
    if !is_known_format(&persisted) {
        let loaded: Result<LoadedRulesStoreState, RulesStoreError> = Err(
            RulesStoreError::Invalid("rules store has an unsupported durable format"),
        );
        proof {
            let some: RuleChecks = arbitrary();
            assert(decoded_as(check, persisted, some));
            assert(accepted_as(
                *limits,
                before,
                len,
                peak,
                persisted,
                some@,
                usize::MAX,
                usize::MAX,
                loaded,
                before,
            ));
        }
        return loaded;
    }
    let checks = check(&persisted.state.groups);
    let checked_bytes = model::modeled_rules_state_bytes(&persisted.state);
    let kept_bytes = model::modeled_rules_state_bytes(&persisted.state);
    let ghost given = persisted;
    let loaded = accept_measured(
        limits,
        counters,
        len,
        peak,
        persisted,
        &checks,
        checked_bytes,
        kept_bytes,
    );
    proof {
        assert(decoded_as(check, given, checks));
        assert(accepted_as(
            *limits,
            before,
            len,
            peak,
            given,
            checks@,
            checked_bytes,
            kept_bytes,
            loaded,
            *counters,
        ));
    }
    loaded
}

/// Loads the state from the bytes of its durable file, if there is one: `decode` decodes the bytes
/// and `check` says what the storage and the query language say of its groups. Bytes that something
/// is wrong with, or that would take too much to decode, are not decoded.
pub fn load_rules_store_state<
    D: FnOnce(&Vec<u8>) -> Result<PersistedRulesStore, RulesDecodeError>,
    C: FnOnce(&Vec<RuleGroupSpec>) -> RuleChecks,
>(
    limits: &RulesStoreLimits,
    counters: &mut RulesStoreAccounting,
    raw: &Option<Vec<u8>>,
    decode: D,
    check: C,
) -> (loaded: Result<LoadedRulesStoreState, RulesStoreError>)
    requires
        forall|bytes: &Vec<u8>|
            *raw == Some(*bytes) && decodes(*limits, bytes@) ==> #[trigger] call_requires(
                decode,
                (bytes,),
            ),
        forall|bytes: Vec<u8>, groups: &Vec<RuleGroupSpec>|
            *raw == Some(bytes) && decodes(*limits, bytes@) && #[trigger] decoded_groups(
                decode,
                bytes,
                *groups,
            ) ==> call_requires(check, (groups,)),
    ensures
        match raw {
            None => loaded matches Ok(found) && found.state@ == (RulesStateView {
                groups: Seq::empty(),
                runtime: Map::empty(),
            }) && found.durable_file_bytes == 0 && found.startup_transient_bytes == 0
                && *final(counters) == *old(counters),
            Some(bytes) => may_be_loaded(
                *limits,
                *old(counters),
                *bytes,
                decode,
                check,
                loaded,
                *final(counters),
            ),
        },
{
    let raw = match raw {
        None => {
            return Ok(
                LoadedRulesStoreState {
                    state: PersistedRulesStoreState::empty(),
                    durable_file_bytes: 0,
                    startup_transient_bytes: 0,
                },
            );
        },
        Some(raw) => raw,
    };
    let upper = match preflight_rules_json(raw) {
        Err(error) => {
            return Err(error);
        },
        Ok(upper) => upper,
    };
    let peak = raw.len().saturating_add(upper);
    counters.observe_peak(RulesLimitSurface::Startup, peak);
    if peak > limits.max_startup_transient_bytes {
        counters.reject(RulesLimitSurface::Startup);
        return Err(RulesStoreError::Limit(RulesLimitSurface::Startup));
    }
    let decoded = decode(raw);
    proof {
        assert(call_ensures(decode, (raw,), decoded));
    }
    match decoded {
        Err(error) => Err(
            match error {
                RulesDecodeError::Malformed => RulesStoreError::Invalid(
                    "rules store contains invalid durable state",
                ),
                RulesDecodeError::TrailingData => RulesStoreError::Invalid(
                    "rules store contains trailing data",
                ),
            },
        ),
        Ok(persisted) => {
            proof {
                assert(known_format(persisted) ==> decoded_groups(
                    decode,
                    *raw,
                    persisted.state.groups,
                ));
            }
            accept_decoded(limits, counters, raw.len(), peak, persisted, check)
        },
    }
}

} // verus!
