//! Replacing the groups of the rules store.

use vstd::layout;
use vstd::prelude::*;

use crate::ordered::Copied;
use crate::ordered::KeyMap;
use crate::rules::accounting;
use crate::rules::accounting::Held;
use crate::rules::accounting::RulesLimitSurface;
use crate::rules::accounting::RulesStoreAccounting;
use crate::rules::accounting::RulesStoreError;
use crate::rules::accounting::StoreProblem;
use crate::rules::fingerprint;
use crate::rules::limits::RulesStoreLimits;
use crate::rules::model;
use crate::rules::persist::always_encodes;
use crate::rules::persist::always_writes;
use crate::rules::persist::hold;
use crate::rules::persist::lemma_peaks_twice;
use crate::rules::persist::lemma_writable_beside_less;
use crate::rules::persist::may_not_encode;
use crate::rules::persist::may_not_write;
use crate::rules::persist::persisted_as;
use crate::rules::persist::writable;
use crate::rules::persist::written;
use crate::rules::restart;
use crate::rules::store::RulesApplyError;
use crate::rules::store::RulesStore;
use crate::rules::types;
use crate::rules::types::PersistedRuleRuntimeState;
use crate::rules::types::PersistedRulesStoreState;
use crate::rules::types::RuleGroupSpec;
use crate::rules::types::RuleGroupView;
use crate::rules::types::RulesStateView;
use crate::rules::types::RuntimeMap;
use crate::rules::types::RuntimeView;
use crate::rules::validate;
use crate::rules::validate::ChecksView;
use crate::rules::validate::RuleChecks;
use crate::sizes;
use crate::stable;
use crate::text;

verus! {

/// The rules of a group by identifier, each with its fingerprint.
pub open spec fn group_definitions(group: RuleGroupView) -> Seq<(Seq<char>, u64)> {
    Seq::new(
        group.rules.len(),
        |i: int|
            (
                types::id_of(group, group.rules[i]),
                fingerprint::fingerprint_of(group, group.rules[i]),
            ),
    )
}

/// The rules of groups by identifier, each with its fingerprint.
pub open spec fn definitions(groups: Seq<RuleGroupView>) -> Seq<(Seq<char>, u64)>
    decreases groups.len(),
{
    if groups.len() == 0 {
        Seq::empty()
    } else {
        definitions(groups.drop_last()) + group_definitions(groups.last())
    }
}

/// What is known of a rule after the groups were replaced: what was known before, if its definition
/// is the same, and otherwise nothing.
pub open spec fn carried(
    before: Map<Seq<char>, RuntimeView>,
    id: Seq<char>,
    fingerprint: u64,
) -> RuntimeView {
    if before.contains_key(id) && before[id].fingerprint == fingerprint {
        before[id]
    } else {
        types::fresh_runtime(fingerprint)
    }
}

/// What is known of rules after the groups were replaced.
pub open spec fn retained(
    rules: Seq<(Seq<char>, u64)>,
    before: Map<Seq<char>, RuntimeView>,
) -> Map<Seq<char>, RuntimeView>
    decreases rules.len(),
{
    if rules.len() == 0 {
        Map::empty()
    } else {
        retained(rules.drop_last(), before).insert(
            rules.last().0,
            carried(before, rules.last().0, rules.last().1),
        )
    }
}

/// The state after the groups were replaced.
pub open spec fn replaced(before: RulesStateView, groups: Seq<RuleGroupView>) -> RulesStateView {
    RulesStateView { groups, runtime: retained(definitions(groups), before.runtime) }
}

/// Whether groups may be written: the store is on disk, they are valid, and the state that they
/// lead to is within the limits, also beside the state that there is.
pub open spec fn groups_writable(
    store: RulesStore,
    groups: Seq<RuleGroupView>,
    checks: ChecksView,
) -> bool {
    let then = replaced(store.state@, groups);
    &&& store.durable
    &&& validate::groups_problem(groups, checks, store.limits) is None
    &&& sizes::sat_size(model::state_cost(then) as int)
        <= store.limits.max_total_retained_state_bytes
    &&& sizes::sat_size(model::state_cost(store.state@) as int + model::state_cost(then))
        <= store.limits.max_replacement_transient_bytes
}

/// Whether bytes may be what groups are written as: the groups may be written, and the bytes are
/// what the state that they lead to is encoded to, within the limits.
pub open spec fn writes_groups<
    E: FnOnce(&PersistedRulesStoreState, &RuntimeMap) -> Option<Vec<u8>>,
>(
    store: RulesStore,
    groups: Seq<RuleGroupView>,
    checks: ChecksView,
    encode: E,
    bytes: Vec<u8>,
) -> bool {
    &&& groups_writable(store, groups, checks)
    &&& writable(
        store.limits,
        RulesLimitSurface::Replacement,
        model::state_cost(store.state@) + model::state_cost(replaced(store.state@, groups)),
        encode,
        replaced(store.state@, groups),
        Map::empty(),
        bytes,
    )
}

impl RulesStore {
    /// Replaces all groups. Whatever goes wrong, the state stays as it was; what is known of a rule
    /// whose definition is the same is kept. `encode` encodes a state and `write` writes it, where
    /// the store is on disk; neither is called for groups that are turned away, and `write` only
    /// for bytes within the limits.
    pub fn apply_groups<
        E: FnOnce(&PersistedRulesStoreState, &RuntimeMap) -> Option<Vec<u8>>,
        W: FnOnce(&Vec<u8>) -> Result<(), String>,
    >(&mut self, groups: Vec<RuleGroupSpec>, checks: &RuleChecks, encode: E, write: W) -> (applied:
        Result<(), RulesApplyError>)
        requires
            forall|state: &PersistedRulesStoreState, over: &RuntimeMap|
                groups_writable(*old(self), stable::views(groups@), checks@) && state@ == replaced(
                    old(self).state@,
                    stable::views(groups@),
                ) && over@ == Map::<Seq<char>, RuntimeView>::empty() ==> #[trigger] call_requires(
                    encode,
                    (state, over),
                ),
            forall|bytes: &Vec<u8>|
                writes_groups(*old(self), stable::views(groups@), checks@, encode, *bytes)
                    ==> #[trigger] call_requires(write, (bytes,)),
        ensures
            final(self).durable == old(self).durable,
            final(self).limits == old(self).limits,
            final(self).accounting.at_least(old(self).accounting),
            match applied {
                Ok(_) => {
                    &&& validate::groups_problem(
                        stable::views(groups@),
                        checks@,
                        old(self).limits,
                    ) is None
                    &&& final(self).state@ == replaced(old(self).state@, stable::views(groups@))
                    &&& sizes::sat_size(model::state_cost(final(self).state@) as int)
                        <= final(self).accounting.retained_state_bytes
                    &&& final(self).accounting.retained_state_bytes
                        <= old(self).limits.max_total_retained_state_bytes
                    &&& final(self).accounting.limit_rejections_total == old(
                        self,
                    ).accounting.limit_rejections_total
                    &&& old(self).durable ==> written(
                        encode,
                        write,
                        final(self).state@,
                        Map::empty(),
                        final(self).accounting.durable_file_bytes as nat,
                    )
                },
                Err(error) => {
                    &&& final(self).state == old(self).state
                    &&& final(self).accounting.retained_state_bytes == old(
                        self,
                    ).accounting.retained_state_bytes
                    &&& final(self).accounting.durable_file_bytes == old(
                        self,
                    ).accounting.durable_file_bytes
                    &&& apply_refusal(
                        *old(self),
                        stable::views(groups@),
                        checks@,
                        encode,
                        write,
                        error,
                        final(self).accounting,
                    )
                },
            },
            applied is Ok && validate::ever_valid(old(self).state@, old(self).limits)
                ==> validate::state_problem(final(self).state@, checks@, old(self).limits) is None,
            applied is Ok ==> model::is_table(final(self).state@.runtime),
            nothing_refuses(*old(self), stable::views(groups@), checks@, encode, write)
                ==> applied is Ok,
            may_be_applied(
                *old(self),
                stable::views(groups@),
                checks@,
                encode,
                write,
                applied,
                *final(self),
            ),
    {
        let ghost before = *self;
        let ghost given = stable::views(groups@);
        let (made, Ghost(bytes)) = self.make_candidate(groups, checks);
        let ghost screened = *self;
        match made {
            Err(message) => {
                let error = RulesApplyError::Rejected(message);
                proof {
                    lemma_screened_out(before, *self, given, checks@, bytes, encode, write, error);
                }
                Err(error)
            },
            Ok((candidate, candidate_bytes, resident)) => {
                proof {
                    lemma_screened_writable(before, given, checks@, bytes, resident, encode);
                }
                let applied = self.commit(candidate, candidate_bytes, resident, encode, write);
                proof {
                    if validate::ever_valid(before.state@, before.limits) {
                        restart::lemma_replaced_state_valid(
                            before.state@,
                            given,
                            choose|said: ChecksView| #[trigger]
                                validate::state_problem(before.state@, said, before.limits) is None,
                            checks@,
                            before.limits,
                        );
                    }
                    lemma_committed_since(
                        before,
                        screened,
                        *self,
                        given,
                        checks@,
                        bytes,
                        candidate_bytes,
                        resident,
                        encode,
                        write,
                        applied,
                    );
                }
                applied
            },
        }
    }

    /// Holds groups against the limits, checks them, and makes a new state of them, with the bytes
    /// that it is measured to hold and those that it and the state that there is hold together.
    fn make_candidate(&mut self, groups: Vec<RuleGroupSpec>, checks: &RuleChecks) -> (made: (
        Result<(PersistedRulesStoreState, usize, usize), String>,
        Ghost<ReplacementBytes>,
    ))
        ensures
            final(self).durable == old(self).durable,
            final(self).limits == old(self).limits,
            final(self).state == old(self).state,
            model::is_table(old(self).state@.runtime),
            made.0 matches Ok((candidate, _, _)) ==> model::is_table(candidate@.runtime),
            made.1@.covers(old(self).state@, stable::views(groups@)),
            ({
                let stated = replacement(
                    old(self).limits,
                    old(self).accounting,
                    stable::views(groups@),
                    checks@,
                    made.1@,
                );
                &&& final(self).accounting == stated.counters
                &&& match made.0 {
                    Ok((candidate, candidate_bytes, resident)) => {
                        &&& stated.problem is None
                        &&& candidate@ == replaced(old(self).state@, stable::views(groups@))
                        &&& candidate_bytes == made.1@.candidate
                        &&& candidate_bytes <= old(self).limits.max_total_retained_state_bytes
                        &&& resident == sizes::sat_size(
                            made.1@.state as int + made.1@.candidate,
                        )
                        &&& validate::groups_problem(
                            stable::views(groups@),
                            checks@,
                            old(self).limits,
                        ) is None
                        &&& final(self).accounting.only_peaks_rose(old(self).accounting)
                    },
                    Err(message) => {
                        &&& stated.problem matches Some(problem) && message@ == problem_text(
                            problem,
                        )
                        &&& screening_refusal(
                            old(self).limits,
                            stable::views(groups@),
                            checks@,
                            message@,
                            old(self).accounting,
                            final(self).accounting,
                        )
                    },
                }
            }),
    {
        let limits = self.limits;
        let ghost before = self.accounting;
        let ghost given = stable::views(groups@);
        let state_bytes = model::modeled_rules_state_bytes(&self.state);
        let groups_bytes = model::modeled_groups_bytes(&groups);
        if let Err(message) = screen_groups(
            &limits,
            &mut self.accounting,
            state_bytes,
            groups_bytes,
            &groups,
            checks,
        ) {
            let ghost bytes = ReplacementBytes {
                state: state_bytes,
                groups: groups_bytes,
                runtime: usize::MAX,
                longest_id: usize::MAX,
                candidate: usize::MAX,
            };
            proof {
                assert(came_to(
                    input_screening(limits, before, given, checks@, bytes),
                    Err(message),
                    self.accounting,
                ));
                lemma_replacement_screens(limits, before, given, checks@, bytes);
            }
            return (Err(message), Ghost(bytes));
        }
        let ghost between = self.accounting;
        let (runtime_bytes, longest) = candidate_runtime_bytes(&groups, &self.state.runtime);
        if let Err(message) = screen_known(
            &limits,
            &mut self.accounting,
            state_bytes,
            groups_bytes,
            runtime_bytes,
            longest,
        ) {
            let ghost bytes = ReplacementBytes {
                state: state_bytes,
                groups: groups_bytes,
                runtime: runtime_bytes,
                longest_id: longest,
                candidate: usize::MAX,
            };
            proof {
                assert(came_to(
                    input_screening(limits, before, given, checks@, bytes),
                    Ok(()),
                    between,
                ));
                assert(came_to(
                    known_screening(limits, between, bytes),
                    Err(message),
                    self.accounting,
                ));
                lemma_replacement_screens(limits, before, given, checks@, bytes);
            }
            return (Err(message), Ghost(bytes));
        }
        let ghost after = self.accounting;
        let runtime = retained_runtime(&groups, &self.state.runtime);
        let candidate = PersistedRulesStoreState { groups, runtime };
        let candidate_bytes = model::modeled_rules_state_bytes(&candidate);
        let resident = state_bytes.saturating_add(candidate_bytes);
        let ghost bytes = ReplacementBytes {
            state: state_bytes,
            groups: groups_bytes,
            runtime: runtime_bytes,
            longest_id: longest,
            candidate: candidate_bytes,
        };
        proof {
            assert(came_to(
                input_screening(limits, before, given, checks@, bytes),
                Ok(()),
                between,
            ));
            assert(came_to(known_screening(limits, between, bytes), Ok(()), after));
            lemma_replacement_screens(limits, before, given, checks@, bytes);
        }
        match screen_candidate(&limits, &mut self.accounting, candidate_bytes, resident) {
            Err(message) => (Err(message), Ghost(bytes)),
            Ok(_) => (Ok((candidate, candidate_bytes, resident)), Ghost(bytes)),
        }
    }

    /// Writes a state that was held against the limits, where the store is on disk, and puts it in
    /// place of the state that there is.
    fn commit<
        E: FnOnce(&PersistedRulesStoreState, &RuntimeMap) -> Option<Vec<u8>>,
        W: FnOnce(&Vec<u8>) -> Result<(), String>,
    >(
        &mut self,
        candidate: PersistedRulesStoreState,
        candidate_bytes: usize,
        resident: usize,
        encode: E,
        write: W,
    ) -> (applied: Result<(), RulesApplyError>)
        requires
            forall|state: &PersistedRulesStoreState, over: &RuntimeMap|
                old(self).durable && state@ == candidate@ && over@ == Map::<
                    Seq<char>,
                    RuntimeView,
                >::empty() ==> #[trigger] call_requires(encode, (state, over)),
            forall|bytes: &Vec<u8>|
                old(self).durable && writable(
                    old(self).limits,
                    RulesLimitSurface::Replacement,
                    resident as nat,
                    encode,
                    candidate@,
                    Map::empty(),
                    *bytes,
                ) ==> #[trigger] call_requires(write, (bytes,)),
        ensures
            final(self).durable == old(self).durable,
            final(self).limits == old(self).limits,
            committed_as(
                *old(self),
                candidate@,
                candidate_bytes,
                resident,
                encode,
                write,
                applied,
                final(self).accounting,
            ),
            match applied {
                Ok(_) => {
                    &&& final(self).state@ == candidate@
                    &&& final(self).accounting.retained_state_bytes == candidate_bytes
                    &&& final(self).accounting.limit_rejections_total == old(
                        self,
                    ).accounting.limit_rejections_total
                    &&& final(self).accounting.at_least(old(self).accounting)
                    &&& old(self).durable ==> written(
                        encode,
                        write,
                        candidate@,
                        Map::empty(),
                        final(self).accounting.durable_file_bytes as nat,
                    )
                },
                Err(error) => {
                    &&& final(self).state == old(self).state
                    &&& commit_refusal(*old(self), encode, write, error, final(self).accounting)
                },
            },
    {
        let ghost before = self.accounting;
        let limits = self.limits;
        let nothing: RuntimeMap = KeyMap::new();
        let persisted = RulesStore::persist_serializable_state(
            self.durable,
            &limits,
            &mut self.accounting,
            &candidate,
            &nothing,
            RulesLimitSurface::Replacement,
            resident,
            encode,
            write,
        );
        proof {
            reveal(committed_as);
        }
        match persisted {
            Err(RulesStoreError::Persistence(source)) => Err(RulesApplyError::Persistence(source)),
            Err(error) => Err(RulesApplyError::Rejected(error.message())),
            Ok(durable_file_bytes) => {
                self.state = candidate;
                self.accounting.publish_state(candidate_bytes, durable_file_bytes);
                Ok(())
            },
        }
    }
}

/// Groups that nothing turned away may be written where the store is on disk, and what is within
/// the limits beside what was measured is within them.
proof fn lemma_screened_writable<
    E: FnOnce(&PersistedRulesStoreState, &RuntimeMap) -> Option<Vec<u8>>,
>(
    store: RulesStore,
    groups: Seq<RuleGroupView>,
    checks: ChecksView,
    bytes: ReplacementBytes,
    resident: usize,
    encode: E,
)
    requires
        bytes.covers(store.state@, groups),
        replacement(store.limits, store.accounting, groups, checks, bytes).problem is None,
        resident == sizes::sat_size(bytes.state as int + bytes.candidate),
    ensures
        store.durable ==> groups_writable(store, groups, checks),
        forall|document: Vec<u8>|
            store.durable && #[trigger] writable(
                store.limits,
                RulesLimitSurface::Replacement,
                resident as nat,
                encode,
                replaced(store.state@, groups),
                Map::empty(),
                document,
            ) ==> writes_groups(store, groups, checks, encode, document),
{
    lemma_writable_beside_less(
        store.limits,
        RulesLimitSurface::Replacement,
        resident as nat,
        model::state_cost(store.state@) + model::state_cost(replaced(store.state@, groups)),
        encode,
        replaced(store.state@, groups),
        Map::empty(),
    );
}

/// Whether nothing can refuse groups: they are valid, there are no limits on bytes, and where the
/// store is on disk encoding and writing always succeed.
pub open spec fn nothing_refuses<
    E: FnOnce(&PersistedRulesStoreState, &RuntimeMap) -> Option<Vec<u8>>,
    W: FnOnce(&Vec<u8>) -> Result<(), String>,
>(
    store: RulesStore,
    groups: Seq<RuleGroupView>,
    checks: ChecksView,
    encode: E,
    write: W,
) -> bool {
    &&& validate::groups_problem(groups, checks, store.limits) is None
    &&& store.limits.max_replacement_transient_bytes == usize::MAX
    &&& store.limits.max_total_retained_state_bytes == usize::MAX
    &&& store.limits.max_durable_file_bytes == usize::MAX
    &&& store.durable ==> always_encodes(encode) && always_writes(write)
}

proof fn lemma_refusal_is_warranted<
    E: FnOnce(&PersistedRulesStoreState, &RuntimeMap) -> Option<Vec<u8>>,
    W: FnOnce(&Vec<u8>) -> Result<(), String>,
>(
    store: RulesStore,
    groups: Seq<RuleGroupView>,
    checks: ChecksView,
    encode: E,
    write: W,
    error: RulesApplyError,
    after: RulesStoreAccounting,
)
    requires
        apply_refusal(store, groups, checks, encode, write, error, after),
    ensures
        !nothing_refuses(store, groups, checks, encode, write),
        after.at_least(store.accounting),
        after.retained_state_bytes == store.accounting.retained_state_bytes,
        after.durable_file_bytes == store.accounting.durable_file_bytes,
{
}

/// The bytes that replacing the groups is measured to hold: the state, the new groups, what is
/// known of their rules and the longest of their identifiers, and the new state.
pub struct ReplacementBytes {
    pub state: usize,
    pub groups: usize,
    pub runtime: usize,
    pub longest_id: usize,
    pub candidate: usize,
}

/// The bytes of what is known of rules after the groups were replaced, rule by rule.
pub open spec fn definitions_cost(
    rules: Seq<(Seq<char>, u64)>,
    before: Map<Seq<char>, RuntimeView>,
) -> nat
    decreases rules.len(),
{
    if rules.len() == 0 {
        0
    } else {
        definitions_cost(rules.drop_last(), before) + model::runtime_entry_cost(
            rules.last().0,
            carried(before, rules.last().0, rules.last().1),
        )
    }
}

/// Whether a number of bytes has room for each of the identifiers of rules.
pub open spec fn holds_each_id(bytes: usize, rules: Seq<(Seq<char>, u64)>) -> bool {
    forall|i: int|
        0 <= i < rules.len() ==> bytes >= sizes::sat_size(
            model::text_cost((#[trigger] rules[i]).0) as int,
        )
}

impl ReplacementBytes {
    /// Whether the measured bytes are at least those that texts and lists without spare room take.
    /// How far they are above is the allocator's choice.
    pub open spec fn covers(self, before: RulesStateView, groups: Seq<RuleGroupView>) -> bool {
        &&& self.state >= sizes::sat_size(model::state_cost(before) as int)
        &&& self.groups >= sizes::sat_size(model::groups_cost(groups) as int)
        &&& self.runtime >= sizes::sat_size(
            definitions_cost(definitions(groups), before.runtime) as int,
        )
        &&& holds_each_id(self.longest_id, definitions(groups))
        &&& self.candidate >= sizes::sat_size(model::state_cost(replaced(before, groups)) as int)
    }

    /// The most that the new state is measured to hold.
    pub open spec fn upper(self) -> usize {
        sizes::sat_size(
            layout::size_of::<PersistedRulesStoreState>() as int + self.groups + self.runtime,
        )
    }
}

/// How far groups came: the counters, and what turned them away, if something did.
pub struct Screened {
    pub counters: RulesStoreAccounting,
    pub problem: Option<StoreProblem>,
}

/// Whether groups came this far, with the counters after it.
pub open spec fn came_to(
    stated: Screened,
    screened: Result<(), String>,
    after: RulesStoreAccounting,
) -> bool {
    &&& after == stated.counters
    &&& match stated.problem {
        None => screened is Ok,
        Some(problem) => screened matches Err(message) && message@ == problem_text(problem),
    }
}

/// What becomes of groups that are held against the limits.
pub open spec fn screened_by(held: Held) -> Screened {
    Screened {
        counters: held.counters,
        problem: match held.over {
            Some(surface) => Some(StoreProblem::Limit(surface)),
            None => None,
        },
    }
}

/// What becomes of groups that are given: they are held against the limits, with the state that
/// there is, and checked.
pub open spec fn input_screening(
    limits: RulesStoreLimits,
    before: RulesStoreAccounting,
    groups: Seq<RuleGroupView>,
    checks: ChecksView,
    bytes: ReplacementBytes,
) -> Screened {
    let input = Held::start(before).then_on(
        RulesLimitSurface::Replacement,
        sizes::sat_size(bytes.state as int + bytes.groups + all_id_scratch(groups)),
        limits.max_replacement_transient_bytes,
    );
    if input.over is Some {
        screened_by(input)
    } else {
        match validate::groups_problem(groups, checks, limits) {
            Some(StoreProblem::Limit(surface)) => Screened {
                counters: input.counters.rejected(surface),
                problem: Some(StoreProblem::Limit(surface)),
            },
            problem => Screened { counters: input.counters, problem },
        }
    }
}

/// What becomes of groups that were checked: they are held against the limits with what is known of
/// their rules.
pub open spec fn known_screening(
    limits: RulesStoreLimits,
    before: RulesStoreAccounting,
    bytes: ReplacementBytes,
) -> Screened {
    screened_by(
        Held::start(before).then_on(
            RulesLimitSurface::RetainedState,
            bytes.upper(),
            limits.max_total_retained_state_bytes,
        ).then_on(
            RulesLimitSurface::Replacement,
            sizes::sat_size(bytes.state as int + bytes.upper() + bytes.longest_id),
            limits.max_replacement_transient_bytes,
        ),
    )
}

/// What becomes of groups before a new state is made of them: they are held against the limits,
/// checked, and held against the limits with what is known of them.
pub open spec fn screening(
    limits: RulesStoreLimits,
    before: RulesStoreAccounting,
    groups: Seq<RuleGroupView>,
    checks: ChecksView,
    bytes: ReplacementBytes,
) -> Screened {
    let input = input_screening(limits, before, groups, checks, bytes);
    if input.problem is Some {
        input
    } else {
        known_screening(limits, input.counters, bytes)
    }
}

/// What becomes of groups until the new state that is made of them is written.
pub open spec fn replacement(
    limits: RulesStoreLimits,
    before: RulesStoreAccounting,
    groups: Seq<RuleGroupView>,
    checks: ChecksView,
    bytes: ReplacementBytes,
) -> Screened {
    let first = screening(limits, before, groups, checks, bytes);
    if first.problem is Some {
        first
    } else {
        screened_by(
            held_candidate(
                limits,
                first.counters,
                bytes.candidate,
                sizes::sat_size(bytes.state as int + bytes.candidate),
            ),
        )
    }
}

/// A new state held against the limits.
pub open spec fn held_candidate(
    limits: RulesStoreLimits,
    before: RulesStoreAccounting,
    candidate: usize,
    resident: usize,
) -> Held {
    Held::start(before).then_on(
        RulesLimitSurface::RetainedState,
        candidate,
        limits.max_total_retained_state_bytes,
    ).then_on(
        RulesLimitSurface::Replacement,
        resident,
        limits.max_replacement_transient_bytes,
    )
}

/// What is said of a problem.
pub open spec fn problem_text(problem: StoreProblem) -> Seq<char> {
    match problem {
        StoreProblem::Limit(surface) => surface.message_text(),
        StoreProblem::Invalid(message) => message,
    }
}

/// Whether a new state may be written and put in place like this, with the counters after it.
#[verifier::opaque]
pub open spec fn committed_as<
    E: FnOnce(&PersistedRulesStoreState, &RuntimeMap) -> Option<Vec<u8>>,
    W: FnOnce(&Vec<u8>) -> Result<(), String>,
>(
    store: RulesStore,
    candidate: RulesStateView,
    candidate_bytes: usize,
    resident: usize,
    encode: E,
    write: W,
    applied: Result<(), RulesApplyError>,
    after: RulesStoreAccounting,
) -> bool {
    if !store.durable {
        &&& applied is Ok
        &&& after == store.accounting.published(candidate_bytes, None)
    } else {
        exists|persisted: Result<Option<usize>, RulesStoreError>, kept: RulesStoreAccounting|
            #[trigger] persisted_as(
                store.limits,
                RulesLimitSurface::Replacement,
                resident,
                encode,
                write,
                candidate,
                Map::empty(),
                store.accounting,
                persisted,
                kept,
            ) && match persisted {
                Ok(len) => applied is Ok && after == kept.published(candidate_bytes, len),
                Err(RulesStoreError::Persistence(source)) => {
                    &&& applied == Err::<(), RulesApplyError>(RulesApplyError::Persistence(source))
                    &&& after == kept
                },
                Err(error) => {
                    &&& applied matches Err(RulesApplyError::Rejected(message)) && message@
                        == error.message_text()
                    &&& after == kept
                },
            }
    }
}

/// Whether replacing the groups may come out like this, with the bytes that were measured.
#[verifier::opaque]
pub open spec fn applied_as<
    E: FnOnce(&PersistedRulesStoreState, &RuntimeMap) -> Option<Vec<u8>>,
    W: FnOnce(&Vec<u8>) -> Result<(), String>,
>(
    before: RulesStore,
    groups: Seq<RuleGroupView>,
    checks: ChecksView,
    bytes: ReplacementBytes,
    encode: E,
    write: W,
    applied: Result<(), RulesApplyError>,
    after: RulesStore,
) -> bool {
    let screened = replacement(before.limits, before.accounting, groups, checks, bytes);
    match screened.problem {
        Some(problem) => {
            &&& applied matches Err(RulesApplyError::Rejected(message)) && message@
                == problem_text(problem)
            &&& after.accounting == screened.counters
        },
        None => committed_as(
            RulesStore { accounting: screened.counters, ..before },
            replaced(before.state@, groups),
            bytes.candidate,
            sizes::sat_size(bytes.state as int + bytes.candidate),
            encode,
            write,
            applied,
            after.accounting,
        ),
    }
}

/// Whether replacing the groups may come out like this. What the bytes are measured to be is the
/// allocator's choice.
pub open spec fn may_be_applied<
    E: FnOnce(&PersistedRulesStoreState, &RuntimeMap) -> Option<Vec<u8>>,
    W: FnOnce(&Vec<u8>) -> Result<(), String>,
>(
    before: RulesStore,
    groups: Seq<RuleGroupView>,
    checks: ChecksView,
    encode: E,
    write: W,
    applied: Result<(), RulesApplyError>,
    after: RulesStore,
) -> bool {
    exists|bytes: ReplacementBytes|
        bytes.covers(before.state@, groups) && #[trigger] applied_as(
            before,
            groups,
            checks,
            bytes,
            encode,
            write,
            applied,
            after,
        )
}

/// Whether a new state may be refused like this when it is written, with the counters after it.
pub open spec fn commit_refusal<
    E: FnOnce(&PersistedRulesStoreState, &RuntimeMap) -> Option<Vec<u8>>,
    W: FnOnce(&Vec<u8>) -> Result<(), String>,
>(store: RulesStore, encode: E, write: W, error: RulesApplyError, after: RulesStoreAccounting) -> bool {
    let limits = store.limits;
    let before = store.accounting;
    &&& store.durable
    &&& match error {
        RulesApplyError::Rejected(message) => {
            ||| limits.max_replacement_transient_bytes < usize::MAX && message@
                == RulesLimitSurface::Replacement.message_text() && after.rejected_once(
                before,
                RulesLimitSurface::Replacement,
            )
            ||| limits.max_durable_file_bytes < usize::MAX && message@
                == RulesLimitSurface::DurableFile.message_text() && after.rejected_once(
                before,
                RulesLimitSurface::Replacement,
            )
            ||| message@ == "failed to encode rules durable state"@ && may_not_encode(encode)
                && after.only_peaks_rose(before)
        },
        RulesApplyError::Persistence(message) => may_not_write(write, message)
            && after.only_peaks_rose(before.write_failed()),
        RulesApplyError::Internal(_) => false,
    }
}

/// What holds of groups that were turned away before a new state was made of them.
proof fn lemma_screened_out<
    E: FnOnce(&PersistedRulesStoreState, &RuntimeMap) -> Option<Vec<u8>>,
    W: FnOnce(&Vec<u8>) -> Result<(), String>,
>(
    before: RulesStore,
    after: RulesStore,
    groups: Seq<RuleGroupView>,
    checks: ChecksView,
    bytes: ReplacementBytes,
    encode: E,
    write: W,
    error: RulesApplyError,
)
    requires
        error matches RulesApplyError::Rejected(message) && screening_refusal(
            before.limits,
            groups,
            checks,
            message@,
            before.accounting,
            after.accounting,
        ) && (replacement(
            before.limits,
            before.accounting,
            groups,
            checks,
            bytes,
        ).problem matches Some(problem) && message@ == problem_text(problem)),
        after.accounting == replacement(
            before.limits,
            before.accounting,
            groups,
            checks,
            bytes,
        ).counters,
    ensures
        applied_as(before, groups, checks, bytes, encode, write, Err(error), after),
        apply_refusal(before, groups, checks, encode, write, error, after.accounting),
        !nothing_refuses(before, groups, checks, encode, write),
        after.accounting.at_least(before.accounting),
        after.accounting.retained_state_bytes == before.accounting.retained_state_bytes,
        after.accounting.durable_file_bytes == before.accounting.durable_file_bytes,
{
    reveal(applied_as);
    lemma_refusal_is_warranted(before, groups, checks, encode, write, error, after.accounting);
}

/// What holds of a new state that is written after its groups were screened holds since then.
proof fn lemma_committed_since<
    E: FnOnce(&PersistedRulesStoreState, &RuntimeMap) -> Option<Vec<u8>>,
    W: FnOnce(&Vec<u8>) -> Result<(), String>,
>(
    before: RulesStore,
    screened: RulesStore,
    after: RulesStore,
    groups: Seq<RuleGroupView>,
    checks: ChecksView,
    bytes: ReplacementBytes,
    candidate_bytes: usize,
    resident: usize,
    encode: E,
    write: W,
    applied: Result<(), RulesApplyError>,
)
    requires
        screened.durable == before.durable,
        screened.limits == before.limits,
        screened.state == before.state,
        screened.accounting == replacement(
            before.limits,
            before.accounting,
            groups,
            checks,
            bytes,
        ).counters,
        replacement(before.limits, before.accounting, groups, checks, bytes).problem is None,
        candidate_bytes == bytes.candidate,
        resident == sizes::sat_size(bytes.state as int + bytes.candidate),
        committed_as(
            screened,
            replaced(before.state@, groups),
            candidate_bytes,
            resident,
            encode,
            write,
            applied,
            after.accounting,
        ),
        screened.accounting.only_peaks_rose(before.accounting),
        applied matches Err(error) ==> commit_refusal(
            screened,
            encode,
            write,
            error,
            after.accounting,
        ),
        applied is Ok ==> after.accounting.at_least(screened.accounting),
    ensures
        applied_as(before, groups, checks, bytes, encode, write, applied, after),
        after.accounting.at_least(before.accounting),
        applied matches Err(error) ==> apply_refusal(
            before,
            groups,
            checks,
            encode,
            write,
            error,
            after.accounting,
        ) && after.accounting.retained_state_bytes == before.accounting.retained_state_bytes
            && after.accounting.durable_file_bytes == before.accounting.durable_file_bytes
            && !nothing_refuses(before, groups, checks, encode, write),
{
    reveal(applied_as);
    assert(RulesStore { accounting: screened.accounting, ..before } == screened);
    let surface = RulesLimitSurface::Replacement;
    lemma_peaks_twice(before.accounting, screened.accounting, after.accounting);
    lemma_peaks_twice(
        before.accounting.write_failed(),
        screened.accounting.write_failed(),
        after.accounting,
    );
    lemma_peaks_twice(
        before.accounting.rejected(surface),
        screened.accounting.rejected(surface),
        after.accounting,
    );
    if let Err(error) = applied {
        lemma_refusal_is_warranted(before, groups, checks, encode, write, error, after.accounting);
    }
}

/// Whether the limits, or the groups themselves, warrant a rejection with this message, with the
/// counters before and after.
pub open spec fn screening_refusal(
    limits: RulesStoreLimits,
    groups: Seq<RuleGroupView>,
    checks: ChecksView,
    message: Seq<char>,
    before: RulesStoreAccounting,
    after: RulesStoreAccounting,
) -> bool {
    ||| limits.max_replacement_transient_bytes < usize::MAX && message
        == RulesLimitSurface::Replacement.message_text() && after.rejected_once(
        before,
        RulesLimitSurface::Replacement,
    )
    ||| limits.max_total_retained_state_bytes < usize::MAX && message
        == RulesLimitSurface::RetainedState.message_text() && after.rejected_once(
        before,
        RulesLimitSurface::RetainedState,
    )
    ||| match validate::groups_problem(groups, checks, limits) {
        None => false,
        Some(StoreProblem::Limit(surface)) => message == surface.message_text()
            && after.rejected_once(before, surface),
        Some(StoreProblem::Invalid(said)) => message == said && after.only_peaks_rose(before),
    }
}

/// Groups that nothing turned away are valid, and raised nothing but peaks; what turned others away
/// warrants it.
proof fn lemma_replacement_screens(
    limits: RulesStoreLimits,
    before: RulesStoreAccounting,
    groups: Seq<RuleGroupView>,
    checks: ChecksView,
    bytes: ReplacementBytes,
)
    ensures
        ({
            let stated = replacement(limits, before, groups, checks, bytes);
            match stated.problem {
                None => {
                    &&& validate::groups_problem(groups, checks, limits) is None
                    &&& stated.counters.only_peaks_rose(before)
                    &&& bytes.candidate <= limits.max_total_retained_state_bytes
                },
                Some(problem) => screening_refusal(
                    limits,
                    groups,
                    checks,
                    problem_text(problem),
                    before,
                    stated.counters,
                ),
            }
        }),
{
}

/// Holds groups, which are measured to hold a number of bytes, against the limits, with the state
/// that there is, and checks them.
fn screen_groups(
    limits: &RulesStoreLimits,
    accounting: &mut RulesStoreAccounting,
    state_bytes: usize,
    groups_bytes: usize,
    groups: &Vec<RuleGroupSpec>,
    checks: &RuleChecks,
) -> (screened: Result<(), String>)
    ensures
        forall|bytes: ReplacementBytes|
            bytes.state == state_bytes && bytes.groups == groups_bytes ==> came_to(
                #[trigger] input_screening(
                    *limits,
                    *old(accounting),
                    stable::views(groups@),
                    checks@,
                    bytes,
                ),
                screened,
                *final(accounting),
            ),
{
    let scratch = rule_id_scratch_bytes(groups);
    match hold(
        accounting,
        RulesLimitSurface::Replacement,
        state_bytes.saturating_add(groups_bytes).saturating_add(scratch),
        limits.max_replacement_transient_bytes,
    ) {
        Err(message) => {
            return Err(message);
        },
        Ok(_) => {},
    }
    match validate::validate_groups_with_limits(groups, checks, limits) {
        Err(error) => {
            if let RulesStoreError::Limit(surface) = error {
                accounting.reject(surface);
            }
            Err(error.message())
        },
        Ok(_) => Ok(()),
    }
}

/// Holds groups that were checked against the limits, with the state that there is and with what is
/// known of their rules, which, like the longest of their identifiers, is measured to hold a number
/// of bytes.
fn screen_known(
    limits: &RulesStoreLimits,
    accounting: &mut RulesStoreAccounting,
    state_bytes: usize,
    groups_bytes: usize,
    runtime_bytes: usize,
    longest: usize,
) -> (screened: Result<(), String>)
    ensures
        forall|bytes: ReplacementBytes|
            bytes.state == state_bytes && bytes.groups == groups_bytes && bytes.runtime
                == runtime_bytes && bytes.longest_id == longest ==> came_to(
                #[trigger] known_screening(*limits, *old(accounting), bytes),
                screened,
                *final(accounting),
            ),
{
    let upper = core::mem::size_of::<PersistedRulesStoreState>().saturating_add(
        groups_bytes,
    ).saturating_add(runtime_bytes);
    match hold(
        accounting,
        RulesLimitSurface::RetainedState,
        upper,
        limits.max_total_retained_state_bytes,
    ) {
        Err(message) => {
            return Err(message);
        },
        Ok(_) => {},
    }
    hold(
        accounting,
        RulesLimitSurface::Replacement,
        state_bytes.saturating_add(upper).saturating_add(longest),
        limits.max_replacement_transient_bytes,
    )
}

fn screen_candidate(
    limits: &RulesStoreLimits,
    accounting: &mut RulesStoreAccounting,
    candidate_bytes: usize,
    resident: usize,
) -> (screened: Result<(), String>)
    ensures
        ({
            let held = held_candidate(*limits, *old(accounting), candidate_bytes, resident);
            &&& *final(accounting) == held.counters
            &&& match held.over {
                None => screened is Ok,
                Some(surface) => screened matches Err(message) && message@
                    == surface.message_text(),
            }
        }),
{
    match hold(
        accounting,
        RulesLimitSurface::RetainedState,
        candidate_bytes,
        limits.max_total_retained_state_bytes,
    ) {
        Err(message) => {
            return Err(message);
        },
        Ok(_) => {},
    }
    hold(
        accounting,
        RulesLimitSurface::Replacement,
        resident,
        limits.max_replacement_transient_bytes,
    )
}

/// Whether groups may be refused like this, with the counters after it.
pub open spec fn apply_refusal<
    E: FnOnce(&PersistedRulesStoreState, &RuntimeMap) -> Option<Vec<u8>>,
    W: FnOnce(&Vec<u8>) -> Result<(), String>,
>(
    store: RulesStore,
    groups: Seq<RuleGroupView>,
    checks: ChecksView,
    encode: E,
    write: W,
    error: RulesApplyError,
    after: RulesStoreAccounting,
) -> bool {
    let limits = store.limits;
    let before = store.accounting;
    match error {
        RulesApplyError::Rejected(message) => {
            ||| screening_refusal(limits, groups, checks, message@, before, after)
            ||| store.durable && limits.max_durable_file_bytes < usize::MAX && message@
                == RulesLimitSurface::DurableFile.message_text() && after.rejected_once(
                before,
                RulesLimitSurface::Replacement,
            )
            ||| store.durable && message@ == "failed to encode rules durable state"@
                && may_not_encode(encode) && after.only_peaks_rose(before)
        },
        RulesApplyError::Persistence(message) => store.durable && may_not_write(write, message)
            && after.only_peaks_rose(before.write_failed()),
        RulesApplyError::Internal(_) => false,
    }
}

pub(crate) fn rule_id_len(group: &RuleGroupSpec, rule: &types::RuleSpec) -> (len: usize)
    ensures
        len == sizes::sat_size(
            text::utf8_len(group@.tenant_id) as int + text::utf8_len(group@.name) + text::utf8_len(
                types::kind_of(rule@),
            ) + text::utf8_len(types::name_of(rule@)) + 3,
        ),
{
    text::byte_len(group.tenant_id.as_str()).saturating_add(
        text::byte_len(group.name.as_str()),
    ).saturating_add(text::byte_len(types::rule_kind(rule))).saturating_add(
        text::byte_len(types::rule_name(rule)),
    ).saturating_add(3)
}

/// The bytes that checking the identifiers of a rule takes.
pub open spec fn id_scratch(group: RuleGroupView, rule: types::RuleView) -> nat {
    model::allocation(layout::size_of::<String>() + layout::size_of::<usize>() * 4)
        + model::allocation(
        text::utf8_len(group.tenant_id) + text::utf8_len(group.name) + text::utf8_len(
            types::kind_of(rule),
        ) + text::utf8_len(types::name_of(rule)) + 3,
    )
}

/// The bytes that checking the identifiers of the rules of a group takes.
pub open spec fn group_id_scratch(group: RuleGroupView, rules: Seq<types::RuleView>) -> nat
    decreases rules.len(),
{
    if rules.len() == 0 {
        0
    } else {
        group_id_scratch(group, rules.drop_last()) + id_scratch(group, rules.last())
    }
}

/// The bytes that checking the identifiers of all rules takes.
pub open spec fn all_id_scratch(groups: Seq<RuleGroupView>) -> nat
    decreases groups.len(),
{
    if groups.len() == 0 {
        0
    } else {
        all_id_scratch(groups.drop_last()) + group_id_scratch(groups.last(), groups.last().rules)
    }
}

/// The bytes that checking the identifiers of all rules takes.
pub fn rule_id_scratch_bytes(groups: &Vec<RuleGroupSpec>) -> (bytes: usize)
    ensures
        bytes == sizes::sat_size(all_id_scratch(stable::views(groups@)) as int),
{
    let ghost all = stable::views(groups@);
    let node = model::modeled_allocation_bytes(
        core::mem::size_of::<String>().saturating_add(
            sizes::times_size(core::mem::size_of::<usize>(), 4),
        ),
    );
    let mut bytes: usize = 0;
    let mut g: usize = 0;
    assert(all.subrange(0, 0) =~= Seq::empty());
    while g < groups.len()
        invariant
            g <= groups@.len(),
            all == stable::views(groups@),
            node == sizes::sat_size(
                model::allocation(
                    layout::size_of::<String>() + layout::size_of::<usize>() * 4,
                ) as int,
            ),
            bytes == sizes::sat_size(all_id_scratch(all.subrange(0, g as int)) as int),
        decreases groups@.len() - g,
    {
        let group = &groups[g];
        let ghost rules = stable::views(group.rules@);
        let ghost so_far = all_id_scratch(all.subrange(0, g as int));
        let mut r: usize = 0;
        proof {
            assert(all.subrange(0, g as int + 1).drop_last() =~= all.subrange(0, g as int));
            assert(rules.subrange(0, 0) =~= Seq::empty());
        }
        while r < group.rules.len()
            invariant
                r <= group.rules@.len(),
                rules == stable::views(group.rules@),
                node == sizes::sat_size(
                    model::allocation(
                        layout::size_of::<String>() + layout::size_of::<usize>() * 4,
                    ) as int,
                ),
                bytes == sizes::sat_size(
                    so_far as int + group_id_scratch(group@, rules.subrange(0, r as int)),
                ),
            decreases group.rules@.len() - r,
        {
            proof {
                assert(rules.subrange(0, r as int + 1).drop_last() =~= rules.subrange(
                    0,
                    r as int,
                ));
            }
            bytes =
            bytes.saturating_add(node).saturating_add(
                model::modeled_allocation_bytes(rule_id_len(group, &group.rules[r])),
            );
            r = r + 1;
        }
        assert(rules.subrange(0, r as int) =~= rules);
        g = g + 1;
    }
    assert(all.subrange(0, g as int) =~= all);
    bytes
}

/// The bytes that what is known of rules will hold after the groups were replaced, and those of the
/// longest identifier, with the room that texts have.
fn candidate_runtime_bytes(groups: &Vec<RuleGroupSpec>, runtime: &RuntimeMap) -> (bytes: (
    usize,
    usize,
))
    ensures
        bytes.0 >= sizes::sat_size(
            definitions_cost(definitions(stable::views(groups@)), runtime@) as int,
        ),
        holds_each_id(bytes.1, definitions(stable::views(groups@))),
{
    let ghost all = stable::views(groups@);
    let mut bytes: usize = 0;
    let mut longest: usize = 0;
    let mut g: usize = 0;
    proof {
        assert(all.subrange(0, 0) =~= Seq::empty());
        assert(definitions(all.subrange(0, 0)) =~= Seq::empty());
    }
    while g < groups.len()
        invariant
            g <= groups@.len(),
            all == stable::views(groups@),
            bytes >= sizes::sat_size(
                definitions_cost(definitions(all.subrange(0, g as int)), runtime@) as int,
            ),
            holds_each_id(longest, definitions(all.subrange(0, g as int))),
        decreases groups@.len() - g,
    {
        let group = &groups[g];
        let ghost start = definitions(all.subrange(0, g as int));
        let ghost own = group_definitions(group@);
        let mut r: usize = 0;
        proof {
            assert(start + own.subrange(0, 0) =~= start);
        }
        while r < group.rules.len()
            invariant
                r <= group.rules@.len(),
                own == group_definitions(group@),
                bytes >= sizes::sat_size(
                    definitions_cost(start + own.subrange(0, r as int), runtime@) as int,
                ),
                holds_each_id(longest, start + own.subrange(0, r as int)),
            decreases group.rules@.len() - r,
        {
            let id = types::rule_id(group, &group.rules[r]);
            let fingerprint = fingerprint::rule_fingerprint(group, &group.rules[r]);
            let ghost held = longest;
            longest = sizes::max_size(longest, model::modeled_owned_string_bytes(&id));
            let entry = carried_bytes(runtime, &id, fingerprint);
            proof {
                assert(group@.rules[r as int] == group.rules@[r as int]@);
                assert(own[r as int] == (id@, fingerprint));
                lemma_definitions_next(start, own, r as int, runtime@, held, longest);
            }
            bytes = bytes.saturating_add(entry);
            r = r + 1;
        }
        proof {
            lemma_definitions_of_group(all, g as int);
            assert(own.subrange(0, r as int) =~= own);
        }
        g = g + 1;
    }
    assert(all.subrange(0, g as int) =~= all);
    (bytes, longest)
}

proof fn lemma_definitions_of_group(groups: Seq<RuleGroupView>, g: int)
    requires
        0 <= g < groups.len(),
    ensures
        definitions(groups.subrange(0, g + 1)) == definitions(groups.subrange(0, g))
            + group_definitions(groups[g]),
{
    assert(groups.subrange(0, g + 1).drop_last() =~= groups.subrange(0, g));
}

proof fn lemma_definitions_next(
    start: Seq<(Seq<char>, u64)>,
    own: Seq<(Seq<char>, u64)>,
    r: int,
    before: Map<Seq<char>, RuntimeView>,
    held: usize,
    longest: usize,
)
    requires
        0 <= r < own.len(),
        holds_each_id(held, start + own.subrange(0, r)),
        longest >= held,
        longest >= sizes::sat_size(model::text_cost(own[r].0) as int),
    ensures
        definitions_cost(start + own.subrange(0, r + 1), before) == definitions_cost(
            start + own.subrange(0, r),
            before,
        ) + model::runtime_entry_cost(own[r].0, carried(before, own[r].0, own[r].1)),
        holds_each_id(longest, start + own.subrange(0, r + 1)),
{
    let shorter = start + own.subrange(0, r);
    let longer = start + own.subrange(0, r + 1);
    assert(longer.drop_last() =~= shorter);
    assert(longer.last() == own[r]);
    assert forall|i: int| 0 <= i < longer.len() implies longest >= sizes::sat_size(
        model::text_cost((#[trigger] longer[i]).0) as int,
    ) by {
        if i < longer.len() - 1 {
            assert(longer[i] == shorter[i]);
        }
    }
}

/// The bytes that what is known of a rule will hold after the groups were replaced.
fn carried_bytes(runtime: &RuntimeMap, id: &String, fingerprint: u64) -> (bytes: usize)
    ensures
        bytes >= sizes::sat_size(
            model::runtime_entry_cost(id@, carried(runtime@, id@, fingerprint)) as int,
        ),
{
    if let Some(existing) = runtime.get(id) {
        if existing.fingerprint == fingerprint {
            return model::modeled_runtime_entry_bytes(id, existing);
        }
    }
    model::modeled_runtime_entry_bytes(id, &PersistedRuleRuntimeState::fresh(fingerprint))
}

fn carry(runtime: &RuntimeMap, id: &String, fingerprint: u64) -> (entry:
    PersistedRuleRuntimeState)
    ensures
        entry@ == carried(runtime@, id@, fingerprint),
{
    match runtime.get(id) {
        Some(existing) => {
            if existing.fingerprint == fingerprint {
                existing.copied()
            } else {
                PersistedRuleRuntimeState::fresh(fingerprint)
            }
        },
        None => PersistedRuleRuntimeState::fresh(fingerprint),
    }
}

proof fn lemma_retained_next(
    start: Seq<(Seq<char>, u64)>,
    own: Seq<(Seq<char>, u64)>,
    r: int,
    before: Map<Seq<char>, RuntimeView>,
)
    requires
        0 <= r < own.len(),
    ensures
        retained(start + own.subrange(0, r + 1), before) == retained(
            start + own.subrange(0, r),
            before,
        ).insert(own[r].0, carried(before, own[r].0, own[r].1)),
{
    let longer = start + own.subrange(0, r + 1);
    assert(longer.drop_last() =~= start + own.subrange(0, r));
    assert(longer.last() == own[r]);
}

/// What is known of rules after the groups were replaced.
#[verifier::spinoff_prover]
pub fn retained_runtime(groups: &Vec<RuleGroupSpec>, runtime: &RuntimeMap) -> (kept: RuntimeMap)
    ensures
        kept@ == retained(definitions(stable::views(groups@)), runtime@),
{
    let ghost all = stable::views(groups@);
    let mut kept: RuntimeMap = KeyMap::new();
    let mut g: usize = 0;
    proof {
        assert(all.subrange(0, 0) =~= Seq::empty());
        assert(definitions(all.subrange(0, 0)) =~= Seq::empty());
    }
    while g < groups.len()
        invariant
            g <= groups@.len(),
            all == stable::views(groups@),
            kept@ == retained(definitions(all.subrange(0, g as int)), runtime@),
        decreases groups@.len() - g,
    {
        let group = &groups[g];
        let ghost start = definitions(all.subrange(0, g as int));
        let ghost own = group_definitions(group@);
        let mut r: usize = 0;
        proof {
            assert(all.subrange(0, g as int + 1).drop_last() =~= all.subrange(0, g as int));
            assert(start + own.subrange(0, 0) =~= start);
        }
        while r < group.rules.len()
            invariant
                r <= group.rules@.len(),
                own == group_definitions(group@),
                kept@ == retained(start + own.subrange(0, r as int), runtime@),
            decreases group.rules@.len() - r,
        {
            let id = types::rule_id(group, &group.rules[r]);
            let fingerprint = fingerprint::rule_fingerprint(group, &group.rules[r]);
            let entry = carry(runtime, &id, fingerprint);
            proof {
                assert(group@.rules[r as int] == group.rules@[r as int]@);
                assert(own[r as int] == (id@, fingerprint));
                lemma_retained_next(start, own, r as int, runtime@);
            }
            kept.insert(id, entry);
            r = r + 1;
        }
        assert(start + own.subrange(0, r as int) =~= definitions(all.subrange(0, g as int + 1)));
        g = g + 1;
    }
    assert(all.subrange(0, g as int) =~= all);
    kept
}

} // verus!
