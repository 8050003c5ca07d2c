//! What holds of the rules store across a restart: every state that it comes to is one that it
//! loads again, and what was written is what is loaded.

use vstd::prelude::*;

use crate::ordered;
use crate::rules::accounting::RulesLimitSurface;
use crate::rules::accounting::RulesStoreAccounting;
use crate::rules::accounting::RulesStoreError;
use crate::rules::laws;
use crate::rules::limits::RulesStoreLimits;
use crate::rules::load;
use crate::rules::load::LoadedRulesStoreState;
use crate::rules::load::PersistedRulesStore;
use crate::rules::load::RulesDecodeError;
use crate::rules::model;
use crate::rules::persist;
use crate::rules::replace;
use crate::rules::runs;
use crate::rules::runs::RunPoint;
use crate::rules::schedule;
use crate::rules::schedule::RulesRun;
use crate::rules::store::RulesStore;
use crate::rules::time::TimestampPrecision;
use crate::rules::types;
use crate::rules::types::PersistedRulesStoreState;
use crate::rules::types::RuleGroupSpec;
use crate::rules::types::RuleGroupView;
use crate::rules::types::RuleView;
use crate::rules::types::RulesStateView;
use crate::rules::types::RuntimeMap;
use crate::rules::types::RuntimeView;
use crate::rules::update;
use crate::rules::validate;
use crate::rules::validate::ChecksView;
use crate::rules::validate::RuleChecks;
use crate::sizes;
use crate::stable;
use crate::text;

verus! {

/// Whether nothing is wrong with what is known of one rule.
spec fn entry_valid(id: Seq<char>, known: RuntimeView, limits: RulesStoreLimits) -> bool {
    text::utf8_len(id) <= sizes::sat_size(limits.max_name_bytes * 3 + 32)
        && validate::runtime_problem(known, limits) is None
}

proof fn lemma_entries_valid(entries: Seq<(Seq<char>, RuntimeView)>, limits: RulesStoreLimits)
    ensures
        validate::entries_problem(entries, limits) is None <==> forall|i: int|
            0 <= i < entries.len() ==> entry_valid(
                (#[trigger] entries[i]).0,
                entries[i].1,
                limits,
            ),
    decreases entries.len(),
{
    if entries.len() > 0 {
        let rest = entries.drop_last();
        let last = entries.len() - 1;
        lemma_entries_valid(rest, limits);
        assert(forall|i: int| 0 <= i < last ==> #[trigger] entries[i] == rest[i]);
        if validate::entries_problem(entries, limits) is None {
            assert forall|i: int| 0 <= i < entries.len() implies entry_valid(
                (#[trigger] entries[i]).0,
                entries[i].1,
                limits,
            ) by {
                if i < last {
                    assert(entry_valid(rest[i].0, rest[i].1, limits));
                }
            }
        }
        if forall|i: int|
            0 <= i < entries.len() ==> entry_valid(
                (#[trigger] entries[i]).0,
                entries[i].1,
                limits,
            ) {
            assert(entry_valid(entries[last].0, entries[last].1, limits));
            assert forall|i: int| 0 <= i < rest.len() implies entry_valid(
                (#[trigger] rest[i]).0,
                rest[i].1,
                limits,
            ) by {
                assert(entries[i] == rest[i]);
            }
        }
    }
}

/// Nothing is wrong with a table where nothing is wrong with what is known of any rule.
proof fn lemma_table_valid(runtime: Map<Seq<char>, RuntimeView>, limits: RulesStoreLimits)
    requires
        model::is_table(runtime),
    ensures
        validate::entries_problem(
            ordered::listing::<String, RuntimeView>(runtime),
            limits,
        ) is None <==> forall|id: Seq<char>| #[trigger]
            runtime.contains_key(id) ==> entry_valid(id, runtime[id], limits),
{
    let entries = ordered::listing::<String, RuntimeView>(runtime);
    ordered::lemma_listable::<String, RuntimeView>(runtime);
    lemma_entries_valid(entries, limits);
    if validate::entries_problem(entries, limits) is None {
        assert forall|id: Seq<char>| #[trigger] runtime.contains_key(id) implies entry_valid(
            id,
            runtime[id],
            limits,
        ) by {
            assert(ordered::holds_key::<String, RuntimeView>(entries, id));
            let i = choose|i: int| ordered::key_stands::<String, RuntimeView>(entries, id, i);
            ordered::lemma_keyed_map_at::<String, RuntimeView>(entries, i);
            assert(entry_valid(entries[i].0, entries[i].1, limits));
        }
    }
    if forall|id: Seq<char>| #[trigger]
        runtime.contains_key(id) ==> entry_valid(id, runtime[id], limits) {
        assert forall|i: int| 0 <= i < entries.len() implies entry_valid(
            (#[trigger] entries[i]).0,
            entries[i].1,
            limits,
        ) by {
            ordered::lemma_keyed_map_at::<String, RuntimeView>(entries, i);
            assert(runtime.contains_key(entries[i].0));
        }
    }
}

/// Nothing is wrong with the state of a new store, whatever its limits.
pub proof fn lemma_empty_state_valid(checks: ChecksView, limits: RulesStoreLimits)
    ensures
        validate::state_problem(
            (RulesStateView { groups: Seq::empty(), runtime: Map::empty() }),
            checks,
            limits,
        ) is None,
{
    let none = Seq::<(Seq<char>, RuntimeView)>::empty();
    let no_rules = Seq::<RuleGroupView>::empty();
    assert(ordered::keyed_map::<String, RuntimeView>(none) =~= Map::empty());
    ordered::lemma_listing::<String, RuntimeView>(none);
    assert(validate::flat_rules(no_rules, checks).len() == 0);
}

/// The identifier of a rule of valid groups is no longer than that of a rule that is loaded.
proof fn lemma_id_fits(
    groups: Seq<RuleGroupView>,
    checks: ChecksView,
    limits: RulesStoreLimits,
    i: int,
)
    requires
        validate::shapes_problem(groups, checks, limits) is None,
        0 <= i < replace::definitions(groups).len(),
    ensures
        text::utf8_len(replace::definitions(groups)[i].0) <= limits.max_name_bytes * 3 + 32,
    decreases groups.len(),
{
    let rest = groups.drop_last();
    let group = groups.last();
    let before = replace::definitions(rest).len();
    if i < before {
        lemma_id_fits(rest, checks, limits, i);
        assert(replace::definitions(groups)[i] == replace::definitions(rest)[i]);
    } else {
        let r = i - before;
        let rule = group.rules[r];
        assert(replace::definitions(groups)[i] == replace::group_definitions(group)[r]);
        lemma_rule_valid(group.rules, limits, checks.tenant_label, r);
        lemma_id_len(group, rule);
        assert(validate::group_problem(
            group,
            validate::rules_total(groups),
            checks.tenant_valid(groups.len() - 1),
            limits,
            checks.tenant_label,
        ) is None);
    }
}

/// The bytes of the identifier of a rule.
proof fn lemma_id_len(group: RuleGroupView, rule: RuleView)
    ensures
        text::utf8_len(types::id_of(group, rule)) <= text::utf8_len(group.tenant_id)
            + text::utf8_len(group.name) + text::utf8_len(types::name_of(rule)) + 12,
{
    let kind = types::kind_of(rule);
    let a = group.tenant_id;
    let b = group.name;
    text::lemma_utf8_len_joined(a, "/"@);
    text::lemma_utf8_len_joined(a + "/"@, b);
    text::lemma_utf8_len_joined(a + "/"@ + b, "/"@);
    text::lemma_utf8_len_joined(a + "/"@ + b + "/"@, kind);
    text::lemma_utf8_len_joined(a + "/"@ + b + "/"@ + kind, "/"@);
    text::lemma_utf8_len_joined(a + "/"@ + b + "/"@ + kind + "/"@, types::name_of(rule));
    reveal_strlit("/");
    reveal_strlit("recording");
    reveal_strlit("alert");
    text::lemma_ascii_len("/"@);
    text::lemma_ascii_len(kind);
}

proof fn lemma_rule_valid(
    rules: Seq<RuleView>,
    limits: RulesStoreLimits,
    tenant_label: Seq<char>,
    r: int,
)
    requires
        validate::rules_problem(rules, limits, tenant_label) is None,
        0 <= r < rules.len(),
    ensures
        validate::rule_problem(rules[r], limits, tenant_label) is None,
    decreases rules.len(),
{
    if r < rules.len() - 1 {
        lemma_rule_valid(rules.drop_last(), limits, tenant_label, r);
    }
}

/// There are as many rules as are defined, and no more than there may be.
proof fn lemma_rules_counted(
    groups: Seq<RuleGroupView>,
    checks: ChecksView,
    limits: RulesStoreLimits,
)
    requires
        validate::shapes_problem(groups, checks, limits) is None,
    ensures
        replace::definitions(groups).len() == validate::rules_total(groups),
        sizes::sat_size(validate::rules_total(groups) as int) <= limits.max_rules_total,
    decreases groups.len(),
{
    if groups.len() > 0 {
        lemma_rules_counted(groups.drop_last(), checks, limits);
    }
}

/// No more rules are known after a replacement than are defined.
proof fn lemma_retained_counted(
    rules: Seq<(Seq<char>, u64)>,
    before: Map<Seq<char>, RuntimeView>,
)
    ensures
        replace::retained(rules, before).dom().finite(),
        replace::retained(rules, before).dom().len() <= rules.len(),
    decreases rules.len(),
{
    let known = replace::retained(rules, before);
    if rules.len() == 0 {
        assert(known.dom() =~= Set::empty());
    } else {
        lemma_retained_counted(rules.drop_last(), before);
        assert(known.dom() =~= replace::retained(rules.drop_last(), before).dom().insert(
            rules.last().0,
        ));
    }
}

/// Replacing the groups of a store that nothing is wrong with by groups that nothing is wrong with
/// leads to a state that nothing is wrong with, so that it can be loaded again.
pub proof fn lemma_replaced_state_valid(
    before: RulesStateView,
    groups: Seq<RuleGroupView>,
    checks_before: ChecksView,
    checks: ChecksView,
    limits: RulesStoreLimits,
)
    requires
        validate::state_problem(before, checks_before, limits) is None,
        model::is_table(before.runtime),
        validate::groups_problem(groups, checks, limits) is None,
        model::is_table(replace::replaced(before, groups).runtime),
    ensures
        validate::state_problem(replace::replaced(before, groups), checks, limits) is None,
{
    let rules = replace::definitions(groups);
    let known = replace::replaced(before, groups).runtime;
    laws::lemma_valid_groups_have_distinct_ids(groups, checks, limits);
    laws::lemma_retained(rules, before.runtime);
    lemma_rules_counted(groups, checks, limits);
    lemma_retained_counted(rules, before.runtime);
    ordered::lemma_listing_len::<String, RuntimeView>(known);
    lemma_table_valid(before.runtime, limits);
    assert forall|id: Seq<char>| #[trigger] known.contains_key(id) implies entry_valid(
        id,
        known[id],
        limits,
    ) by {
        let i = choose|i: int| 0 <= i < rules.len() && (#[trigger] rules[i]).0 == id;
        lemma_id_fits(groups, checks, limits, i);
        assert(known[rules[i].0] == replace::carried(before.runtime, rules[i].0, rules[i].1));
        if before.runtime.contains_key(id) {
            assert(entry_valid(id, before.runtime[id], limits));
        }
    }
    lemma_table_valid(known, limits);
}

/// What is known of evaluations can be listed with accepted updates in place too.
proof fn lemma_overlaid_listable(
    updates: Seq<(Seq<char>, RuntimeView)>,
    current: Map<Seq<char>, RuntimeView>,
)
    requires
        ordered::listable::<String, RuntimeView>(current),
    ensures
        ordered::listable::<String, RuntimeView>(
            current.union_prefer_right(update::accepted(updates, current)),
        ),
    decreases updates.len(),
{
    let taken = update::accepted(updates, current);
    if updates.len() == 0 {
        assert(current.union_prefer_right(taken) =~= current);
    } else {
        let rest = update::accepted(updates.drop_last(), current);
        lemma_overlaid_listable(updates.drop_last(), current);
        let (id, known) = updates.last();
        if update::update_fits(current, id, known) {
            ordered::lemma_listing_insert::<String, RuntimeView>(
                current.union_prefer_right(rest),
                id,
                known,
            );
            assert(current.union_prefer_right(taken) =~= current.union_prefer_right(rest).insert(
                id,
                known,
            ));
        }
    }
}

/// Updating what a store that nothing is wrong with knows of evaluations, with updates that nothing
/// is wrong with, leads to a state that nothing is wrong with, so that it can be loaded again.
pub proof fn lemma_updated_state_valid(
    before: RulesStateView,
    updates: Seq<(Seq<char>, RuntimeView)>,
    checks: ChecksView,
    limits: RulesStoreLimits,
)
    requires
        validate::state_problem(before, checks, limits) is None,
        model::is_table(before.runtime),
        update::updates_problem(updates, before.runtime, limits) is None,
    ensures
        validate::state_problem(
            overlaid(before, update::accepted(updates, before.runtime)),
            checks,
            limits,
        ) is None,
        model::is_table(overlaid(before, update::accepted(updates, before.runtime)).runtime),
{
    let taken = update::accepted(updates, before.runtime);
    let known = overlaid(before, taken).runtime;
    update::lemma_accepted_fit(updates, before.runtime);
    lemma_table_valid(before.runtime, limits);
    assert forall|id: Seq<char>| known.contains_key(id) == before.runtime.contains_key(id) by {
        laws::lemma_updates_keep_rules(updates, before.runtime, id);
    }
    assert(known.dom() =~= before.runtime.dom());
    lemma_overlaid_listable(updates, before.runtime);
    ordered::lemma_listing_len::<String, RuntimeView>(known);
    ordered::lemma_listing_len::<String, RuntimeView>(before.runtime);
    assert forall|id: Seq<char>| #[trigger] known.contains_key(id) implies entry_valid(
        id,
        known[id],
        limits,
    ) by {
        assert(before.runtime.contains_key(id));
        assert(entry_valid(id, before.runtime[id], limits));
        if taken.contains_key(id) {
            laws::lemma_accepted_updates_valid(updates, before.runtime, limits, id);
        }
    }
    lemma_table_valid(known, limits);
}

/// Accepted updates that nothing is wrong with keep a state valid, whatever is said of its groups.
pub(crate) proof fn lemma_updates_stay_valid(
    before: RulesStateView,
    updates: Seq<(Seq<char>, RuntimeView)>,
    limits: RulesStoreLimits,
)
    requires
        model::is_table(before.runtime),
        update::updates_problem(updates, before.runtime, limits) is None,
    ensures
        validate::stays_valid(
            before,
            overlaid(before, update::accepted(updates, before.runtime)),
            limits,
        ),
{
    assert forall|checks: ChecksView| #[trigger]
        validate::state_problem(before, checks, limits) is None implies validate::state_problem(
        overlaid(before, update::accepted(updates, before.runtime)),
        checks,
        limits,
    ) is None by {
        lemma_updated_state_valid(before, updates, checks, limits);
    }
}

/// A state with some of what is known of evaluations replaced.
pub open spec fn overlaid(
    state: RulesStateView,
    replacements: Map<Seq<char>, RuntimeView>,
) -> RulesStateView {
    RulesStateView {
        groups: state.groups,
        runtime: state.runtime.union_prefer_right(replacements),
    }
}

/// Whether decoding gives back what was encoded, in the format that is known.
pub open spec fn gives_back<
    E: FnOnce(&PersistedRulesStoreState, &RuntimeMap) -> Option<Vec<u8>>,
    D: FnOnce(&Vec<u8>) -> Result<PersistedRulesStore, RulesDecodeError>,
>(encode: E, decode: D) -> bool {
    forall|
        state: RulesStateView,
        replacements: Map<Seq<char>, RuntimeView>,
        bytes: Vec<u8>,
        decoded: Result<PersistedRulesStore, RulesDecodeError>,
    |
        #[trigger] persist::encoded_from(encode, state, replacements, bytes)
            && #[trigger] call_ensures(decode, (&bytes,), decoded) ==> (decoded matches Ok(
            persisted,
        ) && load::known_format(persisted) && persisted.state@ == overlaid(state, replacements))
}

/// Whether this is what is said of groups, whenever it is asked.
pub open spec fn says_of<C: FnOnce(&Vec<RuleGroupSpec>) -> RuleChecks>(
    check: C,
    groups: Seq<RuleGroupView>,
    checks: ChecksView,
) -> bool {
    forall|asked: Vec<RuleGroupSpec>, said: RuleChecks|
        stable::views(asked@) == groups && #[trigger] call_ensures(check, (&asked,), said)
            ==> said@ == checks
}

/// Whether a state that is measured to hold bytes, when it is checked and again when it is kept, is
/// within the limits of the startup beside a file of a length.
pub open spec fn startup_holds(
    limits: RulesStoreLimits,
    len: nat,
    checked_bytes: usize,
    kept_bytes: usize,
) -> bool {
    &&& checked_bytes <= limits.max_total_retained_state_bytes
    &&& kept_bytes <= limits.max_total_retained_state_bytes
    &&& sizes::sat_size(len as int + kept_bytes) <= limits.max_startup_transient_bytes
}

/// Whether the startup turned a state away because it was measured to hold too much.
pub open spec fn measured_over(
    limits: RulesStoreLimits,
    len: nat,
    state: RulesStateView,
) -> bool {
    exists|checked_bytes: usize, kept_bytes: usize|
        model::state_measures(state, checked_bytes) && model::state_measures(state, kept_bytes)
            && !#[trigger] startup_holds(limits, len, checked_bytes, kept_bytes)
}

/// What was written is what is loaded after a restart: where the bytes of the file are what a state
/// that nothing is wrong with was encoded to, decoding gives back what was encoded, and what the
/// bytes take to be decoded is within the startup limit, the state that is loaded is that state,
/// and the file is as long as it was. Only a state that is measured to hold more than the startup
/// may is turned away, as over the startup limit, and that cannot be where there is no such limit.
pub proof fn lemma_restart_restores_rules<
    E: FnOnce(&PersistedRulesStoreState, &RuntimeMap) -> Option<Vec<u8>>,
    D: FnOnce(&Vec<u8>) -> Result<PersistedRulesStore, RulesDecodeError>,
    C: FnOnce(&Vec<RuleGroupSpec>) -> RuleChecks,
>(
    limits: RulesStoreLimits,
    state: RulesStateView,
    replacements: Map<Seq<char>, RuntimeView>,
    checks: ChecksView,
    encode: E,
    raw: Vec<u8>,
    before: RulesStoreAccounting,
    decode: D,
    check: C,
    loaded: Result<LoadedRulesStoreState, RulesStoreError>,
    after: RulesStoreAccounting,
)
    requires
        validate::state_problem(overlaid(state, replacements), checks, limits) is None,
        persist::encoded_from(encode, state, replacements, raw),
        gives_back(encode, decode),
        says_of(check, state.groups, checks),
        load::decodes(limits, raw@),
        load::may_be_loaded(limits, before, raw, decode, check, loaded, after),
    ensures
        match loaded {
            Ok(found) => {
                &&& found.state@ == overlaid(state, replacements)
                &&& found.durable_file_bytes == raw@.len()
            },
            Err(error) => {
                &&& error == RulesStoreError::Limit(RulesLimitSurface::Startup)
                &&& measured_over(limits, raw@.len(), overlaid(state, replacements))
            },
        },
        limits.max_total_retained_state_bytes == usize::MAX && limits.max_startup_transient_bytes
            == usize::MAX ==> loaded is Ok,
{
    let upper = load::preflight(raw@)->Ok_0;
    let peak = sizes::sat_size(raw@.len() as int + upper);
    let seen = before.observed(RulesLimitSurface::Startup, peak);
    let len = raw@.len() as usize;
    assert(raw.len() == raw@.len());
    let decoded = choose|decoded: Result<PersistedRulesStore, RulesDecodeError>| #[trigger]
        call_ensures(decode, (&raw,), decoded) && match decoded {
            Err(RulesDecodeError::Malformed) => {
                &&& loaded matches Err(RulesStoreError::Invalid(text)) && text@
                    == "rules store contains invalid durable state"@
                &&& after == seen
            },
            Err(RulesDecodeError::TrailingData) => {
                &&& loaded matches Err(RulesStoreError::Invalid(text)) && text@
                    == "rules store contains trailing data"@
                &&& after == seen
            },
            Ok(persisted) => load::may_be_accepted(
                limits,
                seen,
                len,
                peak,
                persisted,
                check,
                loaded,
                after,
            ),
        };
    let persisted = decoded->Ok_0;
    let (said, checked_bytes, kept_bytes) = choose|
        said: RuleChecks,
        checked_bytes: usize,
        kept_bytes: usize,
    |
        load::decoded_as(check, persisted, said) && model::state_measures(
            persisted.state@,
            checked_bytes,
        ) && model::state_measures(persisted.state@, kept_bytes) && #[trigger] load::accepted_as(
            limits,
            seen,
            len,
            peak,
            persisted,
            said@,
            checked_bytes,
            kept_bytes,
            loaded,
            after,
        );
    assert(persisted.state@ == overlaid(state, replacements));
    assert(call_ensures(check, (&persisted.state.groups,), said));
    assert(said@ == checks);
    if loaded is Err {
        assert(!startup_holds(limits, raw@.len(), checked_bytes, kept_bytes));
    }
}

/// A restart with what was measured given: the state is loaded exactly where the startup holds it.
pub proof fn lemma_restart_within_limits(
    limits: RulesStoreLimits,
    before: RulesStoreAccounting,
    len: usize,
    peak: usize,
    persisted: PersistedRulesStore,
    checks: ChecksView,
    checked_bytes: usize,
    kept_bytes: usize,
    loaded: Result<LoadedRulesStoreState, RulesStoreError>,
    after: RulesStoreAccounting,
)
    requires
        load::known_format(persisted),
        validate::state_problem(persisted.state@, checks, limits) is None,
        load::accepted_as(
            limits,
            before,
            len,
            peak,
            persisted,
            checks,
            checked_bytes,
            kept_bytes,
            loaded,
            after,
        ),
    ensures
        loaded is Ok <==> startup_holds(limits, len as nat, checked_bytes, kept_bytes),
        loaded matches Ok(found) ==> found.state == persisted.state && found.durable_file_bytes
            == len,
{
}

/// Nothing is wrong with a state that was loaded, so that what holds of the states that follow from
/// a valid one holds after a restart too.
pub proof fn lemma_loaded_state_valid<
    D: FnOnce(&Vec<u8>) -> Result<PersistedRulesStore, RulesDecodeError>,
    C: FnOnce(&Vec<RuleGroupSpec>) -> RuleChecks,
>(
    limits: RulesStoreLimits,
    before: RulesStoreAccounting,
    raw: Vec<u8>,
    decode: D,
    check: C,
    found: LoadedRulesStoreState,
    after: RulesStoreAccounting,
)
    requires
        load::may_be_loaded(limits, before, raw, decode, check, Ok(found), after),
    ensures
        exists|said: RuleChecks| #[trigger]
            call_ensures(check, (&found.state.groups,), said) && validate::state_problem(
                found.state@,
                said@,
                limits,
            ) is None,
{
}

/// The marker of a recording rule whose interval was claimed survives a restart: a run on the state
/// that is loaded does not find the rule due at any time of that interval, though the outcome of
/// the evaluation was never kept.
pub proof fn lemma_claim_survives_restart<
    E: FnOnce(&PersistedRulesStoreState, &RuntimeMap) -> Option<Vec<u8>>,
    D: FnOnce(&Vec<u8>) -> Result<PersistedRulesStore, RulesDecodeError>,
    C: FnOnce(&Vec<RuleGroupSpec>) -> RuleChecks,
>(
    limits: RulesStoreLimits,
    state: RulesStateView,
    claiming: RulesRun,
    precision: TimestampPrecision,
    checks: ChecksView,
    encode: E,
    raw: Vec<u8>,
    before: RulesStoreAccounting,
    decode: D,
    check: C,
    found: LoadedRulesStoreState,
    after: RulesStoreAccounting,
    run: RulesRun,
)
    requires
        ({
            let claim = Map::<Seq<char>, RuntimeView>::empty().insert(
                claiming.next_id(),
                claiming.next_claim(precision),
            );
            &&& validate::state_problem(overlaid(state, claim), checks, limits) is None
            &&& persist::encoded_from(encode, state, claim, raw)
        }),
        gives_back(encode, decode),
        says_of(check, state.groups, checks),
        load::decodes(limits, raw@),
        load::may_be_loaded(limits, before, raw, decode, check, Ok(found), after),
        run.runtime@ == found.state@.runtime,
        run.next_id() == claiming.next_id(),
        run.next_timestamp(precision) <= claiming.next_timestamp(precision),
    ensures
        !run.next_due(precision),
{
    let claim = Map::<Seq<char>, RuntimeView>::empty().insert(
        claiming.next_id(),
        claiming.next_claim(precision),
    );
    lemma_restart_restores_rules(
        limits,
        state,
        claim,
        checks,
        encode,
        raw,
        before,
        decode,
        check,
        Ok(found),
        after,
    );
    assert(run.runtime@[run.next_id()] == claiming.next_claim(precision));
    schedule::lemma_claimed_interval_not_due(
        run,
        precision,
        claiming.next_known(),
        claiming.next_fingerprint(),
        claiming.next_timestamp(precision),
        claiming.now_unix_ms,
    );
}

/// No interval is recorded or alerted on twice across a restart: after a run in which every rule
/// was done with and whose updates were kept, a run of the rules that are loaded again, at a time
/// within the same intervals, evaluates none, and at its end there is nothing to update. The file
/// may have been written by the last update or by an earlier one, as long as what it holds is what
/// was known at the end of the first run.
pub proof fn lemma_second_run_idle_after_restart<
    E: FnOnce(&PersistedRulesStoreState, &RuntimeMap) -> Option<Vec<u8>>,
    D: FnOnce(&Vec<u8>) -> Result<PersistedRulesStore, RulesDecodeError>,
    C: FnOnce(&Vec<RuleGroupSpec>) -> RuleChecks,
>(
    first: Seq<RunPoint>,
    second: Seq<RunPoint>,
    precision: TimestampPrecision,
    limits: RulesStoreLimits,
    state: RulesStateView,
    replacements: Map<Seq<char>, RuntimeView>,
    checks: ChecksView,
    encode: E,
    raw: Vec<u8>,
    before: RulesStoreAccounting,
    decode: D,
    check: C,
    found: LoadedRulesStoreState,
    after: RulesStoreAccounting,
    store: RulesStore,
    n: int,
)
    requires
        runs::is_trace(first, precision),
        runs::run_begins(first[0]),
        first[0].run.places@ == schedule::places_of(stable::views(first[0].run.groups@)),
        first.last().run.next == first[0].run.places@.len(),
        overlaid(state, replacements) == (RulesStateView {
            groups: stable::views(first[0].run.groups@),
            runtime: first.last().runtime.union_prefer_right(
                update::accepted(
                    update::update_views(first.last().run.updates@),
                    first.last().runtime,
                ),
            ),
        }),
        validate::state_problem(overlaid(state, replacements), checks, limits) is None,
        persist::encoded_from(encode, state, replacements, raw),
        gives_back(encode, decode),
        says_of(check, state.groups, checks),
        load::decodes(limits, raw@),
        load::may_be_loaded(limits, before, raw, decode, check, Ok(found), after),
        runs::is_trace(second, precision),
        stable::views(second[0].run.groups@) == found.state@.groups,
        second[0].run.runtime@ == found.state@.runtime,
        second[0].run.places@ == schedule::places_of(found.state@.groups),
        second[0].run.next == 0,
        second[0].run.updates@.len() == 0,
        runs::same_intervals(first[0].run, second[0].run, precision),
        0 <= n < second.len(),
    ensures
        second[n].runtime == second[0].runtime,
        second[n].run.evaluated_rules == second[0].run.evaluated_rules,
        second[n].run.next < second[n].run.places@.len() ==> !second[n].run.next_due(precision),
        update::update_views(second[n].run.updates@).len() == 0,
        !update::updates_writable(store, update::update_views(second[n].run.updates@)),
{
    lemma_restart_restores_rules(
        limits,
        state,
        replacements,
        checks,
        encode,
        raw,
        before,
        decode,
        check,
        Ok(found),
        after,
    );
    runs::lemma_second_run_idle(first, second, precision, store, n);
}

} // verus!
