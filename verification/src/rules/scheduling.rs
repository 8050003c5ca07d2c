//! When a rule is due, what is kept of its evaluation, and what is shown of it.

use vstd::arithmetic::div_mod::lemma_fundamental_div_mod;
use vstd::prelude::*;

use crate::ordered;
use crate::rules::evaluation::ticks_in;
use crate::rules::evaluation::lemma_seconds_in_timestamps;
use crate::rules::fingerprint;
use crate::rules::laws;
use crate::rules::replace;
use crate::rules::runs;
use crate::rules::runs::RunPoint;
use crate::rules::runtime;
use crate::rules::runtime::RulesRuntime;
use crate::rules::schedule;
use crate::rules::schedule::RuleStep;
use crate::rules::schedule::RulesRun;
use crate::rules::status;
use crate::rules::status::RulesStatusSnapshot;
use crate::rules::time::TimestampPrecision;
use crate::rules::types;
use crate::rules::types::AlertInstanceStatus;
use crate::rules::types::AlertInstanceView;
use crate::rules::types::PersistedRuleRuntimeState;
use crate::rules::types::RuleEvaluationOutcome;
use crate::rules::types::RuleGroupSpec;
use crate::rules::types::RuleGroupView;
use crate::rules::types::RuleSpec;
use crate::rules::types::RuleView;
use crate::rules::types::RulesStateView;
use crate::rules::types::RuntimeView;
use crate::rules::update;
use crate::sizes;
use crate::stable;
use crate::text;

verus! {

/// The seconds between two evaluations of a rule: its own where it has some, else its group's.
pub open spec fn seconds_between(group: RuleGroupSpec, rule: RuleSpec) -> u64 {
    match rule {
        RuleSpec::Recording(spec) => match spec.interval_secs {
            Some(secs) => secs,
            None => group.interval_secs,
        },
        RuleSpec::Alert(spec) => match spec.interval_secs {
            Some(secs) => secs,
            None => group.interval_secs,
        },
    }
}

/// The text by which a rule is known: its tenant, its group, its kind and its name.
pub open spec fn known_by(group: RuleGroupSpec, rule: RuleSpec) -> Seq<char> {
    match rule {
        RuleSpec::Recording(spec) => group.tenant_id@ + "/"@ + group.name@ + "/"@ + "recording"@
            + "/"@ + spec.record@,
        RuleSpec::Alert(spec) => group.tenant_id@ + "/"@ + group.name@ + "/"@ + "alert"@ + "/"@
            + spec.alert@,
    }
}

/// Whether a time is the last whole multiple of an interval that is not after now.
pub open spec fn last_multiple(time: int, now: int, interval: int) -> bool {
    &&& time <= now
    &&& now - time < interval
    &&& exists|k: int| time == #[trigger] (k * interval)
}

/// The rule that a run takes up next goes by its own interval where it has one, whatever its kind,
/// and only without one by its group's. It is due exactly where it was not evaluated yet for the
/// last multiple of that interval that is not after now, and is then evaluated for that time; a rule
/// that nothing is known of is due.
pub proof fn lemma_rule_due_at_its_interval(
    before: RunPoint,
    after: RunPoint,
    precision: TimestampPrecision,
    step: RuleStep,
)
    requires
        before.run.well_formed(),
        before.run.next < before.run.places@.len(),
        before.run.next_alignable(precision),
        runs::takes_up(before, after, precision, step),
    ensures
        ({
            let place = before.run.places@[before.run.next as int];
            let group = before.run.groups@[place.0 as int];
            let rule = group.rules@[place.1 as int];
            let id = known_by(group, rule);
            let known = before.run.runtime@;
            let ticks = ticks_in(seconds_between(group, rule), precision);
            exists|time: i64| #[trigger]
                last_multiple(time as int, before.run.now_timestamp as int, ticks) && {
                    &&& step is NotDue <==> known.contains_key(id) && (
                    known[id].last_eval_timestamp matches Some(last) && last >= time)
                    &&& step is Evaluate ==> (after.run.claimed matches Some(claim)
                        && claim.eval_timestamp == time && claim.rule_id@ == id && claim.place
                        == place)
                    &&& step is Evaluate && rule is Recording ==> after.runtime.contains_key(id)
                        && after.runtime[id].last_eval_timestamp == Some(time)
                    &&& step is NotDue || step is Evaluate && rule is Alert ==> after.runtime
                        == before.runtime
                }
        }),
{
    let place = before.run.places@[before.run.next as int];
    let group = before.run.groups@[place.0 as int];
    let rule = group.rules@[place.1 as int];
    let now = before.run.now_timestamp as int;
    let secs = seconds_between(group, rule);
    let ticks = ticks_in(secs, precision);
    lemma_seconds_in_timestamps(secs, precision);
    assert(before.run.next_group() == group@);
    assert(before.run.next_rule() == rule@);
    assert(before.run.next_id() == known_by(group, rule));
    assert(types::interval_of(group@, rule@) == secs);
    let time = before.run.next_timestamp(precision);
    lemma_fundamental_div_mod(now, ticks);
    assert(0 <= now % ticks < ticks);
    if ticks == 1 {
        assert(time == now);
        assert(time == now * ticks);
    } else {
        assert(time == now - now % ticks);
        assert((now / ticks) * ticks == ticks * (now / ticks)) by (nonlinear_arith);
        assert(time == (now / ticks) * ticks);
    }
    assert(last_multiple(time as int, now, ticks));
}

proof fn lemma_places(groups: Seq<RuleGroupView>)
    requires
        groups.len() <= usize::MAX,
        forall|g: int| 0 <= g < groups.len() ==> (#[trigger] groups[g]).rules.len() <= usize::MAX,
    ensures
        forall|j: int|
            0 <= j < schedule::places_of(groups).len() ==> (
            #[trigger] schedule::places_of(groups)[j]).0 < groups.len()
                && schedule::places_of(groups)[j].1 < groups[schedule::places_of(
                groups,
            )[j].0 as int].rules.len(),
        forall|g: usize, r: usize|
            g < groups.len() && r < groups[g as int].rules.len() ==> #[trigger]
            schedule::places_of(groups).contains((g, r)),
        forall|i: int, j: int|
            0 <= i < j < schedule::places_of(groups).len() ==> {
                let a = #[trigger] schedule::places_of(groups)[i];
                let b = #[trigger] schedule::places_of(groups)[j];
                a.0 < b.0 || a.0 == b.0 && a.1 < b.1
            },
    decreases groups.len(),
{
    if groups.len() > 0 {
        let rest = groups.drop_last();
        let n = groups.len() - 1;
        assert forall|g: int| 0 <= g < rest.len() implies (#[trigger] rest[g]).rules.len()
            <= usize::MAX by {
            assert(rest[g] == groups[g]);
        }
        lemma_places(rest);
        let earlier = schedule::places_of(rest);
        let all = schedule::places_of(groups);
        let m = earlier.len() as int;
        assert(groups.last() == groups[n]);
        assert forall|j: int| 0 <= j < all.len() implies (#[trigger] all[j]).0 < groups.len()
            && all[j].1 < groups[all[j].0 as int].rules.len() && (j < m ==> all[j] == earlier[j])
            && (j >= m ==> all[j] == (n as usize, (j - m) as usize)) by {
            if j < m {
                assert(all[j] == earlier[j]);
                assert(rest[earlier[j].0 as int] == groups[earlier[j].0 as int]);
            } else {
                assert(all[j] == (n as usize, (j - m) as usize));
            }
        }
        assert forall|g: usize, r: usize|
            g < groups.len() && r < groups[g as int].rules.len() implies #[trigger] all.contains(
            (g, r),
        ) by {
            if g < n {
                assert(rest[g as int] == groups[g as int]);
                assert(earlier.contains((g, r)));
                let j = choose|j: int| 0 <= j < earlier.len() && earlier[j] == (g, r);
                assert(all[j] == (g, r));
            } else {
                assert(all[m + r] == (g, r));
            }
        }
        assert forall|i: int, j: int| 0 <= i < j < all.len() implies ({
            let a = #[trigger] all[i];
            let b = #[trigger] all[j];
            a.0 < b.0 || a.0 == b.0 && a.1 < b.1
        }) by {
            if j < m {
                assert(all[i] == earlier[i] && all[j] == earlier[j]);
            } else if i < m {
                assert(all[i] == earlier[i]);
                assert(earlier[i].0 < rest.len());
            }
        }
    }
}

/// A run takes up every rule of every group once, group by group and rule by rule.
pub proof fn lemma_run_takes_up_every_rule(groups: Seq<RuleGroupSpec>, places: Seq<(usize, usize)>)
    requires
        groups.len() <= usize::MAX,
        forall|g: int|
            0 <= g < groups.len() ==> (#[trigger] groups[g]).rules@.len() <= usize::MAX,
        places == schedule::places_of(stable::views(groups)),
    ensures
        forall|g: usize, r: usize|
            g < groups.len() && r < groups[g as int].rules@.len() <==> #[trigger] places.contains(
                (g, r),
            ),
        forall|i: int, j: int|
            0 <= i < j < places.len() ==> {
                let a = #[trigger] places[i];
                let b = #[trigger] places[j];
                a.0 < b.0 || a.0 == b.0 && a.1 < b.1
            },
{
    let views = stable::views(groups);
    assert forall|g: int| 0 <= g < views.len() implies (#[trigger] views[g]).rules.len()
        <= usize::MAX by {
        assert(views[g] == groups[g]@);
        assert(groups[g].rules@.len() <= usize::MAX);
    }
    lemma_places(views);
    assert(forall|g: int| 0 <= g < groups.len() ==> #[trigger] views[g] == groups[g]@);
    assert forall|g: usize, r: usize|
        g < groups.len() && r < groups[g as int].rules@.len() <==> #[trigger] places.contains(
            (g, r),
        ) by {
        if g < groups.len() {
            assert(views[g as int].rules.len() == groups[g as int].rules@.len());
        }
        if places.contains((g, r)) {
            let j = choose|j: int| 0 <= j < places.len() && places[j] == (g, r);
            assert(places[j].0 < views.len());
            assert(views[g as int].rules.len() == groups[g as int].rules@.len());
        }
    }
}

/// What is kept of an evaluation of a claimed rule is one update of that rule, behind those of the
/// run. A success is kept as it came out, under the fingerprint and with the duration. A failure
/// keeps the alerts, the counts and the last success that were known, and notes the time of the
/// evaluation, what went wrong, and that it failed.
pub proof fn lemma_outcome_is_kept(
    before: RulesRun,
    after: RulesRun,
    outcome: Result<PersistedRuleRuntimeState, String>,
    duration_ms: u64,
)
    requires
        runs::keeps_outcome(before, after, outcome, duration_ms),
    ensures
        before.claimed matches Some(claim) && ({
            let n = before.updates@.len() as int;
            let kept = after.updates@[n].1@;
            &&& after.updates@.len() == n + 1
            &&& after.updates@[n].0@ == claim.rule_id@
            &&& forall|i: int|
                0 <= i < n ==> (#[trigger] after.updates@[i]).0@ == before.updates@[i].0@
                    && after.updates@[i].1@ == before.updates@[i].1@
            &&& kept.fingerprint == claim.fingerprint
            &&& kept.last_duration_ms == duration_ms
            &&& match outcome {
                Ok(state) => {
                    &&& kept.last_eval_timestamp == state.last_eval_timestamp
                    &&& kept.last_eval_unix_ms == state.last_eval_unix_ms
                    &&& kept.last_success_unix_ms == state.last_success_unix_ms
                    &&& kept.last_error == text::opt_text(state.last_error)
                    &&& kept.last_sample_count == state.last_sample_count
                    &&& kept.last_recorded_rows == state.last_recorded_rows
                    &&& kept.last_outcome == state.last_outcome
                    &&& kept.alert_instances == stable::views(state.alert_instances@)
                },
                Err(message) => {
                    &&& kept.last_eval_timestamp == Some(claim.eval_timestamp)
                    &&& kept.last_eval_unix_ms == Some(before.now_unix_ms)
                    &&& kept.last_error == Some(message@)
                    &&& kept.last_outcome == Some(RuleEvaluationOutcome::Error)
                    &&& kept.last_success_unix_ms == claim.previous.last_success_unix_ms
                    &&& kept.last_sample_count == claim.previous.last_sample_count
                    &&& kept.last_recorded_rows == claim.previous.last_recorded_rows
                    &&& kept.alert_instances == stable::views(claim.previous.alert_instances@)
                },
            }
        }),
{
    let old_updates = update::update_views(before.updates@);
    let new_updates = update::update_views(after.updates@);
    let n = before.updates@.len() as int;
    assert(new_updates.len() == n + 1);
    assert(new_updates[n] == (after.updates@[n].0@, after.updates@[n].1@));
    assert forall|i: int| 0 <= i < n implies (#[trigger] after.updates@[i]).0@
        == before.updates@[i].0@ && after.updates@[i].1@ == before.updates@[i].1@ by {
        assert(new_updates[i] == old_updates[i]);
        assert(new_updates[i] == (after.updates@[i].0@, after.updates@[i].1@));
        assert(old_updates[i] == (before.updates@[i].0@, before.updates@[i].1@));
    }
}

/// What is written before a recording rule is evaluated marks its interval as taken, and says that
/// the outcome is open: it keeps the last success and nothing of an outcome.
pub proof fn lemma_claim_marks_interval(run: RulesRun, precision: TimestampPrecision)
    ensures
        ({
            let claim = run.next_claim(precision);
            &&& claim.last_eval_timestamp == Some(run.next_timestamp(precision))
            &&& claim.last_eval_unix_ms == Some(run.now_unix_ms)
            &&& claim.last_success_unix_ms == run.next_known().last_success_unix_ms
            &&& claim.last_outcome == Some(RuleEvaluationOutcome::Error)
            &&& claim.last_error is Some
            &&& claim.last_recorded_rows == 0
            &&& claim.last_sample_count == 0
            &&& claim.alert_instances.len() == 0
            &&& claim.fingerprint == run.next_fingerprint()
        }),
{
}

/// Whether an update is the last of a list that is for a rule under a fingerprint.
pub open spec fn last_update_for(
    updates: Seq<(Seq<char>, RuntimeView)>,
    id: Seq<char>,
    fingerprint: u64,
    at: int,
) -> bool {
    &&& 0 <= at < updates.len()
    &&& updates[at].0 == id
    &&& updates[at].1.fingerprint == fingerprint
    &&& forall|j: int|
        at < j < updates.len() ==> !((#[trigger] updates[j]).0 == id && updates[j].1.fingerprint
            == fingerprint)
}

proof fn lemma_accepted_last(
    updates: Seq<(Seq<char>, RuntimeView)>,
    current: Map<Seq<char>, RuntimeView>,
    id: Seq<char>,
)
    ensures
        update::accepted(updates, current).contains_key(id) <==> current.contains_key(id)
            && exists|at: int| #[trigger]
            last_update_for(updates, id, current[id].fingerprint, at),
        update::accepted(updates, current).contains_key(id) ==> exists|at: int| #[trigger]
            last_update_for(updates, id, current[id].fingerprint, at)
                && update::accepted(updates, current)[id] == updates[at].1,
    decreases updates.len(),
{
    if updates.len() > 0 {
        let rest = updates.drop_last();
        let n = updates.len() - 1;
        let fingerprint = current[id].fingerprint;
        lemma_accepted_last(rest, current, id);
        assert(updates.last() == updates[n]);
        assert(forall|j: int| 0 <= j < n ==> #[trigger] rest[j] == updates[j]);
        if current.contains_key(id) && updates[n].0 == id && updates[n].1.fingerprint
            == fingerprint {
            assert(last_update_for(updates, id, fingerprint, n));
        } else {
            assert forall|at: int| #[trigger]
                last_update_for(updates, id, fingerprint, at) && current.contains_key(
                    id,
                ) implies last_update_for(rest, id, fingerprint, at) by {
                assert forall|j: int| at < j < rest.len() implies !((#[trigger] rest[j]).0 == id
                    && rest[j].1.fingerprint == fingerprint) by {
                    assert(rest[j] == updates[j]);
                }
            }
            assert forall|at: int| #[trigger]
                last_update_for(rest, id, fingerprint, at) && current.contains_key(
                    id,
                ) implies last_update_for(updates, id, fingerprint, at) by {
                assert(updates[at] == rest[at]);
                assert forall|j: int| at < j < updates.len() implies !((#[trigger] updates[j]).0
                    == id && updates[j].1.fingerprint == fingerprint) by {
                    if j < n {
                        assert(rest[j] == updates[j]);
                    }
                }
            }
            if update::accepted(rest, current).contains_key(id) {
                let at = choose|at: int| #[trigger]
                    last_update_for(rest, id, fingerprint, at)
                        && update::accepted(rest, current)[id] == rest[at].1;
                assert(last_update_for(updates, id, fingerprint, at));
                assert(rest[at] == updates[at]);
            }
        }
    }
}

/// Updates change what is known of exactly the rules that they are for under the fingerprint that is
/// known: such a rule is known by the last of its updates, and every other as it was.
pub proof fn lemma_updates_reach_their_rules(
    updates: Seq<(Seq<char>, RuntimeView)>,
    current: Map<Seq<char>, RuntimeView>,
    id: Seq<char>,
)
    ensures
        ({
            let after = current.union_prefer_right(update::accepted(updates, current));
            let fingerprint = current[id].fingerprint;
            &&& after.contains_key(id) <==> current.contains_key(id)
            &&& current.contains_key(id) ==> {
                ||| exists|at: int| #[trigger]
                    last_update_for(updates, id, fingerprint, at) && after[id] == updates[at].1
                ||| (forall|at: int| !#[trigger] last_update_for(updates, id, fingerprint, at))
                    && after[id] == current[id]
            }
        }),
{
    lemma_accepted_last(updates, current, id);
}

/// Whether a rule stands somewhere in groups under an identifier, with a fingerprint.
#[verifier::opaque]
pub open spec fn stands_in(
    groups: Seq<RuleGroupView>,
    g: int,
    r: int,
    id: Seq<char>,
    print: u64,
) -> bool {
    &&& 0 <= g < groups.len()
    &&& 0 <= r < groups[g].rules.len()
    &&& id == match groups[g].rules[r] {
        RuleView::Recording(spec) => groups[g].tenant_id + "/"@ + groups[g].name + "/"@
            + "recording"@ + "/"@ + spec.record,
        RuleView::Alert(spec) => groups[g].tenant_id + "/"@ + groups[g].name + "/"@ + "alert"@
            + "/"@ + spec.alert,
    }
    &&& print == fingerprint::fingerprint_of(groups[g], groups[g].rules[r])
}

/// Whether a group defines a rule under an identifier, with a fingerprint.
#[verifier::opaque]
spec fn defines(groups: Seq<RuleGroupView>, g: int, rule: (Seq<char>, u64)) -> bool {
    0 <= g < groups.len() && replace::group_definitions(groups[g]).contains(rule)
}

proof fn lemma_in_either<A>(a: Seq<A>, b: Seq<A>, item: A)
    ensures
        (a + b).contains(item) <==> a.contains(item) || b.contains(item),
{
    if a.contains(item) {
        let i = choose|i: int| 0 <= i < a.len() && a[i] == item;
        assert((a + b)[i] == item);
    }
    if b.contains(item) {
        let i = choose|i: int| 0 <= i < b.len() && b[i] == item;
        assert((a + b)[a.len() + i] == item);
    }
    if (a + b).contains(item) {
        let i = choose|i: int| 0 <= i < (a + b).len() && (a + b)[i] == item;
        if i < a.len() {
            assert(a[i] == item);
        } else {
            assert(b[i - a.len()] == item);
        }
    }
}

/// The items of lists, one list behind the other.
spec fn all_of(lists: Seq<Seq<(Seq<char>, u64)>>) -> Seq<(Seq<char>, u64)>
    decreases lists.len(),
{
    if lists.len() == 0 {
        Seq::empty()
    } else {
        all_of(lists.drop_last()) + lists.last()
    }
}

/// Whether an item is in a list of some.
#[verifier::opaque]
spec fn in_list(lists: Seq<Seq<(Seq<char>, u64)>>, g: int, rule: (Seq<char>, u64)) -> bool {
    0 <= g < lists.len() && lists[g].contains(rule)
}

proof fn lemma_in_some_list(lists: Seq<Seq<(Seq<char>, u64)>>, rule: (Seq<char>, u64))
    ensures
        all_of(lists).contains(rule) <==> exists|g: int| #[trigger] in_list(lists, g, rule),
    decreases lists.len(),
{
    if lists.len() == 0 {
        reveal(in_list);
    } else {
        let rest = lists.drop_last();
        let n = lists.len() - 1;
        lemma_in_some_list(rest, rule);
        lemma_in_either(all_of(rest), lists.last(), rule);
        assert(in_list(lists, n, rule) <==> lists.last().contains(rule)) by {
            reveal(in_list);
        }
        assert forall|g: int| g != n implies #[trigger] in_list(lists, g, rule) == in_list(
            rest,
            g,
            rule,
        ) by {
            reveal(in_list);
        }
        assert(!in_list(rest, n, rule)) by {
            reveal(in_list);
        }
        if exists|g: int| #[trigger] in_list(rest, g, rule) {
            let g = choose|g: int| #[trigger] in_list(rest, g, rule);
            assert(in_list(lists, g, rule));
        }
        if exists|g: int| #[trigger] in_list(lists, g, rule) {
            let g = choose|g: int| #[trigger] in_list(lists, g, rule);
            if g != n {
                assert(in_list(rest, g, rule));
            }
        }
    }
}

/// The definitions of each group.
spec fn lists_of(groups: Seq<RuleGroupView>) -> Seq<Seq<(Seq<char>, u64)>> {
    Seq::new(groups.len(), |g: int| replace::group_definitions(groups[g]))
}

proof fn lemma_definitions_are_all(groups: Seq<RuleGroupView>)
    ensures
        replace::definitions(groups) == all_of(lists_of(groups)),
    decreases groups.len(),
{
    let lists = lists_of(groups);
    if groups.len() > 0 {
        lemma_definitions_are_all(groups.drop_last());
        assert(lists.drop_last() =~= lists_of(groups.drop_last()));
        assert(lists.last() == replace::group_definitions(groups.last()));
    }
}

proof fn lemma_in_its_list(groups: Seq<RuleGroupView>, g: int, rule: (Seq<char>, u64))
    ensures
        defines(groups, g, rule) == in_list(lists_of(groups), g, rule),
{
    reveal(defines);
    reveal(in_list);
    if 0 <= g < groups.len() {
        assert(lists_of(groups)[g] == replace::group_definitions(groups[g]));
    }
}

proof fn lemma_some_group_defines(groups: Seq<RuleGroupView>, rule: (Seq<char>, u64))
    ensures
        replace::definitions(groups).contains(rule) <==> exists|g: int| #[trigger]
            defines(groups, g, rule),
{
    let lists = lists_of(groups);
    lemma_definitions_are_all(groups);
    lemma_in_some_list(lists, rule);
    assert forall|g: int| #[trigger] defines(groups, g, rule) == in_list(lists, g, rule) by {
        lemma_in_its_list(groups, g, rule);
    }
    if exists|g: int| #[trigger] in_list(lists, g, rule) {
        let g = choose|g: int| #[trigger] in_list(lists, g, rule);
        assert(defines(groups, g, rule));
    }
}

proof fn lemma_defined(groups: Seq<RuleGroupView>, id: Seq<char>, print: u64)
    ensures
        replace::definitions(groups).contains((id, print)) <==> exists|g: int, r: int| #[trigger]
            stands_in(groups, g, r, id, print),
{
    lemma_some_group_defines(groups, (id, print));
    if replace::definitions(groups).contains((id, print)) {
        let g = choose|g: int| #[trigger] defines(groups, g, (id, print));
        lemma_group_defines(groups, g, id, print);
    }
    if exists|g: int, r: int| #[trigger] stands_in(groups, g, r, id, print) {
        let (g, r) = choose|g: int, r: int| #[trigger] stands_in(groups, g, r, id, print);
        lemma_group_defines(groups, g, id, print);
        assert(defines(groups, g, (id, print)));
    }
}

proof fn lemma_group_defines(groups: Seq<RuleGroupView>, g: int, id: Seq<char>, print: u64)
    ensures
        defines(groups, g, (id, print)) <==> exists|r: int| #[trigger]
            stands_in(groups, g, r, id, print),
{
    reveal(defines);
    reveal(stands_in);
    if 0 <= g < groups.len() {
        let own = replace::group_definitions(groups[g]);
        assert forall|r: int| 0 <= r < groups[g].rules.len() implies (stands_in(
            groups,
            g,
            r,
            id,
            print,
        ) <==> #[trigger] own[r] == (id, print)) by {
            assert(own[r].0 == types::id_of(groups[g], groups[g].rules[r]));
        }
        if own.contains((id, print)) {
            let r = choose|r: int| 0 <= r < own.len() && own[r] == (id, print);
            assert(stands_in(groups, g, r, id, print));
        }
        if exists|r: int| #[trigger] stands_in(groups, g, r, id, print) {
            let r = choose|r: int| #[trigger] stands_in(groups, g, r, id, print);
            assert(own[r] == (id, print));
        }
    }
}

/// Whether nothing is known of the evaluation of a rule.
pub open spec fn never_evaluated(known: RuntimeView) -> bool {
    &&& known.last_eval_timestamp is None
    &&& known.last_eval_unix_ms is None
    &&& known.last_success_unix_ms is None
    &&& known.last_error is None
    &&& known.last_outcome is None
    &&& known.last_sample_count == 0
    &&& known.last_recorded_rows == 0
    &&& known.alert_instances.len() == 0
}

proof fn lemma_retained_of(
    rules: Seq<(Seq<char>, u64)>,
    before: Map<Seq<char>, RuntimeView>,
    id: Seq<char>,
    print: u64,
)
    requires
        laws::distinct_ids(rules),
    ensures
        ({
            let after = replace::retained(rules, before);
            &&& after.contains_key(id) ==> rules.contains((id, after[id].fingerprint))
            &&& rules.contains((id, print)) ==> {
                &&& after.contains_key(id)
                &&& before.contains_key(id) && before[id].fingerprint == print ==> after[id]
                    == before[id]
                &&& !(before.contains_key(id) && before[id].fingerprint == print)
                    ==> after[id].fingerprint == print && never_evaluated(after[id])
            }
        }),
{
    let after = replace::retained(rules, before);
    laws::lemma_retained(rules, before);
    if after.contains_key(id) {
        let i = choose|i: int| 0 <= i < rules.len() && (#[trigger] rules[i]).0 == id;
        assert(after[rules[i].0] == replace::carried(before, rules[i].0, rules[i].1));
        assert(after[id].fingerprint == rules[i].1);
        assert(rules[i] == (id, rules[i].1));
    }
    if rules.contains((id, print)) {
        let i = choose|i: int| 0 <= i < rules.len() && rules[i] == (id, print);
        assert(rules[i].0 == id);
        assert(after[rules[i].0] == replace::carried(before, id, print));
    }
}

/// Replacing the groups leaves exactly the rules of the new groups known. A rule whose definition is
/// the same as before, by its fingerprint, keeps all that was known of it, and any other starts with
/// nothing: never evaluated, without alerts.
pub proof fn lemma_replacement_keeps_unchanged_rules(
    before: RulesStateView,
    groups: Seq<RuleGroupView>,
    id: Seq<char>,
    print: u64,
)
    requires
        laws::distinct_ids(replace::definitions(groups)),
    ensures
        ({
            let after = replace::replaced(before, groups);
            &&& after.groups == groups
            &&& after.runtime.contains_key(id) ==> exists|g: int, r: int| #[trigger]
                stands_in(groups, g, r, id, after.runtime[id].fingerprint)
            &&& (exists|g: int, r: int| #[trigger] stands_in(groups, g, r, id, print)) ==> {
                &&& after.runtime.contains_key(id)
                &&& before.runtime.contains_key(id) && before.runtime[id].fingerprint == print
                    ==> after.runtime[id] == before.runtime[id]
                &&& !(before.runtime.contains_key(id) && before.runtime[id].fingerprint == print)
                    ==> after.runtime[id].fingerprint == print && never_evaluated(after.runtime[id])
            }
        }),
{
    lemma_retained_of(replace::definitions(groups), before.runtime, id, print);
    lemma_defined(groups, id, print);
    let after = replace::replaced(before, groups);
    if after.runtime.contains_key(id) {
        lemma_defined(groups, id, after.runtime[id].fingerprint);
    }
}

/// How many alerts of a list are in a state.
pub open spec fn in_state(
    instances: Seq<AlertInstanceView>,
    state: AlertInstanceStatus,
) -> nat {
    instances.filter(|alert: AlertInstanceView| alert.state == state).len()
}

proof fn lemma_in_state(instances: Seq<AlertInstanceView>, state: AlertInstanceStatus)
    ensures
        status::count_in_state(instances, state) == in_state(instances, state),
    decreases instances.len(),
{
    let wanted = |alert: AlertInstanceView| alert.state == state;
    reveal(Seq::filter);
    if instances.len() > 0 {
        lemma_in_state(instances.drop_last(), state);
    }
}

/// What is shown of a rule is what its definition says and what is known of it: its own interval or
/// its group's, its labels and annotations, when it was evaluated and how that came out, its alerts,
/// and a word for its state. A failure comes first; an alert rule is firing where an alert fires,
/// pending where one only waits; a recording rule is fine once it was evaluated.
pub proof fn lemma_rule_shown_as_it_is(
    runtime: RulesRuntime,
    leader: bool,
    shown: RulesStatusSnapshot,
    g: int,
    r: int,
)
    requires
        shown@ == runtime::status_of(runtime, leader),
        0 <= g < runtime.store.state.groups@.len(),
        0 <= r < runtime.store.state.groups@[g].rules@.len(),
    ensures
        shown.groups@.len() == runtime.store.state.groups@.len(),
        shown.groups@[g].rules@.len() == runtime.store.state.groups@[g].rules@.len(),
        shown.groups@[g].name@ == runtime.store.state.groups@[g].name@,
        shown.groups@[g].tenant_id@ == runtime.store.state.groups@[g].tenant_id@,
        shown.groups@[g].interval_secs == runtime.store.state.groups@[g].interval_secs,
        shown.groups@[g].labels@ == runtime.store.state.groups@[g].labels@,
        ({
            let group = runtime.store.state.groups@[g];
            let rule = group.rules@[r];
            let line = shown.groups@[g].rules@[r];
            let id = known_by(group, rule);
            let known = runtime.store.state@.runtime.contains_key(id);
            let kept = runtime.store.state@.runtime[id];
            let failed = known && kept.last_error is Some && kept.last_outcome == Some(
                RuleEvaluationOutcome::Error,
            );
            &&& line.id@ == id
            &&& line.interval_secs == seconds_between(group, rule)
            &&& match rule {
                RuleSpec::Recording(spec) => {
                    &&& line.name@ == spec.record@
                    &&& line.kind@ == "recording"@
                    &&& line.expr@ == spec.expr@
                    &&& line.labels@ == spec.labels@
                    &&& line.annotations@ == Map::<Seq<char>, Seq<char>>::empty()
                    &&& line.for_secs is None
                },
                RuleSpec::Alert(spec) => {
                    &&& line.name@ == spec.alert@
                    &&& line.kind@ == "alert"@
                    &&& line.expr@ == spec.expr@
                    &&& line.labels@ == spec.labels@
                    &&& line.annotations@ == spec.annotations@
                    &&& line.for_secs == Some(spec.for_secs)
                },
            }
            &&& line.last_eval_timestamp == if known { kept.last_eval_timestamp } else { None }
            &&& line.last_eval_unix_ms == if known { kept.last_eval_unix_ms } else { None }
            &&& line.last_success_unix_ms == if known { kept.last_success_unix_ms } else { None }
            &&& line.last_duration_ms == if known { kept.last_duration_ms } else { 0 }
            &&& text::opt_text(line.last_error) == if known { kept.last_error } else { None }
            &&& line.last_sample_count == if known { kept.last_sample_count } else { 0 }
            &&& line.last_recorded_rows == if known { kept.last_recorded_rows } else { 0 }
            &&& stable::views(line.alert_instances@) == if known {
                kept.alert_instances
            } else {
                Seq::empty()
            }
            &&& failed ==> line.state@ == "error"@
            &&& !failed && rule is Recording ==> line.state@ == if known
                && kept.last_eval_timestamp is Some {
                "ok"@
            } else {
                "inactive"@
            }
            &&& !failed && rule is Alert ==> line.state@ == if known && in_state(
                kept.alert_instances,
                AlertInstanceStatus::Firing,
            ) > 0 {
                "firing"@
            } else if known && in_state(kept.alert_instances, AlertInstanceStatus::Pending) > 0 {
                "pending"@
            } else {
                "inactive"@
            }
        }),
{
    let group = runtime.store.state.groups@[g];
    let rule = group.rules@[r];
    let state = runtime.store.state@;
    let line = shown.groups@[g].rules@[r];
    assert(shown@.groups.len() == shown.groups@.len());
    assert(shown@.groups[g] == shown.groups@[g]@);
    assert(state.groups[g] == group@);
    assert(shown@.groups[g] == status::shown_group(group@, state.runtime));
    assert(shown.groups@[g]@.rules.len() == shown.groups@[g].rules@.len());
    assert(group@.rules.len() == group.rules@.len());
    assert(shown@.groups[g].rules[r] == line@);
    assert(group@.rules[r] == rule@);
    assert(line@ == status::shown_rule(group@, rule@, state.runtime));
    assert(types::id_of(group@, rule@) == known_by(group, rule));
    let known = status::known_of(state.runtime, known_by(group, rule));
    lemma_any_in_state(known.alert_instances, AlertInstanceStatus::Firing);
    lemma_any_in_state(known.alert_instances, AlertInstanceStatus::Pending);
    lemma_any_in_state(Seq::empty(), AlertInstanceStatus::Firing);
}

proof fn lemma_any_in_state(instances: Seq<AlertInstanceView>, state: AlertInstanceStatus)
    ensures
        status::any_in_state(instances, state) <==> in_state(instances, state) > 0,
    decreases instances.len(),
{
    lemma_in_state(instances, state);
    if instances.len() > 0 {
        let rest = instances.drop_last();
        let n = instances.len() - 1;
        lemma_in_state(rest, state);
        lemma_any_in_state(rest, state);
        assert(instances.last() == instances[n]);
        if status::any_in_state(rest, state) {
            let i = choose|i: int| 0 <= i < rest.len() && (#[trigger] rest[i]).state == state;
            assert(instances[i].state == state);
        }
        if status::any_in_state(instances, state) {
            let i = choose|i: int|
                0 <= i < instances.len() && (#[trigger] instances[i]).state == state;
            if i < n {
                assert(rest[i].state == state);
            }
        }
    }
}

proof fn lemma_alerts_in_state(
    entries: Seq<(Seq<char>, RuntimeView)>,
    state: AlertInstanceStatus,
)
    ensures
        status::alerts_in_state(entries, state) == entries.fold_left(
            0int,
            |sum: int, entry: (Seq<char>, RuntimeView)|
                sum + in_state(entry.1.alert_instances, state),
        ),
    decreases entries.len(),
{
    if entries.len() > 0 {
        lemma_alerts_in_state(entries.drop_last(), state);
        lemma_in_state(entries.last().1.alert_instances, state);
    }
}

/// The counters of a status count what there is: the groups, the rules of each, and the alerts that
/// wait and that fire over all rules that are known.
pub proof fn lemma_status_counts_rules_and_alerts(
    runtime: RulesRuntime,
    leader: bool,
    shown: RulesStatusSnapshot,
)
    requires
        shown@ == runtime::status_of(runtime, leader),
    ensures
        ({
            let entries = ordered::listing::<String, RuntimeView>(runtime.store.state@.runtime);
            let groups = runtime.store.state.groups@;
            &&& shown.metrics.configured_groups == sizes::sat64(groups.len() as int)
            &&& shown.metrics.configured_rules == sizes::sat64(
                groups.fold_left(
                    0int,
                    |sum: int, group: RuleGroupSpec| sum + group.rules@.len(),
                ),
            )
            &&& shown.metrics.pending_alerts == sizes::sat64(
                entries.fold_left(
                    0int,
                    |sum: int, entry: (Seq<char>, RuntimeView)|
                        sum + in_state(entry.1.alert_instances, AlertInstanceStatus::Pending),
                ),
            )
            &&& shown.metrics.firing_alerts == sizes::sat64(
                entries.fold_left(
                    0int,
                    |sum: int, entry: (Seq<char>, RuntimeView)|
                        sum + in_state(entry.1.alert_instances, AlertInstanceStatus::Firing),
                ),
            )
            &&& shown.metrics.local_scheduler_active == leader
            &&& shown.cluster_leader == leader
            &&& shown.cluster_enabled == runtime.cluster_enabled
        }),
{
    let entries = ordered::listing::<String, RuntimeView>(runtime.store.state@.runtime);
    lemma_alerts_in_state(entries, AlertInstanceStatus::Pending);
    lemma_alerts_in_state(entries, AlertInstanceStatus::Firing);
    lemma_rules_counted(runtime.store.state.groups@);
}

proof fn lemma_rules_counted(groups: Seq<RuleGroupSpec>)
    ensures
        status::rules_in(stable::views(groups)) == groups.fold_left(
            0int,
            |sum: int, group: RuleGroupSpec| sum + group.rules@.len(),
        ),
    decreases groups.len(),
{
    if groups.len() > 0 {
        lemma_rules_counted(groups.drop_last());
        assert(stable::views(groups).drop_last() =~= stable::views(groups.drop_last()));
    }
}

} // verus!
