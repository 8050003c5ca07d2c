//! What holds across whole runs of the scheduler: no rule is evaluated twice for one interval.

use vstd::prelude::*;

use crate::ordered;
use crate::rules::fingerprint;
use crate::rules::laws;
use crate::rules::limits::RulesStoreLimits;
use crate::rules::replace;
use crate::rules::schedule;
use crate::rules::schedule::RuleStep;
use crate::rules::schedule::RulesRun;
use crate::rules::store::RulesStore;
use crate::rules::time::TimestampPrecision;
use crate::rules::types;
use crate::rules::types::PersistedRuleRuntimeState;
use crate::rules::types::RuleGroupView;
use crate::rules::types::RulesStateView;
use crate::rules::types::RuntimeView;
use crate::rules::update;
use crate::rules::validate;
use crate::rules::validate::ChecksView;
use crate::stable;

verus! {

/// A point of a run: what is known of evaluations, and how far the run has come.
pub struct RunPoint {
    pub runtime: Map<Seq<char>, RuntimeView>,
    pub run: RulesRun,
}

/// A run when it takes up a rule, by its place.
pub open spec fn taking_up(run: RulesRun, place: int) -> RulesRun {
    RulesRun { next: place as usize, ..run }
}

/// Whether a run takes up its next rule like this, with what is known of evaluations before and
/// after it.
pub open spec fn takes_up(
    before: RunPoint,
    after: RunPoint,
    precision: TimestampPrecision,
    step: RuleStep,
) -> bool {
    &&& after.run.same_rules(before.run)
    &&& step is Done <==> before.run.next == before.run.places@.len()
    &&& !(step is Done) ==> after.run.next == before.run.next + 1
    &&& step is NotDue <==> !(step is Done) && !before.run.next_due(precision)
    &&& step is NotDue ==> {
        &&& after.runtime == before.runtime
        &&& after.run.evaluated_rules == before.run.evaluated_rules
        &&& after.run.evaluation_failures == before.run.evaluation_failures
        &&& after.run.last_error == before.run.last_error
        &&& after.run.claimed is None
    }
    &&& step is Evaluate ==> {
        let claimed = before.run.next_claim(precision);
        if schedule::records(before.run.next_rule()) {
            &&& after.runtime == before.runtime.insert(before.run.next_id(), claimed)
            &&& after.run.claimed matches Some(claim) && schedule::claims_next(
                before.run,
                precision,
                claim,
                claimed,
            )
        } else {
            &&& after.runtime == before.runtime
            &&& after.run.claimed matches Some(claim) && schedule::claims_next(
                before.run,
                precision,
                claim,
                before.run.next_known(),
            )
        }
    }
}

/// Whether a run keeps how the evaluation of its claimed rule came out.
pub open spec fn keeps_outcome(
    before: RulesRun,
    after: RulesRun,
    outcome: Result<PersistedRuleRuntimeState, String>,
    duration_ms: u64,
) -> bool {
    &&& after.groups == before.groups
    &&& after.runtime == before.runtime
    &&& after.places == before.places
    &&& after.next == before.next
    &&& after.now_timestamp == before.now_timestamp
    &&& before.claimed matches Some(claim) && update::update_views(after.updates@)
        == update::update_views(before.updates@).push(
        (
            claim.rule_id@,
            match outcome {
                Ok(state) => schedule::succeeded(state@, claim.fingerprint, duration_ms),
                Err(message) => schedule::failed(
                    claim.previous@,
                    claim.fingerprint,
                    claim.eval_timestamp,
                    before.now_unix_ms,
                    duration_ms,
                    message@,
                ),
            },
        ),
    )
}

/// Whether what was found out about a rule is for a time, under a fingerprint.
pub open spec fn found_for(found: RuntimeView, timestamp: i64, fingerprint: u64) -> bool {
    found.last_eval_timestamp == Some(timestamp) && found.fingerprint == fingerprint
}

/// Whether one rule of a run is done with: it was not due, or it was evaluated for its time and the
/// outcome is among the updates.
pub open spec fn stepped(before: RunPoint, after: RunPoint, precision: TimestampPrecision) -> bool {
    let run = before.run;
    let old_updates = update::update_views(run.updates@);
    let new_updates = update::update_views(after.run.updates@);
    &&& run.next < run.places@.len()
    &&& after.run.groups == run.groups
    &&& after.run.runtime == run.runtime
    &&& after.run.places == run.places
    &&& after.run.now_timestamp == run.now_timestamp
    &&& after.run.next == run.next + 1
    &&& if !run.next_due(precision) {
        &&& after.runtime == before.runtime
        &&& new_updates == old_updates
        &&& after.run.evaluated_rules == run.evaluated_rules
    } else {
        &&& new_updates.len() == old_updates.len() + 1
        &&& new_updates.drop_last() == old_updates
        &&& new_updates.last().0 == run.next_id()
        &&& found_for(new_updates.last().1, run.next_timestamp(precision), run.next_fingerprint())
        &&& after.runtime == if schedule::records(run.next_rule()) {
            before.runtime.insert(run.next_id(), run.next_claim(precision))
        } else {
            before.runtime
        }
    }
}

/// A rule that is not due is done with when it was taken up.
pub proof fn lemma_not_due_stepped(
    before: RunPoint,
    after: RunPoint,
    precision: TimestampPrecision,
)
    requires
        before.run.well_formed(),
        takes_up(before, after, precision, RuleStep::NotDue),
    ensures
        stepped(before, after, precision),
{
}

/// A rule that was evaluated is done with once its outcome is kept, whether it succeeded or failed.
pub proof fn lemma_evaluated_stepped(
    before: RunPoint,
    between: RunPoint,
    after: RulesRun,
    precision: TimestampPrecision,
    outcome: Result<PersistedRuleRuntimeState, String>,
    duration_ms: u64,
)
    requires
        before.run.well_formed(),
        takes_up(before, between, precision, RuleStep::Evaluate),
        keeps_outcome(between.run, after, outcome, duration_ms),
        outcome matches Ok(state) ==> state@.last_eval_timestamp == Some(
            before.run.next_timestamp(precision),
        ),
    ensures
        stepped(before, (RunPoint { runtime: between.runtime, run: after }), precision),
{
    let old_updates = update::update_views(between.run.updates@);
    let new_updates = update::update_views(after.updates@);
    assert(new_updates.drop_last() =~= old_updates);
}

/// Whether every rule is known under the fingerprint that it has, and no identifier stands for two.
pub open spec fn known_once(point: RunPoint) -> bool {
    &&& forall|j: int|
        0 <= j < point.run.places@.len() ==> known_as_is(point, #[trigger] taking_up(point.run, j))
    &&& forall|i: int, j: int|
        0 <= i < j < point.run.places@.len() ==> (#[trigger] taking_up(point.run, i)).next_id() != (
        #[trigger] taking_up(point.run, j)).next_id()
}

/// Whether a rule is known under the fingerprint that it has.
pub open spec fn known_as_is(point: RunPoint, at: RulesRun) -> bool {
    point.runtime.contains_key(at.next_id()) && point.runtime[at.next_id()].fingerprint
        == at.next_fingerprint()
}

/// Whether a list of updates holds one of a rule.
pub open spec fn has_update(updates: Seq<(Seq<char>, RuntimeView)>, id: Seq<char>) -> bool {
    exists|u: int| 0 <= u < updates.len() && (#[trigger] updates[u]).0 == id
}

/// Whether all updates of a rule, in a list, are for a time, under a fingerprint.
pub open spec fn all_found(
    updates: Seq<(Seq<char>, RuntimeView)>,
    id: Seq<char>,
    timestamp: i64,
    fingerprint: u64,
) -> bool {
    forall|u: int|
        0 <= u < updates.len() && (#[trigger] updates[u]).0 == id ==> found_for(
            updates[u].1,
            timestamp,
            fingerprint,
        )
}

/// Whether what is said of a rule is for its time or a later one.
pub open spec fn not_before(known: RuntimeView, timestamp: i64) -> bool {
    known.last_eval_timestamp matches Some(last) && last >= timestamp
}

/// How a rule of a run stands, once the run has come so far.
pub open spec fn rule_stands(
    start: RunPoint,
    point: RunPoint,
    at: RulesRun,
    precision: TimestampPrecision,
    done: bool,
) -> bool {
    let id = at.next_id();
    let updates = update::update_views(point.run.updates@);
    &&& known_as_is(point, at)
    &&& all_found(updates, id, at.next_timestamp(precision), at.next_fingerprint())
    &&& if done {
        has_update(updates, id) || not_before(point.runtime[id], at.next_timestamp(precision))
    } else {
        !has_update(updates, id) && point.runtime[id] == start.runtime[id]
    }
}

/// Whether a run that began at one point may stand at another.
pub open spec fn run_stands(
    start: RunPoint,
    point: RunPoint,
    precision: TimestampPrecision,
) -> bool {
    &&& point.run.groups == start.run.groups
    &&& point.run.runtime == start.run.runtime
    &&& point.run.places == start.run.places
    &&& point.run.now_timestamp == start.run.now_timestamp
    &&& point.run.next <= point.run.places@.len()
    &&& forall|j: int|
        0 <= j < start.run.places@.len() ==> rule_stands(
            start,
            point,
            #[trigger] taking_up(start.run, j),
            precision,
            j < point.run.next,
        )
}

/// Whether a run begins here: it takes up its first rule, nothing is updated yet, and what it knows
/// is what is known.
pub open spec fn run_begins(start: RunPoint) -> bool {
    &&& start.run.well_formed()
    &&& start.run.next == 0
    &&& start.run.updates@.len() == 0
    &&& start.run.runtime@ == start.runtime
    &&& known_once(start)
}

/// One more update is one more of its rule, and changes nothing for any other.
proof fn lemma_one_more_update(
    before: Seq<(Seq<char>, RuntimeView)>,
    after: Seq<(Seq<char>, RuntimeView)>,
    id: Seq<char>,
    timestamp: i64,
    fingerprint: u64,
)
    requires
        after.len() == before.len() + 1,
        after.drop_last() == before,
        all_found(before, id, timestamp, fingerprint),
        after.last().0 == id ==> found_for(after.last().1, timestamp, fingerprint),
    ensures
        all_found(after, id, timestamp, fingerprint),
        has_update(after, id) <==> has_update(before, id) || after.last().0 == id,
{
    let last = after.len() - 1;
    assert(forall|u: int| 0 <= u < last ==> #[trigger] after[u] == before[u]) by {
        assert(forall|u: int| 0 <= u < last ==> after.drop_last()[u] == #[trigger] after[u]);
    }
    if has_update(before, id) {
        let u = choose|u: int| 0 <= u < before.len() && (#[trigger] before[u]).0 == id;
        assert(after[u].0 == id);
    }
    if has_update(after, id) && after[last].0 != id {
        let u = choose|u: int| 0 <= u < after.len() && (#[trigger] after[u]).0 == id;
        assert(before[u].0 == id);
    }
    if after[last].0 == id {
        assert(has_update(after, id));
    }
}

/// Whether two points of a run take up the same rule.
spec fn same_rule(a: RulesRun, b: RulesRun, precision: TimestampPrecision) -> bool {
    &&& a.next_id() == b.next_id()
    &&& a.next_fingerprint() == b.next_fingerprint()
    &&& a.next_timestamp(precision) == b.next_timestamp(precision)
    &&& a.next_due(precision) == b.next_due(precision)
}

proof fn lemma_rule_after_step(
    start: RunPoint,
    before: RunPoint,
    after: RunPoint,
    precision: TimestampPrecision,
    here: RulesRun,
    at: RulesRun,
    done: bool,
)
    requires
        stepped(before, after, precision),
        same_rule(here, before.run, precision),
        here.runtime@ == start.runtime,
        known_as_is(start, here),
        at == here || at.next_id() != here.next_id(),
        at == here ==> !done,
        rule_stands(start, before, at, precision, done),
    ensures
        rule_stands(start, after, at, precision, done || at == here),
{
    let old_updates = update::update_views(before.run.updates@);
    let new_updates = update::update_views(after.run.updates@);
    if before.run.next_due(precision) {
        lemma_one_more_update(
            old_updates,
            new_updates,
            at.next_id(),
            at.next_timestamp(precision),
            at.next_fingerprint(),
        );
    } else {
        assert(here.next_known() == start.runtime[here.next_id()]);
    }
}

proof fn lemma_stands_step(
    start: RunPoint,
    before: RunPoint,
    after: RunPoint,
    precision: TimestampPrecision,
)
    requires
        run_begins(start),
        run_stands(start, before, precision),
        stepped(before, after, precision),
    ensures
        run_stands(start, after, precision),
{
    let k = before.run.next as int;
    let here = taking_up(start.run, k);
    assert(known_as_is(start, here));
    assert(same_rule(here, before.run, precision));
    assert forall|j: int| 0 <= j < start.run.places@.len() implies rule_stands(
        start,
        after,
        #[trigger] taking_up(start.run, j),
        precision,
        j < after.run.next,
    ) by {
        let at = taking_up(start.run, j);
        if j < k {
            assert(taking_up(start.run, j).next_id() != taking_up(start.run, k).next_id());
        } else if j > k {
            assert(taking_up(start.run, k).next_id() != taking_up(start.run, j).next_id());
        }
        assert(rule_stands(start, before, at, precision, j < k));
        lemma_rule_after_step(start, before, after, precision, here, at, j < k);
        assert(at == here ==> j == k);
    }
}

/// Whether points are those of a run from one rule to the next.
pub open spec fn is_trace(points: Seq<RunPoint>, precision: TimestampPrecision) -> bool {
    &&& points.len() > 0
    &&& forall|i: int|
        0 <= i < points.len() - 1 ==> stepped(#[trigger] points[i], points[i + 1], precision)
}

proof fn lemma_trace_stands(points: Seq<RunPoint>, precision: TimestampPrecision, n: int)
    requires
        is_trace(points, precision),
        run_begins(points[0]),
        0 <= n < points.len(),
    ensures
        run_stands(points[0], points[n], precision),
        points[n].run.next == n,
    decreases n,
{
    let start = points[0];
    if n == 0 {
        let updates = update::update_views(start.run.updates@);
        assert(updates.len() == 0);
        assert forall|j: int| 0 <= j < start.run.places@.len() implies rule_stands(
            start,
            start,
            #[trigger] taking_up(start.run, j),
            precision,
            j < 0,
        ) by {
            assert(known_as_is(start, taking_up(start.run, j)));
        }
    } else {
        lemma_trace_stands(points, precision, n - 1);
        assert(stepped(points[n - 1], points[n - 1 + 1], precision));
        lemma_stands_step(start, points[n - 1], points[n], precision);
    }
}

/// What is accepted of the updates of a rule is what they say, where it is known under the
/// fingerprint that they are for.
proof fn lemma_accepted_of(
    updates: Seq<(Seq<char>, RuntimeView)>,
    current: Map<Seq<char>, RuntimeView>,
    id: Seq<char>,
    timestamp: i64,
    fingerprint: u64,
)
    requires
        current.contains_key(id),
        current[id].fingerprint == fingerprint,
        forall|u: int|
            0 <= u < updates.len() && (#[trigger] updates[u]).0 == id ==> found_for(
                updates[u].1,
                timestamp,
                fingerprint,
            ),
    ensures
        update::accepted(updates, current).contains_key(id) <==> has_update(updates, id),
        has_update(updates, id) ==> found_for(
            update::accepted(updates, current)[id],
            timestamp,
            fingerprint,
        ),
    decreases updates.len(),
{
    if updates.len() > 0 {
        let rest = updates.drop_last();
        assert forall|u: int|
            0 <= u < rest.len() && (#[trigger] rest[u]).0 == id implies found_for(
            rest[u].1,
            timestamp,
            fingerprint,
        ) by {
            assert(updates[u] == rest[u]);
        }
        lemma_accepted_of(rest, current, id, timestamp, fingerprint);
        let last = updates.len() - 1;
        if has_update(rest, id) {
            let u = choose|u: int| 0 <= u < rest.len() && (#[trigger] rest[u]).0 == id;
            assert(updates[u].0 == id);
        }
        if has_update(updates, id) && updates[last].0 != id {
            let u = choose|u: int| 0 <= u < updates.len() && (#[trigger] updates[u]).0 == id;
            assert(rest[u].0 == id);
        }
        if updates[last].0 == id {
            assert(has_update(updates, id));
        }
    }
}

/// After a run in which every rule was done with, and whose updates were kept, each rule is known
/// to have been evaluated for its time of the run, or a later one.
pub proof fn lemma_run_settles_rules(
    points: Seq<RunPoint>,
    precision: TimestampPrecision,
    j: int,
)
    requires
        is_trace(points, precision),
        run_begins(points[0]),
        points.last().run.next == points[0].run.places@.len(),
        0 <= j < points[0].run.places@.len(),
    ensures
        ({
            let ended = points.last();
            let kept = ended.runtime.union_prefer_right(
                update::accepted(update::update_views(ended.run.updates@), ended.runtime),
            );
            let at = taking_up(points[0].run, j);
            &&& kept.contains_key(at.next_id())
            &&& not_before(kept[at.next_id()], at.next_timestamp(precision))
        }),
{
    let ended = points.last();
    lemma_trace_stands(points, precision, points.len() - 1);
    let at = taking_up(points[0].run, j);
    assert(rule_stands(points[0], ended, at, precision, true));
    lemma_accepted_of(
        update::update_views(ended.run.updates@),
        ended.runtime,
        at.next_id(),
        at.next_timestamp(precision),
        at.next_fingerprint(),
    );
}

/// Whether every rule of groups is known under the fingerprint that it has.
pub open spec fn all_known(
    groups: Seq<RuleGroupView>,
    runtime: Map<Seq<char>, RuntimeView>,
) -> bool {
    forall|i: int|
        0 <= i < replace::definitions(groups).len() ==> runtime.contains_key(
            (#[trigger] replace::definitions(groups)[i]).0,
        ) && runtime[replace::definitions(groups)[i].0].fingerprint == replace::definitions(
            groups,
        )[i].1
}

/// After a replacement every rule is known under the fingerprint that it has.
pub proof fn lemma_replaced_rules_known(
    before: RulesStateView,
    groups: Seq<RuleGroupView>,
    checks: ChecksView,
    limits: RulesStoreLimits,
)
    requires
        validate::groups_problem(groups, checks, limits) is None,
    ensures
        all_known(groups, replace::replaced(before, groups).runtime),
{
    let rules = replace::definitions(groups);
    laws::lemma_valid_groups_have_distinct_ids(groups, checks, limits);
    assert forall|i: int| 0 <= i < rules.len() implies ({
        let known = replace::replaced(before, groups).runtime;
        known.contains_key((#[trigger] replace::definitions(groups)[i]).0)
            && known[rules[i].0].fingerprint == rules[i].1
    }) by {
        laws::lemma_retained_fingerprints(rules, before.runtime, i);
    }
}

/// Updates keep every rule known under the fingerprint that it has.
pub proof fn lemma_updated_rules_known(
    groups: Seq<RuleGroupView>,
    runtime: Map<Seq<char>, RuntimeView>,
    updates: Seq<(Seq<char>, RuntimeView)>,
)
    requires
        all_known(groups, runtime),
    ensures
        all_known(groups, runtime.union_prefer_right(update::accepted(updates, runtime))),
{
    let after = runtime.union_prefer_right(update::accepted(updates, runtime));
    let rules = replace::definitions(groups);
    assert forall|i: int| 0 <= i < rules.len() implies after.contains_key(
        (#[trigger] replace::definitions(groups)[i]).0,
    ) && after[rules[i].0].fingerprint == rules[i].1 by {
        laws::lemma_updates_keep_rules(updates, runtime, rules[i].0);
    }
}

/// The rule at a place of groups is the one that stands there among all their rules.
#[verifier::spinoff_prover]
#[verifier::rlimit(60)]
proof fn lemma_place_defines(groups: Seq<RuleGroupView>, j: int)
    requires
        groups.len() <= usize::MAX,
        forall|g: int| 0 <= g < groups.len() ==> (#[trigger] groups[g]).rules.len() <= usize::MAX,
    ensures
        schedule::places_of(groups).len() == replace::definitions(groups).len(),
        0 <= j < schedule::places_of(groups).len() ==> ({
            let place = schedule::places_of(groups)[j];
            &&& place.0 < groups.len()
            &&& place.1 < groups[place.0 as int].rules.len()
            &&& replace::definitions(groups)[j] == replace::group_definitions(
                groups[place.0 as int],
            )[place.1 as int]
        }),
    decreases groups.len(),
{
    if groups.len() > 0 {
        let rest = groups.drop_last();
        let last = groups.last();
        assert(last == groups[groups.len() - 1]);
        assert forall|g: int| 0 <= g < rest.len() implies (#[trigger] rest[g]).rules.len()
            <= usize::MAX by {
            assert(rest[g] == groups[g]);
        }
        lemma_place_defines(rest, j);
        let earlier = schedule::places_of(rest);
        let own = replace::group_definitions(last);
        assert(own.len() == last.rules.len());
        assert(replace::definitions(groups) == replace::definitions(rest) + own);
        if 0 <= j < earlier.len() {
            let place = earlier[j];
            assert(schedule::places_of(groups)[j] == place);
            assert(rest[place.0 as int] == groups[place.0 as int]);
            assert(replace::definitions(groups)[j] == replace::definitions(rest)[j]);
        } else if earlier.len() <= j < schedule::places_of(groups).len() {
            let r = j - earlier.len();
            assert(schedule::places_of(groups)[j] == ((groups.len() - 1) as usize, r as usize));
            assert(replace::definitions(groups)[j] == own[r]);
        }
    }
}

/// A run that begins on valid groups, each of whose rules is known under the fingerprint that it
/// has, knows every rule once.
pub proof fn lemma_begun_run_knows_rules(
    point: RunPoint,
    checks: ChecksView,
    limits: RulesStoreLimits,
)
    requires
        validate::groups_problem(stable::views(point.run.groups@), checks, limits) is None,
        point.run.places@ == schedule::places_of(stable::views(point.run.groups@)),
        point.run.places@.len() <= usize::MAX,
        point.run.groups@.len() <= usize::MAX,
        forall|g: int|
            0 <= g < point.run.groups@.len() ==> (#[trigger] point.run.groups@[g]).rules@.len()
                <= usize::MAX,
        all_known(stable::views(point.run.groups@), point.runtime),
    ensures
        known_once(point),
{
    let groups = stable::views(point.run.groups@);
    let rules = replace::definitions(groups);
    laws::lemma_valid_groups_have_distinct_ids(groups, checks, limits);
    assert forall|g: int| 0 <= g < groups.len() implies (#[trigger] groups[g]).rules.len()
        <= usize::MAX by {
        assert(groups[g] == point.run.groups@[g]@);
        assert(point.run.groups@[g].rules@.len() <= usize::MAX);
    }
    lemma_place_defines(groups, 0);
    assert forall|j: int| 0 <= j < point.run.places@.len() implies known_as_is(
        point,
        #[trigger] taking_up(point.run, j),
    ) by {
        lemma_taken_up_defines(point, j);
        assert(replace::definitions(groups)[j] == rules[j]);
    }
    assert forall|i: int, j: int| 0 <= i < j < point.run.places@.len() implies (
    #[trigger] taking_up(point.run, i)).next_id() != (#[trigger] taking_up(
        point.run,
        j,
    )).next_id() by {
        lemma_taken_up_defines(point, i);
        lemma_taken_up_defines(point, j);
        assert(rules[i].0 != rules[j].0);
    }
}

proof fn lemma_taken_up_defines(point: RunPoint, j: int)
    requires
        point.run.places@ == schedule::places_of(stable::views(point.run.groups@)),
        point.run.places@.len() <= usize::MAX,
        point.run.groups@.len() <= usize::MAX,
        forall|g: int|
            0 <= g < point.run.groups@.len() ==> (#[trigger] point.run.groups@[g]).rules@.len()
                <= usize::MAX,
        0 <= j < point.run.places@.len(),
    ensures
        ({
            let at = taking_up(point.run, j);
            let groups = stable::views(point.run.groups@);
            &&& j < replace::definitions(groups).len()
            &&& replace::definitions(groups)[j] == (at.next_id(), at.next_fingerprint())
        }),
{
    let groups = stable::views(point.run.groups@);
    assert forall|g: int| 0 <= g < groups.len() implies (#[trigger] groups[g]).rules.len()
        <= usize::MAX by {
        assert(groups[g] == point.run.groups@[g]@);
        assert(point.run.groups@[g].rules@.len() <= usize::MAX);
    }
    lemma_place_defines(groups, j);
    let at = taking_up(point.run, j);
    let place = schedule::places_of(groups)[j];
    let group = point.run.groups@[place.0 as int];
    assert(groups[place.0 as int] == group@);
    assert(group@.rules[place.1 as int] == group.rules@[place.1 as int]@);
    assert(at.places@[at.next as int] == place);
    assert(at.next_group() == group@);
    assert(at.next_rule() == group@.rules[place.1 as int]);
}

/// Whether each rule of a run falls into the interval of an earlier run, or before it.
pub open spec fn same_intervals(
    first: RulesRun,
    second: RulesRun,
    precision: TimestampPrecision,
) -> bool {
    forall|j: int|
        0 <= j < first.places@.len() ==> (#[trigger] taking_up(second, j)).next_timestamp(precision)
            <= taking_up(first, j).next_timestamp(precision)
}

/// No interval is recorded or alerted on twice: after a run in which every rule was done with and
/// whose updates were kept, a run of the same rules at a time within the same intervals evaluates
/// none. Whatever rule it takes up is not due, what is known stays as it was, and at its end there
/// is nothing to update, so that nothing is encoded or written.
pub proof fn lemma_second_run_idle(
    first: Seq<RunPoint>,
    second: Seq<RunPoint>,
    precision: TimestampPrecision,
    store: RulesStore,
    n: int,
)
    requires
        is_trace(first, precision),
        run_begins(first[0]),
        first.last().run.next == first[0].run.places@.len(),
        is_trace(second, precision),
        stable::views(second[0].run.groups@) == stable::views(first[0].run.groups@),
        second[0].run.places@ == first[0].run.places@,
        second[0].run.next == 0,
        second[0].run.updates@.len() == 0,
        second[0].run.runtime@ == first.last().runtime.union_prefer_right(
            update::accepted(
                update::update_views(first.last().run.updates@),
                first.last().runtime,
            ),
        ),
        same_intervals(first[0].run, second[0].run, precision),
        0 <= n < second.len(),
    ensures
        second[n].runtime == second[0].runtime,
        second[n].run.evaluated_rules == second[0].run.evaluated_rules,
        second[n].run.next < second[n].run.places@.len() ==> !second[n].run.next_due(precision),
        update::update_views(second[n].run.updates@).len() == 0,
        !update::updates_writable(store, update::update_views(second[n].run.updates@)),
    decreases n,
{
    lemma_second_stays(first, second, precision, n);
    let updates = update::update_views(second[n].run.updates@);
    reveal(update::updates_writable);
    assert(update::accepted(updates, store.state@.runtime) =~= Map::empty());
    let none = Seq::<(Seq<char>, RuntimeView)>::empty();
    assert(ordered::keyed_map::<String, RuntimeView>(none) =~= Map::empty());
    ordered::lemma_listing::<String, RuntimeView>(none);
}

/// Two runs of the same rules, by their views, take up the same rule at a place.
proof fn lemma_same_rule_at(first: RulesRun, second: RulesRun, j: int)
    requires
        first.well_formed(),
        stable::views(second.groups@) == stable::views(first.groups@),
        second.places@ == first.places@,
        0 <= j < first.places@.len(),
        j <= usize::MAX,
    ensures
        taking_up(second, j).next_id() == taking_up(first, j).next_id(),
        taking_up(second, j).next_group() == taking_up(first, j).next_group(),
        taking_up(second, j).next_rule() == taking_up(first, j).next_rule(),
{
    let place = first.places@[j];
    let one = first.groups@[place.0 as int];
    let other = second.groups@[place.0 as int];
    assert(stable::views(first.groups@)[place.0 as int] == one@);
    assert(stable::views(second.groups@).len() == second.groups@.len());
    assert(stable::views(second.groups@)[place.0 as int] == other@);
    assert(one@.rules[place.1 as int] == one.rules@[place.1 as int]@);
    assert(other@.rules.len() == other.rules@.len());
    assert(other@.rules[place.1 as int] == other.rules@[place.1 as int]@);
}

proof fn lemma_second_stays(
    first: Seq<RunPoint>,
    second: Seq<RunPoint>,
    precision: TimestampPrecision,
    n: int,
)
    requires
        is_trace(first, precision),
        run_begins(first[0]),
        first.last().run.next == first[0].run.places@.len(),
        is_trace(second, precision),
        stable::views(second[0].run.groups@) == stable::views(first[0].run.groups@),
        second[0].run.places@ == first[0].run.places@,
        second[0].run.next == 0,
        second[0].run.updates@.len() == 0,
        second[0].run.runtime@ == first.last().runtime.union_prefer_right(
            update::accepted(
                update::update_views(first.last().run.updates@),
                first.last().runtime,
            ),
        ),
        same_intervals(first[0].run, second[0].run, precision),
        0 <= n < second.len(),
    ensures
        second[n].runtime == second[0].runtime,
        second[n].run.groups == second[0].run.groups,
        second[n].run.places == second[0].run.places,
        second[n].run.runtime == second[0].run.runtime,
        second[n].run.now_timestamp == second[0].run.now_timestamp,
        second[n].run.evaluated_rules == second[0].run.evaluated_rules,
        second[n].run.next == n,
        update::update_views(second[n].run.updates@).len() == 0,
        second[n].run.next < second[n].run.places@.len() ==> !second[n].run.next_due(precision),
    decreases n,
{
    if n > 0 {
        lemma_second_stays(first, second, precision, n - 1);
        assert(stepped(second[n - 1], second[n - 1 + 1], precision));
    }
    if second[n].run.next < second[n].run.places@.len() {
        let at = taking_up(first[0].run, n);
        let then = taking_up(second[0].run, n);
        lemma_run_settles_rules(first, precision, n);
        lemma_same_rule_at(first[0].run, second[0].run, n);
        assert(then.next_timestamp(precision) <= at.next_timestamp(precision));
        assert(at.next_id() == then.next_id());
        assert(second[n].run.next_id() == then.next_id());
        assert(second[n].run.next_timestamp(precision) == then.next_timestamp(precision));
    }
}

} // verus!
