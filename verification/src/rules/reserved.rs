//! What is reserved for a status suffices for it.

use vstd::arithmetic::mul::lemma_mul_inequality;
use vstd::layout;
use vstd::prelude::*;

use crate::budget;
use crate::budget::QueryBudgetError;
use crate::ordered;
use crate::remote_read::model as growth;
use crate::rules::accounting::RulesStoreAccounting;
use crate::rules::fingerprint;
use crate::rules::laws;
use crate::rules::model;
use crate::rules::projection;
use crate::rules::replace;
use crate::rules::runtime;
use crate::rules::runtime::RulesRuntime;
use crate::rules::runtime::RulesStatusProjectionError;
use crate::rules::shown;
use crate::rules::status;
use crate::rules::status::RuleGroupStatusSnapshot;
use crate::rules::status::RuleStatusSnapshot;
use crate::rules::status::RulesStatusSnapshot;
use crate::rules::types;
use crate::rules::types::AlertInstanceState;
use crate::rules::types::AlertInstanceView;
use crate::rules::types::RuleGroupView;
use crate::rules::types::RuleView;
use crate::rules::types::RulesStateView;
use crate::rules::types::RuntimeView;
use crate::rules::upper;
use crate::series::Label;
use crate::sizes;
use crate::text;

verus! {

/// Whether the lists of what is known of a rule are not longer than a list can be.
pub open spec fn known_in_range(known: RuntimeView) -> bool {
    &&& known.alert_instances.len() <= usize::MAX
    &&& forall|i: int|
        0 <= i < known.alert_instances.len() ==> (
        #[trigger] known.alert_instances[i]).labels.len() <= usize::MAX
}

/// Whether the lists of a state are not longer than a list can be, and its rules and the entries of
/// their maps can be counted.
pub open spec fn state_in_range(state: RulesStateView) -> bool {
    &&& state.groups.len() <= usize::MAX
    &&& status::rules_in(state.groups) <= usize::MAX
    &&& upper::groups_entries(state.groups) <= usize::MAX
    &&& forall|id: Seq<char>| #[trigger]
        state.runtime.contains_key(id) ==> known_in_range(state.runtime[id])
}

/// The bytes of what is known of rules, each by its identifier.
pub open spec fn known_cost(
    rules: Seq<(Seq<char>, u64)>,
    known: Map<Seq<char>, RuntimeView>,
) -> nat
    decreases rules.len(),
{
    if rules.len() == 0 {
        0
    } else {
        known_cost(rules.drop_last(), known) + model::runtime_cost(
            status::known_of(known, rules.last().0),
        )
    }
}

proof fn lemma_grown_list_covers<T>(len: nat)
    requires
        len <= usize::MAX,
    ensures
        model::list_cost::<T>(len) <= model::grown_list_cost::<T>(len),
{
    growth::lemma_grown_room_covers(len);
    lemma_mul_inequality(
        len as int,
        growth::grown_room(len) as int,
        layout::size_of::<T>() as int,
    );
}

proof fn lemma_instances_covered(instances: Seq<AlertInstanceView>)
    requires
        forall|i: int|
            0 <= i < instances.len() ==> (#[trigger] instances[i]).labels.len() <= usize::MAX,
    ensures
        model::instances_cost(instances) <= upper::instances_upper(instances),
    decreases instances.len(),
{
    if instances.len() > 0 {
        let rest = instances.drop_last();
        assert forall|i: int| 0 <= i < rest.len() implies (#[trigger] rest[i]).labels.len()
            <= usize::MAX by {
            assert(rest[i] == instances[i]);
        }
        lemma_instances_covered(rest);
        assert(instances[instances.len() - 1].labels.len() <= usize::MAX);
        lemma_grown_list_covers::<Label>(instances.last().labels.len());
    }
}

proof fn lemma_known_covered(known: RuntimeView)
    requires
        known_in_range(known),
    ensures
        model::runtime_cost(known) <= upper::runtime_upper(known),
{
    lemma_grown_list_covers::<AlertInstanceState>(known.alert_instances.len());
    lemma_instances_covered(known.alert_instances);
}

proof fn lemma_nothing_known_costs_nothing(rules: Seq<(Seq<char>, u64)>)
    ensures
        known_cost(rules, Map::empty()) == 0,
    decreases rules.len(),
{
    if rules.len() > 0 {
        lemma_nothing_known_costs_nothing(rules.drop_last());
        assert(0 * layout::size_of::<AlertInstanceState>() == 0) by (nonlinear_arith);
    }
}

proof fn lemma_others_cost_the_same(
    rules: Seq<(Seq<char>, u64)>,
    known: Map<Seq<char>, RuntimeView>,
    id: Seq<char>,
    more: RuntimeView,
)
    requires
        forall|i: int| 0 <= i < rules.len() ==> (#[trigger] rules[i]).0 != id,
    ensures
        known_cost(rules, known.insert(id, more)) == known_cost(rules, known),
    decreases rules.len(),
{
    if rules.len() > 0 {
        let rest = rules.drop_last();
        assert forall|i: int| 0 <= i < rest.len() implies (#[trigger] rest[i]).0 != id by {
            assert(rest[i] == rules[i]);
        }
        lemma_others_cost_the_same(rest, known, id, more);
        assert(rules[rules.len() - 1].0 != id);
    }
}

/// What is known of one more rule costs rules without a common identifier at most what it costs.
proof fn lemma_one_more_known(
    rules: Seq<(Seq<char>, u64)>,
    known: Map<Seq<char>, RuntimeView>,
    id: Seq<char>,
    more: RuntimeView,
)
    requires
        laws::distinct_ids(rules),
    ensures
        known_cost(rules, known.insert(id, more)) <= known_cost(rules, known) + model::runtime_cost(
            more,
        ),
    decreases rules.len(),
{
    if rules.len() > 0 {
        let rest = rules.drop_last();
        assert forall|i: int, j: int| 0 <= i < j < rest.len() implies (#[trigger] rest[i]).0 != (
        #[trigger] rest[j]).0 by {
            assert(rest[i] == rules[i] && rest[j] == rules[j]);
        }
        if rules.last().0 == id {
            assert forall|i: int| 0 <= i < rest.len() implies (#[trigger] rest[i]).0 != id by {
                assert(rest[i] == rules[i]);
                assert(rules[i].0 != rules[rules.len() - 1].0);
            }
            lemma_others_cost_the_same(rest, known, id, more);
        } else {
            lemma_one_more_known(rest, known, id, more);
        }
    }
}

/// What is known of rules without a common identifier costs no more than all that is known.
proof fn lemma_known_of_rules_covered(
    rules: Seq<(Seq<char>, u64)>,
    entries: Seq<(Seq<char>, RuntimeView)>,
)
    requires
        laws::distinct_ids(rules),
        ordered::sorted_keys::<String, RuntimeView>(entries),
        forall|i: int| 0 <= i < entries.len() ==> known_in_range((#[trigger] entries[i]).1),
    ensures
        known_cost(rules, ordered::keyed_map::<String, RuntimeView>(entries))
            <= upper::runtimes_upper(entries),
    decreases entries.len(),
{
    if entries.len() == 0 {
        assert(ordered::keyed_map::<String, RuntimeView>(entries) =~= Map::empty());
        lemma_nothing_known_costs_nothing(rules);
    } else {
        let rest = entries.drop_last();
        let (id, more) = entries.last();
        assert(entries =~= rest.push((id, more)));
        ordered::lemma_keyed_map_push::<String, RuntimeView>(rest, id, more);
        assert forall|i: int| 0 <= i < rest.len() implies known_in_range(
            (#[trigger] rest[i]).1,
        ) by {
            assert(rest[i] == entries[i]);
        }
        lemma_known_of_rules_covered(rules, rest);
        assert(known_in_range(entries[entries.len() - 1].1));
        lemma_known_covered(more);
        lemma_one_more_known(
            rules,
            ordered::keyed_map::<String, RuntimeView>(rest),
            id,
            more,
        );
    }
}

proof fn lemma_id_covered(group: RuleGroupView, rule: RuleView)
    ensures
        text::utf8_len(types::id_of(group, rule)) == text::utf8_len(group.tenant_id)
            + text::utf8_len(group.name) + text::utf8_len(types::kind_of(rule)) + text::utf8_len(
            types::name_of(rule),
        ) + 3,
{
    reveal_strlit("/");
    text::lemma_ascii_len("/"@);
    let tenant = group.tenant_id + "/"@;
    let name = tenant + group.name;
    let kind = name + "/"@;
    let rest = kind + types::kind_of(rule);
    text::lemma_utf8_len_joined(group.tenant_id, "/"@);
    text::lemma_utf8_len_joined(tenant, group.name);
    text::lemma_utf8_len_joined(name, "/"@);
    text::lemma_utf8_len_joined(kind, types::kind_of(rule));
    text::lemma_utf8_len_joined(rest, "/"@);
    text::lemma_utf8_len_joined(rest + "/"@, types::name_of(rule));
}

proof fn lemma_state_covered(rule: RuleView, known: RuntimeView)
    ensures
        model::text_cost(status::state_word(rule, known)) <= model::text_cost("inactive"@),
{
    reveal_strlit("error");
    reveal_strlit("ok");
    reveal_strlit("inactive");
    reveal_strlit("firing");
    reveal_strlit("pending");
    text::lemma_ascii_len("inactive"@);
    text::lemma_ascii_len("error"@);
    text::lemma_ascii_len("ok"@);
    text::lemma_ascii_len("firing"@);
    text::lemma_ascii_len("pending"@);
}

/// What is shown of a rule costs its place in a list, what its definition is modeled to cost, and
/// what is known of it.
proof fn lemma_rule_covered(
    group: RuleGroupView,
    rule: RuleView,
    known: Map<Seq<char>, RuntimeView>,
)
    ensures
        shown::shown_rule_cost(status::shown_rule(group, rule, known))
            <= layout::size_of::<RuleStatusSnapshot>() + upper::rule_upper(group, rule)
            + model::runtime_cost(status::known_of(known, types::id_of(group, rule))),
{
    lemma_id_covered(group, rule);
    lemma_state_covered(rule, status::known_of(known, types::id_of(group, rule)));
}

/// What is shown of the first rules of a group.
spec fn shown_rules(
    group: RuleGroupView,
    rules: Seq<RuleView>,
    known: Map<Seq<char>, RuntimeView>,
) -> Seq<status::RuleStatusView> {
    Seq::new(rules.len(), |i: int| status::shown_rule(group, rules[i], known))
}

/// The identifiers and fingerprints of the first rules of a group.
spec fn rule_definitions(group: RuleGroupView, rules: Seq<RuleView>) -> Seq<(Seq<char>, u64)> {
    Seq::new(
        rules.len(),
        |i: int|
            (types::id_of(group, rules[i]), fingerprint::fingerprint_of(group, rules[i])),
    )
}

proof fn lemma_rules_covered(
    group: RuleGroupView,
    rules: Seq<RuleView>,
    known: Map<Seq<char>, RuntimeView>,
)
    ensures
        shown::shown_rules_cost(shown_rules(group, rules, known)) <= rules.len()
            * layout::size_of::<RuleStatusSnapshot>() + upper::rules_upper(group, rules)
            + known_cost(rule_definitions(group, rules), known),
        shown::shown_rules_entries(shown_rules(group, rules, known)) == upper::rules_entries(rules),
    decreases rules.len(),
{
    if rules.len() == 0 {
        assert(0 * layout::size_of::<RuleStatusSnapshot>() == 0) by (nonlinear_arith);
    } else {
        let rest = rules.drop_last();
        lemma_rules_covered(group, rest, known);
        lemma_rule_covered(group, rules.last(), known);
        assert(shown_rules(group, rules, known).drop_last() =~= shown_rules(group, rest, known));
        assert(rule_definitions(group, rules).drop_last() =~= rule_definitions(group, rest));
        assert(rules.len() * layout::size_of::<RuleStatusSnapshot>() == rest.len()
            * layout::size_of::<RuleStatusSnapshot>() + layout::size_of::<RuleStatusSnapshot>())
            by (nonlinear_arith)
            requires
                rules.len() == rest.len() + 1,
        ;
    }
}

proof fn lemma_known_cost_joined(
    a: Seq<(Seq<char>, u64)>,
    b: Seq<(Seq<char>, u64)>,
    known: Map<Seq<char>, RuntimeView>,
)
    ensures
        known_cost(a + b, known) == known_cost(a, known) + known_cost(b, known),
    decreases b.len(),
{
    if b.len() == 0 {
        assert(a + b =~= a);
    } else {
        assert((a + b).drop_last() =~= a + b.drop_last());
        lemma_known_cost_joined(a, b.drop_last(), known);
    }
}

proof fn lemma_groups_covered(groups: Seq<RuleGroupView>, known: Map<Seq<char>, RuntimeView>)
    requires
        status::rules_in(groups) <= usize::MAX,
    ensures
        shown::shown_groups_cost(status::shown_groups(groups, known)) <= status::rules_in(groups)
            * layout::size_of::<RuleStatusSnapshot>() + upper::groups_upper(groups) + known_cost(
            replace::definitions(groups),
            known,
        ),
        shown::shown_entries(status::shown_groups(groups, known)) == upper::groups_entries(groups),
    decreases groups.len(),
{
    if groups.len() == 0 {
        assert(0 * layout::size_of::<RuleStatusSnapshot>() == 0) by (nonlinear_arith);
    } else {
        let rest = groups.drop_last();
        let group = groups.last();
        let size = layout::size_of::<RuleStatusSnapshot>();
        lemma_groups_covered(rest, known);
        lemma_rules_covered(group, group.rules, known);
        lemma_grown_list_covers::<RuleStatusSnapshot>(group.rules.len());
        assert(status::shown_groups(groups, known).drop_last() =~= status::shown_groups(
            rest,
            known,
        ));
        assert(status::shown_group(group, known).rules =~= shown_rules(group, group.rules, known));
        assert(replace::group_definitions(group) =~= rule_definitions(group, group.rules));
        lemma_known_cost_joined(
            replace::definitions(rest),
            replace::group_definitions(group),
            known,
        );
        assert(status::rules_in(groups) * size == status::rules_in(rest) * size + group.rules.len()
            * size) by (nonlinear_arith)
            requires
                status::rules_in(groups) == status::rules_in(rest) + group.rules.len(),
        ;
    }
}

/// What is reserved for a status suffices for it: a status of rules without a common identifier,
/// copied without spare room, is charged no more to a query budget than was reserved for it before
/// anything was copied.
pub proof fn lemma_reserved_suffices(runtime: RulesRuntime, leader: bool)
    requires
        laws::distinct_ids(replace::definitions(runtime.store.state@.groups)),
        ordered::listable::<String, RuntimeView>(runtime.store.state@.runtime),
        state_in_range(runtime.store.state@),
    ensures
        projection::charge_of(
            runtime,
            leader,
            sizes::sat_size(shown::shown_cost(runtime::status_of(runtime, leader)) as int),
        ) <= upper::query_upper(runtime.store.state@, runtime.metrics@.last_error),
{
    let state = runtime.store.state@;
    let entries = ordered::listing::<String, RuntimeView>(state.runtime);
    ordered::lemma_listable::<String, RuntimeView>(state.runtime);
    assert forall|i: int| 0 <= i < entries.len() implies known_in_range(
        (#[trigger] entries[i]).1,
    ) by {
        ordered::lemma_keyed_map_at::<String, RuntimeView>(entries, i);
        assert(state.runtime.contains_key(entries[i].0));
    }
    lemma_known_of_rules_covered(replace::definitions(state.groups), entries);
    lemma_groups_covered(state.groups, state.runtime);
    lemma_grown_list_covers::<RuleGroupStatusSnapshot>(state.groups.len());
    let shown = runtime::status_of(runtime, leader);
    assert(shown.groups.len() == state.groups.len());
    assert(shown::shown_cost(shown) <= upper::status_upper(state, runtime.metrics@.last_error)
        + status::rules_in(state.groups) * layout::size_of::<RuleStatusSnapshot>());
}

/// The rules that were shown are shown again within a query budget that lets the query go on and
/// grants what it asks for, where nothing has changed since and the copies hold no spare room: the
/// second form then says the same as the first.
pub proof fn lemma_exact_status_shown_again<
    C: Fn() -> Result<(), QueryBudgetError>,
    R: FnOnce(u64) -> Result<(), QueryBudgetError>,
    Z: Fn(u64) -> Result<(), QueryBudgetError>,
>(
    before: RulesRuntime,
    leader: bool,
    first_bytes: usize,
    first: RulesStatusSnapshot,
    first_after: RulesStoreAccounting,
    again: RulesRuntime,
    checkpoint: C,
    reserve: R,
    resize: Z,
    second: Result<(RulesStatusSnapshot, u64), RulesStatusProjectionError>,
    second_after: RulesStoreAccounting,
)
    requires
        laws::distinct_ids(replace::definitions(before.store.state@.groups)),
        ordered::listable::<String, RuntimeView>(before.store.state@.runtime),
        state_in_range(before.store.state@),
        projection::measures(before, leader, first_bytes),
        runtime::shown_as(projection::held_at(before, first_bytes), Ok(first), first_after),
        first@ == runtime::status_of(projection::with_counters(before, first_after), leader),
        again == projection::with_counters(before, first_after),
        budget::never_stops(checkpoint),
        budget::always_grants(reserve),
        budget::always_grants(resize),
        projection::status_comes_to(
            again,
            leader,
            checkpoint,
            reserve,
            resize,
            sizes::sat_size(shown::shown_cost(runtime::status_of(again, leader)) as int),
            second,
            second_after,
        ),
    ensures
        second matches Ok((shown, _)) && shown@ == first@,
        second_after == first_after,
{
    let exact = sizes::sat_size(shown::shown_cost(runtime::status_of(again, leader)) as int);
    assert(shown::shown_cost(runtime::status_of(again, leader)) == shown::shown_cost(
        runtime::status_of(before, leader),
    ));
    lemma_reserved_suffices(again, leader);
    laws::lemma_status_shown_again(
        before,
        leader,
        first_bytes,
        first,
        first_after,
        again,
        checkpoint,
        reserve,
        resize,
        exact,
        second,
        second_after,
    );
}

} // verus!
