//! Which rule groups are accepted, in terms of what they define and of the limits.

use vstd::prelude::*;
use vstd::utf8::encode_utf8;

use crate::managed_control_plane::requests;
use crate::ordered;
use crate::reading;
use crate::rules::alert;
use crate::rules::cluster;
use crate::rules::cluster::ControlNode;
use crate::rules::cluster::NodeView;
use crate::rules::limits;
use crate::rules::limits::RulesRuntimeConfig;
use crate::rules::limits::RulesStoreLimits;
use crate::rules::recording::Sample;
use crate::rules::types;
use crate::rules::types::AlertInstanceView;
use crate::rules::types::AlertRuleView;
use crate::rules::types::RuleGroupView;
use crate::rules::types::RuleView;
use crate::rules::types::RuntimeView;
use crate::rules::types::TextsView;
use crate::rules::validate;
use crate::rules::validate::ChecksView;
use crate::series::LabelView;
use crate::stable;
use crate::text;

verus! {

/// The bytes of a text.
pub open spec fn bytes_in(value: Seq<char>) -> nat {
    encode_utf8(value).len()
}

/// Whether a label or an annotation may stand in a rule: it has a name and a value, neither is too
/// long, and a label is not one that the database sets itself.
pub open spec fn may_name(
    name: Seq<char>,
    value: Seq<char>,
    limits: RulesStoreLimits,
    annotation: bool,
    tenant_label: Seq<char>,
) -> bool {
    &&& name.len() > 0
    &&& bytes_in(name) <= limits.max_name_bytes
    &&& bytes_in(name) <= 256
    &&& !annotation ==> name != tenant_label && name != "__name__"@
    &&& value.len() > 0
    &&& bytes_in(value) <= 16_384
}

/// The bytes of the first of some names and values.
pub open spec fn named_sum(pairs: Seq<(Seq<char>, Seq<char>)>, n: int) -> nat
    decreases n,
{
    if n <= 0 {
        0
    } else {
        named_sum(pairs, n - 1) + bytes_in(pairs[n - 1].0) + bytes_in(pairs[n - 1].1)
    }
}

/// Whether a sum is within a limit; the greatest number is none.
pub open spec fn within(sum: nat, limit: usize) -> bool {
    sum <= limit || limit == usize::MAX
}

/// Whether a set of labels or of annotations may stand in a rule: it has no more than it may, each
/// may stand there, and their bytes together are within the limit.
#[verifier::opaque]
pub open spec fn may_label(
    labels: TextsView,
    limits: RulesStoreLimits,
    annotation: bool,
    tenant_label: Seq<char>,
) -> bool {
    let pairs = ordered::listing::<String, Seq<char>>(labels);
    &&& labels.dom().len() <= limits.max_labels_per_set
    &&& forall|name: Seq<char>| #[trigger]
        labels.contains_key(name) ==> may_name(
            name,
            labels[name],
            limits,
            annotation,
            tenant_label,
        )
    &&& within(
        named_sum(pairs, pairs.len() as int),
        if annotation {
            limits.max_annotation_bytes
        } else {
            limits.max_label_set_bytes
        },
    )
}

/// Whether a rule may stand in a group.
pub open spec fn may_rule(
    rule: RuleView,
    limits: RulesStoreLimits,
    tenant_label: Seq<char>,
) -> bool {
    match rule {
        RuleView::Recording(spec) => {
            &&& spec.record.len() > 0
            &&& bytes_in(spec.record) <= limits.max_name_bytes
            &&& bytes_in(spec.record) <= 65_535
            &&& bytes_in(spec.expr) <= limits.max_expression_bytes
            &&& !requests::blank(spec.expr)
            &&& spec.interval_secs matches Some(secs) ==> secs > 0
            &&& may_label(spec.labels, limits, false, tenant_label)
        },
        RuleView::Alert(spec) => {
            &&& spec.alert.len() > 0
            &&& bytes_in(spec.alert) <= limits.max_name_bytes
            &&& bytes_in(spec.alert) <= 16_384
            &&& bytes_in(spec.expr) <= limits.max_expression_bytes
            &&& !requests::blank(spec.expr)
            &&& spec.interval_secs matches Some(secs) ==> secs > 0
            &&& may_label(spec.labels, limits, false, tenant_label)
            &&& may_label(spec.annotations, limits, true, tenant_label)
        },
    }
}

/// Whether a group may stand among rules, whose tenant may be named or not.
#[verifier::opaque]
pub open spec fn may_group(
    group: RuleGroupView,
    tenant_valid: bool,
    limits: RulesStoreLimits,
    tenant_label: Seq<char>,
) -> bool {
    &&& group.name.len() > 0
    &&& bytes_in(group.name) <= limits.max_name_bytes
    &&& group.tenant_id.len() > 0
    &&& bytes_in(group.tenant_id) <= limits.max_name_bytes
    &&& tenant_valid
    &&& group.interval_secs > 0
    &&& 0 < group.rules.len() <= limits.max_rules_per_group
    &&& may_label(group.labels, limits, false, tenant_label)
    &&& forall|i: int|
        0 <= i < group.rules.len() ==> may_rule(#[trigger] group.rules[i], limits, tenant_label)
}

/// The number of rules of the first groups.
pub open spec fn rules_in(groups: Seq<RuleGroupView>, n: int) -> nat
    decreases n,
{
    if n <= 0 {
        0
    } else {
        rules_in(groups, n - 1) + groups[n - 1].rules.len()
    }
}

/// Whether a place is that of a rule of some groups.
pub open spec fn rule_at(groups: Seq<RuleGroupView>, g: int, r: int) -> bool {
    0 <= g < groups.len() && 0 <= r < groups[g].rules.len()
}

/// What a rule is known by: its tenant, its group, its kind and its name.
pub open spec fn called(groups: Seq<RuleGroupView>, g: int, r: int) -> Seq<char> {
    let kind = if groups[g].rules[r] is Recording {
        "recording"@
    } else {
        "alert"@
    };
    let name = match groups[g].rules[r] {
        RuleView::Recording(spec) => spec.record,
        RuleView::Alert(spec) => spec.alert,
    };
    groups[g].tenant_id + "/"@ + groups[g].name + "/"@ + kind + "/"@ + name
}

/// Whether groups may be the rules: they are no more than they may be, each may stand there, their
/// rules together are no more than they may be, every expression can be read, and no two rules are
/// known by the same name.
pub open spec fn acceptable(
    groups: Seq<RuleGroupView>,
    checks: ChecksView,
    limits: RulesStoreLimits,
) -> bool {
    &&& groups.len() <= limits.max_groups
    &&& within(rules_in(groups, groups.len() as int), limits.max_rules_total)
    &&& forall|g: int|
        0 <= g < groups.len() ==> may_group(
            #[trigger] groups[g],
            g < checks.tenants.len() && checks.tenants[g],
            limits,
            checks.tenant_label,
        )
    &&& forall|g: int, r: int| #[trigger]
        rule_at(groups, g, r) ==> g < checks.expressions.len() && r < checks.expressions[g].len()
            && checks.expressions[g][r]
    &&& forall|g: int, r: int, h: int, s: int|
        #![trigger rule_at(groups, g, r), rule_at(groups, h, s)]
        rule_at(groups, g, r) && rule_at(groups, h, s) && (g != h || r != s) ==> called(
            groups,
            g,
            r,
        ) != called(groups, h, s)
}

/// Whether the labels and annotations of groups are lists of names, each once.
pub open spec fn well_kept(groups: Seq<RuleGroupView>) -> bool {
    &&& forall|g: int|
        0 <= g < groups.len() ==> ordered::listable::<String, Seq<char>>(
            (#[trigger] groups[g]).labels,
        )
    &&& forall|g: int, r: int|
        0 <= g < groups.len() && 0 <= r < groups[g].rules.len() ==> well_kept_rule(
            #[trigger] groups[g].rules[r],
        )
}

/// Whether the labels and annotations of a rule are lists of names, each once.
pub open spec fn well_kept_rule(rule: RuleView) -> bool {
    match rule {
        RuleView::Recording(spec) => ordered::listable::<String, Seq<char>>(spec.labels),
        RuleView::Alert(spec) => ordered::listable::<String, Seq<char>>(spec.labels)
            && ordered::listable::<String, Seq<char>>(spec.annotations),
    }
}

proof fn lemma_pairs_fine(
    pairs: Seq<(Seq<char>, Seq<char>)>,
    limits: RulesStoreLimits,
    annotation: bool,
    tenant_label: Seq<char>,
)
    ensures
        validate::pairs_problem(pairs, limits, annotation, tenant_label) is None <==> forall|i: int|
            0 <= i < pairs.len() ==> may_name(
                (#[trigger] pairs[i]).0,
                pairs[i].1,
                limits,
                annotation,
                tenant_label,
            ),
    decreases pairs.len(),
{
    if pairs.len() > 0 {
        let rest = pairs.drop_last();
        lemma_pairs_fine(rest, limits, annotation, tenant_label);
        assert(pairs.last() == pairs[pairs.len() - 1]);
        if validate::pairs_problem(pairs, limits, annotation, tenant_label) is None {
            assert forall|i: int| 0 <= i < pairs.len() implies may_name(
                (#[trigger] pairs[i]).0,
                pairs[i].1,
                limits,
                annotation,
                tenant_label,
            ) by {
                if i < rest.len() {
                    assert(rest[i] == pairs[i]);
                }
            }
        }
        if forall|i: int|
            0 <= i < pairs.len() ==> may_name(
                (#[trigger] pairs[i]).0,
                pairs[i].1,
                limits,
                annotation,
                tenant_label,
            ) {
            assert forall|i: int| 0 <= i < rest.len() implies may_name(
                (#[trigger] rest[i]).0,
                rest[i].1,
                limits,
                annotation,
                tenant_label,
            ) by {
                assert(rest[i] == pairs[i]);
            }
        }
    }
}

proof fn lemma_pairs_summed(pairs: Seq<(Seq<char>, Seq<char>)>, n: int)
    requires
        0 <= n <= pairs.len(),
    ensures
        validate::pairs_bytes(pairs.take(n)) == named_sum(pairs, n),
    decreases n,
{
    if n > 0 {
        lemma_pairs_summed(pairs, n - 1);
        assert(pairs.take(n).drop_last() =~= pairs.take(n - 1));
        assert(pairs.take(n).last() == pairs[n - 1]);
    }
}

proof fn lemma_labels_fine(
    labels: TextsView,
    limits: RulesStoreLimits,
    annotation: bool,
    tenant_label: Seq<char>,
)
    requires
        ordered::listable::<String, Seq<char>>(labels),
    ensures
        validate::label_set_problem(labels, limits, annotation, tenant_label) is None <==> may_label(
            labels,
            limits,
            annotation,
            tenant_label,
        ),
{
    reveal(may_label);
    let pairs = ordered::listing::<String, Seq<char>>(labels);
    ordered::lemma_listing_len::<String, Seq<char>>(labels);
    ordered::lemma_listable::<String, Seq<char>>(labels);
    lemma_pairs_fine(pairs, limits, annotation, tenant_label);
    lemma_pairs_summed(pairs, pairs.len() as int);
    assert(pairs.take(pairs.len() as int) =~= pairs);
    assert forall|i: int| 0 <= i < pairs.len() implies labels.contains_key((#[trigger] pairs[i]).0)
        && labels[pairs[i].0] == pairs[i].1 by {
        ordered::lemma_keyed_map_at::<String, Seq<char>>(pairs, i);
    }
    assert forall|name: Seq<char>| #[trigger] labels.contains_key(name) implies exists|i: int|
        0 <= i < pairs.len() && (#[trigger] pairs[i]).0 == name by {
        let at = choose|i: int| ordered::key_stands::<String, Seq<char>>(pairs, name, i);
        assert(ordered::holds_key::<String, Seq<char>>(pairs, name));
        assert(pairs[at].0 == name);
    }
}

proof fn lemma_rule_fine(rule: RuleView, limits: RulesStoreLimits, tenant_label: Seq<char>)
    requires
        well_kept_rule(rule),
    ensures
        validate::rule_problem(rule, limits, tenant_label) is None <==> may_rule(
            rule,
            limits,
            tenant_label,
        ),
{
    let expr = types::expr_of(rule);
    requests::lemma_trimming_keeps_inner_text(expr);
    match rule {
        RuleView::Recording(spec) => {
            lemma_labels_fine(spec.labels, limits, false, tenant_label);
        },
        RuleView::Alert(spec) => {
            lemma_labels_fine(spec.labels, limits, false, tenant_label);
            lemma_labels_fine(spec.annotations, limits, true, tenant_label);
        },
    }
}

proof fn lemma_rules_fine(rules: Seq<RuleView>, limits: RulesStoreLimits, tenant_label: Seq<char>)
    requires
        forall|i: int| 0 <= i < rules.len() ==> well_kept_rule(#[trigger] rules[i]),
    ensures
        validate::rules_problem(rules, limits, tenant_label) is None <==> forall|i: int|
            0 <= i < rules.len() ==> may_rule(#[trigger] rules[i], limits, tenant_label),
    decreases rules.len(),
{
    if rules.len() > 0 {
        let rest = rules.drop_last();
        let last = rules.len() - 1;
        assert forall|i: int| 0 <= i < rest.len() implies well_kept_rule(#[trigger] rest[i]) by {
            assert(rest[i] == rules[i]);
        }
        lemma_rules_fine(rest, limits, tenant_label);
        lemma_rule_fine(rules[last], limits, tenant_label);
        if validate::rules_problem(rules, limits, tenant_label) is None {
            assert forall|i: int| 0 <= i < rules.len() implies may_rule(
                #[trigger] rules[i],
                limits,
                tenant_label,
            ) by {
                if i < last {
                    assert(rest[i] == rules[i]);
                }
            }
        }
        if forall|i: int|
            0 <= i < rules.len() ==> may_rule(#[trigger] rules[i], limits, tenant_label) {
            assert forall|i: int| 0 <= i < rest.len() implies may_rule(
                #[trigger] rest[i],
                limits,
                tenant_label,
            ) by {
                assert(rest[i] == rules[i]);
            }
            assert(may_rule(rules[last], limits, tenant_label));
        }
    }
}

proof fn lemma_group_fine(
    group: RuleGroupView,
    rules_so_far: nat,
    tenant_valid: bool,
    limits: RulesStoreLimits,
    tenant_label: Seq<char>,
)
    requires
        ordered::listable::<String, Seq<char>>(group.labels),
        forall|i: int| 0 <= i < group.rules.len() ==> well_kept_rule(#[trigger] group.rules[i]),
    ensures
        validate::group_problem(group, rules_so_far, tenant_valid, limits, tenant_label) is None
            <==> may_group(group, tenant_valid, limits, tenant_label) && within(
            rules_so_far,
            limits.max_rules_total,
        ),
{
    reveal(may_group);
    lemma_labels_fine(group.labels, limits, false, tenant_label);
    lemma_rules_fine(group.rules, limits, tenant_label);
}

proof fn lemma_rules_counted(groups: Seq<RuleGroupView>, n: int)
    requires
        0 <= n <= groups.len(),
    ensures
        validate::rules_total(groups.take(n)) == rules_in(groups, n),
    decreases n,
{
    if n > 0 {
        lemma_rules_counted(groups, n - 1);
        assert(groups.take(n).drop_last() =~= groups.take(n - 1));
        assert(groups.take(n).last() == groups[n - 1]);
    }
}

proof fn lemma_shapes_fine(
    groups: Seq<RuleGroupView>,
    checks: ChecksView,
    limits: RulesStoreLimits,
    n: int,
)
    requires
        well_kept(groups),
        0 <= n <= groups.len(),
    ensures
        validate::shapes_problem(groups.take(n), checks, limits) is None <==> within(
            rules_in(groups, n),
            limits.max_rules_total,
        ) && forall|g: int|
            0 <= g < n ==> may_group(
                #[trigger] groups[g],
                g < checks.tenants.len() && checks.tenants[g],
                limits,
                checks.tenant_label,
            ),
    decreases n,
{
    if n > 0 {
        lemma_shapes_fine(groups, checks, limits, n - 1);
        lemma_rules_counted(groups, n);
        assert(groups.take(n).drop_last() =~= groups.take(n - 1));
        assert(groups.take(n).last() == groups[n - 1]);
        assert forall|i: int| 0 <= i < groups[n - 1].rules.len() implies well_kept_rule(
            #[trigger] groups[n - 1].rules[i],
        ) by {}
        lemma_group_fine(
            groups[n - 1],
            rules_in(groups, n),
            checks.tenant_valid(n - 1),
            limits,
            checks.tenant_label,
        );
    } else {
        assert(groups.take(0) =~= Seq::empty());
    }
}

/// The place of a rule in the list of all rules.
spec fn place_of(groups: Seq<RuleGroupView>, g: int, r: int) -> int {
    rules_in(groups, g) + r
}

proof fn lemma_counts_grow(groups: Seq<RuleGroupView>, g: int, h: int)
    requires
        0 <= g <= h,
    ensures
        rules_in(groups, g) <= rules_in(groups, h),
        g < h ==> rules_in(groups, g) + groups[g].rules.len() <= rules_in(groups, h),
    decreases h,
{
    if g < h {
        lemma_counts_grow(groups, g, h - 1);
    }
}

proof fn lemma_listed_there(
    groups: Seq<RuleGroupView>,
    checks: ChecksView,
    n: int,
    g: int,
    r: int,
)
    requires
        0 <= g < n <= groups.len(),
        0 <= r < groups[g].rules.len(),
    ensures
        ({
            let flat = validate::flat_rules(groups.take(n), checks);
            &&& flat.len() == rules_in(groups, n)
            &&& place_of(groups, g, r) < flat.len()
            &&& flat[place_of(groups, g, r)].0 == called(groups, g, r)
            &&& flat[place_of(groups, g, r)].1 == checks.parses(g, r)
        }),
    decreases n,
{
    lemma_flat_len(groups, checks, n);
    lemma_flat_len(groups, checks, n - 1);
    lemma_counts_grow(groups, g, n - 1);
    assert(groups.take(n).drop_last() =~= groups.take(n - 1));
    assert(groups.take(n).last() == groups[n - 1]);
    let before = validate::flat_rules(groups.take(n - 1), checks);
    let own = validate::group_rules(groups[n - 1], n - 1, checks);
    assert(validate::flat_rules(groups.take(n), checks) == before + own);
    if g < n - 1 {
        lemma_listed_there(groups, checks, n - 1, g, r);
    } else {
        assert(own[r].0 == types::id_of(groups[g], groups[g].rules[r]));
    }
}

proof fn lemma_flat_len(groups: Seq<RuleGroupView>, checks: ChecksView, n: int)
    requires
        0 <= n <= groups.len(),
    ensures
        validate::flat_rules(groups.take(n), checks).len() == rules_in(groups, n),
    decreases n,
{
    if n > 0 {
        lemma_flat_len(groups, checks, n - 1);
        assert(groups.take(n).drop_last() =~= groups.take(n - 1));
        assert(groups.take(n).last() == groups[n - 1]);
    } else {
        assert(groups.take(0) =~= Seq::empty());
    }
}

proof fn lemma_place_found(groups: Seq<RuleGroupView>, n: int, p: int) -> (at: (int, int))
    requires
        0 <= n <= groups.len(),
        0 <= p < rules_in(groups, n),
    ensures
        rule_at(groups, at.0, at.1),
        at.0 < n,
        place_of(groups, at.0, at.1) == p,
    decreases n,
{
    if p < rules_in(groups, n - 1) {
        lemma_place_found(groups, n - 1, p)
    } else {
        (n - 1, p - rules_in(groups, n - 1))
    }
}

proof fn lemma_list_fine(rules: Seq<(Seq<char>, bool)>)
    ensures
        validate::listed_problem(rules) is None <==> (forall|i: int|
            0 <= i < rules.len() ==> (#[trigger] rules[i]).1) && (forall|i: int, j: int|
            0 <= i < j < rules.len() ==> (#[trigger] rules[i]).0 != (#[trigger] rules[j]).0),
    decreases rules.len(),
{
    if rules.len() > 0 {
        let rest = rules.drop_last();
        let n = rules.len() - 1;
        lemma_list_fine(rest);
        assert(rules.last() == rules[n]);
        if validate::listed_problem(rules) is None {
            assert forall|i: int| 0 <= i < rules.len() implies (#[trigger] rules[i]).1 by {
                if i < n {
                    assert(rest[i] == rules[i]);
                }
            }
            assert forall|i: int, j: int| 0 <= i < j < rules.len() implies (#[trigger] rules[i]).0
                != (#[trigger] rules[j]).0 by {
                assert(rest[i] == rules[i]);
                if j < n {
                    assert(rest[j] == rules[j]);
                } else if rules[i].0 == rules[j].0 {
                    assert(validate::id_among(rest, rules.last().0));
                }
            }
        }
        if (forall|i: int| 0 <= i < rules.len() ==> (#[trigger] rules[i]).1) && (forall|
            i: int,
            j: int,
        |
            0 <= i < j < rules.len() ==> (#[trigger] rules[i]).0 != (#[trigger] rules[j]).0) {
            assert forall|i: int| 0 <= i < rest.len() implies (#[trigger] rest[i]).1 by {
                assert(rest[i] == rules[i]);
            }
            assert forall|i: int, j: int| 0 <= i < j < rest.len() implies (#[trigger] rest[i]).0
                != (#[trigger] rest[j]).0 by {
                assert(rest[i] == rules[i]);
                assert(rest[j] == rules[j]);
            }
            if validate::id_among(rest, rules.last().0) {
                let i = choose|i: int| 0 <= i < rest.len() && (#[trigger] rest[i]).0 == rules.last().0;
                assert(rules[i] == rest[i]);
                assert(rules[i].0 != rules[n].0);
            }
        }
    }
}

proof fn lemma_all_listed_fine(groups: Seq<RuleGroupView>, checks: ChecksView)
    ensures
        validate::listed_problem(validate::flat_rules(groups, checks)) is None <==> (forall|
            g: int,
            r: int,
        | #[trigger]
            rule_at(groups, g, r) ==> g < checks.expressions.len() && r
                < checks.expressions[g].len() && checks.expressions[g][r]) && (forall|
            g: int,
            r: int,
            h: int,
            s: int,
        |
            #![trigger rule_at(groups, g, r), rule_at(groups, h, s)]
            rule_at(groups, g, r) && rule_at(groups, h, s) && (g != h || r != s) ==> called(
                groups,
                g,
                r,
            ) != called(groups, h, s)),
{
    let n = groups.len() as int;
    let flat = validate::flat_rules(groups, checks);
    assert(groups.take(n) =~= groups);
    lemma_flat_len(groups, checks, n);
    lemma_list_fine(flat);
    if validate::listed_problem(flat) is None {
        assert forall|g: int, r: int| #[trigger] rule_at(groups, g, r) implies g
            < checks.expressions.len() && r < checks.expressions[g].len()
            && checks.expressions[g][r] by {
            lemma_listed_there(groups, checks, n, g, r);
            assert(flat[place_of(groups, g, r)].1);
        }
        assert forall|g: int, r: int, h: int, s: int|
            #![trigger rule_at(groups, g, r), rule_at(groups, h, s)]
            rule_at(groups, g, r) && rule_at(groups, h, s) && (g != h || r != s) implies called(
            groups,
            g,
            r,
        ) != called(groups, h, s) by {
            lemma_listed_there(groups, checks, n, g, r);
            lemma_listed_there(groups, checks, n, h, s);
            if g < h {
                lemma_counts_grow(groups, g, h);
            } else if h < g {
                lemma_counts_grow(groups, h, g);
            }
            let p = place_of(groups, g, r);
            let q = place_of(groups, h, s);
            assert(p != q);
            if p < q {
                assert(flat[p].0 != flat[q].0);
            } else {
                assert(flat[q].0 != flat[p].0);
            }
        }
    }
    if (forall|g: int, r: int| #[trigger]
        rule_at(groups, g, r) ==> g < checks.expressions.len() && r < checks.expressions[g].len()
            && checks.expressions[g][r]) && (forall|g: int, r: int, h: int, s: int|
        #![trigger rule_at(groups, g, r), rule_at(groups, h, s)]
        rule_at(groups, g, r) && rule_at(groups, h, s) && (g != h || r != s) ==> called(
            groups,
            g,
            r,
        ) != called(groups, h, s)) {
        assert forall|i: int| 0 <= i < flat.len() implies (#[trigger] flat[i]).1 by {
            let (g, r) = lemma_place_found(groups, n, i);
            lemma_listed_there(groups, checks, n, g, r);
        }
        assert forall|i: int, j: int| 0 <= i < j < flat.len() implies (#[trigger] flat[i]).0 != (
        #[trigger] flat[j]).0 by {
            let (g, r) = lemma_place_found(groups, n, i);
            let (h, s) = lemma_place_found(groups, n, j);
            lemma_listed_there(groups, checks, n, g, r);
            lemma_listed_there(groups, checks, n, h, s);
            assert(g != h || r != s);
            assert(rule_at(groups, g, r) && rule_at(groups, h, s));
        }
    }
}

/// Groups are accepted exactly where they may be the rules.
pub proof fn lemma_groups_accepted(
    groups: Seq<RuleGroupView>,
    checks: ChecksView,
    limits: RulesStoreLimits,
)
    requires
        well_kept(groups),
    ensures
        validate::groups_problem(groups, checks, limits) is None <==> acceptable(
            groups,
            checks,
            limits,
        ),
{
    let n = groups.len() as int;
    assert(groups.take(n) =~= groups);
    lemma_shapes_fine(groups, checks, limits, n);
    lemma_all_listed_fine(groups, checks);
}

/// A configuration of the rules runtime is taken exactly where no limit is zero, a group may not
/// have more rules than there may be, what is shown fits into a response, and a rule may not raise
/// more alerts than are stored.
pub proof fn lemma_config_taken(config: RulesRuntimeConfig)
    ensures
        config.problem() is None <==> {
            let store = config.store_limits;
            &&& config.scheduler_tick_nanos > 0
            &&& config.max_recording_rows_per_eval > 0
            &&& config.max_alert_instances_per_rule > 0
            &&& config.max_alert_instances_per_rule <= store.max_alert_instances_per_rule
            &&& store.max_groups > 0
            &&& 0 < store.max_rules_per_group <= store.max_rules_total
            &&& store.max_labels_per_set > 0
            &&& store.max_label_set_bytes > 0
            &&& store.max_name_bytes > 0
            &&& store.max_expression_bytes > 0
            &&& store.max_annotation_bytes > 0
            &&& store.max_total_retained_state_bytes > 0
            &&& store.max_durable_file_bytes > 0
            &&& store.max_startup_transient_bytes > 0
            &&& store.max_replacement_transient_bytes > 0
            &&& store.max_runtime_update_transient_bytes > 0
            &&& 0 < store.max_snapshot_status_bytes <= 67_108_864
        },
{
}

/// Without any setting there are 256 groups of 256 rules and 4096 rules at most, ten thousand alerts
/// of a rule and ten thousand rows of an evaluation, 64 labels and 64 KiB of them, names of 1 KiB,
/// expressions of 256 KiB, annotations of 64 KiB, 16 MiB of state, files of 32 MiB, and from 48 to
/// 128 MiB of working memory; the scheduler looks once a second.
pub proof fn lemma_default_limits()
    ensures
        ({
            let config = limits::default_config();
            let store = limits::default_limits();
            &&& config.store_limits == store
            &&& config.scheduler_tick_nanos == 1_000 * 1_000 * 1_000
            &&& config.max_recording_rows_per_eval == 10_000
            &&& config.max_alert_instances_per_rule == 10_000
            &&& store.max_groups == 256
            &&& store.max_rules_per_group == 256
            &&& store.max_rules_total == 4_096
            &&& store.max_alert_instances_per_rule == 10_000
            &&& store.max_labels_per_set == 64
            &&& store.max_label_set_bytes == 64 * 1024
            &&& store.max_name_bytes == 1024
            &&& store.max_expression_bytes == 256 * 1024
            &&& store.max_annotation_bytes == 64 * 1024
            &&& store.max_total_retained_state_bytes == 16 * 1024 * 1024
            &&& store.max_durable_file_bytes == 32 * 1024 * 1024
            &&& store.max_startup_transient_bytes == 128 * 1024 * 1024
            &&& store.max_replacement_transient_bytes == 64 * 1024 * 1024
            &&& store.max_runtime_update_transient_bytes == 48 * 1024 * 1024
            &&& store.max_snapshot_status_bytes == 64 * 1024 * 1024
        }),
{
}

/// What an operator sets is used where it is a number above zero, blanks around it aside; what is
/// not set stays at one second between looks, ten thousand rows and ten thousand alerts; anything
/// else is refused.
pub proof fn lemma_environment_used(env: limits::RulesEnvironment)
    ensures
        limits::env_config(env) is Ok <==> env_used(
            env.scheduler_tick_ms,
            1000,
            u64::MAX as nat,
        ) is Some && env_used(env.max_recording_rows_per_eval, 10_000, usize::MAX as nat) is Some
            && env_used(env.max_alert_instances_per_rule, 10_000, usize::MAX as nat) is Some,
        limits::env_config(env) matches Ok(config) ==> {
            &&& config.scheduler_tick_nanos == env_used(
                env.scheduler_tick_ms,
                1000,
                u64::MAX as nat,
            )->0 * 1_000_000
            &&& config.max_recording_rows_per_eval == env_used(
                env.max_recording_rows_per_eval,
                10_000,
                usize::MAX as nat,
            )->0
            &&& config.max_alert_instances_per_rule == env_used(
                env.max_alert_instances_per_rule,
                10_000,
                usize::MAX as nat,
            )->0
        },
{
    lemma_env_number("TSINK_RULES_SCHEDULER_TICK_MS"@, env.scheduler_tick_ms, 1000, u64::MAX as nat);
    lemma_env_number(
        "TSINK_RULES_MAX_RECORDING_ROWS_PER_EVAL"@,
        env.max_recording_rows_per_eval,
        10_000,
        usize::MAX as nat,
    );
    lemma_env_number(
        "TSINK_RULES_MAX_ALERT_INSTANCES_PER_RULE"@,
        env.max_alert_instances_per_rule,
        10_000,
        usize::MAX as nat,
    );
}

/// The number that a variable of the environment sets, if it may set one: the number that its digits
/// say, after one sign `+` at most, or the one that stands where it is not set.
pub open spec fn env_used(value: limits::EnvValue, unset: nat, most: nat) -> Option<int> {
    match value {
        limits::EnvValue::Missing => Some(unset as int),
        limits::EnvValue::NotUnicode => None,
        limits::EnvValue::Text(given) => {
            let digits = reading::unsigned(text::trimmed(given@));
            let said = reading::number_said(digits);
            if reading::only_digits(digits) && 0 < said <= most {
                Some(said)
            } else {
                None
            }
        },
    }
}

proof fn lemma_env_number(name: Seq<char>, value: limits::EnvValue, unset: nat, most: nat)
    ensures
        limits::env_number(name, value, unset, most) is Ok <==> env_used(value, unset, most) is Some,
        limits::env_number(name, value, unset, most) matches Ok(number) ==> env_used(
            value,
            unset,
            most,
        ) == Some(number as int),
{
    match value {
        limits::EnvValue::Text(given) => {
            reading::lemma_number_read(text::trimmed(given@));
        },
        _ => {},
    }
}

/// Whether a label may stand on an alert.
pub open spec fn may_mark(label: LabelView, limits: RulesStoreLimits) -> bool {
    &&& label.name.len() > 0
    &&& bytes_in(label.name) <= limits.max_name_bytes
    &&& bytes_in(label.name) <= 256
    &&& bytes_in(label.value) <= 16_384
}

/// The bytes of the first of some labels.
pub open spec fn marked_sum(labels: Seq<LabelView>, n: int) -> nat
    decreases n,
{
    if n <= 0 {
        0
    } else {
        marked_sum(labels, n - 1) + bytes_in(labels[n - 1].name) + bytes_in(labels[n - 1].value)
    }
}

/// Whether a sample may raise an alert: its metric is not too long, its labels with those of the
/// group and of the rule and the name of the alert are no more than they may be, each may stand
/// there, and their bytes together are within the limit.
pub open spec fn may_alert(
    sample: Sample,
    group: RuleGroupView,
    spec: AlertRuleView,
    limits: RulesStoreLimits,
) -> bool {
    let labels = stable::views(sample.labels@);
    let shared = ordered::listing::<String, Seq<char>>(group.labels);
    let own = ordered::listing::<String, Seq<char>>(spec.labels);
    &&& bytes_in(sample.metric@) <= limits.max_name_bytes
    &&& labels.len() <= limits.max_labels_per_set
    &&& within(
        labels.len() + group.labels.dom().len() + spec.labels.dom().len() + 1,
        limits.max_labels_per_set,
    )
    &&& forall|i: int| 0 <= i < labels.len() ==> may_mark(#[trigger] labels[i], limits)
    &&& within(
        bytes_in("alertname"@) + bytes_in(spec.alert) + marked_sum(labels, labels.len() as int)
            + named_sum(shared, shared.len() as int) + named_sum(own, own.len() as int),
        limits.max_label_set_bytes,
    )
}

proof fn lemma_marks_summed(labels: Seq<LabelView>, n: int)
    requires
        0 <= n <= labels.len(),
    ensures
        validate::labels_bytes(labels.take(n)) == marked_sum(labels, n),
    decreases n,
{
    if n > 0 {
        lemma_marks_summed(labels, n - 1);
        assert(labels.take(n).drop_last() =~= labels.take(n - 1));
        assert(labels.take(n).last() == labels[n - 1]);
    }
}

proof fn lemma_marks_fine(labels: Seq<LabelView>, limits: RulesStoreLimits)
    ensures
        validate::some_label_wrong(labels, limits) <==> !(forall|i: int|
            0 <= i < labels.len() ==> may_mark(#[trigger] labels[i], limits)),
        validate::labels_bytes(labels) == marked_sum(labels, labels.len() as int),
{
    lemma_marks_summed(labels, labels.len() as int);
    assert(labels.take(labels.len() as int) =~= labels);
    assert forall|i: int| 0 <= i < labels.len() implies validate::alert_label_wrong(
        #[trigger] labels[i],
        limits,
    ) == !may_mark(labels[i], limits) by {}
    if validate::some_label_wrong(labels, limits) {
        let i = choose|i: int|
            0 <= i < labels.len() && validate::alert_label_wrong(#[trigger] labels[i], limits);
        assert(!may_mark(labels[i], limits));
    }
}

proof fn lemma_sample_fine(
    sample: Sample,
    group: RuleGroupView,
    spec: AlertRuleView,
    limits: RulesStoreLimits,
)
    requires
        ordered::listable::<String, Seq<char>>(group.labels),
        ordered::listable::<String, Seq<char>>(spec.labels),
    ensures
        alert::preflight_problem(group, spec, sample, limits) is None <==> may_alert(
            sample,
            group,
            spec,
            limits,
        ),
{
    let labels = stable::views(sample.labels@);
    let shared = ordered::listing::<String, Seq<char>>(group.labels);
    let own = ordered::listing::<String, Seq<char>>(spec.labels);
    ordered::lemma_listing_len::<String, Seq<char>>(group.labels);
    ordered::lemma_listing_len::<String, Seq<char>>(spec.labels);
    lemma_marks_fine(labels, limits);
    lemma_pairs_summed(shared, shared.len() as int);
    lemma_pairs_summed(own, own.len() as int);
    assert(shared.take(shared.len() as int) =~= shared);
    assert(own.take(own.len() as int) =~= own);
}

/// The result of an alert rule is taken up exactly where it has no more samples than alerts may be
/// raised, and each sample may raise one.
pub proof fn lemma_alert_samples_taken_up(
    config: RulesRuntimeConfig,
    group: RuleGroupView,
    spec: AlertRuleView,
    samples: Seq<Sample>,
)
    requires
        ordered::listable::<String, Seq<char>>(group.labels),
        ordered::listable::<String, Seq<char>>(spec.labels),
    ensures
        alert::samples_refused(config, group, spec, samples) is None <==> samples.len()
            <= config.max_alert_instances_per_rule && forall|i: int|
            0 <= i < samples.len() ==> may_alert(
                #[trigger] samples[i],
                group,
                spec,
                config.store_limits,
            ),
{
    lemma_samples_fine(group, spec, samples, config.store_limits);
}

proof fn lemma_samples_fine(
    group: RuleGroupView,
    spec: AlertRuleView,
    samples: Seq<Sample>,
    limits: RulesStoreLimits,
)
    requires
        ordered::listable::<String, Seq<char>>(group.labels),
        ordered::listable::<String, Seq<char>>(spec.labels),
    ensures
        alert::preflights_problem(group, spec, samples, limits) is None <==> forall|i: int|
            0 <= i < samples.len() ==> may_alert(#[trigger] samples[i], group, spec, limits),
    decreases samples.len(),
{
    if samples.len() > 0 {
        let rest = samples.drop_last();
        let n = samples.len() - 1;
        lemma_samples_fine(group, spec, rest, limits);
        lemma_sample_fine(samples[n], group, spec, limits);
        if alert::preflights_problem(group, spec, samples, limits) is None {
            assert forall|i: int| 0 <= i < samples.len() implies may_alert(
                #[trigger] samples[i],
                group,
                spec,
                limits,
            ) by {
                if i < n {
                    assert(rest[i] == samples[i]);
                }
            }
        }
        if forall|i: int|
            0 <= i < samples.len() ==> may_alert(#[trigger] samples[i], group, spec, limits) {
            assert forall|i: int| 0 <= i < rest.len() implies may_alert(
                #[trigger] rest[i],
                group,
                spec,
                limits,
            ) by {
                assert(rest[i] == samples[i]);
            }
            assert(may_alert(samples[n], group, spec, limits));
        }
    }
}

/// The bytes of a text, none where there is none.
pub open spec fn bytes_if(value: Option<Seq<char>>) -> nat {
    match value {
        Some(given) => bytes_in(given),
        None => 0,
    }
}

/// Whether an alert may be kept.
pub open spec fn may_keep(alert: AlertInstanceView, limits: RulesStoreLimits) -> bool {
    &&& bytes_in(alert.key) <= limits.max_label_set_bytes + limits.max_name_bytes
    &&& bytes_in(alert.key) <= usize::MAX
    &&& bytes_in(alert.source_metric) <= limits.max_name_bytes
    &&& bytes_in(alert.sample_type) <= limits.max_name_bytes
    &&& bytes_if(alert.sample_value) <= limits.max_annotation_bytes
    &&& alert.labels.len() <= limits.max_labels_per_set
    &&& forall|i: int| 0 <= i < alert.labels.len() ==> may_mark(#[trigger] alert.labels[i], limits)
    &&& within(marked_sum(alert.labels, alert.labels.len() as int), limits.max_label_set_bytes)
}

/// What is found by an evaluation is taken up exactly where its diagnostic is not too long, it has
/// no more alerts than a rule may, and each alert may be kept.
pub proof fn lemma_finding_taken_up(found: RuntimeView, limits: RulesStoreLimits)
    ensures
        validate::runtime_problem(found, limits) is None <==> bytes_if(found.last_error) <= 512
            && found.alert_instances.len() <= limits.max_alert_instances_per_rule && forall|i: int|
            0 <= i < found.alert_instances.len() ==> may_keep(
                #[trigger] found.alert_instances[i],
                limits,
            ),
{
    lemma_alerts_fine(found.alert_instances, limits);
}

proof fn lemma_alerts_fine(alerts: Seq<AlertInstanceView>, limits: RulesStoreLimits)
    ensures
        validate::instances_problem(alerts, limits) is None <==> forall|i: int|
            0 <= i < alerts.len() ==> may_keep(#[trigger] alerts[i], limits),
    decreases alerts.len(),
{
    if alerts.len() > 0 {
        let rest = alerts.drop_last();
        let n = alerts.len() - 1;
        lemma_alerts_fine(rest, limits);
        lemma_marks_fine(alerts[n].labels, limits);
        assert(validate::instance_problem(alerts[n], limits) is None <==> may_keep(
            alerts[n],
            limits,
        ));
        if validate::instances_problem(alerts, limits) is None {
            assert forall|i: int| 0 <= i < alerts.len() implies may_keep(
                #[trigger] alerts[i],
                limits,
            ) by {
                if i < n {
                    assert(rest[i] == alerts[i]);
                }
            }
        }
        if forall|i: int| 0 <= i < alerts.len() ==> may_keep(#[trigger] alerts[i], limits) {
            assert forall|i: int| 0 <= i < rest.len() implies may_keep(
                #[trigger] rest[i],
                limits,
            ) by {
                assert(rest[i] == alerts[i]);
            }
            assert(may_keep(alerts[n], limits));
        }
    }
}

/// The members of the cluster are the nodes that were not removed, each as it is named, in their
/// order.
pub proof fn lemma_members_are_not_removed(nodes: Seq<ControlNode>)
    ensures
        cluster::remaining(nodes) == nodes.filter(|node: ControlNode| !node.removed).map_values(
            |node: ControlNode| NodeView { id: node.id@, endpoint: node.endpoint@ },
        ),
    decreases nodes.len(),
{
    reveal(Seq::filter);
    let keep = |node: ControlNode| !node.removed;
    let named = |node: ControlNode| NodeView { id: node.id@, endpoint: node.endpoint@ };
    if nodes.len() > 0 {
        let rest = nodes.drop_last();
        lemma_members_are_not_removed(rest);
        if keep(nodes.last()) {
            assert(nodes.filter(keep) =~= rest.filter(keep).push(nodes.last()));
            assert(nodes.filter(keep).map_values(named) =~= rest.filter(keep).map_values(
                named,
            ).push(named(nodes.last())));
        }
    } else {
        assert(nodes.filter(keep).map_values(named) =~= Seq::empty());
    }
}

/// A node is a member of the cluster exactly where a node of its name was not removed.
pub proof fn lemma_member_is_not_removed(nodes: Seq<ControlNode>, id: Seq<char>)
    ensures
        cluster::has_node(cluster::remaining(nodes), id) <==> exists|i: int|
            0 <= i < nodes.len() && (#[trigger] nodes[i]).id@ == id && !nodes[i].removed,
    decreases nodes.len(),
{
    let left = cluster::remaining(nodes);
    if nodes.len() > 0 {
        let rest = nodes.drop_last();
        let n = nodes.len() - 1;
        let fewer = cluster::remaining(rest);
        lemma_member_is_not_removed(rest, id);
        if cluster::has_node(left, id) {
            let k = choose|k: int| 0 <= k < left.len() && (#[trigger] left[k]).id == id;
            if k < fewer.len() {
                assert(fewer[k].id == id);
                assert(cluster::has_node(fewer, id));
                let i = choose|i: int|
                    0 <= i < rest.len() && (#[trigger] rest[i]).id@ == id && !rest[i].removed;
                assert(nodes[i] == rest[i]);
            } else {
                assert(nodes[n].id@ == id && !nodes[n].removed);
            }
        }
        if exists|i: int|
            0 <= i < nodes.len() && (#[trigger] nodes[i]).id@ == id && !nodes[i].removed {
            let i = choose|i: int|
                0 <= i < nodes.len() && (#[trigger] nodes[i]).id@ == id && !nodes[i].removed;
            if i < n {
                assert(rest[i] == nodes[i]);
                let k = choose|k: int| 0 <= k < fewer.len() && (#[trigger] fewer[k]).id == id;
                assert(left[k] == fewer[k]);
            } else {
                assert(left[fewer.len() as int].id == id);
            }
        }
    }
}

} // verus!
