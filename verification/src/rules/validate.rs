//! Checking rules and what is known of their evaluation.

use vstd::prelude::*;

use crate::names;
use crate::ordered;
use crate::ordered::KeyMap;
use crate::rules::accounting;
use crate::rules::accounting::RulesLimitSurface;
use crate::rules::accounting::RulesStoreError;
use crate::rules::accounting::StoreProblem;
use crate::rules::limits::RulesStoreLimits;
use crate::rules::model;
use crate::rules::types;
use crate::rules::types::AlertInstanceState;
use crate::rules::types::AlertInstanceView;
use crate::rules::types::PersistedRuleRuntimeState;
use crate::rules::types::PersistedRulesStoreState;
use crate::rules::types::RuleGroupSpec;
use crate::rules::types::RuleGroupView;
use crate::rules::types::RuleSpec;
use crate::rules::types::RuleView;
use crate::rules::types::RulesStateView;
use crate::rules::types::RuntimeView;
use crate::rules::types::Texts;
use crate::series::LabelView;
use crate::sizes;
use crate::stable;
use crate::text;

verus! {

/// The most bytes of the name of a label.
pub const MAX_LABEL_NAME_LEN: usize = 256;

/// The most bytes of the value of a label.
pub const MAX_LABEL_VALUE_LEN: usize = 16384;

/// The most bytes of the name of a metric.
pub const MAX_METRIC_NAME_LEN: usize = 65535;

/// The most bytes of a diagnostic that is kept.
pub const RULES_MAX_DIAGNOSTIC_BYTES: usize = 512;

/// What the storage and the query language say of groups: the label that names the tenant of a
/// series, whether the tenant of each group is valid, and whether the expression of each rule can
/// be parsed. What is missing counts as invalid.
#[derive(Debug)]
pub struct RuleChecks {
    pub tenant_label: String,
    pub tenants: Vec<bool>,
    pub expressions: Vec<Vec<bool>>,
}

/// What is said of groups, as plain values.
pub struct ChecksView {
    pub tenant_label: Seq<char>,
    pub tenants: Seq<bool>,
    pub expressions: Seq<Seq<bool>>,
}

impl View for RuleChecks {
    type V = ChecksView;

    open spec fn view(&self) -> ChecksView {
        ChecksView {
            tenant_label: self.tenant_label@,
            tenants: self.tenants@,
            expressions: Seq::new(self.expressions@.len(), |i: int| self.expressions@[i]@),
        }
    }
}

impl ChecksView {
    /// Whether the tenant of a group is valid.
    pub open spec fn tenant_valid(self, group: int) -> bool {
        0 <= group < self.tenants.len() && self.tenants[group]
    }

    /// Whether the expression of a rule can be parsed.
    pub open spec fn parses(self, group: int, rule: int) -> bool {
        0 <= group < self.expressions.len() && 0 <= rule < self.expressions[group].len()
            && self.expressions[group][rule]
    }
}

/// The configuration is over a limit.
pub open spec fn over_limit() -> Option<StoreProblem> {
    Some(StoreProblem::Limit(RulesLimitSurface::Configuration))
}

/// The configuration is wrong.
pub open spec fn invalid(message: Seq<char>) -> Option<StoreProblem> {
    Some(StoreProblem::Invalid(message))
}

/// What is wrong with one label or annotation.
pub open spec fn pair_problem(
    name: Seq<char>,
    value: Seq<char>,
    limits: RulesStoreLimits,
    annotations: bool,
    tenant_label: Seq<char>,
) -> Option<StoreProblem> {
    if name.len() == 0 || text::utf8_len(name) > limits.max_name_bytes || text::utf8_len(name)
        > MAX_LABEL_NAME_LEN || (!annotations && (name == tenant_label || name == "__name__"@)) {
        invalid("rules contain an invalid label name"@)
    } else if value.len() == 0 || text::utf8_len(value) > MAX_LABEL_VALUE_LEN {
        invalid("rules contain an invalid label value"@)
    } else {
        None
    }
}

/// What is wrong with the first label or annotation that is wrong.
pub open spec fn pairs_problem(
    pairs: Seq<(Seq<char>, Seq<char>)>,
    limits: RulesStoreLimits,
    annotations: bool,
    tenant_label: Seq<char>,
) -> Option<StoreProblem>
    decreases pairs.len(),
{
    if pairs.len() == 0 {
        None
    } else if pairs_problem(pairs.drop_last(), limits, annotations, tenant_label) is Some {
        pairs_problem(pairs.drop_last(), limits, annotations, tenant_label)
    } else {
        pair_problem(pairs.last().0, pairs.last().1, limits, annotations, tenant_label)
    }
}

/// The bytes of names and values.
pub open spec fn pairs_bytes(pairs: Seq<(Seq<char>, Seq<char>)>) -> nat
    decreases pairs.len(),
{
    if pairs.len() == 0 {
        0
    } else {
        pairs_bytes(pairs.drop_last()) + text::utf8_len(pairs.last().0) + text::utf8_len(
            pairs.last().1,
        )
    }
}

/// What is wrong with labels or annotations.
pub open spec fn label_set_problem(
    labels: types::TextsView,
    limits: RulesStoreLimits,
    annotations: bool,
    tenant_label: Seq<char>,
) -> Option<StoreProblem> {
    let pairs = ordered::listing::<String, Seq<char>>(labels);
    if pairs.len() > limits.max_labels_per_set {
        over_limit()
    } else if pairs_problem(pairs, limits, annotations, tenant_label) is Some {
        pairs_problem(pairs, limits, annotations, tenant_label)
    } else if sizes::sat_size(pairs_bytes(pairs) as int) > if annotations {
        limits.max_annotation_bytes
    } else {
        limits.max_label_set_bytes
    } {
        over_limit()
    } else {
        None
    }
}

proof fn lemma_pairs_stop(
    pairs: Seq<(Seq<char>, Seq<char>)>,
    n: int,
    limits: RulesStoreLimits,
    annotations: bool,
    tenant_label: Seq<char>,
)
    requires
        0 <= n <= pairs.len(),
        pairs_problem(pairs.subrange(0, n), limits, annotations, tenant_label) is Some,
    ensures
        pairs_problem(pairs, limits, annotations, tenant_label) == pairs_problem(
            pairs.subrange(0, n),
            limits,
            annotations,
            tenant_label,
        ),
    decreases pairs.len() - n,
{
    if n == pairs.len() {
        assert(pairs.subrange(0, n) =~= pairs);
    } else {
        assert(pairs.subrange(0, n + 1).drop_last() =~= pairs.subrange(0, n));
        lemma_pairs_stop(pairs, n + 1, limits, annotations, tenant_label);
    }
}

/// Checks labels or annotations.
pub fn validate_label_set_limits(
    labels: &Texts,
    limits: &RulesStoreLimits,
    annotations: bool,
    tenant_label: &str,
) -> (checked: Result<(), RulesStoreError>)
    ensures
        accounting::checked_as(
            checked,
            label_set_problem(labels@, *limits, annotations, tenant_label@),
        ),
{
    let count = labels.len();
    let ghost pairs = labels.entries();
    proof {
        ordered::lemma_listing::<String, Seq<char>>(pairs);
    }
    if count > limits.max_labels_per_set {
        return Err(RulesStoreError::Limit(RulesLimitSurface::Configuration));
    }
    let mut bytes: usize = 0;
    let mut i: usize = 0;
    assert(pairs.subrange(0, 0) =~= Seq::empty());
    while i < count
        invariant
            i <= count,
            count == pairs.len(),
            pairs == labels.entries(),
            pairs == ordered::listing::<String, Seq<char>>(labels@),
            count <= limits.max_labels_per_set,
            pairs_problem(pairs.subrange(0, i as int), *limits, annotations, tenant_label@) is None,
            bytes == sizes::sat_size(pairs_bytes(pairs.subrange(0, i as int)) as int),
        decreases count - i,
    {
        let name = labels.key_at(i);
        let value = labels.value_at(i);
        proof {
            assert(pairs.subrange(0, i as int + 1).drop_last() =~= pairs.subrange(0, i as int));
        }
        let name_len = text::byte_len(name.as_str());
        let value_len = text::byte_len(value.as_str());
        if name.as_str().unicode_len() == 0 || name_len > limits.max_name_bytes || name_len
            > MAX_LABEL_NAME_LEN || (!annotations && (names::same_text(
            name.as_str(),
            tenant_label,
        ) || names::same_text(name.as_str(), "__name__"))) {
            proof {
                lemma_pairs_stop(pairs, i as int + 1, *limits, annotations, tenant_label@);
            }
            return Err(RulesStoreError::Invalid("rules contain an invalid label name"));
        }
        if value.as_str().unicode_len() == 0 || value_len > MAX_LABEL_VALUE_LEN {
            proof {
                lemma_pairs_stop(pairs, i as int + 1, *limits, annotations, tenant_label@);
            }
            return Err(RulesStoreError::Invalid("rules contain an invalid label value"));
        }
        bytes = bytes.saturating_add(name_len).saturating_add(value_len);
        i = i + 1;
    }
    assert(pairs.subrange(0, i as int) =~= pairs);
    let limit = if annotations {
        limits.max_annotation_bytes
    } else {
        limits.max_label_set_bytes
    };
    if bytes > limit {
        return Err(RulesStoreError::Limit(RulesLimitSurface::Configuration));
    }
    Ok(())
}

/// What is wrong with a rule, apart from whether its expression can be parsed.
pub open spec fn rule_problem(
    rule: RuleView,
    limits: RulesStoreLimits,
    tenant_label: Seq<char>,
) -> Option<StoreProblem> {
    let name = types::name_of(rule);
    let expr = types::expr_of(rule);
    if name.len() == 0 || text::utf8_len(name) > limits.max_name_bytes || expr.len() == 0
        || text::utf8_len(expr) > limits.max_expression_bytes {
        over_limit()
    } else if text::trimmed(expr).len() == 0 {
        invalid("rules contain an empty expression"@)
    } else {
        match rule {
            RuleView::Recording(spec) => if text::utf8_len(spec.record) > MAX_METRIC_NAME_LEN
                || spec.interval_secs == Some(0u64) {
                invalid("rules contain an invalid recording rule"@)
            } else {
                label_set_problem(spec.labels, limits, false, tenant_label)
            },
            RuleView::Alert(spec) => if text::utf8_len(spec.alert) > MAX_LABEL_VALUE_LEN
                || spec.interval_secs == Some(0u64) {
                invalid("rules contain an invalid alert rule"@)
            } else if label_set_problem(spec.labels, limits, false, tenant_label) is Some {
                label_set_problem(spec.labels, limits, false, tenant_label)
            } else {
                label_set_problem(spec.annotations, limits, true, tenant_label)
            },
        }
    }
}

/// What is wrong with the first rule that is wrong.
pub open spec fn rules_problem(
    rules: Seq<RuleView>,
    limits: RulesStoreLimits,
    tenant_label: Seq<char>,
) -> Option<StoreProblem>
    decreases rules.len(),
{
    if rules.len() == 0 {
        None
    } else if rules_problem(rules.drop_last(), limits, tenant_label) is Some {
        rules_problem(rules.drop_last(), limits, tenant_label)
    } else {
        rule_problem(rules.last(), limits, tenant_label)
    }
}

/// The number of rules of groups.
pub open spec fn rules_total(groups: Seq<RuleGroupView>) -> nat
    decreases groups.len(),
{
    if groups.len() == 0 {
        0
    } else {
        rules_total(groups.drop_last()) + groups.last().rules.len()
    }
}

/// What is wrong with a group, given how many rules there are up to its end and whether its tenant
/// is valid.
pub open spec fn group_problem(
    group: RuleGroupView,
    rules_so_far: nat,
    tenant_valid: bool,
    limits: RulesStoreLimits,
    tenant_label: Seq<char>,
) -> Option<StoreProblem> {
    if group.name.len() == 0 || group.tenant_id.len() == 0 || group.interval_secs == 0 {
        invalid("rules contain an invalid group"@)
    } else if text::utf8_len(group.name) > limits.max_name_bytes || text::utf8_len(group.tenant_id)
        > limits.max_name_bytes {
        over_limit()
    } else if !tenant_valid {
        invalid("rules contain an invalid tenant identifier"@)
    } else if group.rules.len() == 0 {
        invalid("rules groups must not be empty"@)
    } else if group.rules.len() > limits.max_rules_per_group || sizes::sat_size(rules_so_far as int)
        > limits.max_rules_total {
        over_limit()
    } else if label_set_problem(group.labels, limits, false, tenant_label) is Some {
        label_set_problem(group.labels, limits, false, tenant_label)
    } else {
        rules_problem(group.rules, limits, tenant_label)
    }
}

/// What is wrong with the first group that is wrong.
pub open spec fn shapes_problem(
    groups: Seq<RuleGroupView>,
    checks: ChecksView,
    limits: RulesStoreLimits,
) -> Option<StoreProblem>
    decreases groups.len(),
{
    if groups.len() == 0 {
        None
    } else if shapes_problem(groups.drop_last(), checks, limits) is Some {
        shapes_problem(groups.drop_last(), checks, limits)
    } else {
        group_problem(
            groups.last(),
            rules_total(groups),
            checks.tenant_valid(groups.len() - 1),
            limits,
            checks.tenant_label,
        )
    }
}

/// The rules of a group by identifier, each with whether its expression can be parsed.
pub open spec fn group_rules(group: RuleGroupView, at: int, checks: ChecksView) -> Seq<
    (Seq<char>, bool),
> {
    Seq::new(
        group.rules.len(),
        |i: int| (types::id_of(group, group.rules[i]), checks.parses(at, i)),
    )
}

/// The rules of groups by identifier, each with whether its expression can be parsed.
pub open spec fn flat_rules(groups: Seq<RuleGroupView>, checks: ChecksView) -> Seq<
    (Seq<char>, bool),
>
    decreases groups.len(),
{
    if groups.len() == 0 {
        Seq::empty()
    } else {
        flat_rules(groups.drop_last(), checks) + group_rules(
            groups.last(),
            groups.len() - 1,
            checks,
        )
    }
}

/// Whether an identifier is among rules.
pub open spec fn id_among(rules: Seq<(Seq<char>, bool)>, id: Seq<char>) -> bool {
    exists|i: int| 0 <= i < rules.len() && (#[trigger] rules[i]).0 == id
}

/// What is wrong with the first rule whose expression cannot be parsed or whose identifier was
/// there before.
pub open spec fn listed_problem(rules: Seq<(Seq<char>, bool)>) -> Option<StoreProblem>
    decreases rules.len(),
{
    if rules.len() == 0 {
        None
    } else if listed_problem(rules.drop_last()) is Some {
        listed_problem(rules.drop_last())
    } else if !rules.last().1 {
        invalid("rules contain an invalid expression"@)
    } else if id_among(rules.drop_last(), rules.last().0) {
        invalid("rules contain a duplicate rule identifier"@)
    } else {
        None
    }
}

/// What is wrong with groups.
pub open spec fn groups_problem(
    groups: Seq<RuleGroupView>,
    checks: ChecksView,
    limits: RulesStoreLimits,
) -> Option<StoreProblem> {
    if groups.len() > limits.max_groups {
        over_limit()
    } else if shapes_problem(groups, checks, limits) is Some {
        shapes_problem(groups, checks, limits)
    } else {
        listed_problem(flat_rules(groups, checks))
    }
}

fn validate_rule(rule: &RuleSpec, limits: &RulesStoreLimits, tenant_label: &str) -> (checked: Result<
    (),
    RulesStoreError,
>)
    ensures
        accounting::checked_as(checked, rule_problem(rule@, *limits, tenant_label@)),
{
    let name = types::rule_name(rule);
    let expr = types::rule_expr(rule);
    if name.unicode_len() == 0 || text::byte_len(name) > limits.max_name_bytes || expr.unicode_len()
        == 0 || text::byte_len(expr) > limits.max_expression_bytes {
        return Err(RulesStoreError::Limit(RulesLimitSurface::Configuration));
    }
    if text::trim(expr).unicode_len() == 0 {
        return Err(RulesStoreError::Invalid("rules contain an empty expression"));
    }
    match rule {
        RuleSpec::Recording(spec) => {
            let never = match spec.interval_secs {
                Some(secs) => secs == 0,
                None => false,
            };
            if text::byte_len(spec.record.as_str()) > MAX_METRIC_NAME_LEN || never {
                return Err(RulesStoreError::Invalid("rules contain an invalid recording rule"));
            }
            validate_label_set_limits(&spec.labels, limits, false, tenant_label)
        },
        RuleSpec::Alert(spec) => {
            let never = match spec.interval_secs {
                Some(secs) => secs == 0,
                None => false,
            };
            if text::byte_len(spec.alert.as_str()) > MAX_LABEL_VALUE_LEN || never {
                return Err(RulesStoreError::Invalid("rules contain an invalid alert rule"));
            }
            match validate_label_set_limits(&spec.labels, limits, false, tenant_label) {
                Err(error) => {
                    return Err(error);
                },
                Ok(_) => {},
            }
            validate_label_set_limits(&spec.annotations, limits, true, tenant_label)
        },
    }
}

proof fn lemma_rules_stop(
    rules: Seq<RuleView>,
    n: int,
    limits: RulesStoreLimits,
    tenant_label: Seq<char>,
)
    requires
        0 <= n <= rules.len(),
        rules_problem(rules.subrange(0, n), limits, tenant_label) is Some,
    ensures
        rules_problem(rules, limits, tenant_label) == rules_problem(
            rules.subrange(0, n),
            limits,
            tenant_label,
        ),
    decreases rules.len() - n,
{
    if n == rules.len() {
        assert(rules.subrange(0, n) =~= rules);
    } else {
        assert(rules.subrange(0, n + 1).drop_last() =~= rules.subrange(0, n));
        lemma_rules_stop(rules, n + 1, limits, tenant_label);
    }
}

fn validate_rules(rules: &Vec<RuleSpec>, limits: &RulesStoreLimits, tenant_label: &str) -> (checked:
    Result<(), RulesStoreError>)
    ensures
        accounting::checked_as(
            checked,
            rules_problem(stable::views(rules@), *limits, tenant_label@),
        ),
{
    let ghost all = stable::views(rules@);
    let mut i: usize = 0;
    assert(all.subrange(0, 0) =~= Seq::empty());
    while i < rules.len()
        invariant
            i <= rules@.len(),
            all == stable::views(rules@),
            rules_problem(all.subrange(0, i as int), *limits, tenant_label@) is None,
        decreases rules@.len() - i,
    {
        proof {
            assert(all.subrange(0, i as int + 1).drop_last() =~= all.subrange(0, i as int));
        }
        match validate_rule(&rules[i], limits, tenant_label) {
            Err(error) => {
                proof {
                    lemma_rules_stop(all, i as int + 1, *limits, tenant_label@);
                }
                return Err(error);
            },
            Ok(_) => {},
        }
        i = i + 1;
    }
    assert(all.subrange(0, i as int) =~= all);
    Ok(())
}

fn validate_group(
    group: &RuleGroupSpec,
    rules_so_far: usize,
    tenant_valid: bool,
    limits: &RulesStoreLimits,
    tenant_label: &str,
) -> (checked: Result<(), RulesStoreError>)
    ensures
        forall|n: nat|
            rules_so_far == sizes::sat_size(n as int) ==> accounting::checked_as(
                checked,
                #[trigger] group_problem(group@, n, tenant_valid, *limits, tenant_label@),
            ),
{
    if group.name.as_str().unicode_len() == 0 || group.tenant_id.as_str().unicode_len() == 0
        || group.interval_secs == 0 {
        return Err(RulesStoreError::Invalid("rules contain an invalid group"));
    }
    if text::byte_len(group.name.as_str()) > limits.max_name_bytes || text::byte_len(
        group.tenant_id.as_str(),
    ) > limits.max_name_bytes {
        return Err(RulesStoreError::Limit(RulesLimitSurface::Configuration));
    }
    if !tenant_valid {
        return Err(RulesStoreError::Invalid("rules contain an invalid tenant identifier"));
    }
    if group.rules.len() == 0 {
        return Err(RulesStoreError::Invalid("rules groups must not be empty"));
    }
    if group.rules.len() > limits.max_rules_per_group || rules_so_far > limits.max_rules_total {
        return Err(RulesStoreError::Limit(RulesLimitSurface::Configuration));
    }
    match validate_label_set_limits(&group.labels, limits, false, tenant_label) {
        Err(error) => {
            return Err(error);
        },
        Ok(_) => {},
    }
    validate_rules(&group.rules, limits, tenant_label)
}

proof fn lemma_shapes_stop(
    groups: Seq<RuleGroupView>,
    n: int,
    checks: ChecksView,
    limits: RulesStoreLimits,
)
    requires
        0 <= n <= groups.len(),
        shapes_problem(groups.subrange(0, n), checks, limits) is Some,
    ensures
        shapes_problem(groups, checks, limits) == shapes_problem(
            groups.subrange(0, n),
            checks,
            limits,
        ),
    decreases groups.len() - n,
{
    if n == groups.len() {
        assert(groups.subrange(0, n) =~= groups);
    } else {
        assert(groups.subrange(0, n + 1).drop_last() =~= groups.subrange(0, n));
        lemma_shapes_stop(groups, n + 1, checks, limits);
    }
}

/// Checks the shapes of groups: everything that needs no parsing of expressions.
pub fn validate_group_shapes(
    groups: &Vec<RuleGroupSpec>,
    checks: &RuleChecks,
    limits: &RulesStoreLimits,
) -> (checked: Result<(), RulesStoreError>)
    ensures
        accounting::checked_as(
            checked,
            if groups@.len() > limits.max_groups {
                over_limit()
            } else {
                shapes_problem(stable::views(groups@), checks@, *limits)
            },
        ),
{
    if groups.len() > limits.max_groups {
        return Err(RulesStoreError::Limit(RulesLimitSurface::Configuration));
    }
    let ghost all = stable::views(groups@);
    let mut total: usize = 0;
    let mut i: usize = 0;
    assert(all.subrange(0, 0) =~= Seq::empty());
    while i < groups.len()
        invariant
            i <= groups@.len(),
            groups@.len() <= limits.max_groups,
            all == stable::views(groups@),
            total == sizes::sat_size(rules_total(all.subrange(0, i as int)) as int),
            shapes_problem(all.subrange(0, i as int), checks@, *limits) is None,
        decreases groups@.len() - i,
    {
        let ghost longer = all.subrange(0, i as int + 1);
        proof {
            assert(longer.drop_last() =~= all.subrange(0, i as int));
            assert(longer.last() == groups@[i as int]@);
        }
        let tenant_valid = i < checks.tenants.len() && checks.tenants[i];
        total = total.saturating_add(groups[i].rules.len());
        match validate_group(
            &groups[i],
            total,
            tenant_valid,
            limits,
            checks.tenant_label.as_str(),
        ) {
            Err(error) => {
                proof {
                    assert(accounting::checked_as(
                        Err::<(), RulesStoreError>(error),
                        group_problem(
                            groups@[i as int]@,
                            rules_total(longer),
                            tenant_valid,
                            *limits,
                            checks@.tenant_label,
                        ),
                    ));
                    lemma_shapes_stop(all, i as int + 1, checks@, *limits);
                }
                return Err(error);
            },
            Ok(_) => {
                proof {
                    assert(group_problem(
                        groups@[i as int]@,
                        rules_total(longer),
                        tenant_valid,
                        *limits,
                        checks@.tenant_label,
                    ) is None);
                }
            },
        }
        i = i + 1;
    }
    assert(all.subrange(0, i as int) =~= all);
    Ok(())
}

proof fn lemma_listed_stop(rules: Seq<(Seq<char>, bool)>, n: int)
    requires
        0 <= n <= rules.len(),
        listed_problem(rules.subrange(0, n)) is Some,
    ensures
        listed_problem(rules) == listed_problem(rules.subrange(0, n)),
    decreases rules.len() - n,
{
    if n == rules.len() {
        assert(rules.subrange(0, n) =~= rules);
    } else {
        assert(rules.subrange(0, n + 1).drop_last() =~= rules.subrange(0, n));
        lemma_listed_stop(rules, n + 1);
    }
}

proof fn lemma_flat_prefix(groups: Seq<RuleGroupView>, n: int, checks: ChecksView)
    requires
        0 <= n <= groups.len(),
    ensures
        flat_rules(groups.subrange(0, n), checks).len() <= flat_rules(groups, checks).len(),
        flat_rules(groups, checks).subrange(
            0,
            flat_rules(groups.subrange(0, n), checks).len() as int,
        ) == flat_rules(groups.subrange(0, n), checks),
    decreases groups.len() - n,
{
    if n == groups.len() {
        assert(groups.subrange(0, n) =~= groups);
        assert(flat_rules(groups, checks).subrange(0, flat_rules(groups, checks).len() as int)
            =~= flat_rules(groups, checks));
    } else {
        let shorter = groups.subrange(0, n);
        let longer = groups.subrange(0, n + 1);
        assert(longer.drop_last() =~= shorter);
        lemma_flat_prefix(groups, n + 1, checks);
        let a = flat_rules(shorter, checks);
        let b = flat_rules(longer, checks);
        assert(b.subrange(0, a.len() as int) =~= a);
        assert(flat_rules(groups, checks).subrange(0, a.len() as int) =~= b.subrange(
            0,
            a.len() as int,
        ));
    }
}

/// What the loop over rules knows after some of them.
spec fn seen_so_far(
    flat: Seq<(Seq<char>, bool)>,
    n: int,
    seen: Map<Seq<char>, bool>,
) -> bool {
    &&& 0 <= n <= flat.len()
    &&& listed_problem(flat.subrange(0, n)) is None
    &&& forall|id: Seq<char>| #[trigger]
        seen.contains_key(id) <==> id_among(flat.subrange(0, n), id)
}

proof fn lemma_seen_next(
    flat: Seq<(Seq<char>, bool)>,
    n: int,
    seen: Map<Seq<char>, bool>,
    later: Map<Seq<char>, bool>,
)
    requires
        seen_so_far(flat, n, seen),
        n < flat.len(),
        flat[n].1,
        !seen.contains_key(flat[n].0),
        later == seen.insert(flat[n].0, true),
    ensures
        seen_so_far(flat, n + 1, later),
{
    let before = flat.subrange(0, n);
    let after = flat.subrange(0, n + 1);
    assert(after.drop_last() =~= before);
    assert(after.last() == flat[n]);
    assert forall|id: Seq<char>| #[trigger] later.contains_key(id) <==> id_among(after, id) by {
        if id == flat[n].0 {
            assert(after[n].0 == id);
        } else if id_among(before, id) {
            let i = choose|i: int| 0 <= i < before.len() && (#[trigger] before[i]).0 == id;
            assert(after[i].0 == id);
        } else if id_among(after, id) {
            let i = choose|i: int| 0 <= i < after.len() && (#[trigger] after[i]).0 == id;
            assert(before[i].0 == id);
        }
        assert(seen.contains_key(id) <==> id_among(before, id));
    }
}

/// Checks that every expression can be parsed and that no identifier stands for two rules.
pub fn validate_expressions(groups: &Vec<RuleGroupSpec>, checks: &RuleChecks) -> (checked: Result<
    (),
    RulesStoreError,
>)
    ensures
        accounting::checked_as(checked, listed_problem(flat_rules(stable::views(groups@), checks@))),
{
    let ghost all = stable::views(groups@);
    let ghost flat = flat_rules(all, checks@);
    let mut seen: KeyMap<String, bool> = KeyMap::new();
    let mut g: usize = 0;
    proof {
        assert(all.subrange(0, 0) =~= Seq::empty());
        assert(flat.subrange(0, 0) =~= Seq::empty());
        assert forall|id: Seq<char>| #[trigger] seen@.contains_key(id) <==> id_among(
            flat.subrange(0, 0),
            id,
        ) by {}
    }
    while g < groups.len()
        invariant
            g <= groups@.len(),
            all == stable::views(groups@),
            flat == flat_rules(all, checks@),
            seen_so_far(
                flat,
                flat_rules(all.subrange(0, g as int), checks@).len() as int,
                seen@,
            ),
        decreases groups@.len() - g,
    {
        let group = &groups[g];
        let ghost start = flat_rules(all.subrange(0, g as int), checks@).len() as int;
        let ghost through = all.subrange(0, g as int + 1);
        proof {
            assert(through.drop_last() =~= all.subrange(0, g as int));
            assert(through.last() == group@);
            lemma_flat_prefix(all, g as int + 1, checks@);
            assert(flat_rules(through, checks@).len() == start + group.rules@.len());
        }
        let mut r: usize = 0;
        while r < group.rules.len()
            invariant
                r <= group.rules@.len(),
                g < groups@.len(),
                group@ == all[g as int],
                flat_rules(through, checks@).len() == start + group.rules@.len(),
                start == flat_rules(all.subrange(0, g as int), checks@).len(),
                flat_rules(through, checks@) == flat_rules(all.subrange(0, g as int), checks@)
                    + group_rules(group@, g as int, checks@),
                flat_rules(through, checks@).len() <= flat.len(),
                flat.subrange(0, flat_rules(through, checks@).len() as int) == flat_rules(
                    through,
                    checks@,
                ),
                flat == flat_rules(all, checks@),
                all == stable::views(groups@),
                seen_so_far(flat, start + r, seen@),
            decreases group.rules@.len() - r,
        {
            let ghost at = start + r;
            proof {
                assert(flat[at] == flat_rules(through, checks@)[at]) by {
                    assert(flat.subrange(0, flat_rules(through, checks@).len() as int)[at]
                        == flat[at]);
                }
                assert(flat[at] == group_rules(group@, g as int, checks@)[r as int]);
                assert(group@.rules[r as int] == group.rules@[r as int]@);
                assert(flat.subrange(0, at + 1).drop_last() =~= flat.subrange(0, at));
            }
            let parses = g < checks.expressions.len() && r < checks.expressions[g].len()
                && checks.expressions[g][r];
            if !parses {
                proof {
                    lemma_listed_stop(flat, at + 1);
                }
                return Err(RulesStoreError::Invalid("rules contain an invalid expression"));
            }
            let id = types::rule_id(group, &group.rules[r]);
            if seen.get(&id).is_some() {
                proof {
                    assert(id_among(flat.subrange(0, at), id@));
                    lemma_listed_stop(flat, at + 1);
                }
                return Err(RulesStoreError::Invalid("rules contain a duplicate rule identifier"));
            }
            proof {
                lemma_seen_next(flat, at, seen@, seen@.insert(id@, true));
            }
            seen.insert(id, true);
            r = r + 1;
        }
        g = g + 1;
    }
    proof {
        assert(all.subrange(0, g as int) =~= all);
        assert(flat.subrange(0, flat.len() as int) =~= flat);
    }
    Ok(())
}

/// Checks groups.
pub fn validate_groups_with_limits(
    groups: &Vec<RuleGroupSpec>,
    checks: &RuleChecks,
    limits: &RulesStoreLimits,
) -> (checked: Result<(), RulesStoreError>)
    ensures
        accounting::checked_as(
            checked,
            groups_problem(stable::views(groups@), checks@, *limits),
        ),
{
    match validate_group_shapes(groups, checks, limits) {
        Err(error) => {
            return Err(error);
        },
        Ok(_) => {},
    }
    validate_expressions(groups, checks)
}

/// A runtime update is over a limit.
pub open spec fn over_update_limit() -> Option<StoreProblem> {
    Some(StoreProblem::Limit(RulesLimitSurface::RuntimeUpdate))
}

/// The bytes of a text that may be absent.
pub open spec fn opt_len(text: Option<Seq<char>>) -> nat {
    match text {
        Some(value) => text::utf8_len(value),
        None => 0,
    }
}

/// Whether a label of an alert is wrong.
pub open spec fn alert_label_wrong(label: LabelView, limits: RulesStoreLimits) -> bool {
    label.name.len() == 0 || text::utf8_len(label.name) > limits.max_name_bytes || text::utf8_len(
        label.name,
    ) > MAX_LABEL_NAME_LEN || text::utf8_len(label.value) > MAX_LABEL_VALUE_LEN
}

/// Whether a label of a list is wrong.
pub open spec fn some_label_wrong(labels: Seq<LabelView>, limits: RulesStoreLimits) -> bool {
    exists|i: int| 0 <= i < labels.len() && alert_label_wrong(#[trigger] labels[i], limits)
}

/// The bytes of the names and values of labels.
pub open spec fn labels_bytes(labels: Seq<LabelView>) -> nat
    decreases labels.len(),
{
    if labels.len() == 0 {
        0
    } else {
        labels_bytes(labels.drop_last()) + text::utf8_len(labels.last().name) + text::utf8_len(
            labels.last().value,
        )
    }
}

/// What is wrong with an alert.
pub open spec fn instance_problem(instance: AlertInstanceView, limits: RulesStoreLimits) -> Option<
    StoreProblem,
> {
    if text::utf8_len(instance.key) > sizes::sat_size(
        limits.max_label_set_bytes + limits.max_name_bytes,
    ) || text::utf8_len(instance.source_metric) > limits.max_name_bytes || text::utf8_len(
        instance.sample_type,
    ) > limits.max_name_bytes || opt_len(instance.sample_value) > limits.max_annotation_bytes
        || instance.labels.len() > limits.max_labels_per_set {
        over_update_limit()
    } else if some_label_wrong(instance.labels, limits) {
        invalid("rules runtime contains an invalid alert label"@)
    } else if sizes::sat_size(labels_bytes(instance.labels) as int) > limits.max_label_set_bytes {
        over_update_limit()
    } else {
        None
    }
}

/// What is wrong with the first alert that is wrong.
pub open spec fn instances_problem(
    instances: Seq<AlertInstanceView>,
    limits: RulesStoreLimits,
) -> Option<StoreProblem>
    decreases instances.len(),
{
    if instances.len() == 0 {
        None
    } else if instances_problem(instances.drop_last(), limits) is Some {
        instances_problem(instances.drop_last(), limits)
    } else {
        instance_problem(instances.last(), limits)
    }
}

/// What is wrong with what is known of the evaluation of a rule.
pub open spec fn runtime_problem(runtime: RuntimeView, limits: RulesStoreLimits) -> Option<
    StoreProblem,
> {
    if opt_len(runtime.last_error) > RULES_MAX_DIAGNOSTIC_BYTES || runtime.alert_instances.len()
        > limits.max_alert_instances_per_rule {
        over_update_limit()
    } else {
        instances_problem(runtime.alert_instances, limits)
    }
}

fn opt_byte_len(value: &Option<String>) -> (len: usize)
    ensures
        len == opt_len(text::opt_text(*value)),
{
    match value {
        Some(text) => text::byte_len(text.as_str()),
        None => 0,
    }
}

fn validate_instance(instance: &AlertInstanceState, limits: &RulesStoreLimits) -> (checked: Result<
    (),
    RulesStoreError,
>)
    ensures
        accounting::checked_as(checked, instance_problem(instance@, *limits)),
{
    if text::byte_len(instance.key.as_str()) > limits.max_label_set_bytes.saturating_add(
        limits.max_name_bytes,
    ) || text::byte_len(instance.source_metric.as_str()) > limits.max_name_bytes || text::byte_len(
        instance.sample_type.as_str(),
    ) > limits.max_name_bytes || opt_byte_len(&instance.sample_value) > limits.max_annotation_bytes
        || instance.labels.len() > limits.max_labels_per_set {
        return Err(RulesStoreError::Limit(RulesLimitSurface::RuntimeUpdate));
    }
    let ghost all = stable::views(instance.labels@);
    let mut bytes: usize = 0;
    let mut i: usize = 0;
    assert(all.subrange(0, 0) =~= Seq::empty());
    while i < instance.labels.len()
        invariant
            i <= instance.labels@.len(),
            all == stable::views(instance.labels@),
            all == instance@.labels,
            forall|k: int| 0 <= k < i ==> !alert_label_wrong(#[trigger] all[k], *limits),
            bytes == sizes::sat_size(labels_bytes(all.subrange(0, i as int)) as int),
            !(text::utf8_len(instance@.key) > sizes::sat_size(
                limits.max_label_set_bytes + limits.max_name_bytes,
            ) || text::utf8_len(instance@.source_metric) > limits.max_name_bytes || text::utf8_len(
                instance@.sample_type,
            ) > limits.max_name_bytes || opt_len(instance@.sample_value)
                > limits.max_annotation_bytes || instance@.labels.len()
                > limits.max_labels_per_set),
        decreases instance.labels@.len() - i,
    {
        proof {
            assert(all.subrange(0, i as int + 1).drop_last() =~= all.subrange(0, i as int));
        }
        let label = &instance.labels[i];
        let name_len = text::byte_len(label.name.as_str());
        let value_len = text::byte_len(label.value.as_str());
        if label.name.as_str().unicode_len() == 0 || name_len > limits.max_name_bytes || name_len
            > MAX_LABEL_NAME_LEN || value_len > MAX_LABEL_VALUE_LEN {
            proof {
                assert(alert_label_wrong(all[i as int], *limits));
            }
            return Err(RulesStoreError::Invalid("rules runtime contains an invalid alert label"));
        }
        bytes = bytes.saturating_add(name_len).saturating_add(value_len);
        i = i + 1;
    }
    assert(all.subrange(0, i as int) =~= all);
    if bytes > limits.max_label_set_bytes {
        return Err(RulesStoreError::Limit(RulesLimitSurface::RuntimeUpdate));
    }
    Ok(())
}

proof fn lemma_instances_stop(
    instances: Seq<AlertInstanceView>,
    n: int,
    limits: RulesStoreLimits,
)
    requires
        0 <= n <= instances.len(),
        instances_problem(instances.subrange(0, n), limits) is Some,
    ensures
        instances_problem(instances, limits) == instances_problem(
            instances.subrange(0, n),
            limits,
        ),
    decreases instances.len() - n,
{
    if n == instances.len() {
        assert(instances.subrange(0, n) =~= instances);
    } else {
        assert(instances.subrange(0, n + 1).drop_last() =~= instances.subrange(0, n));
        lemma_instances_stop(instances, n + 1, limits);
    }
}

/// Checks what is known of the evaluation of a rule.
pub fn validate_runtime_state_with_limits(
    runtime: &PersistedRuleRuntimeState,
    limits: &RulesStoreLimits,
) -> (checked: Result<(), RulesStoreError>)
    ensures
        accounting::checked_as(checked, runtime_problem(runtime@, *limits)),
{
    if opt_byte_len(&runtime.last_error) > RULES_MAX_DIAGNOSTIC_BYTES
        || runtime.alert_instances.len() > limits.max_alert_instances_per_rule {
        return Err(RulesStoreError::Limit(RulesLimitSurface::RuntimeUpdate));
    }
    let ghost all = stable::views(runtime.alert_instances@);
    let mut i: usize = 0;
    assert(all.subrange(0, 0) =~= Seq::empty());
    while i < runtime.alert_instances.len()
        invariant
            i <= runtime.alert_instances@.len(),
            all == stable::views(runtime.alert_instances@),
            instances_problem(all.subrange(0, i as int), *limits) is None,
            opt_len(runtime@.last_error) <= RULES_MAX_DIAGNOSTIC_BYTES,
            runtime.alert_instances@.len() <= limits.max_alert_instances_per_rule,
        decreases runtime.alert_instances@.len() - i,
    {
        proof {
            assert(all.subrange(0, i as int + 1).drop_last() =~= all.subrange(0, i as int));
        }
        match validate_instance(&runtime.alert_instances[i], limits) {
            Err(error) => {
                proof {
                    lemma_instances_stop(all, i as int + 1, *limits);
                }
                return Err(error);
            },
            Ok(_) => {},
        }
        i = i + 1;
    }
    assert(all.subrange(0, i as int) =~= all);
    Ok(())
}

/// The startup state is over a limit.
pub open spec fn over_startup_limit() -> Option<StoreProblem> {
    Some(StoreProblem::Limit(RulesLimitSurface::Startup))
}

/// What is wrong with the first entry of what is known of evaluations that is wrong.
pub open spec fn entries_problem(
    entries: Seq<(Seq<char>, RuntimeView)>,
    limits: RulesStoreLimits,
) -> Option<StoreProblem>
    decreases entries.len(),
{
    if entries.len() == 0 {
        None
    } else if entries_problem(entries.drop_last(), limits) is Some {
        entries_problem(entries.drop_last(), limits)
    } else if text::utf8_len(entries.last().0) > sizes::sat_size(limits.max_name_bytes * 3 + 32) {
        over_startup_limit()
    } else {
        runtime_problem(entries.last().1, limits)
    }
}

/// What is wrong with a whole state, apart from the bytes it holds.
pub open spec fn state_problem(
    state: RulesStateView,
    checks: ChecksView,
    limits: RulesStoreLimits,
) -> Option<StoreProblem> {
    let entries = ordered::listing::<String, RuntimeView>(state.runtime);
    if groups_problem(state.groups, checks, limits) is Some {
        groups_problem(state.groups, checks, limits)
    } else if entries.len() > limits.max_rules_total {
        over_startup_limit()
    } else {
        entries_problem(entries, limits)
    }
}

/// Whether a state stays one that nothing is wrong with, whatever is said of its groups.
pub open spec fn stays_valid(
    before: RulesStateView,
    after: RulesStateView,
    limits: RulesStoreLimits,
) -> bool {
    forall|checks: ChecksView| #[trigger]
        state_problem(before, checks, limits) is None ==> state_problem(
            after,
            checks,
            limits,
        ) is None
}

/// Whether a state is one that nothing is wrong with.
pub open spec fn ever_valid(state: RulesStateView, limits: RulesStoreLimits) -> bool {
    exists|checks: ChecksView| #[trigger] state_problem(state, checks, limits) is None
}

proof fn lemma_entries_stop(
    entries: Seq<(Seq<char>, RuntimeView)>,
    n: int,
    limits: RulesStoreLimits,
)
    requires
        0 <= n <= entries.len(),
        entries_problem(entries.subrange(0, n), limits) is Some,
    ensures
        entries_problem(entries, limits) == entries_problem(entries.subrange(0, n), limits),
    decreases entries.len() - n,
{
    if n == entries.len() {
        assert(entries.subrange(0, n) =~= entries);
    } else {
        assert(entries.subrange(0, n + 1).drop_last() =~= entries.subrange(0, n));
        lemma_entries_stop(entries, n + 1, limits);
    }
}

/// Whether a state that nothing else is wrong with, and that is measured to hold a number of bytes,
/// is checked like this.
pub open spec fn retained_check(
    bytes: usize,
    limits: RulesStoreLimits,
    checked: Result<(), RulesStoreError>,
) -> bool {
    accounting::checked_as(
        checked,
        if bytes > limits.max_total_retained_state_bytes {
            Some(StoreProblem::Limit(RulesLimitSurface::RetainedState))
        } else {
            None
        },
    )
}

/// Holds the bytes that a state is measured to hold against what it may.
pub fn check_retained(bytes: usize, limits: &RulesStoreLimits) -> (checked: Result<
    (),
    RulesStoreError,
>)
    ensures
        retained_check(bytes, *limits, checked),
{
    if bytes > limits.max_total_retained_state_bytes {
        return Err(RulesStoreError::Limit(RulesLimitSurface::RetainedState));
    }
    Ok(())
}

/// Checks a whole state, apart from the bytes it holds.
pub fn validate_state_contents(
    state: &PersistedRulesStoreState,
    checks: &RuleChecks,
    limits: &RulesStoreLimits,
) -> (checked: Result<(), RulesStoreError>)
    ensures
        accounting::checked_as(checked, state_problem(state@, checks@, *limits)),
{
    match validate_groups_with_limits(&state.groups, checks, limits) {
        Err(error) => {
            return Err(error);
        },
        Ok(_) => {},
    }
    let count = state.runtime.len();
    let ghost all = state.runtime.entries();
    proof {
        ordered::lemma_listing::<String, RuntimeView>(all);
    }
    if count > limits.max_rules_total {
        return Err(RulesStoreError::Limit(RulesLimitSurface::Startup));
    }
    let longest = sizes::times_size(limits.max_name_bytes, 3).saturating_add(32);
    let mut i: usize = 0;
    assert(all.subrange(0, 0) =~= Seq::empty());
    while i < count
        invariant
            i <= count,
            count == all.len(),
            count <= limits.max_rules_total,
            all == state.runtime.entries(),
            all == ordered::listing::<String, RuntimeView>(state@.runtime),
            groups_problem(state@.groups, checks@, *limits) is None,
            longest == sizes::sat_size(limits.max_name_bytes * 3 + 32),
            entries_problem(all.subrange(0, i as int), *limits) is None,
        decreases count - i,
    {
        proof {
            assert(all.subrange(0, i as int + 1).drop_last() =~= all.subrange(0, i as int));
        }
        if text::byte_len(state.runtime.key_at(i).as_str()) > longest {
            proof {
                lemma_entries_stop(all, i as int + 1, *limits);
            }
            return Err(RulesStoreError::Limit(RulesLimitSurface::Startup));
        }
        match validate_runtime_state_with_limits(state.runtime.value_at(i), limits) {
            Err(error) => {
                proof {
                    lemma_entries_stop(all, i as int + 1, *limits);
                }
                return Err(error);
            },
            Ok(_) => {},
        }
        i = i + 1;
    }
    assert(all.subrange(0, i as int) =~= all);
    Ok(())
}

/// Checks a whole state. One that nothing else is wrong with may still be measured to hold more
/// than it may.
pub fn validate_persisted_state_with_limits(
    state: &PersistedRulesStoreState,
    checks: &RuleChecks,
    limits: &RulesStoreLimits,
) -> (checked: Result<(), RulesStoreError>)
    ensures
        match state_problem(state@, checks@, *limits) {
            Some(problem) => checked matches Err(error) && accounting::is_problem(error, problem),
            None => exists|bytes: usize| #[trigger]
                model::state_measures(state@, bytes) && retained_check(bytes, *limits, checked),
        },
{
    match validate_state_contents(state, checks, limits) {
        Err(error) => {
            return Err(error);
        },
        Ok(_) => {},
    }
    let bytes = model::modeled_rules_state_bytes(state);
    proof {
        assert(model::state_measures(state@, bytes));
    }
    check_retained(bytes, limits)
}

} // verus!
