//! What a rule is recognised by: the hash of its definition and that of its group.

use vstd::prelude::*;

use crate::json;
use crate::ordered;
use crate::rules::types::AlertRuleSpec;
use crate::rules::types::RecordingRuleSpec;
use crate::rules::types::RuleGroupSpec;
use crate::rules::types::RuleGroupView;
use crate::rules::types::RuleSpec;
use crate::rules::types::RuleView;
use crate::rules::types::Texts;
use crate::rules::types::TextsView;
use crate::stable;
use crate::text;

verus! {

/// Where the hash starts.
pub const FNV_OFFSET: u64 = 0xcbf29ce484222325;

/// What the hash is multiplied by for every byte.
pub const FNV_PRIME: u64 = 0x100000001b3;

/// A hash with one more byte.
pub open spec fn fnv_step(hash: u64, byte: u8) -> u64 {
    (((hash ^ (byte as u64)) * FNV_PRIME) % 0x1_0000_0000_0000_0000) as u64
}

/// A hash with more bytes.
pub open spec fn fnv(hash: u64, bytes: Seq<u8>) -> u64
    decreases bytes.len(),
{
    if bytes.len() == 0 {
        hash
    } else {
        fnv_step(fnv(hash, bytes.drop_last()), bytes.last())
    }
}

/// The 64-bit FNV-1a hash of bytes.
pub fn fnv1a(bytes: &Vec<u8>) -> (hash: u64)
    ensures
        hash == fnv(FNV_OFFSET, bytes@),
{
    let mut hash: u64 = FNV_OFFSET;
    let mut i: usize = 0;
    assert(bytes@.subrange(0, 0) =~= Seq::empty());
    while i < bytes.len()
        invariant
            i <= bytes@.len(),
            hash == fnv(FNV_OFFSET, bytes@.subrange(0, i as int)),
        decreases bytes@.len() - i,
    {
        proof {
            assert(bytes@.subrange(0, i as int + 1).drop_last() =~= bytes@.subrange(0, i as int));
        }
        hash = (hash ^ (bytes[i] as u64)).wrapping_mul(FNV_PRIME);
        i = i + 1;
    }
    assert(bytes@.subrange(0, i as int) =~= bytes@);
    hash
}

/// A number that may be absent.
pub open spec fn number_json(number: Option<u64>) -> Seq<u8> {
    match number {
        Some(n) => json::bytes_of(text::decimal(n as nat)),
        None => json::bytes_of("null"@),
    }
}

/// Pairs of texts, with commas between them.
pub open spec fn pairs_json(entries: Seq<(Seq<char>, Seq<char>)>) -> Seq<u8>
    decreases entries.len(),
{
    if entries.len() == 0 {
        Seq::empty()
    } else {
        let pair = json::json_text(entries.last().0) + json::bytes_of(":"@)
            + json::json_text(entries.last().1);
        if entries.len() == 1 {
            pair
        } else {
            pairs_json(entries.drop_last()) + json::bytes_of(","@) + pair
        }
    }
}

/// Texts by name as a JSON object, in the order of the names.
pub open spec fn texts_json(texts: TextsView) -> Seq<u8> {
    json::bytes_of("{"@) + pairs_json(ordered::listing::<String, Seq<char>>(texts))
        + json::bytes_of("}"@)
}

/// A rule as a JSON object.
pub open spec fn rule_json(rule: RuleView) -> Seq<u8> {
    match rule {
        RuleView::Recording(spec) => json::bytes_of("{\"kind\":\"recording\",\"record\":"@)
            + json::json_text(spec.record) + json::bytes_of(",\"expr\":"@) + json::json_text(
            spec.expr,
        ) + json::bytes_of(",\"intervalSecs\":"@) + number_json(spec.interval_secs)
            + json::bytes_of(",\"labels\":"@) + texts_json(spec.labels) + json::bytes_of("}"@),
        RuleView::Alert(spec) => json::bytes_of("{\"kind\":\"alert\",\"alert\":"@)
            + json::json_text(spec.alert) + json::bytes_of(",\"expr\":"@) + json::json_text(
            spec.expr,
        ) + json::bytes_of(",\"intervalSecs\":"@) + number_json(spec.interval_secs)
            + json::bytes_of(",\"forSecs\":"@) + number_json(Some(spec.for_secs))
            + json::bytes_of(",\"labels\":"@) + texts_json(spec.labels) + json::bytes_of(
            ",\"annotations\":"@,
        ) + texts_json(spec.annotations) + json::bytes_of("}"@),
    }
}

/// Rules, with commas between them.
pub open spec fn rules_json(rules: Seq<RuleView>) -> Seq<u8>
    decreases rules.len(),
{
    if rules.len() == 0 {
        Seq::empty()
    } else if rules.len() == 1 {
        rule_json(rules.last())
    } else {
        rules_json(rules.drop_last()) + json::bytes_of(","@) + rule_json(rules.last())
    }
}

/// A group as a JSON object.
pub open spec fn group_json(group: RuleGroupView) -> Seq<u8> {
    json::bytes_of("{\"name\":"@) + json::json_text(group.name) + json::bytes_of(
        ",\"tenantId\":"@,
    ) + json::json_text(group.tenant_id) + json::bytes_of(",\"intervalSecs\":"@) + number_json(
        Some(group.interval_secs),
    ) + json::bytes_of(",\"labels\":"@) + texts_json(group.labels) + json::bytes_of(
        ",\"rules\":["@,
    ) + rules_json(group.rules) + json::bytes_of("]}"@)
}

/// A group and one of its rules as a JSON list.
pub open spec fn definition_json(group: RuleGroupView, rule: RuleView) -> Seq<u8> {
    json::bytes_of("["@) + group_json(group) + json::bytes_of(","@) + rule_json(rule)
        + json::bytes_of("]"@)
}

/// What a rule is recognised by.
pub open spec fn fingerprint_of(group: RuleGroupView, rule: RuleView) -> u64 {
    fnv(FNV_OFFSET, definition_json(group, rule))
}

fn put(out: &mut Vec<u8>, words: &str)
    ensures
        final(out)@ == old(out)@ + json::bytes_of(words@),
{
    let mut bytes = json::bytes_vec(words);
    out.append(&mut bytes);
}

fn put_text(out: &mut Vec<u8>, value: &str)
    ensures
        final(out)@ == old(out)@ + json::json_text(value@),
{
    let mut bytes = json::json_string(value);
    out.append(&mut bytes);
}

fn put_number(out: &mut Vec<u8>, number: Option<u64>)
    ensures
        final(out)@ == old(out)@ + number_json(number),
{
    match number {
        Some(n) => {
            let written = text::format_u64(n);
            put(out, written.as_str());
        },
        None => {
            put(out, "null");
        },
    }
}

fn put_texts(out: &mut Vec<u8>, texts: &Texts)
    ensures
        final(out)@ == old(out)@ + texts_json(texts@),
{
    let ghost before = out@;
    put(out, "{");
    let count = texts.len();
    let ghost all = texts.entries();
    let ghost opened = out@;
    let mut i: usize = 0;
    proof {
        assert(all.subrange(0, 0) =~= Seq::empty());
        assert(opened + pairs_json(all.subrange(0, 0)) =~= opened);
    }
    while i < count
        invariant
            i <= count,
            count == all.len(),
            all == texts.entries(),
            out@ == opened + pairs_json(all.subrange(0, i as int)),
        decreases count - i,
    {
        let ghost longer = all.subrange(0, i as int + 1);
        let ghost start = out@;
        if i > 0 {
            put(out, ",");
        }
        put_text(out, texts.key_at(i).as_str());
        put(out, ":");
        put_text(out, texts.value_at(i).as_str());
        proof {
            assert(longer.drop_last() =~= all.subrange(0, i as int));
            assert(out@ =~= opened + pairs_json(longer));
        }
        i = i + 1;
    }
    put(out, "}");
    proof {
        assert(all.subrange(0, i as int) =~= all);
        ordered::lemma_listing::<String, Seq<char>>(all);
        assert(out@ =~= before + texts_json(texts@));
    }
}

fn recording_bytes(spec: &RecordingRuleSpec) -> (bytes: Vec<u8>)
    ensures
        bytes@ == rule_json(RuleView::Recording(spec@)),
{
    let mut out = json::bytes_vec("{\"kind\":\"recording\",\"record\":");
    put_text(&mut out, spec.record.as_str());
    put(&mut out, ",\"expr\":");
    put_text(&mut out, spec.expr.as_str());
    put(&mut out, ",\"intervalSecs\":");
    put_number(&mut out, spec.interval_secs);
    put(&mut out, ",\"labels\":");
    put_texts(&mut out, &spec.labels);
    put(&mut out, "}");
    out
}

fn alert_bytes(spec: &AlertRuleSpec) -> (bytes: Vec<u8>)
    ensures
        bytes@ == rule_json(RuleView::Alert(spec@)),
{
    let mut out = json::bytes_vec("{\"kind\":\"alert\",\"alert\":");
    put_text(&mut out, spec.alert.as_str());
    put(&mut out, ",\"expr\":");
    put_text(&mut out, spec.expr.as_str());
    put(&mut out, ",\"intervalSecs\":");
    put_number(&mut out, spec.interval_secs);
    put(&mut out, ",\"forSecs\":");
    put_number(&mut out, Some(spec.for_secs));
    put(&mut out, ",\"labels\":");
    put_texts(&mut out, &spec.labels);
    put(&mut out, ",\"annotations\":");
    put_texts(&mut out, &spec.annotations);
    put(&mut out, "}");
    out
}

fn put_rule(out: &mut Vec<u8>, rule: &RuleSpec)
    ensures
        final(out)@ == old(out)@ + rule_json(rule@),
{
    let mut bytes = match rule {
        RuleSpec::Recording(spec) => recording_bytes(spec),
        RuleSpec::Alert(spec) => alert_bytes(spec),
    };
    out.append(&mut bytes);
}

fn put_rules(out: &mut Vec<u8>, rules: &Vec<RuleSpec>)
    ensures
        final(out)@ == old(out)@ + rules_json(stable::views(rules@)),
{
    let ghost opened = out@;
    let ghost all = stable::views(rules@);
    let mut i: usize = 0;
    proof {
        assert(all.subrange(0, 0) =~= Seq::empty());
        assert(opened + rules_json(all.subrange(0, 0)) =~= opened);
    }
    while i < rules.len()
        invariant
            i <= rules@.len(),
            all == stable::views(rules@),
            out@ == opened + rules_json(all.subrange(0, i as int)),
        decreases rules@.len() - i,
    {
        let ghost longer = all.subrange(0, i as int + 1);
        if i > 0 {
            put(out, ",");
        }
        put_rule(out, &rules[i]);
        proof {
            assert(longer.drop_last() =~= all.subrange(0, i as int));
            assert(out@ =~= opened + rules_json(longer));
        }
        i = i + 1;
    }
    assert(all.subrange(0, i as int) =~= all);
}

fn group_bytes(group: &RuleGroupSpec) -> (bytes: Vec<u8>)
    ensures
        bytes@ == group_json(group@),
{
    let mut out = json::bytes_vec("{\"name\":");
    put_text(&mut out, group.name.as_str());
    put(&mut out, ",\"tenantId\":");
    put_text(&mut out, group.tenant_id.as_str());
    put(&mut out, ",\"intervalSecs\":");
    put_number(&mut out, Some(group.interval_secs));
    put(&mut out, ",\"labels\":");
    put_texts(&mut out, &group.labels);
    put(&mut out, ",\"rules\":[");
    put_rules(&mut out, &group.rules);
    put(&mut out, "]}");
    out
}

/// What a rule is recognised by.
pub fn rule_fingerprint(group: &RuleGroupSpec, rule: &RuleSpec) -> (fingerprint: u64)
    ensures
        fingerprint == fingerprint_of(group@, rule@),
{
    let mut out = json::bytes_vec("[");
    let mut inner = group_bytes(group);
    out.append(&mut inner);
    put(&mut out, ",");
    put_rule(&mut out, rule);
    put(&mut out, "]");
    fnv1a(&out)
}

} // verus!
