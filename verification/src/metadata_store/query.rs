//! Queries of the metadata store: the records of one tenant, in the order of their names.

use vstd::layout;
use vstd::prelude::*;

use crate::budget;
use crate::budget::QueryBudgetError;
use crate::capacity;
use crate::metadata_store::record;
use crate::metadata_store::record::MetricMetadataEntries;
use crate::metadata_store::record::MetricMetadataKey;
use crate::metadata_store::record::MetricMetadataRecord;
use crate::metadata_store::record::RecordView;
use crate::metadata_store::store::EntriesView;
use crate::names;
use crate::ordered;
use crate::sizes;
use crate::text;

verus! {

/// Why a query of the store gave no records.
#[derive(Debug, PartialEq, Eq)]
pub enum MetricMetadataQueryError {
    Budget(QueryBudgetError),
    StoreUnavailable,
    RecordLimit,
    ResultLimit,
    Allocation,
}

impl MetricMetadataQueryError {
    /// The stable code of the failure.
    pub open spec fn code_text(self) -> Seq<char> {
        match self {
            MetricMetadataQueryError::Budget(_) => "query_budget"@,
            MetricMetadataQueryError::StoreUnavailable => "store_unavailable"@,
            MetricMetadataQueryError::RecordLimit => "query_records_limit"@,
            MetricMetadataQueryError::ResultLimit => "query_result_bytes_limit"@,
            MetricMetadataQueryError::Allocation => "allocation"@,
        }
    }

    /// What is said of the failure; the query budget describes its part in its own words.
    pub open spec fn message_text(self, described: Seq<char>) -> Seq<char> {
        match self {
            MetricMetadataQueryError::Budget(_) => "metric metadata query budget failed: "@
                + described,
            MetricMetadataQueryError::StoreUnavailable => "metric metadata store is unavailable"@,
            MetricMetadataQueryError::RecordLimit => {
                "metric metadata query record limit exceeded"@
            },
            MetricMetadataQueryError::ResultLimit => {
                "metric metadata query result byte limit exceeded"@
            },
            MetricMetadataQueryError::Allocation => "metric metadata query allocation failed"@,
        }
    }

    /// What is said of the failure; the query budget describes its part in its own words.
    pub fn message(&self, described: &str) -> (message: String)
        ensures
            message@ == self.message_text(described@),
    {
        match self {
            MetricMetadataQueryError::Budget(_) => text::text2(
                "metric metadata query budget failed: ",
                described,
            ),
            MetricMetadataQueryError::StoreUnavailable => text::owned(
                "metric metadata store is unavailable",
            ),
            MetricMetadataQueryError::RecordLimit => text::owned(
                "metric metadata query record limit exceeded",
            ),
            MetricMetadataQueryError::ResultLimit => text::owned(
                "metric metadata query result byte limit exceeded",
            ),
            MetricMetadataQueryError::Allocation => text::owned(
                "metric metadata query allocation failed",
            ),
        }
    }

    /// The stable code of the failure.
    #[must_use]
    pub fn code(&self) -> (code: &'static str)
        ensures
            code@ == self.code_text(),
    {
        match self {
            MetricMetadataQueryError::Budget(_) => "query_budget",
            MetricMetadataQueryError::StoreUnavailable => "store_unavailable",
            MetricMetadataQueryError::RecordLimit => "query_records_limit",
            MetricMetadataQueryError::ResultLimit => "query_result_bytes_limit",
            MetricMetadataQueryError::Allocation => "allocation",
        }
    }
}

/// An optional borrowed text.
pub open spec fn opt_str(value: Option<&str>) -> Option<Seq<char>> {
    match value {
        Some(name) => Some(name@),
        None => None,
    }
}

/// Whether a record is one that a query asks for.
pub open spec fn asked_for(record: RecordView, tenant_id: Seq<char>, metric: Option<Seq<char>>) -> bool {
    record.tenant_id == tenant_id && match metric {
        Some(name) => record.metric_family_name == name,
        None => true,
    }
}

/// The first records of a list that a query asks for.
pub open spec fn selected(
    records: Seq<RecordView>,
    tenant_id: Seq<char>,
    metric: Option<Seq<char>>,
    limit: nat,
) -> Seq<RecordView>
    decreases records.len(),
{
    if limit == 0 || records.len() == 0 {
        Seq::empty()
    } else {
        let rest = records.subrange(1, records.len() as int);
        if asked_for(records[0], tenant_id, metric) {
            seq![records[0]] + selected(rest, tenant_id, metric, (limit - 1) as nat)
        } else {
            selected(rest, tenant_id, metric, limit)
        }
    }
}

/// The records of a table in the order of their keys.
pub open spec fn records_of(entries: EntriesView) -> Seq<RecordView> {
    let listed = ordered::listing::<MetricMetadataKey, RecordView>(entries);
    Seq::new(listed.len(), |i: int| listed[i].1)
}

/// Whether each record of a table stands under its own tenant and metric family.
pub open spec fn keyed_by_record(entries: EntriesView) -> bool {
    forall|key: (Seq<char>, Seq<char>)| #[trigger]
        entries.contains_key(key) ==> key == (entries[key].tenant_id, entries[key].metric_family_name)
}

/// The records that a query of a table gives.
pub open spec fn answer(
    entries: EntriesView,
    tenant_id: Seq<char>,
    metric: Option<Seq<char>>,
    limit: nat,
) -> Seq<RecordView> {
    selected(records_of(entries), tenant_id, metric, limit)
}

/// The costs of a list of records in a query result.
pub open spec fn record_costs(records: Seq<RecordView>) -> Seq<nat> {
    Seq::new(records.len(), |i: int| record::query_record_bytes(records[i]))
}

/// The modeled cost of a query result.
pub open spec fn result_bytes(records: Seq<RecordView>) -> nat {
    sizes::total(record_costs(records)) + record::query_vector_bytes(records.len())
}

proof fn lemma_selected_step(
    records: Seq<RecordView>,
    i: int,
    tenant_id: Seq<char>,
    metric: Option<Seq<char>>,
    limit: nat,
)
    requires
        0 <= i < records.len(),
        limit > 0,
    ensures
        selected(records.subrange(i, records.len() as int), tenant_id, metric, limit) == if asked_for(
            records[i],
            tenant_id,
            metric,
        ) {
            seq![records[i]] + selected(
                records.subrange(i + 1, records.len() as int),
                tenant_id,
                metric,
                (limit - 1) as nat,
            )
        } else {
            selected(records.subrange(i + 1, records.len() as int), tenant_id, metric, limit)
        },
{
    let tail = records.subrange(i, records.len() as int);
    assert(tail.subrange(1, tail.len() as int) =~= records.subrange(i + 1, records.len() as int));
    assert(tail[0] == records[i]);
}

proof fn lemma_costs_push(records: Seq<RecordView>, next: RecordView)
    ensures
        sizes::total(record_costs(records.push(next))) == sizes::total(record_costs(records))
            + record::query_record_bytes(next),
{
    let longer = record_costs(records.push(next));
    assert(longer.drop_last() =~= record_costs(records));
}

/// A query gives records of its own tenant only, of the metric family that it names if it names
/// one, no more of them than its limit, and in the order in which the table lists them.
pub proof fn lemma_selected_scope(
    records: Seq<RecordView>,
    tenant_id: Seq<char>,
    metric: Option<Seq<char>>,
    limit: nat,
)
    ensures
        selected(records, tenant_id, metric, limit).len() <= limit,
        selected(records, tenant_id, metric, limit).len() <= records.len(),
        forall|i: int|
            0 <= i < selected(records, tenant_id, metric, limit).len() ==> asked_for(
                #[trigger] selected(records, tenant_id, metric, limit)[i],
                tenant_id,
                metric,
            ),
        in_order_of(selected(records, tenant_id, metric, limit), records),
    decreases records.len(),
{
    let out = selected(records, tenant_id, metric, limit);
    if limit == 0 || records.len() == 0 {
        assert(in_order_by(out, records, Seq::<int>::empty()));
    } else {
        let rest = records.subrange(1, records.len() as int);
        let taken = asked_for(records[0], tenant_id, metric);
        let next: nat = if taken { (limit - 1) as nat } else { limit };
        lemma_selected_scope(rest, tenant_id, metric, next);
        let inner = selected(rest, tenant_id, metric, next);
        let places = choose|places: Seq<int>| in_order_by(inner, rest, places);
        let shifted = Seq::new(places.len(), |i: int| places[i] + 1);
        let all = if taken { seq![0int] + shifted } else { shifted };
        assert forall|i: int| 0 <= i < out.len() implies asked_for(
            #[trigger] out[i],
            tenant_id,
            metric,
        ) by {
            if taken && i > 0 {
                assert(out[i] == inner[i - 1]);
            }
        }
        assert forall|i: int| 0 <= i < out.len() implies 0 <= #[trigger] all[i] < records.len()
            && out[i] == records[all[i]] by {
            let k = if taken { i - 1 } else { i };
            if k >= 0 {
                assert(out[i] == inner[k]);
                assert(0 <= places[k] < rest.len() && inner[k] == rest[places[k]]);
            }
        }
        assert forall|i: int, j: int| 0 <= i < j < out.len() implies #[trigger] all[i]
            < #[trigger] all[j] by {
            let p = if taken { i - 1 } else { i };
            let q = if taken { j - 1 } else { j };
            assert(0 <= places[q] < rest.len());
            if p >= 0 {
                assert(places[p] < places[q]);
            }
        }
        assert(in_order_by(out, records, all));
    }
}

/// Whether a list is made of the elements of another at rising places.
pub open spec fn in_order_by(part: Seq<RecordView>, whole: Seq<RecordView>, places: Seq<int>) -> bool {
    &&& places.len() == part.len()
    &&& forall|i: int|
        0 <= i < part.len() ==> 0 <= #[trigger] places[i] < whole.len() && part[i]
            == whole[places[i]]
    &&& forall|i: int, j: int|
        0 <= i < j < part.len() ==> #[trigger] places[i] < #[trigger] places[j]
}

/// Whether a list is made of elements of another in their order.
pub open spec fn in_order_of(part: Seq<RecordView>, whole: Seq<RecordView>) -> bool {
    exists|places: Seq<int>| in_order_by(part, whole, places)
}

/// A record that a query asks for is found whenever the limit leaves room for it.
pub proof fn lemma_selected_complete(
    records: Seq<RecordView>,
    tenant_id: Seq<char>,
    metric: Option<Seq<char>>,
    limit: nat,
    i: int,
)
    requires
        0 <= i < records.len(),
        asked_for(records[i], tenant_id, metric),
        limit >= records.len(),
    ensures
        selected(records, tenant_id, metric, limit).contains(records[i]),
    decreases records.len(),
{
    let rest = records.subrange(1, records.len() as int);
    let out = selected(records, tenant_id, metric, limit);
    let taken = asked_for(records[0], tenant_id, metric);
    if i == 0 {
        assert(out[0] == records[0]);
    } else {
        let next: nat = if taken { (limit - 1) as nat } else { limit };
        lemma_selected_complete(rest, tenant_id, metric, next, i - 1);
        assert(rest[i - 1] == records[i]);
        let inner = selected(rest, tenant_id, metric, next);
        let k = choose|k: int| 0 <= k < inner.len() && inner[k] == records[i];
        if taken {
            assert(out[k + 1] == inner[k]);
        }
    }
}

fn is_asked_for(entry: &MetricMetadataRecord, tenant_id: &str, metric: Option<&str>) -> (asked: bool)
    ensures
        asked == asked_for(entry@, tenant_id@, opt_str(metric)),
{
    names::same_text(entry.tenant_id.as_str(), tenant_id) && match metric {
        Some(name) => names::same_text(entry.metric_family_name.as_str(), name),
        None => true,
    }
}

/// The number of records that a query gives and the bytes that they are modeled to cost. The
/// budget is asked at each entry of the table.
pub fn modeled_query_result<C: Fn() -> Result<(), QueryBudgetError>>(
    entries: &MetricMetadataEntries,
    tenant_id: &str,
    metric: Option<&str>,
    limit: usize,
    checkpoint: &C,
) -> (model: Result<(usize, usize), QueryBudgetError>)
    requires
        call_requires(*checkpoint, ()),
    ensures
        match model {
            Ok((count, bytes)) => {
                let found = answer(entries@, tenant_id@, opt_str(metric), limit as nat);
                count == found.len() && bytes == sizes::sat_size(result_bytes(found) as int)
            },
            Err(error) => budget::may_stop(*checkpoint, error),
        },
        budget::never_stops(*checkpoint) ==> model is Ok,
        budget::always_stops(*checkpoint) && records_of(entries@).len() > 0 && limit > 0
            ==> model is Err,
{
    let ghost name = opt_str(metric);
    let n: usize = entries.len();
    let ghost records = records_of(entries@);
    proof {
        ordered::lemma_listing::<MetricMetadataKey, RecordView>(entries.entries());
        assert(records.subrange(0, records.len() as int) =~= records);
    }
    let mut count: usize = 0;
    let mut bytes: usize = 0;
    let ghost mut found: Seq<RecordView> = Seq::empty();
    let mut i: usize = 0;
    proof {
        assert(found + selected(records, tenant_id@, name, limit as nat) =~= selected(
            records,
            tenant_id@,
            name,
            limit as nat,
        ));
        assert(record_costs(found) =~= Seq::<nat>::empty());
    }
    while i < n && count < limit
        invariant
            i <= n,
            n == records.len(),
            n == entries.entries().len(),
            forall|k: int| 0 <= k < n ==> records[k] == (#[trigger] entries.entries()[k]).1,
            call_requires(*checkpoint, ()),
            budget::always_stops(*checkpoint) ==> i == 0 && count == 0,
            name == opt_str(metric),
            count == found.len(),
            count <= limit,
            bytes == sizes::sat_size(sizes::total(record_costs(found)) as int),
            found + selected(
                records.subrange(i as int, n as int),
                tenant_id@,
                name,
                (limit - count) as nat,
            ) == selected(records, tenant_id@, name, limit as nat),
        decreases n - i,
    {
        match checkpoint() {
            Ok(()) => {},
            Err(error) => {
                return Err(error);
            },
        }
        let entry = entries.value_at(i);
        proof {
            lemma_selected_step(records, i as int, tenant_id@, name, (limit - count) as nat);
        }
        if is_asked_for(entry, tenant_id, metric) {
            proof {
                lemma_costs_push(found, entry@);
                assert((found + (seq![entry@] + selected(
                    records.subrange(i as int + 1, n as int),
                    tenant_id@,
                    name,
                    (limit - count - 1) as nat,
                ))) =~= found.push(entry@) + selected(
                    records.subrange(i as int + 1, n as int),
                    tenant_id@,
                    name,
                    (limit - count - 1) as nat,
                ));
                found = found.push(entry@);
            }
            count = count + 1;
            bytes = bytes.saturating_add(record::modeled_query_record_bytes(entry));
        }
        i = i + 1;
    }
    proof {
        assert(selected(
            records.subrange(i as int, n as int),
            tenant_id@,
            name,
            (limit - count) as nat,
        ) =~= Seq::empty());
        assert(found + Seq::<RecordView>::empty() =~= found);
    }
    Ok((count, bytes.saturating_add(record::modeled_query_vector_bytes(count))))
}

/// What a list of records says.
pub open spec fn record_views(records: Seq<MetricMetadataRecord>) -> Seq<RecordView> {
    Seq::new(records.len(), |i: int| records[i]@)
}

/// Copies of the records that a query gives. The budget is asked at each entry of the table.
pub fn clone_query_records<C: Fn() -> Result<(), QueryBudgetError>>(
    entries: &MetricMetadataEntries,
    tenant_id: &str,
    metric: Option<&str>,
    count: usize,
    limit: usize,
    checkpoint: &C,
) -> (copies: Result<Vec<MetricMetadataRecord>, QueryBudgetError>)
    requires
        call_requires(*checkpoint, ()),
        count == answer(entries@, tenant_id@, opt_str(metric), limit as nat).len(),
    ensures
        match copies {
            Ok(out) => record_views(out@) == answer(
                entries@,
                tenant_id@,
                opt_str(metric),
                limit as nat,
            ),
            Err(error) => budget::may_stop(*checkpoint, error),
        },
        budget::never_stops(*checkpoint) ==> copies is Ok,
        budget::always_stops(*checkpoint) && records_of(entries@).len() > 0 && limit > 0
            ==> copies is Err,
{
    let ghost name = opt_str(metric);
    let n: usize = entries.len();
    let ghost records = records_of(entries@);
    proof {
        ordered::lemma_listing::<MetricMetadataKey, RecordView>(entries.entries());
        assert(records.subrange(0, records.len() as int) =~= records);
    }
    let mut out: Vec<MetricMetadataRecord> = Vec::with_capacity(count);
    let mut i: usize = 0;
    proof {
        assert(record_views(out@) + selected(records, tenant_id@, name, limit as nat) =~= selected(
            records,
            tenant_id@,
            name,
            limit as nat,
        ));
    }
    while i < n && out.len() < limit
        invariant
            i <= n,
            n == records.len(),
            n == entries.entries().len(),
            forall|k: int| 0 <= k < n ==> records[k] == (#[trigger] entries.entries()[k]).1,
            call_requires(*checkpoint, ()),
            budget::always_stops(*checkpoint) ==> i == 0 && out@.len() == 0,
            name == opt_str(metric),
            out@.len() <= limit,
            record_views(out@) + selected(
                records.subrange(i as int, n as int),
                tenant_id@,
                name,
                (limit - out@.len()) as nat,
            ) == selected(records, tenant_id@, name, limit as nat),
        decreases n - i,
    {
        match checkpoint() {
            Ok(()) => {},
            Err(error) => {
                return Err(error);
            },
        }
        let entry = entries.value_at(i);
        let ghost before = record_views(out@);
        let ghost room = (limit - out@.len()) as nat;
        proof {
            lemma_selected_step(records, i as int, tenant_id@, name, room);
        }
        if is_asked_for(entry, tenant_id, metric) {
            out.push(entry.clone());
            proof {
                assert(record_views(out@) =~= before.push(entry@));
                let tail = selected(
                    records.subrange(i as int + 1, n as int),
                    tenant_id@,
                    name,
                    (room - 1) as nat,
                );
                assert(before + (seq![entry@] + tail) =~= before.push(entry@) + tail);
            }
        }
        i = i + 1;
    }
    proof {
        assert(selected(
            records.subrange(i as int, n as int),
            tenant_id@,
            name,
            (limit - out@.len()) as nat,
        ) =~= Seq::empty());
        assert(record_views(out@) + Seq::<RecordView>::empty() =~= record_views(out@));
    }
    Ok(out)
}

/// The modeled cost of a text, given the capacity of its allocation.
fn modeled_owned_string_bytes(value: &String) -> (bytes: usize)
    ensures
        bytes >= sizes::sat_size(record::string_bytes(value@) as int),
{
    let held = capacity::string_capacity(value);
    proof {
        if value@.len() == 0 {
            assert(vstd::utf8::encode_utf8(value@).len() == 0);
        } else {
            text::lemma_utf8_len_positive(value@);
        }
    }
    if held == 0 {
        0
    } else {
        held.saturating_add(record::METADATA_ALLOCATION_ALLOWANCE_BYTES)
    }
}

/// The modeled cost of records that a caller owns, given the capacities of their allocations: at
/// least the modeled cost of the records. How far it is above it is the allocator's choice.
pub fn modeled_owned_query_result_bytes(records: &Vec<MetricMetadataRecord>) -> (bytes: usize)
    ensures
        bytes >= sizes::sat_size(result_bytes(record_views(records@)) as int),
{
    let slots = capacity::vec_capacity(records);
    let mut bytes: usize = if slots == 0 {
        0
    } else {
        sizes::times_size(slots, core::mem::size_of::<MetricMetadataRecord>()).saturating_add(
            record::METADATA_ALLOCATION_ALLOWANCE_BYTES,
        )
    };
    let ghost list = record::query_vector_bytes(records@.len());
    proof {
        let size = layout::size_of::<MetricMetadataRecord>();
        assert(slots * size >= records@.len() * size) by (nonlinear_arith)
            requires
                slots >= records@.len(),
        ;
        assert(bytes >= sizes::sat_size(list as int));
        assert(record_costs(record_views(records@)).subrange(0, 0) =~= Seq::<nat>::empty());
    }
    let ghost costs = record_costs(record_views(records@));
    let mut i: usize = 0;
    while i < records.len()
        invariant
            i <= records.len(),
            costs == record_costs(record_views(records@)),
            bytes >= sizes::sat_size((list + sizes::total(costs.subrange(0, i as int))) as int),
        decreases records.len() - i,
    {
        proof {
            sizes::lemma_total_step(costs, i as int);
        }
        let owned = &records[i];
        bytes = bytes.saturating_add(modeled_owned_string_bytes(&owned.tenant_id)).saturating_add(
            modeled_owned_string_bytes(&owned.metric_family_name),
        ).saturating_add(modeled_owned_string_bytes(&owned.help)).saturating_add(
            modeled_owned_string_bytes(&owned.unit),
        );
        i = i + 1;
    }
    proof {
        assert(costs.subrange(0, i as int) =~= costs);
    }
    bytes
}

} // verus!
