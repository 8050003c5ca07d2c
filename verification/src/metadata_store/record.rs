//! Metric metadata records, their sizes, and the table that holds them.

use vstd::layout;
use vstd::prelude::*;

use crate::names;
use crate::ordered::KeyMap;
use crate::sizes;
use crate::text;

verus! {

/// The bytes that an allocation is modeled to cost beside what it holds.
pub const METADATA_ALLOCATION_ALLOWANCE_BYTES: usize = 64;

/// The bytes that an entry of a table is modeled to cost beside what it holds.
pub const METADATA_BTREE_ENTRY_ALLOWANCE_BYTES: usize = 64;

/// The key of a record: its tenant and its metric family.
pub type MetricMetadataKey = (String, String);

/// What is known of one metric family of one tenant.
#[derive(Debug, PartialEq, Eq)]
pub struct MetricMetadataRecord {
    pub tenant_id: String,
    pub metric_family_name: String,
    pub metric_type: i32,
    pub help: String,
    pub unit: String,
    pub updated_unix_ms: u64,
}

/// What a record says.
#[verifier::ext_equal]
pub struct RecordView {
    pub tenant_id: Seq<char>,
    pub metric_family_name: Seq<char>,
    pub metric_type: i32,
    pub help: Seq<char>,
    pub unit: Seq<char>,
    pub updated_unix_ms: u64,
}

impl View for MetricMetadataRecord {
    type V = RecordView;

    open spec fn view(&self) -> RecordView {
        RecordView {
            tenant_id: self.tenant_id@,
            metric_family_name: self.metric_family_name@,
            metric_type: self.metric_type,
            help: self.help@,
            unit: self.unit@,
            updated_unix_ms: self.updated_unix_ms,
        }
    }
}

impl Clone for MetricMetadataRecord {
    fn clone(&self) -> (copy: Self)
        ensures
            copy@ == self@,
    {
        MetricMetadataRecord {
            tenant_id: self.tenant_id.clone(),
            metric_family_name: self.metric_family_name.clone(),
            metric_type: self.metric_type,
            help: self.help.clone(),
            unit: self.unit.clone(),
            updated_unix_ms: self.updated_unix_ms,
        }
    }
}

/// The records by tenant and metric family, in that order.
pub type MetricMetadataEntries = KeyMap<MetricMetadataKey, MetricMetadataRecord>;

/// The kinds of metric that an update can name.
#[derive(Debug, Clone, Copy, PartialEq, Eq, Structural)]
pub enum MetricType {
    Unknown,
    Counter,
    Gauge,
    Histogram,
    Gaugehistogram,
    Summary,
    Info,
    Stateset,
}

impl MetricType {
    /// The number that stands for the kind on the wire.
    pub open spec fn wire_number(self) -> i32 {
        match self {
            MetricType::Unknown => 0i32,
            MetricType::Counter => 1i32,
            MetricType::Gauge => 2i32,
            MetricType::Histogram => 3i32,
            MetricType::Gaugehistogram => 4i32,
            MetricType::Summary => 5i32,
            MetricType::Info => 6i32,
            MetricType::Stateset => 7i32,
        }
    }

    /// The number that stands for the kind on the wire.
    pub fn number(self) -> (number: i32)
        ensures
            number == self.wire_number(),
    {
        match self {
            MetricType::Unknown => 0,
            MetricType::Counter => 1,
            MetricType::Gauge => 2,
            MetricType::Histogram => 3,
            MetricType::Gaugehistogram => 4,
            MetricType::Summary => 5,
            MetricType::Info => 6,
            MetricType::Stateset => 7,
        }
    }
}

/// One change to the metadata of a metric family.
#[derive(Debug, PartialEq, Eq)]
pub struct NormalizedMetricMetadataUpdate {
    pub metric_family_name: String,
    pub metric_type: MetricType,
    pub help: String,
    pub unit: String,
}

/// What an update says.
#[verifier::ext_equal]
pub struct UpdateView {
    pub metric_family_name: Seq<char>,
    pub metric_type: i32,
    pub help: Seq<char>,
    pub unit: Seq<char>,
}

impl View for NormalizedMetricMetadataUpdate {
    type V = UpdateView;

    open spec fn view(&self) -> UpdateView {
        UpdateView {
            metric_family_name: self.metric_family_name@,
            metric_type: self.metric_type.wire_number(),
            help: self.help@,
            unit: self.unit@,
        }
    }
}

/// The name of a kind of metric, given its number; a number without a kind is `unknown`.
pub open spec fn metric_type_name(metric_type: i32) -> Seq<char> {
    if metric_type == 1 {
        "counter"@
    } else if metric_type == 2 {
        "gauge"@
    } else if metric_type == 3 {
        "histogram"@
    } else if metric_type == 4 {
        "gaugehistogram"@
    } else if metric_type == 5 {
        "summary"@
    } else if metric_type == 6 {
        "info"@
    } else if metric_type == 7 {
        "stateset"@
    } else {
        "unknown"@
    }
}

/// The name of a kind of metric as the API gives it.
pub fn metric_type_to_api_string(metric_type: i32) -> (name: &'static str)
    ensures
        name@ == metric_type_name(metric_type),
{
    match metric_type {
        1 => "counter",
        2 => "gauge",
        3 => "histogram",
        4 => "gaugehistogram",
        5 => "summary",
        6 => "info",
        7 => "stateset",
        _ => "unknown",
    }
}

/// The modeled cost of an owned text.
pub open spec fn string_bytes(value: Seq<char>) -> nat {
    if value.len() == 0 {
        0
    } else {
        text::utf8_len(value) + METADATA_ALLOCATION_ALLOWANCE_BYTES as nat
    }
}

/// The bytes of input that a record is made from.
pub open spec fn record_input_bytes(
    tenant_id: Seq<char>,
    metric_family_name: Seq<char>,
    help: Seq<char>,
    unit: Seq<char>,
) -> nat {
    text::utf8_len(tenant_id) + text::utf8_len(metric_family_name) + text::utf8_len(help)
        + text::utf8_len(unit)
}

/// The modeled cost of holding an entry: the key and the record both own their texts.
pub open spec fn staged_entry_bytes(
    tenant_id: Seq<char>,
    metric_family_name: Seq<char>,
    help: Seq<char>,
    unit: Seq<char>,
) -> nat {
    layout::size_of::<(MetricMetadataKey, MetricMetadataRecord)>()
        + METADATA_BTREE_ENTRY_ALLOWANCE_BYTES as nat + string_bytes(tenant_id) * 2 + string_bytes(
        metric_family_name,
    ) * 2 + string_bytes(help) + string_bytes(unit)
}

/// The modeled cost of a record in a query result, beside its place in the list.
pub open spec fn query_record_bytes(record: RecordView) -> nat {
    string_bytes(record.tenant_id) + string_bytes(record.metric_family_name) + string_bytes(
        record.help,
    ) + string_bytes(record.unit)
}

/// The modeled cost of the list of a query result.
pub open spec fn query_vector_bytes(count: nat) -> nat {
    if count == 0 {
        0
    } else {
        count * layout::size_of::<MetricMetadataRecord>()
            + METADATA_ALLOCATION_ALLOWANCE_BYTES as nat
    }
}

/// The modeled cost of an owned text.
pub fn modeled_string_bytes(value: &str) -> (bytes: usize)
    ensures
        bytes == sizes::sat_size(string_bytes(value@) as int),
{
    proof {
        if value@.len() == 0 {
            assert(vstd::utf8::encode_utf8(value@).len() == 0);
        }
    }
    if value.is_empty() {
        0
    } else {
        text::byte_len(value).saturating_add(METADATA_ALLOCATION_ALLOWANCE_BYTES)
    }
}

/// The bytes of input that a record is made from.
pub fn modeled_record_input_bytes(
    tenant_id: &str,
    metric_family_name: &str,
    help: &str,
    unit: &str,
) -> (bytes: usize)
    ensures
        bytes == sizes::sat_size(
            record_input_bytes(tenant_id@, metric_family_name@, help@, unit@) as int,
        ),
{
    text::byte_len(tenant_id).saturating_add(text::byte_len(metric_family_name)).saturating_add(
        text::byte_len(help),
    ).saturating_add(text::byte_len(unit))
}

/// The modeled cost of holding an entry.
pub fn modeled_staged_entry_bytes(
    tenant_id: &str,
    metric_family_name: &str,
    help: &str,
    unit: &str,
) -> (bytes: usize)
    ensures
        bytes == sizes::sat_size(
            staged_entry_bytes(tenant_id@, metric_family_name@, help@, unit@) as int,
        ),
{
    core::mem::size_of::<(MetricMetadataKey, MetricMetadataRecord)>().saturating_add(
        METADATA_BTREE_ENTRY_ALLOWANCE_BYTES,
    ).saturating_add(sizes::times_size(modeled_string_bytes(tenant_id), 2)).saturating_add(
        sizes::times_size(modeled_string_bytes(metric_family_name), 2),
    ).saturating_add(modeled_string_bytes(help)).saturating_add(modeled_string_bytes(unit))
}

/// The modeled cost of a record that the store retains.
pub open spec fn retained_entry_bytes(record: RecordView) -> nat {
    staged_entry_bytes(record.tenant_id, record.metric_family_name, record.help, record.unit)
}

/// The modeled cost of a record that the store retains.
pub fn modeled_retained_entry_bytes(entry: &MetricMetadataRecord) -> (bytes: usize)
    ensures
        bytes == sizes::sat_size(retained_entry_bytes(entry@) as int),
{
    modeled_staged_entry_bytes(
        entry.tenant_id.as_str(),
        entry.metric_family_name.as_str(),
        entry.help.as_str(),
        entry.unit.as_str(),
    )
}

/// The modeled cost of a record in a query result, beside its place in the list.
pub fn modeled_query_record_bytes(entry: &MetricMetadataRecord) -> (bytes: usize)
    ensures
        bytes == sizes::sat_size(query_record_bytes(entry@) as int),
{
    modeled_string_bytes(entry.tenant_id.as_str()).saturating_add(
        modeled_string_bytes(entry.metric_family_name.as_str()),
    ).saturating_add(modeled_string_bytes(entry.help.as_str())).saturating_add(
        modeled_string_bytes(entry.unit.as_str()),
    )
}

/// The modeled cost of the list of a query result.
pub fn modeled_query_vector_bytes(count: usize) -> (bytes: usize)
    ensures
        bytes == sizes::sat_size(query_vector_bytes(count as nat) as int),
{
    if count == 0 {
        0
    } else {
        sizes::times_size(count, core::mem::size_of::<MetricMetadataRecord>()).saturating_add(
            METADATA_ALLOCATION_ALLOWANCE_BYTES,
        )
    }
}

/// Whether two records say the same of their metric family.
pub open spec fn same_metadata(left: RecordView, right: RecordView) -> bool {
    left.metric_type == right.metric_type && left.help == right.help && left.unit == right.unit
}

/// Whether two records say the same of their metric family.
pub fn records_have_same_metadata(
    left: &MetricMetadataRecord,
    right: &MetricMetadataRecord,
) -> (same: bool)
    ensures
        same == same_metadata(left@, right@),
{
    left.metric_type == right.metric_type && names::same_text(
        left.help.as_str(),
        right.help.as_str(),
    ) && names::same_text(left.unit.as_str(), right.unit.as_str())
}

} // verus!
