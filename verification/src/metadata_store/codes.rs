//! The stable codes of metadata store failures and the messages that carry them.

use vstd::prelude::*;
use vstd::string::*;

use crate::names;
use crate::text;

verus! {

/// The stable code of a metadata store failure.
#[derive(Debug, Clone, Copy, PartialEq, Eq, Structural)]
pub enum MetricMetadataStoreErrorCode {
    EntryLimit,
    RecordInputBytesLimit,
    UpdateBatchEntriesLimit,
    UpdateBatchBytesLimit,
    RetainedBytesLimit,
    DurableFileBytesLimit,
    StartupDurableFileBytesLimit,
    StartupRecordBytesLimit,
    StartupRetainedBytesLimit,
    StartupTransientBytesLimit,
    WriteTransientBytesLimit,
    QueryRecordsLimit,
    QueryResultBytesLimit,
    Allocation,
}

impl MetricMetadataStoreErrorCode {
    /// The text of a code.
    pub open spec fn code_text(self) -> Seq<char> {
        match self {
            MetricMetadataStoreErrorCode::EntryLimit => "entry_limit"@,
            MetricMetadataStoreErrorCode::RecordInputBytesLimit => "record_input_bytes_limit"@,
            MetricMetadataStoreErrorCode::UpdateBatchEntriesLimit => "update_batch_entries_limit"@,
            MetricMetadataStoreErrorCode::UpdateBatchBytesLimit => "update_batch_bytes_limit"@,
            MetricMetadataStoreErrorCode::RetainedBytesLimit => "retained_bytes_limit"@,
            MetricMetadataStoreErrorCode::DurableFileBytesLimit => "durable_file_bytes_limit"@,
            MetricMetadataStoreErrorCode::StartupDurableFileBytesLimit => "startup_durable_file_bytes_limit"@,
            MetricMetadataStoreErrorCode::StartupRecordBytesLimit => "startup_record_bytes_limit"@,
            MetricMetadataStoreErrorCode::StartupRetainedBytesLimit => "startup_retained_bytes_limit"@,
            MetricMetadataStoreErrorCode::StartupTransientBytesLimit => "startup_transient_bytes_limit"@,
            MetricMetadataStoreErrorCode::WriteTransientBytesLimit => "write_transient_bytes_limit"@,
            MetricMetadataStoreErrorCode::QueryRecordsLimit => "query_records_limit"@,
            MetricMetadataStoreErrorCode::QueryResultBytesLimit => "query_result_bytes_limit"@,
            MetricMetadataStoreErrorCode::Allocation => "allocation"@,
        }
    }

    /// The code that a text stands for.
    pub open spec fn code_of(value: Seq<char>) -> Option<MetricMetadataStoreErrorCode> {
        if value == "entry_limit"@ {
            Some(MetricMetadataStoreErrorCode::EntryLimit)
        } else if value == "record_input_bytes_limit"@ {
            Some(MetricMetadataStoreErrorCode::RecordInputBytesLimit)
        } else if value == "update_batch_entries_limit"@ {
            Some(MetricMetadataStoreErrorCode::UpdateBatchEntriesLimit)
        } else if value == "update_batch_bytes_limit"@ {
            Some(MetricMetadataStoreErrorCode::UpdateBatchBytesLimit)
        } else if value == "retained_bytes_limit"@ {
            Some(MetricMetadataStoreErrorCode::RetainedBytesLimit)
        } else if value == "durable_file_bytes_limit"@ {
            Some(MetricMetadataStoreErrorCode::DurableFileBytesLimit)
        } else if value == "startup_durable_file_bytes_limit"@ {
            Some(MetricMetadataStoreErrorCode::StartupDurableFileBytesLimit)
        } else if value == "startup_record_bytes_limit"@ {
            Some(MetricMetadataStoreErrorCode::StartupRecordBytesLimit)
        } else if value == "startup_retained_bytes_limit"@ {
            Some(MetricMetadataStoreErrorCode::StartupRetainedBytesLimit)
        } else if value == "startup_transient_bytes_limit"@ {
            Some(MetricMetadataStoreErrorCode::StartupTransientBytesLimit)
        } else if value == "write_transient_bytes_limit"@ {
            Some(MetricMetadataStoreErrorCode::WriteTransientBytesLimit)
        } else if value == "query_records_limit"@ {
            Some(MetricMetadataStoreErrorCode::QueryRecordsLimit)
        } else if value == "query_result_bytes_limit"@ {
            Some(MetricMetadataStoreErrorCode::QueryResultBytesLimit)
        } else if value == "allocation"@ {
            Some(MetricMetadataStoreErrorCode::Allocation)
        } else {
            None
        }
    }

    /// The text of a code.
    #[must_use]
    pub fn as_str(self) -> (code: &'static str)
        ensures
            code@ == self.code_text(),
    {
        match self {
            MetricMetadataStoreErrorCode::EntryLimit => "entry_limit",
            MetricMetadataStoreErrorCode::RecordInputBytesLimit => "record_input_bytes_limit",
            MetricMetadataStoreErrorCode::UpdateBatchEntriesLimit => "update_batch_entries_limit",
            MetricMetadataStoreErrorCode::UpdateBatchBytesLimit => "update_batch_bytes_limit",
            MetricMetadataStoreErrorCode::RetainedBytesLimit => "retained_bytes_limit",
            MetricMetadataStoreErrorCode::DurableFileBytesLimit => "durable_file_bytes_limit",
            MetricMetadataStoreErrorCode::StartupDurableFileBytesLimit => "startup_durable_file_bytes_limit",
            MetricMetadataStoreErrorCode::StartupRecordBytesLimit => "startup_record_bytes_limit",
            MetricMetadataStoreErrorCode::StartupRetainedBytesLimit => "startup_retained_bytes_limit",
            MetricMetadataStoreErrorCode::StartupTransientBytesLimit => "startup_transient_bytes_limit",
            MetricMetadataStoreErrorCode::WriteTransientBytesLimit => "write_transient_bytes_limit",
            MetricMetadataStoreErrorCode::QueryRecordsLimit => "query_records_limit",
            MetricMetadataStoreErrorCode::QueryResultBytesLimit => "query_result_bytes_limit",
            MetricMetadataStoreErrorCode::Allocation => "allocation",
        }
    }

    /// The code that a text stands for.
    pub fn from_str(value: &str) -> (code: Option<MetricMetadataStoreErrorCode>)
        ensures
            code == Self::code_of(value@),
    {
        if names::same_text(value, "entry_limit") {
            Some(MetricMetadataStoreErrorCode::EntryLimit)
        } else if names::same_text(value, "record_input_bytes_limit") {
            Some(MetricMetadataStoreErrorCode::RecordInputBytesLimit)
        } else if names::same_text(value, "update_batch_entries_limit") {
            Some(MetricMetadataStoreErrorCode::UpdateBatchEntriesLimit)
        } else if names::same_text(value, "update_batch_bytes_limit") {
            Some(MetricMetadataStoreErrorCode::UpdateBatchBytesLimit)
        } else if names::same_text(value, "retained_bytes_limit") {
            Some(MetricMetadataStoreErrorCode::RetainedBytesLimit)
        } else if names::same_text(value, "durable_file_bytes_limit") {
            Some(MetricMetadataStoreErrorCode::DurableFileBytesLimit)
        } else if names::same_text(value, "startup_durable_file_bytes_limit") {
            Some(MetricMetadataStoreErrorCode::StartupDurableFileBytesLimit)
        } else if names::same_text(value, "startup_record_bytes_limit") {
            Some(MetricMetadataStoreErrorCode::StartupRecordBytesLimit)
        } else if names::same_text(value, "startup_retained_bytes_limit") {
            Some(MetricMetadataStoreErrorCode::StartupRetainedBytesLimit)
        } else if names::same_text(value, "startup_transient_bytes_limit") {
            Some(MetricMetadataStoreErrorCode::StartupTransientBytesLimit)
        } else if names::same_text(value, "write_transient_bytes_limit") {
            Some(MetricMetadataStoreErrorCode::WriteTransientBytesLimit)
        } else if names::same_text(value, "query_records_limit") {
            Some(MetricMetadataStoreErrorCode::QueryRecordsLimit)
        } else if names::same_text(value, "query_result_bytes_limit") {
            Some(MetricMetadataStoreErrorCode::QueryResultBytesLimit)
        } else if names::same_text(value, "allocation") {
            Some(MetricMetadataStoreErrorCode::Allocation)
        } else {
            None
        }
    }
}

/// Reading back the text of a code gives the code: the texts are pairwise different.
pub proof fn lemma_code_round_trip(code: MetricMetadataStoreErrorCode)
    ensures
        MetricMetadataStoreErrorCode::code_of(code.code_text()) == Some(code),
{
    reveal_strlit("entry_limit");
    reveal_strlit("record_input_bytes_limit");
    reveal_strlit("update_batch_entries_limit");
    reveal_strlit("update_batch_bytes_limit");
    reveal_strlit("retained_bytes_limit");
    reveal_strlit("durable_file_bytes_limit");
    reveal_strlit("startup_durable_file_bytes_limit");
    reveal_strlit("startup_record_bytes_limit");
    reveal_strlit("startup_retained_bytes_limit");
    reveal_strlit("startup_transient_bytes_limit");
    reveal_strlit("write_transient_bytes_limit");
    reveal_strlit("query_records_limit");
    reveal_strlit("query_result_bytes_limit");
    reveal_strlit("allocation");
    let written = code.code_text();
    assert(written.len() == 24 ==> written[0] == 'r' || written[0] == 'u' || written[0] == 'd'
        || written[0] == 'q');
    assert("record_input_bytes_limit"@[0] == 'r');
    assert("update_batch_bytes_limit"@[0] == 'u');
    assert("durable_file_bytes_limit"@[0] == 'd');
    assert("query_result_bytes_limit"@[0] == 'q');
    assert("update_batch_entries_limit"@[0] == 'u');
    assert("startup_record_bytes_limit"@[0] == 's');
}

/// What a limit of the store counts.
#[derive(Debug, Clone, Copy, PartialEq, Eq, Structural)]
pub enum MetadataLimit {
    Entry,
    StartupEntry,
    RecordInput,
    UpdateBatchEntry,
    UpdateBatchByte,
    Retained,
    DurableFile,
    StartupDurableFile,
    StartupRecordEncoded,
    StartupRecordInput,
    StartupRetained,
    StartupTransient,
    WriteTransient,
    SnapshotTransient,
    QueryRecord,
    QueryResult,
}

impl MetadataLimit {
    /// How messages name the limit.
    pub open spec fn label_text(self) -> Seq<char> {
        match self {
            MetadataLimit::Entry => "entry"@,
            MetadataLimit::StartupEntry => "startup entry"@,
            MetadataLimit::RecordInput => "record input byte"@,
            MetadataLimit::UpdateBatchEntry => "update batch entry"@,
            MetadataLimit::UpdateBatchByte => "update batch byte"@,
            MetadataLimit::Retained => "retained byte"@,
            MetadataLimit::DurableFile => "durable file byte"@,
            MetadataLimit::StartupDurableFile => "startup durable file byte"@,
            MetadataLimit::StartupRecordEncoded => "startup record encoded byte"@,
            MetadataLimit::StartupRecordInput => "startup record input byte"@,
            MetadataLimit::StartupRetained => "startup retained byte"@,
            MetadataLimit::StartupTransient => "startup transient byte"@,
            MetadataLimit::WriteTransient => "write transient byte"@,
            MetadataLimit::SnapshotTransient => "snapshot transient byte"@,
            MetadataLimit::QueryRecord => "query record"@,
            MetadataLimit::QueryResult => "query result byte"@,
        }
    }

    /// How messages name the limit.
    pub fn label(self) -> (label: &'static str)
        ensures
            label@ == self.label_text(),
    {
        match self {
            MetadataLimit::Entry => "entry",
            MetadataLimit::StartupEntry => "startup entry",
            MetadataLimit::RecordInput => "record input byte",
            MetadataLimit::UpdateBatchEntry => "update batch entry",
            MetadataLimit::UpdateBatchByte => "update batch byte",
            MetadataLimit::Retained => "retained byte",
            MetadataLimit::DurableFile => "durable file byte",
            MetadataLimit::StartupDurableFile => "startup durable file byte",
            MetadataLimit::StartupRecordEncoded => "startup record encoded byte",
            MetadataLimit::StartupRecordInput => "startup record input byte",
            MetadataLimit::StartupRetained => "startup retained byte",
            MetadataLimit::StartupTransient => "startup transient byte",
            MetadataLimit::WriteTransient => "write transient byte",
            MetadataLimit::SnapshotTransient => "snapshot transient byte",
            MetadataLimit::QueryRecord => "query record",
            MetadataLimit::QueryResult => "query result byte",
        }
    }

    /// The stable code of the failure to keep within the limit.
    pub open spec fn stable_code(self) -> MetricMetadataStoreErrorCode {
        match self {
            MetadataLimit::Entry => MetricMetadataStoreErrorCode::EntryLimit,
            MetadataLimit::StartupEntry => MetricMetadataStoreErrorCode::EntryLimit,
            MetadataLimit::RecordInput => MetricMetadataStoreErrorCode::RecordInputBytesLimit,
            MetadataLimit::UpdateBatchEntry => MetricMetadataStoreErrorCode::UpdateBatchEntriesLimit,
            MetadataLimit::UpdateBatchByte => MetricMetadataStoreErrorCode::UpdateBatchBytesLimit,
            MetadataLimit::Retained => MetricMetadataStoreErrorCode::RetainedBytesLimit,
            MetadataLimit::DurableFile => MetricMetadataStoreErrorCode::DurableFileBytesLimit,
            MetadataLimit::StartupDurableFile => MetricMetadataStoreErrorCode::StartupDurableFileBytesLimit,
            MetadataLimit::StartupRecordEncoded => MetricMetadataStoreErrorCode::StartupRecordBytesLimit,
            MetadataLimit::StartupRecordInput => MetricMetadataStoreErrorCode::StartupRecordBytesLimit,
            MetadataLimit::StartupRetained => MetricMetadataStoreErrorCode::StartupRetainedBytesLimit,
            MetadataLimit::StartupTransient => MetricMetadataStoreErrorCode::StartupTransientBytesLimit,
            MetadataLimit::WriteTransient => MetricMetadataStoreErrorCode::WriteTransientBytesLimit,
            MetadataLimit::SnapshotTransient => MetricMetadataStoreErrorCode::WriteTransientBytesLimit,
            MetadataLimit::QueryRecord => MetricMetadataStoreErrorCode::QueryRecordsLimit,
            MetadataLimit::QueryResult => MetricMetadataStoreErrorCode::QueryResultBytesLimit,
        }
    }

    /// The stable code of the failure to keep within the limit.
    pub fn code(self) -> (code: MetricMetadataStoreErrorCode)
        ensures
            code == self.stable_code(),
    {
        match self {
            MetadataLimit::Entry => MetricMetadataStoreErrorCode::EntryLimit,
            MetadataLimit::StartupEntry => MetricMetadataStoreErrorCode::EntryLimit,
            MetadataLimit::RecordInput => MetricMetadataStoreErrorCode::RecordInputBytesLimit,
            MetadataLimit::UpdateBatchEntry => MetricMetadataStoreErrorCode::UpdateBatchEntriesLimit,
            MetadataLimit::UpdateBatchByte => MetricMetadataStoreErrorCode::UpdateBatchBytesLimit,
            MetadataLimit::Retained => MetricMetadataStoreErrorCode::RetainedBytesLimit,
            MetadataLimit::DurableFile => MetricMetadataStoreErrorCode::DurableFileBytesLimit,
            MetadataLimit::StartupDurableFile => MetricMetadataStoreErrorCode::StartupDurableFileBytesLimit,
            MetadataLimit::StartupRecordEncoded => MetricMetadataStoreErrorCode::StartupRecordBytesLimit,
            MetadataLimit::StartupRecordInput => MetricMetadataStoreErrorCode::StartupRecordBytesLimit,
            MetadataLimit::StartupRetained => MetricMetadataStoreErrorCode::StartupRetainedBytesLimit,
            MetadataLimit::StartupTransient => MetricMetadataStoreErrorCode::StartupTransientBytesLimit,
            MetadataLimit::WriteTransient => MetricMetadataStoreErrorCode::WriteTransientBytesLimit,
            MetadataLimit::SnapshotTransient => MetricMetadataStoreErrorCode::WriteTransientBytesLimit,
            MetadataLimit::QueryRecord => MetricMetadataStoreErrorCode::QueryRecordsLimit,
            MetadataLimit::QueryResult => MetricMetadataStoreErrorCode::QueryResultBytesLimit,
        }
    }
}

/// The words that a message with a stable code starts with.
pub open spec fn code_prefix() -> Seq<char> {
    "metric_metadata_store_error="@
}

/// The message of a limit that was exceeded.
pub open spec fn limit_message(dimension: MetadataLimit, limit: nat, required: nat) -> Seq<char> {
    code_prefix() + dimension.stable_code().code_text() + "; metric metadata store "@
        + dimension.label_text() + " limit exceeded: limit "@ + text::decimal(limit)
        + ", required "@ + text::decimal(required)
}

/// The message of a limit that was exceeded.
pub fn metadata_limit_message(
    dimension: MetadataLimit,
    limit: usize,
    required: usize,
) -> (message: String)
    ensures
        message@ == limit_message(dimension, limit as nat, required as nat),
{
    let mut message = text::text5(
        "metric_metadata_store_error=",
        dimension.code().as_str(),
        "; metric metadata store ",
        dimension.label(),
        " limit exceeded: limit ",
    );
    message.append(text::format_usize(limit).as_str());
    message.append(", required ");
    message.append(text::format_usize(required).as_str());
    message
}

/// Where a character first stands in a text.
pub open spec fn first_place(value: Seq<char>, c: char) -> Option<int>
    decreases value.len(),
{
    if value.len() == 0 {
        None
    } else if value[0] == c {
        Some(0int)
    } else {
        match first_place(value.subrange(1, value.len() as int), c) {
            Some(place) => Some(place + 1),
            None => None,
        }
    }
}

/// The code that a message carries: what stands between the prefix and the first semicolon.
pub open spec fn carried_code(message: Seq<char>) -> Option<MetricMetadataStoreErrorCode> {
    let prefix = code_prefix();
    if message.len() >= prefix.len() && message.subrange(0, prefix.len() as int) == prefix {
        let rest = message.subrange(prefix.len() as int, message.len() as int);
        match first_place(rest, ';') {
            Some(place) => MetricMetadataStoreErrorCode::code_of(rest.subrange(0, place)),
            None => None,
        }
    } else {
        None
    }
}

proof fn lemma_first_place(value: Seq<char>, c: char, place: int)
    requires
        0 <= place <= value.len(),
        forall|k: int| 0 <= k < place ==> value[k] != c,
        place < value.len() ==> value[place] == c,
    ensures
        first_place(value, c) == if place < value.len() {
            Some(place)
        } else {
            None
        },
    decreases value.len(),
{
    if value.len() > 0 && place > 0 {
        let rest = value.subrange(1, value.len() as int);
        assert forall|k: int| 0 <= k < place - 1 implies rest[k] != c by {
            assert(rest[k] == value[k + 1]);
        }
        lemma_first_place(rest, c, place - 1);
    }
}

/// The code that a message carries, if it carries one.
pub fn code_carried_by(message: &str) -> (code: Option<MetricMetadataStoreErrorCode>)
    ensures
        code == carried_code(message@),
{
    let prefix = "metric_metadata_store_error=";
    let prefix_len: usize = prefix.unicode_len();
    let message_len: usize = message.unicode_len();
    if message_len < prefix_len {
        return None;
    }
    if !names::same_text(message.substring_char(0, prefix_len), prefix) {
        return None;
    }
    let rest = message.substring_char(prefix_len, message_len);
    let chars = text::chars_of(rest);
    let mut place: usize = 0;
    while place < chars.len() && chars[place] != ';'
        invariant
            place <= chars.len(),
            chars@ == rest@,
            forall|k: int| 0 <= k < place ==> rest@[k] != ';',
        ensures
            place <= chars.len(),
            forall|k: int| 0 <= k < place ==> rest@[k] != ';',
            place < chars.len() ==> rest@[place as int] == ';',
        decreases chars.len() - place,
    {
        place = place + 1;
    }
    proof {
        lemma_first_place(rest@, ';', place as int);
    }
    if place < chars.len() {
        MetricMetadataStoreErrorCode::from_str(rest.substring_char(0, place))
    } else {
        None
    }
}

proof fn lemma_code_text_has_no_semicolon(code: MetricMetadataStoreErrorCode)
    ensures
        forall|k: int| 0 <= k < code.code_text().len() ==> code.code_text()[k] != ';',
{
    reveal_strlit("entry_limit");
    reveal_strlit("record_input_bytes_limit");
    reveal_strlit("update_batch_entries_limit");
    reveal_strlit("update_batch_bytes_limit");
    reveal_strlit("retained_bytes_limit");
    reveal_strlit("durable_file_bytes_limit");
    reveal_strlit("startup_durable_file_bytes_limit");
    reveal_strlit("startup_record_bytes_limit");
    reveal_strlit("startup_retained_bytes_limit");
    reveal_strlit("startup_transient_bytes_limit");
    reveal_strlit("write_transient_bytes_limit");
    reveal_strlit("query_records_limit");
    reveal_strlit("query_result_bytes_limit");
    reveal_strlit("allocation");
}

/// The message of an exceeded limit carries the stable code of that limit.
pub proof fn lemma_limit_message_carries_code(dimension: MetadataLimit, limit: nat, required: nat)
    ensures
        carried_code(limit_message(dimension, limit, required)) == Some(dimension.stable_code()),
{
    let prefix = code_prefix();
    let code = dimension.stable_code();
    let written = code.code_text();
    let tail = "; metric metadata store "@ + (dimension.label_text() + (" limit exceeded: limit "@
        + (text::decimal(limit) + (", required "@ + text::decimal(required)))));
    let message = limit_message(dimension, limit, required);
    assert(message =~= prefix + (written + tail));
    assert(message.subrange(0, prefix.len() as int) =~= prefix);
    let rest = message.subrange(prefix.len() as int, message.len() as int);
    assert(rest =~= written + tail);
    lemma_code_text_has_no_semicolon(code);
    reveal_strlit("; metric metadata store ");
    assert(rest[written.len() as int] == ';');
    lemma_first_place(rest, ';', written.len() as int);
    assert(rest.subrange(0, written.len() as int) =~= written);
    lemma_code_round_trip(code);
}

} // verus!
