//! What the durable form of the metadata store says, and what is read back from it.

use vstd::layout;
use vstd::prelude::*;

use crate::json;
use crate::json::bytes_of;
use crate::metadata_store::config::MetricMetadataStoreConfig;
use crate::metadata_store::encode;
use crate::metadata_store::encode::WriteBounds;
use crate::metadata_store::load;
use crate::metadata_store::load::LoadProgress;
use crate::metadata_store::load::PersistedMetricMetadataStore;
use crate::metadata_store::load::ReadRecord;
use crate::metadata_store::load::StartupFile;
use crate::metadata_store::record;
use crate::metadata_store::record::MetricMetadataKey;
use crate::metadata_store::record::MetricMetadataRecord;
use crate::metadata_store::record::MetricType;
use crate::metadata_store::record::RecordView;
use crate::metadata_store::store::EntriesView;
use crate::reading::with_commas;
use crate::text;

verus! {

/// One field of a JSON object: its name between quotes, a colon, and its value.
pub open spec fn field(name: Seq<char>, value: Seq<u8>) -> Seq<u8> {
    bytes_of("\""@) + bytes_of(name) + bytes_of("\""@) + bytes_of(":"@) + value
}

/// A record as a JSON object with its six fields.
pub open spec fn record_object(held: RecordView) -> Seq<u8> {
    bytes_of("{"@) + with_commas(
        seq![
            field("tenant_id"@, json::json_text(held.tenant_id)),
            field("metric_family_name"@, json::json_text(held.metric_family_name)),
            field("metric_type"@, bytes_of(text::signed_decimal(held.metric_type as int))),
            field("help"@, json::json_text(held.help)),
            field("unit"@, json::json_text(held.unit)),
            field("updated_unix_ms"@, bytes_of(text::decimal(held.updated_unix_ms as nat))),
        ],
    ) + bytes_of("}"@)
}

proof fn lemma_six_with_commas(
    a: Seq<u8>,
    b: Seq<u8>,
    c: Seq<u8>,
    d: Seq<u8>,
    e: Seq<u8>,
    f: Seq<u8>,
)
    ensures
        ({
            let comma = bytes_of(","@);
            with_commas(seq![a, b, c, d, e, f]) == a + (comma + b) + (comma + c) + (comma + d) + (
            comma + e) + (comma + f)
        }),
{
    reveal_with_fuel(with_commas, 7);
    let comma = bytes_of(","@);
    let all = seq![a, b, c, d, e, f];
    assert(all.drop_last() =~= seq![a, b, c, d, e]);
    assert(seq![a, b, c, d, e].drop_last() =~= seq![a, b, c, d]);
    assert(seq![a, b, c, d].drop_last() =~= seq![a, b, c]);
    assert(seq![a, b, c].drop_last() =~= seq![a, b]);
    assert(seq![a, b].drop_last() =~= seq![a]);
    assert(with_commas(seq![a, b]) =~= a + (comma + b));
    assert(with_commas(seq![a, b, c]) =~= a + (comma + b) + (comma + c));
    assert(with_commas(seq![a, b, c, d]) =~= a + (comma + b) + (comma + c) + (comma + d));
    assert(with_commas(seq![a, b, c, d, e]) =~= a + (comma + b) + (comma + c) + (comma + d) + (comma
        + e));
    assert(with_commas(all) =~= a + (comma + b) + (comma + c) + (comma + d) + (comma + e) + (comma
        + f));
}

proof fn lemma_record_written(held: RecordView)
    ensures
        encode::record_text(held) == record_object(held),
{
    let a = field("tenant_id"@, json::json_text(held.tenant_id));
    let b = field("metric_family_name"@, json::json_text(held.metric_family_name));
    let c = field("metric_type"@, bytes_of(text::signed_decimal(held.metric_type as int)));
    let d = field("help"@, json::json_text(held.help));
    let e = field("unit"@, json::json_text(held.unit));
    let f = field("updated_unix_ms"@, bytes_of(text::decimal(held.updated_unix_ms as nat)));
    lemma_six_with_commas(a, b, c, d, e, f);
    let comma = bytes_of(","@);
    assert(encode::record_text(held) =~= bytes_of("{"@) + (a + (comma + b) + (comma + c) + (comma
        + d) + (comma + e) + (comma + f)) + bytes_of("}"@));
}

proof fn lemma_list_written(records: Seq<RecordView>)
    ensures
        json::joined(encode::list_pieces(records)) == with_commas(
            Seq::new(records.len(), |i: int| record_object(records[i])),
        ),
    decreases records.len(),
{
    let objects = Seq::new(records.len(), |i: int| record_object(records[i]));
    if records.len() == 0 {
        assert(encode::list_pieces(records) =~= Seq::empty());
    } else {
        let rest = records.drop_last();
        let fewer = encode::list_pieces(rest);
        let last = encode::record_pieces(records.last());
        lemma_list_written(rest);
        assert(objects.drop_last() =~= Seq::new(rest.len(), |i: int| record_object(rest[i])));
        assert(objects.last() == record_object(records.last()));
        encode::lemma_record_joined(records.last());
        lemma_record_written(records.last());
        if records.len() == 1 {
            assert(fewer =~= Seq::empty());
            json::lemma_joined_parts(fewer, last);
            assert(json::joined(fewer) =~= Seq::empty());
            assert(json::joined(encode::list_pieces(records)) =~= objects[0]);
        } else {
            let comma = bytes_of(","@);
            json::lemma_joined_parts(fewer.push(comma), last);
            assert(fewer.push(comma).drop_last() =~= fewer);
            assert(json::joined(fewer.push(comma)) == json::joined(fewer) + comma);
        }
    }
}

/// The durable form of records is a JSON object with the name and the version of the format and the
/// records, in their order, each an object with its six fields, and ends with the line.
pub proof fn lemma_document_tells_records(records: Seq<RecordView>)
    ensures
        encode::store_document(records) == bytes_of(
            "{\"magic\":\"tsink-metric-metadata-store\",\"schema_version\":1,\"entries\":["@,
        ) + with_commas(Seq::new(records.len(), |i: int| record_object(records[i]))) + bytes_of(
            "]}\n"@,
        ),
{
    let list = encode::list_pieces(records);
    let head = seq![encode::store_prefix()];
    lemma_list_written(records);
    json::lemma_joined_one(encode::store_prefix());
    json::lemma_joined_parts(head, list);
    let pieces = encode::store_pieces(records);
    assert(pieces.drop_last() =~= head + list);
    assert(pieces.last() == encode::store_suffix());
}

/// Whether records are those that were read, each under its own tenant and family, no two alike.
pub open spec fn holds_read(entries: EntriesView, read: Seq<ReadRecord>) -> bool {
    &&& forall|i: int|
        0 <= i < read.len() ==> ((#[trigger] read[i]).decoded matches Ok(found)
            && entries.contains_key((found.tenant_id, found.metric_family_name)) && entries[(
            found.tenant_id,
            found.metric_family_name,
        )] == found)
    &&& forall|i: int, j: int|
        0 <= i < j < read.len() ==> !alike(#[trigger] read[i], #[trigger] read[j])
    &&& forall|key: (Seq<char>, Seq<char>)| #[trigger]
        entries.contains_key(key) ==> exists|i: int|
            0 <= i < read.len() && is_of(#[trigger] read[i], key)
}

/// Whether two records that were read are of one tenant and family.
pub open spec fn alike(a: ReadRecord, b: ReadRecord) -> bool {
    a.decoded->Ok_0.tenant_id == b.decoded->Ok_0.tenant_id && a.decoded->Ok_0.metric_family_name
        == b.decoded->Ok_0.metric_family_name
}

/// Whether a record that was read is of a tenant and family.
pub open spec fn is_of(read: ReadRecord, key: (Seq<char>, Seq<char>)) -> bool {
    read.decoded matches Ok(found) && key == (found.tenant_id, found.metric_family_name)
}

proof fn lemma_all_read_held(
    config: MetricMetadataStoreConfig,
    path: Seq<char>,
    base: usize,
    start: LoadProgress,
    read: Seq<ReadRecord>,
)
    requires
        start.entries == Map::<(Seq<char>, Seq<char>), RecordView>::empty(),
        load::load_all(config, path, base, start, read) is Ok,
    ensures
        holds_read(load::load_all(config, path, base, start, read)->Ok_0.entries, read),
        read.len() <= config.max_entries || read.len() == 0 || config.max_entries == usize::MAX,
    decreases read.len(),
{
    if read.len() > 0 {
        let rest = read.drop_last();
        let n = read.len() - 1;
        lemma_all_read_held(config, path, base, start, rest);
        let before = load::load_all(config, path, base, start, rest)->Ok_0;
        let after = load::load_all(config, path, base, start, read)->Ok_0;
        assert(read.last() == read[n]);
        let found = read[n].decoded->Ok_0;
        let own = (found.tenant_id, found.metric_family_name);
        assert(after.entries == before.entries.insert(own, found));
        assert(!before.entries.contains_key(own));
        assert forall|i: int| 0 <= i < read.len() implies ((#[trigger] read[i]).decoded matches Ok(
            found,
        ) && after.entries.contains_key((found.tenant_id, found.metric_family_name))
            && after.entries[(found.tenant_id, found.metric_family_name)] == found) by {
            if i < n {
                assert(rest[i] == read[i]);
            }
        }
        assert forall|i: int, j: int| 0 <= i < j < read.len() implies !alike(
            #[trigger] read[i],
            #[trigger] read[j],
        ) by {
            assert(rest[i] == read[i]);
            if j < n {
                assert(rest[j] == read[j]);
            }
        }
        assert forall|key: (Seq<char>, Seq<char>)| #[trigger]
            after.entries.contains_key(key) implies exists|i: int|
            0 <= i < read.len() && is_of(#[trigger] read[i], key) by {
            if key == own {
                assert(is_of(read[n], key));
            } else {
                assert(before.entries.contains_key(key));
                let i = choose|i: int| 0 <= i < rest.len() && is_of(#[trigger] rest[i], key);
                assert(read[i] == rest[i]);
            }
        }
    }
}

/// What is loaded from a file is what the file holds: the file was read whole, is of this format and
/// version, and is no longer than it may be; each of its records was decoded, in its order, and the
/// store holds exactly these, no two of one tenant and family.
pub proof fn lemma_loaded_is_what_file_holds<D: Fn(&str) -> Result<MetricMetadataRecord, String>>(
    config: MetricMetadataStoreConfig,
    file: StartupFile,
    parsed: Result<PersistedMetricMetadataStore, String>,
    decode: D,
    loaded: LoadProgress,
) -> (read: Seq<ReadRecord>)
    requires
        load::may_load(config, file, parsed, decode, Ok(loaded)),
    ensures
        file.file_len <= config.max_durable_file_bytes,
        file.raw_len == file.file_len,
        !file.grew_while_reading,
        parsed matches Ok(persisted) && persisted.magic_valid && persisted.schema_version == 1
            && read.len() == persisted.entries@.len() && forall|i: int|
            0 <= i < read.len() ==> load::may_give(
                decode,
                persisted.entries@[i]@,
                (#[trigger] read[i]).decoded,
            ),
        holds_read(loaded.entries, read),
        read.len() <= config.max_entries || read.len() == 0 || config.max_entries == usize::MAX,
{
    let outcome = Ok::<LoadProgress, Seq<char>>(loaded);
    let (base, start) = load::file_outcome(config, file, parsed)->Ok_0;
    let (read, so_far) = choose|read: Seq<ReadRecord>, so_far: LoadProgress| #[trigger]
        load::reached(config, file, parsed, decode, read, so_far) && load::ends_as(
            config,
            file,
            parsed,
            decode,
            read.len(),
            so_far,
            outcome,
        );
    lemma_all_read_held(config, file.path@, base, start, read);
    read
}

/// The number of a kind of metric is given back as the name of the kind, and a number without a
/// kind as the unknown one.
pub proof fn lemma_metric_type_named(kind: MetricType, other: i32)
    ensures
        record::metric_type_name(kind.wire_number()) == match kind {
            MetricType::Unknown => "unknown"@,
            MetricType::Counter => "counter"@,
            MetricType::Gauge => "gauge"@,
            MetricType::Histogram => "histogram"@,
            MetricType::Gaugehistogram => "gaugehistogram"@,
            MetricType::Summary => "summary"@,
            MetricType::Info => "info"@,
            MetricType::Stateset => "stateset"@,
        },
        0 <= kind.wire_number() <= 7,
        other < 0 || other > 7 ==> record::metric_type_name(other) == "unknown"@,
{
}

/// A document is written exactly where it is no longer than a file may be and, unless it is empty,
/// its bytes with an allowance of 64 fit beside the working memory that is taken.
pub proof fn lemma_document_fits(bounds: WriteBounds, len: nat)
    requires
        bounds.reservation.bytes <= bounds.accounting.transient_bytes,
        bounds.reservation.bytes + len + 64 <= usize::MAX,
    ensures
        bounds.fits(len) <==> len <= bounds.max_file_bytes && (len == 0
            || bounds.accounting.transient_bytes + len + 64 <= bounds.reservation.limit),
{
}

/// A record of a file is taken exactly where its text is not too long for a record, decoding it does
/// not take more than may be taken at the start, it can be decoded, its texts are within the limit on
/// a record, no other of its tenant and family was taken, and neither the records nor the bytes they
/// retain become too many.
pub proof fn lemma_record_taken(
    config: MetricMetadataStoreConfig,
    path: Seq<char>,
    base: usize,
    so_far: LoadProgress,
    taken: nat,
    entry: ReadRecord,
)
    requires
        config.max_record_bytes * 6 + 256 <= usize::MAX,
        taken < usize::MAX,
        load::decode_bytes(base, so_far.retained_bytes, entry.encoded_len as nat) <= usize::MAX,
        entry.decoded matches Ok(found) ==> so_far.retained_bytes + record::retained_entry_bytes(
            found,
        ) <= usize::MAX,
    ensures
        load::load_step(config, path, base, so_far, taken, entry) is Ok <==> {
            &&& entry.encoded_len <= config.max_record_bytes * 6 + 256
            &&& base + so_far.retained_bytes + entry.encoded_len * 2 + layout::size_of::<
                MetricMetadataKey,
            >() + layout::size_of::<MetricMetadataRecord>() + 64 + 64 * 8
                <= config.max_startup_transient_bytes
            &&& entry.decoded matches Ok(found) && {
                &&& text::utf8_len(found.tenant_id) + text::utf8_len(found.metric_family_name)
                    + text::utf8_len(found.help) + text::utf8_len(found.unit)
                    <= config.max_record_bytes
                &&& !so_far.entries.contains_key((found.tenant_id, found.metric_family_name))
                &&& taken + 1 <= config.max_entries
                &&& so_far.retained_bytes + record::retained_entry_bytes(found)
                    <= config.max_retained_bytes
            }
        },
        load::load_step(config, path, base, so_far, taken, entry) matches Ok(after) ==> {
            let found = entry.decoded->Ok_0;
            &&& after.entries == so_far.entries.insert(
                (found.tenant_id, found.metric_family_name),
                found,
            )
            &&& after.retained_bytes == so_far.retained_bytes + record::retained_entry_bytes(found)
        },
{
    if let Ok(found) = entry.decoded {
        assert(record::retained_entry_bytes(found) >= 0);
    }
}

} // verus!
