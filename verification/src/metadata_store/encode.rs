//! The durable form of the metadata store: one JSON document, written piece by piece within the
//! limits on the file and on working memory.

use vstd::prelude::*;
use vstd::slice::*;
use vstd::utf8::*;

use crate::json;
use crate::json::bytes_of;
use crate::json::bytes_vec;
use crate::json::joined;
use crate::json::views_of;
use crate::metadata_store::accounting::MetadataStoreRejection;
use crate::metadata_store::accounting::MetadataTransientReservation;
use crate::metadata_store::accounting::MetricMetadataStoreAccounting;
use crate::metadata_store::load;
use crate::metadata_store::record;
use crate::metadata_store::record::MetricMetadataEntries;
use crate::metadata_store::record::MetricMetadataKey;
use crate::metadata_store::record::MetricMetadataRecord;
use crate::metadata_store::record::RecordView;
use crate::ordered;
use crate::sizes;
use crate::text;

verus! {

/// The pieces that a field of a record is written in, behind a comma where it is not the first.
pub open spec fn field_pieces(first: bool, name: Seq<char>, value: Seq<Seq<u8>>) -> Seq<Seq<u8>> {
    let named = seq![bytes_of("\""@), bytes_of(name), bytes_of("\""@), bytes_of(":"@)] + value;
    if first {
        named
    } else {
        seq![bytes_of(","@)] + named
    }
}

/// The pieces that a record is written in.
pub open spec fn record_pieces(record: RecordView) -> Seq<Seq<u8>> {
    (seq![bytes_of("{"@)] + field_pieces(true, "tenant_id"@, json::text_pieces(record.tenant_id))
        + field_pieces(
        false,
        "metric_family_name"@,
        json::text_pieces(record.metric_family_name),
    ) + field_pieces(
        false,
        "metric_type"@,
        seq![bytes_of(text::signed_decimal(record.metric_type as int))],
    ) + field_pieces(false, "help"@, json::text_pieces(record.help)) + field_pieces(
        false,
        "unit"@,
        json::text_pieces(record.unit),
    ) + field_pieces(
        false,
        "updated_unix_ms"@,
        seq![bytes_of(text::decimal(record.updated_unix_ms as nat))],
    )).push(bytes_of("}"@))
}

/// A field of a record as JSON, behind a comma where it is not the first.
pub open spec fn field_text(first: bool, name: Seq<char>, value: Seq<u8>) -> Seq<u8> {
    let named = bytes_of("\""@) + bytes_of(name) + bytes_of("\""@) + bytes_of(":"@) + value;
    if first {
        named
    } else {
        bytes_of(","@) + named
    }
}

/// A record as JSON.
pub open spec fn record_text(record: RecordView) -> Seq<u8> {
    bytes_of("{"@) + field_text(true, "tenant_id"@, json::json_text(record.tenant_id)) + field_text(
        false,
        "metric_family_name"@,
        json::json_text(record.metric_family_name),
    ) + field_text(
        false,
        "metric_type"@,
        bytes_of(text::signed_decimal(record.metric_type as int)),
    ) + field_text(false, "help"@, json::json_text(record.help)) + field_text(
        false,
        "unit"@,
        json::json_text(record.unit),
    ) + field_text(
        false,
        "updated_unix_ms"@,
        bytes_of(text::decimal(record.updated_unix_ms as nat)),
    ) + bytes_of("}"@)
}

proof fn lemma_field_joined(first: bool, name: Seq<char>, value: Seq<Seq<u8>>)
    ensures
        joined(field_pieces(first, name, value)) == field_text(first, name, joined(value)),
{
    let quote = bytes_of("\""@);
    let words = seq![quote, bytes_of(name), quote, bytes_of(":"@)];
    json::lemma_joined_one(quote);
    json::lemma_joined_one(bytes_of(name));
    json::lemma_joined_one(bytes_of(":"@));
    json::lemma_joined_one(bytes_of(","@));
    json::lemma_joined_parts(seq![quote], seq![bytes_of(name)]);
    json::lemma_joined_parts(seq![quote] + seq![bytes_of(name)], seq![quote]);
    json::lemma_joined_parts(
        seq![quote] + seq![bytes_of(name)] + seq![quote],
        seq![bytes_of(":"@)],
    );
    assert(words =~= seq![quote] + seq![bytes_of(name)] + seq![quote] + seq![bytes_of(":"@)]);
    json::lemma_joined_parts(words, value);
    json::lemma_joined_parts(seq![bytes_of(","@)], words + value);
}

/// The pieces that a record is written in are the record as JSON.
pub proof fn lemma_record_joined(record: RecordView)
    ensures
        joined(record_pieces(record)) == record_text(record),
{
    let open = seq![bytes_of("{"@)];
    let close = seq![bytes_of("}"@)];
    let kind = bytes_of(text::signed_decimal(record.metric_type as int));
    let time = bytes_of(text::decimal(record.updated_unix_ms as nat));
    let f1 = field_pieces(true, "tenant_id"@, json::text_pieces(record.tenant_id));
    let f2 = field_pieces(
        false,
        "metric_family_name"@,
        json::text_pieces(record.metric_family_name),
    );
    let f3 = field_pieces(false, "metric_type"@, seq![kind]);
    let f4 = field_pieces(false, "help"@, json::text_pieces(record.help));
    let f5 = field_pieces(false, "unit"@, json::text_pieces(record.unit));
    let f6 = field_pieces(false, "updated_unix_ms"@, seq![time]);
    json::lemma_text_joined(record.tenant_id);
    json::lemma_text_joined(record.metric_family_name);
    json::lemma_text_joined(record.help);
    json::lemma_text_joined(record.unit);
    json::lemma_joined_one(kind);
    json::lemma_joined_one(time);
    json::lemma_joined_one(bytes_of("{"@));
    json::lemma_joined_one(bytes_of("}"@));
    lemma_field_joined(true, "tenant_id"@, json::text_pieces(record.tenant_id));
    lemma_field_joined(
        false,
        "metric_family_name"@,
        json::text_pieces(record.metric_family_name),
    );
    lemma_field_joined(false, "metric_type"@, seq![kind]);
    lemma_field_joined(false, "help"@, json::text_pieces(record.help));
    lemma_field_joined(false, "unit"@, json::text_pieces(record.unit));
    lemma_field_joined(false, "updated_unix_ms"@, seq![time]);
    json::lemma_joined_parts(open, f1);
    json::lemma_joined_parts(open + f1, f2);
    json::lemma_joined_parts(open + f1 + f2, f3);
    json::lemma_joined_parts(open + f1 + f2 + f3, f4);
    json::lemma_joined_parts(open + f1 + f2 + f3 + f4, f5);
    json::lemma_joined_parts(open + f1 + f2 + f3 + f4 + f5, f6);
    json::lemma_joined_parts(open + f1 + f2 + f3 + f4 + f5 + f6, close);
    assert(record_pieces(record) =~= open + f1 + f2 + f3 + f4 + f5 + f6 + close);
}

/// No byte of a text is written as more than six.
proof fn lemma_written_len(bytes: Seq<u8>)
    ensures
        json::written_bytes(bytes).len() <= 6 * bytes.len(),
    decreases bytes.len(),
{
    if bytes.len() > 0 {
        lemma_written_len(bytes.drop_first());
    }
}

/// The bytes of a field of a record, beside its value.
proof fn lemma_field_len(first: bool, name: Seq<char>, value: Seq<u8>)
    requires
        is_ascii_chars(name),
    ensures
        field_text(first, name, value).len() <= name.len() + 4 + value.len(),
{
    reveal_strlit("\"");
    reveal_strlit(":");
    reveal_strlit(",");
    text::lemma_ascii_len("\""@);
    text::lemma_ascii_len(":"@);
    text::lemma_ascii_len(","@);
    text::lemma_ascii_len(name);
}

/// A record as JSON takes at most six bytes for each byte of its texts, and so much beside them as
/// a record that is loaded may take.
pub proof fn lemma_record_text_len(record: RecordView)
    ensures
        record_text(record).len() <= 6 * record::record_input_bytes(
            record.tenant_id,
            record.metric_family_name,
            record.help,
            record.unit,
        ) + load::METADATA_STARTUP_RECORD_JSON_OVERHEAD_BYTES,
{
    let kind = text::signed_decimal(record.metric_type as int);
    let time = text::decimal(record.updated_unix_ms as nat);
    lemma_written_len(bytes_of(record.tenant_id));
    lemma_written_len(bytes_of(record.metric_family_name));
    lemma_written_len(bytes_of(record.help));
    lemma_written_len(bytes_of(record.unit));
    reveal_with_fuel(text::power_of_ten, 21);
    text::lemma_decimal_len(record.updated_unix_ms as nat, 20);
    if record.metric_type < 0 {
        let size = (-record.metric_type) as nat;
        reveal_strlit("-");
        text::lemma_decimal_len(size, 10);
        text::lemma_ascii_len("-"@);
        text::lemma_utf8_len_joined("-"@, text::decimal(size));
    } else {
        text::lemma_decimal_len(record.metric_type as nat, 10);
    }
    assert(bytes_of(kind).len() <= 11);
    assert(bytes_of(time).len() <= 20);
    reveal_strlit("{");
    reveal_strlit("}");
    text::lemma_ascii_len("{"@);
    text::lemma_ascii_len("}"@);
    reveal_strlit("tenant_id");
    reveal_strlit("metric_family_name");
    reveal_strlit("metric_type");
    reveal_strlit("help");
    reveal_strlit("unit");
    reveal_strlit("updated_unix_ms");
    lemma_field_len(true, "tenant_id"@, json::json_text(record.tenant_id));
    lemma_field_len(
        false,
        "metric_family_name"@,
        json::json_text(record.metric_family_name),
    );
    lemma_field_len(false, "metric_type"@, bytes_of(kind));
    lemma_field_len(false, "help"@, json::json_text(record.help));
    lemma_field_len(false, "unit"@, json::json_text(record.unit));
    lemma_field_len(false, "updated_unix_ms"@, bytes_of(time));
}

/// The pieces that a list of records is written in, commas between the records.
pub open spec fn list_pieces(records: Seq<RecordView>) -> Seq<Seq<u8>>
    decreases records.len(),
{
    if records.len() == 0 {
        Seq::empty()
    } else if records.len() == 1 {
        list_pieces(records.drop_last()) + record_pieces(records.last())
    } else {
        list_pieces(records.drop_last()).push(bytes_of(","@)) + record_pieces(records.last())
    }
}

/// The words that the document starts with.
pub open spec fn store_prefix() -> Seq<u8> {
    bytes_of(
        "{\"magic\":\"tsink-metric-metadata-store\",\"schema_version\":1,\"entries\":["@,
    )
}

/// The words that the document ends with.
pub open spec fn store_suffix() -> Seq<u8> {
    bytes_of("]}\n"@)
}

/// The pieces that the document is written in.
pub open spec fn store_pieces(records: Seq<RecordView>) -> Seq<Seq<u8>> {
    (seq![store_prefix()] + list_pieces(records)).push(store_suffix())
}

/// The document that holds a list of records.
pub open spec fn store_document(records: Seq<RecordView>) -> Seq<u8> {
    joined(store_pieces(records))
}

/// Why a document could not be written.
#[derive(Debug, Clone, Copy, PartialEq, Eq, Structural)]
pub enum EncodeStoreError {
    DurableFileLimit { required: usize },
    TransientLimit { required: usize },
}

/// The modeled cost of a buffer.
pub open spec fn encoded_bytes(len: nat) -> nat {
    if len == 0 {
        0
    } else {
        len + record::METADATA_ALLOCATION_ALLOWANCE_BYTES as nat
    }
}

fn encoded_modeled_bytes(encoded_len: usize) -> (bytes: usize)
    ensures
        bytes == sizes::sat_size(encoded_bytes(encoded_len as nat) as int),
{
    if encoded_len == 0 {
        0
    } else {
        encoded_len.saturating_add(record::METADATA_ALLOCATION_ALLOWANCE_BYTES)
    }
}

/// The limits that a document is written within: those on the file and on working memory, given
/// what the reservation held and the counters said when writing began.
pub struct WriteBounds {
    pub max_file_bytes: usize,
    pub reservation: MetadataTransientReservation,
    pub accounting: MetricMetadataStoreAccounting,
}

impl WriteBounds {
    /// The working memory that is held while so many bytes are written.
    pub open spec fn need(self, len: nat) -> nat {
        sizes::sat_size(self.reservation.bytes + encoded_bytes(len)) as nat
    }

    /// Whether so many bytes can be written.
    pub open spec fn fits(self, len: nat) -> bool {
        len <= self.max_file_bytes && self.reservation.can_hold(self.accounting, self.need(len))
    }

    /// The counters while so many bytes are written.
    pub open spec fn counters(self, len: nat) -> MetricMetadataStoreAccounting {
        self.reservation.resized(self.accounting, self.need(len))
    }

    /// Why so many bytes cannot be written.
    pub open spec fn refusal(self, len: nat) -> EncodeStoreError {
        if len > self.max_file_bytes {
            EncodeStoreError::DurableFileLimit { required: sizes::sat_size(len as int) }
        } else {
            EncodeStoreError::TransientLimit { required: self.need(len) as usize }
        }
    }

    /// The counters once writing stopped because so many bytes cannot be written, `written` of
    /// them being written.
    pub open spec fn counters_refused(
        self,
        written: nat,
        len: nat,
    ) -> MetricMetadataStoreAccounting {
        if len > self.max_file_bytes {
            self.counters(written)
        } else {
            self.counters(written).rejected(MetadataStoreRejection::Transient)
        }
    }

    /// Writing stops at the first piece that does not fit.
    pub open spec fn stops_at(
        self,
        pieces: Seq<Seq<u8>>,
        k: int,
        error: EncodeStoreError,
        counters: MetricMetadataStoreAccounting,
    ) -> bool {
        let written = joined(pieces.subrange(0, k)).len();
        let reached = joined(pieces.subrange(0, k + 1)).len();
        &&& 0 <= k < pieces.len()
        &&& forall|j: int| 0 < j <= k ==> self.fits(joined(#[trigger] pieces.subrange(0, j)).len())
        &&& !self.fits(reached)
        &&& error == self.refusal(reached)
        &&& counters == self.counters_refused(written, reached)
    }
}

/// A buffer that grows within limits.
pub struct BoundedEncodedWriter {
    bytes: Vec<u8>,
    max_file_bytes: usize,
    base_transient_bytes: usize,
    transient: MetadataTransientReservation,
    bounds: Ghost<WriteBounds>,
    pieces: Ghost<Seq<Seq<u8>>>,
}

impl BoundedEncodedWriter {
    closed spec fn consistent(&self, accounting: MetricMetadataStoreAccounting) -> bool {
        let bounds = self.bounds@;
        let len = self.bytes@.len();
        &&& self.max_file_bytes == bounds.max_file_bytes
        &&& self.base_transient_bytes == bounds.reservation.bytes
        &&& bounds.reservation.bytes <= bounds.accounting.transient_bytes
        &&& self.bytes@ == joined(self.pieces@)
        &&& self.transient.limit == bounds.reservation.limit
        &&& self.transient.bytes == bounds.need(len)
        &&& len == 0 || bounds.fits(len)
        &&& accounting == bounds.counters(len)
        &&& forall|j: int|
            0 < j <= self.pieces@.len() ==> bounds.fits(
                joined(#[trigger] self.pieces@.subrange(0, j)).len(),
            )
    }

    fn new(
        max_file_bytes: usize,
        transient: MetadataTransientReservation,
        accounting: &MetricMetadataStoreAccounting,
    ) -> (writer: Self)
        requires
            transient.bytes <= usize::MAX,
            transient.bytes <= accounting.transient_bytes,
        ensures
            writer.consistent(*accounting),
            writer.pieces@ == Seq::<Seq<u8>>::empty(),
            writer.bounds@ == (WriteBounds {
                max_file_bytes,
                reservation: transient,
                accounting: *accounting,
            }),
    {
        BoundedEncodedWriter {
            bytes: Vec::new(),
            max_file_bytes,
            base_transient_bytes: transient.bytes as usize,
            transient,
            bounds: Ghost(
                WriteBounds { max_file_bytes, reservation: transient, accounting: *accounting },
            ),
            pieces: Ghost(Seq::empty()),
        }
    }

    fn write(
        &mut self,
        accounting: &mut MetricMetadataStoreAccounting,
        piece: &[u8],
    ) -> (done: Result<(), EncodeStoreError>)
        requires
            old(self).consistent(*old(accounting)),
        ensures
            final(self).bounds@ == old(self).bounds@,
            final(self).pieces@ == old(self).pieces@.push(piece@),
            match done {
                Ok(_) => final(self).consistent(*final(accounting)),
                Err(error) => {
                    &&& old(self).bounds@.stops_at(
                        final(self).pieces@,
                        old(self).pieces@.len() as int,
                        error,
                        *final(accounting),
                    )
                    &&& final(self).transient.bytes == old(self).bounds@.need(
                        joined(old(self).pieces@).len(),
                    )
                },
            },
    {
        let ghost before = self.pieces@;
        let ghost after = before.push(piece@);
        let ghost bounds = self.bounds@;
        proof {
            assert(after.drop_last() =~= before);
            assert(after.subrange(0, before.len() as int) =~= before);
            assert(after.subrange(0, before.len() as int + 1) =~= after);
            assert forall|j: int| 0 < j <= before.len() implies bounds.fits(
                joined(#[trigger] after.subrange(0, j)).len(),
            ) by {
                assert(after.subrange(0, j) =~= before.subrange(0, j));
            }
            self.pieces@ = after;
        }
        let len = self.bytes.len();
        match len.checked_add(piece.len()) {
            None => Err(EncodeStoreError::DurableFileLimit { required: usize::MAX }),
            Some(next_len) => {
                if next_len > self.max_file_bytes {
                    return Err(EncodeStoreError::DurableFileLimit { required: next_len });
                }
                let required_transient = self.base_transient_bytes.saturating_add(
                    encoded_modeled_bytes(next_len),
                );
                assert(required_transient == bounds.need(joined(after).len()));
                let resized = self.transient.resize(accounting, required_transient);
                if resized.is_err() {
                    return Err(
                        EncodeStoreError::TransientLimit { required: required_transient },
                    );
                }
                let mut added: Vec<u8> = slice_to_vec(piece);
                self.bytes.append(&mut added);
                assert(self.bytes@ =~= joined(after));
                Ok(())
            },
        }
    }

    fn write_pieces(
        &mut self,
        accounting: &mut MetricMetadataStoreAccounting,
        pieces: &Vec<Vec<u8>>,
    ) -> (done: Result<(), EncodeStoreError>)
        requires
            old(self).consistent(*old(accounting)),
        ensures
            final(self).bounds@ == old(self).bounds@,
            match done {
                Ok(_) => {
                    &&& final(self).consistent(*final(accounting))
                    &&& final(self).pieces@ == old(self).pieces@ + views_of(pieces@)
                },
                Err(error) => {
                    &&& old(self).bounds@.stops_within(
                        old(self).pieces@ + views_of(pieces@),
                        error,
                        *final(accounting),
                    )
                    &&& final(self).transient.bytes <= final(accounting).transient_bytes
                    &&& final(accounting).transient_bytes - final(self).transient.bytes == old(
                        self,
                    ).bounds@.accounting.transient_bytes - old(self).bounds@.reservation.bytes
                },
            },
    {
        let ghost before = self.pieces@;
        let ghost all = before + views_of(pieces@);
        let ghost bounds = self.bounds@;
        let mut i: usize = 0;
        proof {
            assert(views_of(pieces@).subrange(0, 0) =~= Seq::<Seq<u8>>::empty());
            assert(before + views_of(pieces@).subrange(0, 0) =~= before);
        }
        while i < pieces.len()
            invariant
                i <= pieces.len(),
                self.consistent(*accounting),
                self.bounds@ == bounds,
                self.pieces@ == before + views_of(pieces@).subrange(0, i as int),
                all == before + views_of(pieces@),
                before == old(self).pieces@,
                bounds == old(self).bounds@,
            decreases pieces.len() - i,
        {
            let ghost k = self.pieces@.len() as int;
            let ghost written = self.pieces@;
            proof {
                lemma_need_exact(bounds, joined(written).len());
            }
            match self.write(accounting, pieces[i].as_slice()) {
                Ok(()) => {},
                Err(error) => {
                    proof {
                        let shorter = self.pieces@;
                        assert(shorter =~= all.subrange(0, shorter.len() as int));
                        assert(shorter.subrange(0, k) =~= written);
                        assert(accounting.transient_bytes == bounds.counters(
                            joined(written).len(),
                        ).transient_bytes);
                        lemma_stops_extend(bounds, shorter, all, k, error, *accounting);
                        assert(bounds.stops_at(all, k, error, *accounting));
                    }
                    return Err(error);
                },
            }
            proof {
                assert(self.pieces@ =~= before + views_of(pieces@).subrange(0, i as int + 1));
            }
            i = i + 1;
        }
        proof {
            assert(views_of(pieces@).subrange(0, i as int) =~= views_of(pieces@));
        }
        Ok(())
    }
}

impl WriteBounds {
    /// Writing stops at some piece.
    pub open spec fn stops_within(
        self,
        pieces: Seq<Seq<u8>>,
        error: EncodeStoreError,
        counters: MetricMetadataStoreAccounting,
    ) -> bool {
        exists|k: int| #[trigger] self.stops_at(pieces, k, error, counters)
    }
}

proof fn lemma_need_exact(bounds: WriteBounds, len: nat)
    requires
        bounds.reservation.bytes <= usize::MAX,
        bounds.reservation.bytes <= bounds.accounting.transient_bytes,
        len == 0 || bounds.fits(len),
    ensures
        bounds.counters(len).transient_bytes == bounds.accounting.transient_bytes
            - bounds.reservation.bytes + bounds.need(len),
{
}

proof fn lemma_stops_extend(
    bounds: WriteBounds,
    shorter: Seq<Seq<u8>>,
    longer: Seq<Seq<u8>>,
    k: int,
    error: EncodeStoreError,
    counters: MetricMetadataStoreAccounting,
)
    requires
        shorter.len() <= longer.len(),
        shorter == longer.subrange(0, shorter.len() as int),
        bounds.stops_at(shorter, k, error, counters),
    ensures
        bounds.stops_at(longer, k, error, counters),
{
    assert(shorter.subrange(0, k) =~= longer.subrange(0, k));
    assert(shorter.subrange(0, k + 1) =~= longer.subrange(0, k + 1));
    assert forall|j: int| 0 < j <= k implies bounds.fits(
        joined(#[trigger] longer.subrange(0, j)).len(),
    ) by {
        assert(shorter.subrange(0, j) =~= longer.subrange(0, j));
    }
}

/// Adds the pieces that a field of a record is written in.
fn push_field(pieces: &mut Vec<Vec<u8>>, first: bool, name: &str, value: Vec<Vec<u8>>)
    ensures
        views_of(final(pieces)@) == views_of(old(pieces)@) + field_pieces(
            first,
            name@,
            views_of(value@),
        ),
{
    if !first {
        pieces.push(bytes_vec(","));
    }
    pieces.push(bytes_vec("\""));
    pieces.push(bytes_vec(name));
    pieces.push(bytes_vec("\""));
    pieces.push(bytes_vec(":"));
    let ghost until = pieces@;
    let mut rest = value;
    pieces.append(&mut rest);
    proof {
        assert(pieces@ == until + value@);
        assert(views_of(pieces@) =~= views_of(old(pieces)@) + field_pieces(
            first,
            name@,
            views_of(value@),
        ));
    }
}

/// The pieces that a record is written in, after a comma where it is not the first.
fn pieces_of_record(entry: &MetricMetadataRecord, first: bool) -> (pieces: Vec<Vec<u8>>)
    ensures
        views_of(pieces@) == if first {
            record_pieces(entry@)
        } else {
            seq![bytes_of(","@)] + record_pieces(entry@)
        },
{
    let mut pieces: Vec<Vec<u8>> = Vec::new();
    if !first {
        pieces.push(bytes_vec(","));
    }
    let ghost comma = views_of(pieces@);
    let ghost mut done = seq![bytes_of("{"@)];
    pieces.push(bytes_vec("{"));
    proof {
        assert(views_of(pieces@) =~= comma + done);
    }
    push_field(
        &mut pieces,
        true,
        "tenant_id",
        json::string_pieces(entry.tenant_id.as_str()),
    );
    proof {
        let field = field_pieces(true, "tenant_id"@, json::text_pieces(entry@.tenant_id));
        assert(comma + done + field =~= comma + (done + field));
        done = done + field;
    }
    push_field(
        &mut pieces,
        false,
        "metric_family_name",
        json::string_pieces(entry.metric_family_name.as_str()),
    );
    proof {
        let field = field_pieces(false, "metric_family_name"@, json::text_pieces(entry@.metric_family_name));
        assert(comma + done + field =~= comma + (done + field));
        done = done + field;
    }
    push_field(
        &mut pieces,
        false,
        "metric_type",
        single_piece(text::format_i64(entry.metric_type as i64).as_str()),
    );
    proof {
        let field = field_pieces(false, "metric_type"@, seq![bytes_of(text::signed_decimal(entry@.metric_type as int))]);
        assert(comma + done + field =~= comma + (done + field));
        done = done + field;
    }
    push_field(
        &mut pieces,
        false,
        "help",
        json::string_pieces(entry.help.as_str()),
    );
    proof {
        let field = field_pieces(false, "help"@, json::text_pieces(entry@.help));
        assert(comma + done + field =~= comma + (done + field));
        done = done + field;
    }
    push_field(
        &mut pieces,
        false,
        "unit",
        json::string_pieces(entry.unit.as_str()),
    );
    proof {
        let field = field_pieces(false, "unit"@, json::text_pieces(entry@.unit));
        assert(comma + done + field =~= comma + (done + field));
        done = done + field;
    }
    push_field(
        &mut pieces,
        false,
        "updated_unix_ms",
        single_piece(text::format_u64(entry.updated_unix_ms).as_str()),
    );
    proof {
        let field = field_pieces(false, "updated_unix_ms"@, seq![bytes_of(text::decimal(entry@.updated_unix_ms as nat))]);
        assert(comma + done + field =~= comma + (done + field));
        done = done + field;
    }
    let ghost until = views_of(pieces@);
    pieces.push(bytes_vec("}"));
    proof {
        assert(until == comma + done);
        assert(views_of(pieces@) =~= until.push(bytes_of("}"@)));
        assert(comma =~= if first {
            Seq::empty()
        } else {
            seq![bytes_of(","@)]
        });
        assert(done.push(bytes_of("}"@)) =~= record_pieces(entry@));
        assert(views_of(pieces@) =~= comma + record_pieces(entry@));
        assert(first ==> comma + record_pieces(entry@) =~= record_pieces(entry@));
    }
    pieces
}

fn single_piece(value: &str) -> (pieces: Vec<Vec<u8>>)
    ensures
        views_of(pieces@) == seq![bytes_of(value@)],
{
    let mut pieces: Vec<Vec<u8>> = Vec::new();
    pieces.push(bytes_vec(value));
    assert(views_of(pieces@) =~= seq![bytes_of(value@)]);
    pieces
}

/// The records of a table with changes laid over it, in the order of their keys.
pub open spec fn merged_records(
    current: Map<(Seq<char>, Seq<char>), RecordView>,
    staged: Map<(Seq<char>, Seq<char>), RecordView>,
) -> Seq<RecordView> {
    let listed = ordered::listing::<MetricMetadataKey, RecordView>(
        current.union_prefer_right(staged),
    );
    Seq::new(listed.len(), |i: int| listed[i].1)
}

proof fn lemma_stops_mid(
    bounds: WriteBounds,
    pieces: Seq<Seq<u8>>,
    all: Seq<Seq<u8>>,
    error: EncodeStoreError,
    counters: MetricMetadataStoreAccounting,
)
    requires
        pieces.len() <= all.len(),
        pieces == all.subrange(0, pieces.len() as int),
        bounds.stops_within(pieces, error, counters),
    ensures
        bounds.stops_within(all, error, counters),
{
    let k = choose|k: int| #[trigger] bounds.stops_at(pieces, k, error, counters);
    lemma_stops_extend(bounds, pieces, all, k, error, counters);
}

proof fn lemma_list_pieces_prefix(records: Seq<RecordView>, n: int)
    requires
        0 <= n <= records.len(),
    ensures
        list_pieces(records.subrange(0, n)).len() <= list_pieces(records).len(),
        list_pieces(records.subrange(0, n)) == list_pieces(records).subrange(
            0,
            list_pieces(records.subrange(0, n)).len() as int,
        ),
    decreases records.len(),
{
    if n == records.len() {
        assert(records.subrange(0, n) =~= records);
        assert(list_pieces(records).subrange(0, list_pieces(records).len() as int) =~= list_pieces(
            records,
        ));
    } else {
        let rest = records.drop_last();
        lemma_list_pieces_prefix(rest, n);
        assert(rest.subrange(0, n) =~= records.subrange(0, n));
        let short = list_pieces(records.subrange(0, n));
        assert(list_pieces(records).subrange(0, list_pieces(rest).len() as int) =~= list_pieces(
            rest,
        ));
        assert(short =~= list_pieces(records).subrange(0, short.len() as int));
    }
}

/// Writes a table with changes laid over it as one document, within the limits on the file and on
/// working memory. The reservation holds the buffer's memory when the document is complete; where
/// writing stops it holds what was written until then.
pub fn encode_store(
    current: &MetricMetadataEntries,
    staged: &MetricMetadataEntries,
    max_file_bytes: usize,
    transient: &mut MetadataTransientReservation,
    accounting: &mut MetricMetadataStoreAccounting,
) -> (encoded: Result<Vec<u8>, EncodeStoreError>)
    requires
        old(transient).bytes <= usize::MAX,
        old(transient).bytes <= old(accounting).transient_bytes,
    ensures
        ({
            let bounds = WriteBounds {
                max_file_bytes,
                reservation: *old(transient),
                accounting: *old(accounting),
            };
            let records = merged_records(current@, staged@);
            match encoded {
                Ok(bytes) => {
                    &&& bytes@ == store_document(records)
                    &&& bounds.fits(bytes@.len())
                    &&& *final(accounting) == bounds.counters(bytes@.len())
                },
                Err(error) => bounds.stops_within(
                    store_pieces(records),
                    error,
                    *final(accounting),
                ),
            }
        }),
        final(transient).bytes <= final(accounting).transient_bytes,
        final(accounting).transient_bytes - final(transient).bytes == old(
            accounting,
        ).transient_bytes - old(transient).bytes,
{
    let ghost records = merged_records(current@, staged@);
    let ghost all = store_pieces(records);
    let mut writer = BoundedEncodedWriter::new(max_file_bytes, *transient, &*accounting);
    let ghost bounds = writer.bounds@;
    let prefix = single_piece(
        "{\"magic\":\"tsink-metric-metadata-store\",\"schema_version\":1,\"entries\":[",
    );
    match writer.write_pieces(accounting, &prefix) {
        Ok(()) => {},
        Err(error) => {
            proof {
                let done = Seq::<Seq<u8>>::empty() + seq![store_prefix()];
                assert(done =~= all.subrange(0, 1));
                lemma_stops_mid(bounds, done, all, error, *accounting);
            }
            *transient = writer.transient;
            return Err(error);
        },
    }
    let entries = ordered::merged_values(current, staged);
    let mut i: usize = 0;
    proof {
        assert(records.subrange(0, 0) =~= Seq::<RecordView>::empty());
        assert(writer.pieces@ =~= seq![store_prefix()] + list_pieces(records.subrange(0, 0)));
    }
    while i < entries.len()
        invariant
            i <= entries.len(),
            entries@.len() == records.len(),
            forall|p: int| 0 <= p < records.len() ==> (#[trigger] entries@[p])@ == records[p],
            writer.consistent(*accounting),
            writer.bounds@ == bounds,
            bounds.max_file_bytes == max_file_bytes,
            bounds.reservation == *old(transient),
            bounds.accounting == *old(accounting),
            *transient == *old(transient),
            writer.pieces@ == seq![store_prefix()] + list_pieces(records.subrange(0, i as int)),
            all == store_pieces(records),
            records == merged_records(current@, staged@),
        decreases entries.len() - i,
    {
        let ghost next = records.subrange(0, i as int + 1);
        proof {
            lemma_list_pieces_prefix(records, i as int + 1);
            assert(next.drop_last() =~= records.subrange(0, i as int));
            assert(next.last() == entries@[i as int]@);
        }
        let ghost until = seq![store_prefix()] + list_pieces(next);
        proof {
            assert(until =~= all.subrange(0, until.len() as int));
        }
        let pieces = pieces_of_record(entries[i], i == 0);
        let ghost so_far = writer.pieces@;
        proof {
            assert(so_far + views_of(pieces@) =~= until);
        }
        match writer.write_pieces(accounting, &pieces) {
            Ok(()) => {},
            Err(error) => {
                proof {
                    lemma_stops_mid(bounds, until, all, error, *accounting);
                }
                *transient = writer.transient;
                return Err(error);
            },
        }
        i = i + 1;
    }
    proof {
        assert(records.subrange(0, i as int) =~= records);
    }
    let suffix = single_piece("]}\n");
    let ghost so_far = writer.pieces@;
    proof {
        assert(so_far + seq![store_suffix()] =~= all);
    }
    match writer.write_pieces(accounting, &suffix) {
        Ok(()) => {},
        Err(error) => {
            *transient = writer.transient;
            return Err(error);
        },
    }
    proof {
        let len = writer.bytes@.len();
        assert(all.subrange(0, all.len() as int) =~= all);
        assert(bounds.fits(joined(all.subrange(0, all.len() as int)).len()));
        lemma_need_exact(bounds, len);
    }
    *transient = writer.transient;
    Ok(writer.bytes)
}

proof fn lemma_joined_grows(pieces: Seq<Seq<u8>>, n: int)
    requires
        0 <= n <= pieces.len(),
    ensures
        joined(pieces.subrange(0, n)).len() <= joined(pieces).len(),
    decreases pieces.len(),
{
    if n == pieces.len() {
        assert(pieces.subrange(0, n) =~= pieces);
    } else {
        lemma_joined_grows(pieces.drop_last(), n);
        assert(pieces.drop_last().subrange(0, n) =~= pieces.subrange(0, n));
    }
}

/// A document whose writing stops is one that does not fit: what fits is written.
pub proof fn lemma_stopped_document_does_not_fit(bounds: WriteBounds, records: Seq<RecordView>)
    ensures
        forall|error: EncodeStoreError, accounting: MetricMetadataStoreAccounting|
            #[trigger] bounds.stops_within(store_pieces(records), error, accounting)
                ==> !bounds.fits(store_document(records).len()),
{
    let pieces = store_pieces(records);
    assert forall|error: EncodeStoreError, accounting: MetricMetadataStoreAccounting|
        #[trigger] bounds.stops_within(
            pieces,
            error,
            accounting,
        ) implies !bounds.fits(store_document(records).len()) by {
        let k = choose|k: int| #[trigger] bounds.stops_at(pieces, k, error, accounting);
        lemma_joined_grows(pieces, k + 1);
        let reached = joined(pieces.subrange(0, k + 1)).len();
        let whole = joined(pieces).len();
        assert(encoded_bytes(reached) <= encoded_bytes(whole));
        assert(bounds.need(reached) <= bounds.need(whole));
    }
}

} // verus!
