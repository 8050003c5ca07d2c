//! Reading a metadata store back: the limits on its file, its fields, and each of its records.

use vstd::layout;
use vstd::prelude::*;
use vstd::string::*;

use crate::metadata_store::codes;
use crate::metadata_store::codes::MetadataLimit;
use crate::metadata_store::config;
use crate::metadata_store::config::MetricMetadataStoreConfig;
use crate::metadata_store::record;
use crate::metadata_store::record::MetricMetadataKey;
use crate::metadata_store::record::MetricMetadataRecord;
use crate::metadata_store::record::RecordView;
use crate::metadata_store::store::EntriesView;
use crate::metadata_store::store::LoadedMetricMetadataStore;
use crate::metadata_store::store::MetricMetadataStoreState;
use crate::names;
use crate::sizes;
use crate::text;

verus! {

/// The only schema version that is read.
pub const METADATA_STORE_SCHEMA_VERSION: u16 = 1;

/// The bytes that the encoded form of a record may take beside its texts.
pub const METADATA_STARTUP_RECORD_JSON_OVERHEAD_BYTES: usize = 256;

/// A file that was read: how long it was said to be, what was read of it, and whether more came.
pub struct StartupFile {
    pub path: String,
    pub file_len: usize,
    pub raw_len: usize,
    pub raw_capacity: usize,
    pub grew_while_reading: bool,
}

/// A record as it was read from a file: the bytes that it takes there, and what decoding it gave.
pub struct ReadRecord {
    pub encoded_len: usize,
    pub decoded: Result<RecordView, Seq<char>>,
}

/// The fields of a file; each of its records is the text that stands there, not decoded yet.
pub struct PersistedMetricMetadataStore {
    pub magic_valid: bool,
    pub schema_version: u16,
    pub entries_capacity: usize,
    pub entries: Vec<String>,
}

/// The most working memory that reading a file of so many bytes can take before it is parsed.
pub open spec fn preparse_bytes(config: MetricMetadataStoreConfig, file_len: nat) -> nat {
    file_len * 2 + config.max_entries as nat * layout::size_of::<&str>()
        + record::METADATA_ALLOCATION_ALLOWANCE_BYTES as nat * 2 + config::empty_store_bytes()
}

/// Checks the length of a file against the limits before any of it is read, and gives the working
/// memory that reading it can take.
pub fn check_startup_file(config: &MetricMetadataStoreConfig, file_len: usize) -> (peak: Result<
    usize,
    String,
>)
    ensures
        ({
            let bytes = sizes::sat_size(preparse_bytes(*config, file_len as nat) as int);
            if file_len > config.max_durable_file_bytes {
                peak matches Err(message) && message@ == codes::limit_message(
                    MetadataLimit::StartupDurableFile,
                    config.max_durable_file_bytes as nat,
                    file_len as nat,
                )
            } else if bytes > config.max_startup_transient_bytes {
                peak matches Err(message) && message@ == codes::limit_message(
                    MetadataLimit::StartupTransient,
                    config.max_startup_transient_bytes as nat,
                    bytes as nat,
                )
            } else {
                peak == Ok::<usize, String>(bytes)
            }
        }),
{
    if file_len > config.max_durable_file_bytes {
        return Err(
            codes::metadata_limit_message(
                MetadataLimit::StartupDurableFile,
                config.max_durable_file_bytes,
                file_len,
            ),
        );
    }
    let peak = sizes::times_size(file_len, 2).saturating_add(
        sizes::times_size(config.max_entries, core::mem::size_of::<&str>()),
    ).saturating_add(record::METADATA_ALLOCATION_ALLOWANCE_BYTES * 2).saturating_add(
        config::modeled_empty_store_retained_bytes(),
    );
    if peak > config.max_startup_transient_bytes {
        return Err(
            codes::metadata_limit_message(
                MetadataLimit::StartupTransient,
                config.max_startup_transient_bytes,
                peak,
            ),
        );
    }
    Ok(peak)
}

/// The fields that were seen so far.
pub struct PersistedStoreFields {
    pub magic_valid: Option<bool>,
    pub schema_version: Option<u16>,
    pub entries_seen: bool,
}

impl PersistedStoreFields {
    /// No field was seen.
    pub fn new() -> (fields: Self)
        ensures
            fields.magic_valid is None,
            fields.schema_version is None,
            !fields.entries_seen,
    {
        PersistedStoreFields { magic_valid: None, schema_version: None, entries_seen: false }
    }

    /// Takes the magic field. It may stand there once.
    pub fn see_magic(&mut self, magic: &str) -> (seen: Result<(), &'static str>)
        ensures
            match seen {
                Ok(_) => old(self).magic_valid is None && *final(self) == (PersistedStoreFields {
                    magic_valid: Some(magic@ == "tsink-metric-metadata-store"@),
                    ..*old(self)
                }),
                Err(message) => old(self).magic_valid is Some && *final(self) == *old(self)
                    && message@ == "duplicate metric metadata store magic field"@,
            },
    {
        if self.magic_valid.is_some() {
            return Err("duplicate metric metadata store magic field");
        }
        self.magic_valid = Some(names::same_text(magic, "tsink-metric-metadata-store"));
        Ok(())
    }

    /// Takes the schema version. It may stand there once.
    pub fn see_schema_version(&mut self, schema_version: u16) -> (seen: Result<(), &'static str>)
        ensures
            match seen {
                Ok(_) => old(self).schema_version is None && *final(self) == (PersistedStoreFields {
                    schema_version: Some(schema_version),
                    ..*old(self)
                }),
                Err(message) => old(self).schema_version is Some && *final(self) == *old(self)
                    && message@ == "duplicate metric metadata schema_version field"@,
            },
    {
        if self.schema_version.is_some() {
            return Err("duplicate metric metadata schema_version field");
        }
        self.schema_version = Some(schema_version);
        Ok(())
    }

    /// Takes the entries. They may stand there once.
    pub fn see_entries(&mut self) -> (seen: Result<(), &'static str>)
        ensures
            match seen {
                Ok(_) => !old(self).entries_seen && *final(self) == (PersistedStoreFields {
                    entries_seen: true,
                    ..*old(self)
                }),
                Err(message) => old(self).entries_seen && *final(self) == *old(self) && message@
                    == "duplicate metric metadata entries field"@,
            },
    {
        if self.entries_seen {
            return Err("duplicate metric metadata entries field");
        }
        self.entries_seen = true;
        Ok(())
    }

    /// Whether one more entry may be taken, so many being taken.
    pub fn admit_entry(taken: usize, max_entries: usize) -> (admitted: Result<(), &'static str>)
        ensures
            match admitted {
                Ok(_) => taken < max_entries,
                Err(message) => taken >= max_entries && message@
                    == "metric metadata startup entry limit exceeded"@,
            },
    {
        if taken >= max_entries {
            return Err("metric metadata startup entry limit exceeded");
        }
        Ok(())
    }

    /// The magic and the schema version, once every field was seen.
    pub fn finish(&self) -> (fields: Result<(bool, u16), &'static str>)
        ensures
            fields == match (self.magic_valid, self.schema_version) {
                (None, _) => Err::<(bool, u16), &'static str>(
                    "missing metric metadata store magic field",
                ),
                (_, None) => Err("missing metric metadata schema_version field"),
                (Some(magic), Some(version)) => if self.entries_seen {
                    Ok((magic, version))
                } else {
                    Err("missing metric metadata entries field")
                },
            },
    {
        match (self.magic_valid, self.schema_version) {
            (None, _) => Err("missing metric metadata store magic field"),
            (_, None) => Err("missing metric metadata schema_version field"),
            (Some(magic), Some(version)) => if self.entries_seen {
                Ok((magic, version))
            } else {
                Err("missing metric metadata entries field")
            },
        }
    }
}

/// What was read so far: the records, the bytes that they are modeled to retain, and the most
/// working memory that was needed.
pub struct LoadProgress {
    pub entries: EntriesView,
    pub retained_bytes: usize,
    pub peak: usize,
}

/// The working memory that stays taken while records are decoded.
pub open spec fn startup_base(raw_capacity: nat, entries_capacity: nat) -> nat {
    raw_capacity + record::METADATA_ALLOCATION_ALLOWANCE_BYTES as nat + entries_capacity
        * layout::size_of::<&str>() + record::METADATA_ALLOCATION_ALLOWANCE_BYTES as nat
}

/// The longest encoded form that a record may have.
pub open spec fn max_record_json_bytes(config: MetricMetadataStoreConfig) -> usize {
    sizes::sat_size(
        config.max_record_bytes * 6 + METADATA_STARTUP_RECORD_JSON_OVERHEAD_BYTES,
    )
}

/// The working memory that decoding a record takes.
pub open spec fn decode_bytes(base: usize, retained: usize, encoded_len: nat) -> nat {
    base as nat + retained as nat + encoded_len * 2 + layout::size_of::<MetricMetadataKey>()
        + layout::size_of::<MetricMetadataRecord>()
        + record::METADATA_BTREE_ENTRY_ALLOWANCE_BYTES as nat
        + record::METADATA_ALLOCATION_ALLOWANCE_BYTES as nat * 8
}

/// What is read once one more record is taken, `taken` records being taken before it.
pub open spec fn load_step(
    config: MetricMetadataStoreConfig,
    path: Seq<char>,
    base: usize,
    so_far: LoadProgress,
    taken: nat,
    entry: ReadRecord,
) -> Result<LoadProgress, Seq<char>> {
    let decode_peak = sizes::sat_size(
        decode_bytes(base, so_far.retained_bytes, entry.encoded_len as nat) as int,
    );
    if entry.encoded_len > max_record_json_bytes(config) {
        Err(
            codes::limit_message(
                MetadataLimit::StartupRecordEncoded,
                max_record_json_bytes(config) as nat,
                entry.encoded_len as nat,
            ),
        )
    } else if decode_peak > config.max_startup_transient_bytes {
        Err(
            codes::limit_message(
                MetadataLimit::StartupTransient,
                config.max_startup_transient_bytes as nat,
                decode_peak as nat,
            ),
        )
    } else {
        match entry.decoded {
            Err(message) => Err(
                "failed to parse metric metadata record in "@ + path + ": "@ + message,
            ),
            Ok(next) => {
                let input = sizes::sat_size(
                    record::record_input_bytes(
                        next.tenant_id,
                        next.metric_family_name,
                        next.help,
                        next.unit,
                    ) as int,
                );
                let key = (next.tenant_id, next.metric_family_name);
                let retained = sizes::sat_size(
                    so_far.retained_bytes + sizes::sat_size(
                        record::retained_entry_bytes(next) as int,
                    ),
                );
                if input > config.max_record_bytes {
                    Err(
                        codes::limit_message(
                            MetadataLimit::StartupRecordInput,
                            config.max_record_bytes as nat,
                            input as nat,
                        ),
                    )
                } else if so_far.entries.contains_key(key) {
                    Err("metric metadata store "@ + path + " contains a duplicate entry"@)
                } else if sizes::sat_size((taken + 1) as int) > config.max_entries {
                    Err(
                        codes::limit_message(
                            MetadataLimit::StartupEntry,
                            config.max_entries as nat,
                            sizes::sat_size((taken + 1) as int) as nat,
                        ),
                    )
                } else if retained > config.max_retained_bytes {
                    Err(
                        codes::limit_message(
                            MetadataLimit::StartupRetained,
                            config.max_retained_bytes as nat,
                            retained as nat,
                        ),
                    )
                } else {
                    Ok(
                        LoadProgress {
                            entries: so_far.entries.insert(key, next),
                            retained_bytes: retained,
                            peak: sizes::greatest(
                                sizes::greatest(so_far.peak as int, decode_peak as int),
                                sizes::sat_size(base + retained) as int,
                            ) as usize,
                        },
                    )
                }
            },
        }
    }
}

/// What is read of a list of records, or why the first record that cannot be taken cannot.
pub open spec fn load_all(
    config: MetricMetadataStoreConfig,
    path: Seq<char>,
    base: usize,
    start: LoadProgress,
    entries: Seq<ReadRecord>,
) -> Result<LoadProgress, Seq<char>>
    decreases entries.len(),
{
    if entries.len() == 0 {
        Ok(start)
    } else {
        match load_all(config, path, base, start, entries.drop_last()) {
            Err(message) => Err(message),
            Ok(so_far) => load_step(
                config,
                path,
                base,
                so_far,
                (entries.len() - 1) as nat,
                entries.last(),
            ),
        }
    }
}

/// Where reading the records of a file begins.
pub open spec fn load_start(config: MetricMetadataStoreConfig, file: StartupFile, base: usize) -> LoadProgress {
    let empty = config::empty_store_bytes() as usize;
    LoadProgress {
        entries: Map::empty(),
        retained_bytes: empty,
        peak: sizes::greatest(
            sizes::sat_size(preparse_bytes(config, file.file_len as nat) as int) as int,
            sizes::sat_size(base + empty) as int,
        ) as usize,
    }
}

/// The working memory that stays taken while the records of a file are decoded, and where reading
/// them begins, or what is wrong with the file before any record is looked at.
pub open spec fn file_outcome(
    config: MetricMetadataStoreConfig,
    file: StartupFile,
    parsed: Result<PersistedMetricMetadataStore, String>,
) -> Result<(usize, LoadProgress), Seq<char>> {
    let preparse = sizes::sat_size(preparse_bytes(config, file.file_len as nat) as int);
    if file.file_len > config.max_durable_file_bytes {
        Err(
            codes::limit_message(
                MetadataLimit::StartupDurableFile,
                config.max_durable_file_bytes as nat,
                file.file_len as nat,
            ),
        )
    } else if preparse > config.max_startup_transient_bytes {
        Err(
            codes::limit_message(
                MetadataLimit::StartupTransient,
                config.max_startup_transient_bytes as nat,
                preparse as nat,
            ),
        )
    } else if file.raw_len != file.file_len || file.grew_while_reading {
        Err("metric metadata store "@ + file.path@ + " changed size while it was being read"@)
    } else {
        match parsed {
            Err(message) => Err(
                "failed to parse metric metadata store "@ + file.path@ + ": "@ + message@,
            ),
            Ok(persisted) => if !persisted.magic_valid {
                Err("metric metadata store "@ + file.path@ + " has unsupported magic"@)
            } else if persisted.schema_version != METADATA_STORE_SCHEMA_VERSION {
                Err(
                    "metric metadata store "@ + file.path@ + " has unsupported schema version "@
                        + text::decimal(persisted.schema_version as nat),
                )
            } else {
                let base = sizes::sat_size(
                    startup_base(
                        file.raw_capacity as nat,
                        persisted.entries_capacity as nat,
                    ) as int,
                );
                let start = load_start(config, file, base);
                if start.peak > config.max_startup_transient_bytes {
                    Err(
                        codes::limit_message(
                            MetadataLimit::StartupTransient,
                            config.max_startup_transient_bytes as nat,
                            start.peak as nat,
                        ),
                    )
                } else {
                    Ok((base, start))
                }
            },
        }
    }
}

/// What an outcome of decoding a record says.
pub open spec fn decoded_view(outcome: Result<MetricMetadataRecord, String>) -> Result<
    RecordView,
    Seq<char>,
> {
    match outcome {
        Ok(record) => Ok(record@),
        Err(message) => Err(message@),
    }
}

/// Whether decoding the text of a record may give this.
pub open spec fn may_give<D: Fn(&str) -> Result<MetricMetadataRecord, String>>(
    decode: D,
    text: Seq<char>,
    decoded: Result<RecordView, Seq<char>>,
) -> bool {
    exists|given: &str, outcome: Result<MetricMetadataRecord, String>|
        given@ == text && #[trigger] call_ensures(decode, (given,), outcome) && decoded
            == decoded_view(outcome)
}

/// Whether a record of so many bytes may be decoded, so many bytes being retained: it is not too
/// long, and the working memory that decoding it takes is within the limit.
pub open spec fn record_fits(
    config: MetricMetadataStoreConfig,
    base: usize,
    retained: usize,
    encoded_len: nat,
) -> bool {
    &&& encoded_len <= max_record_json_bytes(config)
    &&& sizes::sat_size(decode_bytes(base, retained, encoded_len) as int)
        <= config.max_startup_transient_bytes
}

/// Whether the first records of a file were read like this.
pub open spec fn read_as<D: Fn(&str) -> Result<MetricMetadataRecord, String>>(
    decode: D,
    entries: Seq<String>,
    read: Seq<ReadRecord>,
) -> bool {
    &&& read.len() <= entries.len()
    &&& forall|i: int|
        0 <= i < read.len() ==> (#[trigger] read[i]).encoded_len == text::utf8_len(entries[i]@)
            && may_give(decode, entries[i]@, read[i].decoded)
}

/// Whether reading a file may come so far: nothing is wrong with the file, and its first records
/// were taken.
pub open spec fn reached<D: Fn(&str) -> Result<MetricMetadataRecord, String>>(
    config: MetricMetadataStoreConfig,
    file: StartupFile,
    parsed: Result<PersistedMetricMetadataStore, String>,
    decode: D,
    read: Seq<ReadRecord>,
    so_far: LoadProgress,
) -> bool {
    &&& file_outcome(config, file, parsed) matches Ok((base, start)) && load_all(
        config,
        file.path@,
        base,
        start,
        read,
    ) == Ok::<LoadProgress, Seq<char>>(so_far)
    &&& parsed matches Ok(persisted) && read_as(decode, persisted.entries@, read)
}

/// Whether a text is decoded: it is that of the next record of a file that was read so far, and the
/// record may be decoded.
pub open spec fn decodes_text<D: Fn(&str) -> Result<MetricMetadataRecord, String>>(
    config: MetricMetadataStoreConfig,
    file: StartupFile,
    parsed: Result<PersistedMetricMetadataStore, String>,
    decode: D,
    text: Seq<char>,
) -> bool {
    exists|read: Seq<ReadRecord>, so_far: LoadProgress| #[trigger]
        reached(config, file, parsed, decode, read, so_far) && read.len()
            < parsed->Ok_0.entries@.len() && text == parsed->Ok_0.entries@[read.len() as int]@
            && record_fits(
            config,
            file_outcome(config, file, parsed)->Ok_0.0,
            so_far.retained_bytes,
            text::utf8_len(text),
        )
}

/// What comes of the next record of a file, given what decoding it would give.
pub open spec fn next_step(
    config: MetricMetadataStoreConfig,
    file: StartupFile,
    parsed: Result<PersistedMetricMetadataStore, String>,
    taken: nat,
    so_far: LoadProgress,
    decoded: Result<RecordView, Seq<char>>,
) -> Result<LoadProgress, Seq<char>> {
    load_step(
        config,
        file.path@,
        file_outcome(config, file, parsed)->Ok_0.0,
        so_far,
        taken,
        ReadRecord {
            encoded_len: text::utf8_len(parsed->Ok_0.entries@[taken as int]@) as usize,
            decoded,
        },
    )
}

/// Whether reading a file that has come so far ends like this: every record was taken, or the next
/// one cannot be, for what is wrong with its length or with what decoding it gave.
pub open spec fn ends_as<D: Fn(&str) -> Result<MetricMetadataRecord, String>>(
    config: MetricMetadataStoreConfig,
    file: StartupFile,
    parsed: Result<PersistedMetricMetadataStore, String>,
    decode: D,
    taken: nat,
    so_far: LoadProgress,
    outcome: Result<LoadProgress, Seq<char>>,
) -> bool {
    let entries = parsed->Ok_0.entries@;
    if taken == entries.len() {
        outcome == Ok::<LoadProgress, Seq<char>>(so_far)
    } else {
        &&& outcome is Err
        &&& text::utf8_len(entries[taken as int]@) <= usize::MAX
        &&& exists|decoded: Result<RecordView, Seq<char>>|
            outcome == #[trigger] next_step(config, file, parsed, taken, so_far, decoded) && (
            record_fits(
                config,
                file_outcome(config, file, parsed)->Ok_0.0,
                so_far.retained_bytes,
                text::utf8_len(entries[taken as int]@),
            ) ==> may_give(decode, entries[taken as int]@, decoded))
    }
}

/// Whether a file that was read may come to this: the records that it holds, or what is wrong with
/// it.
pub open spec fn may_load<D: Fn(&str) -> Result<MetricMetadataRecord, String>>(
    config: MetricMetadataStoreConfig,
    file: StartupFile,
    parsed: Result<PersistedMetricMetadataStore, String>,
    decode: D,
    outcome: Result<LoadProgress, Seq<char>>,
) -> bool {
    match file_outcome(config, file, parsed) {
        Err(message) => outcome == Err::<LoadProgress, Seq<char>>(message),
        Ok(_) => exists|read: Seq<ReadRecord>, so_far: LoadProgress| #[trigger]
            reached(config, file, parsed, decode, read, so_far) && ends_as(
                config,
                file,
                parsed,
                decode,
                read.len(),
                so_far,
                outcome,
            ),
    }
}

/// What a load came to.
pub open spec fn load_outcome(loaded: Result<LoadedMetricMetadataStore, String>) -> Result<
    LoadProgress,
    Seq<char>,
> {
    match loaded {
        Ok(store) => Ok(
            LoadProgress {
                entries: store.state.entries@,
                retained_bytes: store.state.retained_bytes,
                peak: store.startup_peak_bytes,
            },
        ),
        Err(message) => Err(message@),
    }
}

/// What was taken so far, with the most working memory that was needed.
spec fn progress(state: MetricMetadataStoreState, peak: usize) -> LoadProgress {
    LoadProgress { entries: state.entries@, retained_bytes: state.retained_bytes, peak }
}

/// Takes one record of a file into a state: `decode` decodes its text, once it was held against the
/// limits.
fn take_entry<D: Fn(&str) -> Result<MetricMetadataRecord, String>>(
    config: &MetricMetadataStoreConfig,
    path: &str,
    base: usize,
    state: &mut MetricMetadataStoreState,
    peak: &mut usize,
    entry: &String,
    decode: &D,
) -> (taken: (Result<(), String>, Ghost<Result<RecordView, Seq<char>>>))
    requires
        forall|text: &str|
            text@ == entry@ && record_fits(
                *config,
                base,
                old(state).retained_bytes,
                text::utf8_len(entry@),
            ) ==> #[trigger] call_requires(*decode, (text,)),
    ensures
        text::utf8_len(entry@) <= usize::MAX,
        record_fits(*config, base, old(state).retained_bytes, text::utf8_len(entry@)) ==> may_give(
            *decode,
            entry@,
            taken.1@,
        ),
        match load_step(
            *config,
            path@,
            base,
            progress(*old(state), *old(peak)),
            old(state).entries.entries().len(),
            ReadRecord { encoded_len: text::utf8_len(entry@) as usize, decoded: taken.1@ },
        ) {
            Ok(next) => {
                &&& taken.0 is Ok
                &&& progress(*final(state), *final(peak)) == next
                &&& record_fits(
                    *config,
                    base,
                    old(state).retained_bytes,
                    text::utf8_len(entry@),
                )
                &&& final(state).entries.entries().len() == old(state).entries.entries().len() + 1
            },
            Err(message) => taken.0 matches Err(text) && text@ == message,
        },
{
    let encoded_len = text::byte_len(entry.as_str());
    let max_json = sizes::times_size(config.max_record_bytes, 6).saturating_add(
        METADATA_STARTUP_RECORD_JSON_OVERHEAD_BYTES,
    );
    if encoded_len > max_json {
        return (
            Err(
                codes::metadata_limit_message(
                    MetadataLimit::StartupRecordEncoded,
                    max_json,
                    encoded_len,
                ),
            ),
            Ghost(Err(Seq::empty())),
        );
    }
    let decode_peak = base.saturating_add(state.retained_bytes).saturating_add(
        sizes::times_size(encoded_len, 2),
    ).saturating_add(core::mem::size_of::<MetricMetadataKey>()).saturating_add(
        core::mem::size_of::<MetricMetadataRecord>(),
    ).saturating_add(record::METADATA_BTREE_ENTRY_ALLOWANCE_BYTES).saturating_add(
        record::METADATA_ALLOCATION_ALLOWANCE_BYTES * 8,
    );
    if decode_peak > config.max_startup_transient_bytes {
        return (
            Err(
                codes::metadata_limit_message(
                    MetadataLimit::StartupTransient,
                    config.max_startup_transient_bytes,
                    decode_peak,
                ),
            ),
            Ghost(Err(Seq::empty())),
        );
    }
    let decoded = decode(entry.as_str());
    let ghost given = decoded_view(decoded);
    proof {
        assert(may_give(*decode, entry@, given));
    }
    let next = match decoded {
        Ok(decoded) => decoded,
        Err(message) => {
            return (
                Err(
                    text::text4(
                        "failed to parse metric metadata record in ",
                        path,
                        ": ",
                        message.as_str(),
                    ),
                ),
                Ghost(given),
            );
        },
    };
    let input = record::modeled_record_input_bytes(
        next.tenant_id.as_str(),
        next.metric_family_name.as_str(),
        next.help.as_str(),
        next.unit.as_str(),
    );
    if input > config.max_record_bytes {
        return (
            Err(
                codes::metadata_limit_message(
                    MetadataLimit::StartupRecordInput,
                    config.max_record_bytes,
                    input,
                ),
            ),
            Ghost(given),
        );
    }
    let key: MetricMetadataKey = (next.tenant_id.clone(), next.metric_family_name.clone());
    if state.entries.get(&key).is_some() {
        return (
            Err(text::text3("metric metadata store ", path, " contains a duplicate entry")),
            Ghost(given),
        );
    }
    let next_count = state.entries.len().saturating_add(1);
    if next_count > config.max_entries {
        return (
            Err(
                codes::metadata_limit_message(
                    MetadataLimit::StartupEntry,
                    config.max_entries,
                    next_count,
                ),
            ),
            Ghost(given),
        );
    }
    let next_retained = state.retained_bytes.saturating_add(
        record::modeled_retained_entry_bytes(&next),
    );
    if next_retained > config.max_retained_bytes {
        return (
            Err(
                codes::metadata_limit_message(
                    MetadataLimit::StartupRetained,
                    config.max_retained_bytes,
                    next_retained,
                ),
            ),
            Ghost(given),
        );
    }
    state.entries.insert(key, next);
    state.retained_bytes = next_retained;
    *peak = sizes::max_size(
        sizes::max_size(*peak, decode_peak),
        base.saturating_add(next_retained),
    );
    (Ok(()), Ghost(given))
}

/// Checks a file that was read, before any of its records is looked at, and gives the fields that
/// it holds, the working memory that stays taken while they are decoded, and the most that was
/// needed so far.
fn check_file(
    config: &MetricMetadataStoreConfig,
    file: &StartupFile,
    parsed: Result<PersistedMetricMetadataStore, String>,
) -> (checked: Result<(PersistedMetricMetadataStore, usize, usize), String>)
    ensures
        match file_outcome(*config, *file, parsed) {
            Ok((base, start)) => checked matches Ok((persisted, found, peak)) && parsed == Ok::<
                PersistedMetricMetadataStore,
                String,
            >(persisted) && found == base && peak == start.peak,
            Err(message) => checked matches Err(text) && text@ == message,
        },
{
    let preparse = match check_startup_file(config, file.file_len) {
        Ok(peak) => peak,
        Err(message) => {
            return Err(message);
        },
    };
    let path = file.path.as_str();
    if file.raw_len != file.file_len || file.grew_while_reading {
        return Err(
            text::text3("metric metadata store ", path, " changed size while it was being read"),
        );
    }
    let persisted = match parsed {
        Ok(fields) => fields,
        Err(message) => {
            return Err(
                text::text4(
                    "failed to parse metric metadata store ",
                    path,
                    ": ",
                    message.as_str(),
                ),
            );
        },
    };
    if !persisted.magic_valid {
        return Err(text::text3("metric metadata store ", path, " has unsupported magic"));
    }
    if persisted.schema_version != METADATA_STORE_SCHEMA_VERSION {
        return Err(
            text::text4(
                "metric metadata store ",
                path,
                " has unsupported schema version ",
                text::format_u64(persisted.schema_version as u64).as_str(),
            ),
        );
    }
    let references = sizes::times_size(
        persisted.entries_capacity,
        core::mem::size_of::<&str>(),
    ).saturating_add(record::METADATA_ALLOCATION_ALLOWANCE_BYTES);
    let base = file.raw_capacity.saturating_add(
        record::METADATA_ALLOCATION_ALLOWANCE_BYTES,
    ).saturating_add(references);
    let peak: usize = sizes::max_size(
        preparse,
        base.saturating_add(config::modeled_empty_store_retained_bytes()),
    );
    if peak > config.max_startup_transient_bytes {
        return Err(
            codes::metadata_limit_message(
                MetadataLimit::StartupTransient,
                config.max_startup_transient_bytes,
                peak,
            ),
        );
    }
    Ok((persisted, base, peak))
}

/// Takes a file that was read for the state of a store, within the limits on the file, on each
/// record, on the records together and on working memory: `decode` decodes the text of a record,
/// and is not called for one that is too long, or that would take too much to decode.
pub fn load_entries<D: Fn(&str) -> Result<MetricMetadataRecord, String>>(
    config: &MetricMetadataStoreConfig,
    file: &StartupFile,
    parsed: Result<PersistedMetricMetadataStore, String>,
    decode: D,
) -> (loaded: Result<LoadedMetricMetadataStore, String>)
    requires
        forall|text: &str|
            decodes_text(*config, *file, parsed, decode, text@) ==> #[trigger] call_requires(
                decode,
                (text,),
            ),
    ensures
        may_load(*config, *file, parsed, decode, load_outcome(loaded)),
        loaded matches Ok(store) ==> store.durable_file_bytes == file.raw_len,
{
    let ghost given = parsed;
    let (persisted, base, first_peak) = match check_file(config, file, parsed) {
        Ok(found) => found,
        Err(message) => {
            return Err(message);
        },
    };
    let path = file.path.as_str();
    let mut state = MetricMetadataStoreState::empty();
    let mut peak: usize = first_peak;
    let ghost mut read: Seq<ReadRecord> = Seq::empty();
    let mut i: usize = 0;
    while i < persisted.entries.len()
        invariant
            i <= persisted.entries.len(),
            i == read.len(),
            path@ == file.path@,
            given == parsed,
            given == Ok::<PersistedMetricMetadataStore, String>(persisted),
            file_outcome(*config, *file, given) is Ok,
            file_outcome(*config, *file, given)->Ok_0.0 == base,
            state.entries.entries().len() == i,
            reached(*config, *file, given, decode, read, progress(state, peak)),
            forall|text: &str|
                decodes_text(*config, *file, given, decode, text@) ==> #[trigger] call_requires(
                    decode,
                    (text,),
                ),
        decreases persisted.entries.len() - i,
    {
        let entry = &persisted.entries[i];
        let ghost so_far = progress(state, peak);
        proof {
            if record_fits(*config, base, state.retained_bytes, text::utf8_len(entry@)) {
                assert(decodes_text(*config, *file, given, decode, entry@));
            }
        }
        let (taken, Ghost(decoded)) = take_entry(
            config,
            path,
            base,
            &mut state,
            &mut peak,
            entry,
            &decode,
        );
        let ghost step = next_step(*config, *file, given, read.len(), so_far, decoded);
        match taken {
            Ok(()) => {},
            Err(message) => {
                proof {
                    assert(reached(*config, *file, given, decode, read, so_far));
                    assert(step == Err::<LoadProgress, Seq<char>>(message@));
                    assert(ends_as(
                        *config,
                        *file,
                        given,
                        decode,
                        read.len(),
                        so_far,
                        Err(message@),
                    ));
                }
                return Err(message);
            },
        }
        proof {
            let next = ReadRecord { encoded_len: text::utf8_len(entry@) as usize, decoded };
            let longer = read.push(next);
            assert(longer.drop_last() =~= read);
            assert(read_as(decode, persisted.entries@, longer));
            assert(reached(*config, *file, given, decode, longer, progress(state, peak)));
            read = longer;
        }
        i = i + 1;
    }
    proof {
        assert(ends_as(
            *config,
            *file,
            given,
            decode,
            read.len(),
            progress(state, peak),
            Ok(progress(state, peak)),
        ));
    }
    Ok(
        LoadedMetricMetadataStore {
            state,
            durable_file_bytes: file.raw_len,
            startup_peak_bytes: peak,
        },
    )
}

} // verus!
