//! The metric metadata store.

use vstd::prelude::*;

use crate::budget;
use crate::budget::QueryBudgetError;
use crate::metadata_store::accounting::MetadataStoreRejection;
use crate::metadata_store::accounting::MetadataTransientReservation;
use crate::metadata_store::accounting::MetricMetadataStoreAccounting;
use crate::metadata_store::codes;
use crate::metadata_store::codes::MetadataLimit;
use crate::metadata_store::codes::MetricMetadataStoreErrorCode;
use crate::metadata_store::config;
use crate::metadata_store::config::MetricMetadataStoreConfig;
use crate::metadata_store::encode;
use crate::metadata_store::encode::EncodeStoreError;
use crate::metadata_store::encode::WriteBounds;
use crate::metadata_store::query;
use crate::metadata_store::query::MetricMetadataQueryError;
use crate::metadata_store::record;
use crate::metadata_store::record::MetricMetadataEntries;
use crate::metadata_store::record::MetricMetadataKey;
use crate::metadata_store::record::MetricMetadataRecord;
use crate::metadata_store::record::NormalizedMetricMetadataUpdate;
use crate::metadata_store::record::RecordView;
use crate::metadata_store::record::UpdateView;
use crate::ordered;
use crate::sizes;
use crate::text;

verus! {

/// What a table says: each record under its tenant and metric family.
pub type EntriesView = Map<(Seq<char>, Seq<char>), RecordView>;

/// The records of a store and the bytes that they are modeled to retain.
pub struct MetricMetadataStoreState {
    pub entries: MetricMetadataEntries,
    pub retained_bytes: usize,
}

impl MetricMetadataStoreState {
    /// A state without records.
    pub fn empty() -> (state: Self)
        ensures
            state.entries@ == Map::<(Seq<char>, Seq<char>), RecordView>::empty(),
            state.entries.entries().len() == 0,
            state.retained_bytes == config::empty_store_bytes(),
    {
        MetricMetadataStoreState {
            entries: MetricMetadataEntries::new(),
            retained_bytes: config::modeled_empty_store_retained_bytes(),
        }
    }
}

/// Why updates were not applied.
#[derive(Debug, PartialEq, Eq)]
pub enum MetadataApplyError {
    /// The store refused; the message carries a stable code.
    Store(String),
    /// The durable form could not be written.
    Persistence(String),
}

/// A limit that was exceeded: what it counts, where it stands, what was needed, and the refusal
/// that it is counted as.
pub struct Refusal {
    pub rejection: MetadataStoreRejection,
    pub dimension: MetadataLimit,
    pub limit: usize,
    pub required: usize,
}

impl Refusal {
    /// The message of the refusal.
    pub open spec fn message(self) -> Seq<char> {
        codes::limit_message(self.dimension, self.limit as nat, self.required as nat)
    }
}

/// The bytes of input and of staging that the first updates of a batch take, or the first limit
/// that one of them exceeds.
pub open spec fn batch_sizes(
    config: MetricMetadataStoreConfig,
    tenant_id: Seq<char>,
    updates: Seq<UpdateView>,
) -> Result<(usize, usize), Refusal>
    decreases updates.len(),
{
    if updates.len() == 0 {
        Ok((0usize, 0usize))
    } else {
        match batch_sizes(config, tenant_id, updates.drop_last()) {
            Err(refusal) => Err(refusal),
            Ok((batch, staging)) => {
                let update = updates.last();
                let input = sizes::sat_size(
                    record::record_input_bytes(
                        tenant_id,
                        update.metric_family_name,
                        update.help,
                        update.unit,
                    ) as int,
                );
                let staged = sizes::sat_size(
                    record::staged_entry_bytes(
                        tenant_id,
                        update.metric_family_name,
                        update.help,
                        update.unit,
                    ) as int,
                );
                if input > config.max_record_bytes {
                    Err(
                        Refusal {
                            rejection: MetadataStoreRejection::Record,
                            dimension: MetadataLimit::RecordInput,
                            limit: config.max_record_bytes,
                            required: input,
                        },
                    )
                } else if batch + input > usize::MAX {
                    Err(
                        Refusal {
                            rejection: MetadataStoreRejection::UpdateBatch,
                            dimension: MetadataLimit::UpdateBatchByte,
                            limit: config.max_update_batch_bytes,
                            required: usize::MAX,
                        },
                    )
                } else if staging + staged > usize::MAX {
                    Err(
                        Refusal {
                            rejection: MetadataStoreRejection::Transient,
                            dimension: MetadataLimit::WriteTransient,
                            limit: config.max_write_transient_bytes,
                            required: usize::MAX,
                        },
                    )
                } else {
                    Ok(((batch + input) as usize, (staging + staged) as usize))
                }
            },
        }
    }
}

/// The staging bytes of a batch, or the limit that the batch exceeds.
pub open spec fn batch_check(
    config: MetricMetadataStoreConfig,
    tenant_id: Seq<char>,
    updates: Seq<UpdateView>,
) -> Result<usize, Refusal> {
    if updates.len() > config.max_update_batch_entries {
        Err(
            Refusal {
                rejection: MetadataStoreRejection::UpdateBatch,
                dimension: MetadataLimit::UpdateBatchEntry,
                limit: config.max_update_batch_entries,
                required: updates.len() as usize,
            },
        )
    } else {
        match batch_sizes(config, tenant_id, updates) {
            Err(refusal) => Err(refusal),
            Ok((batch, staging)) => if batch > config.max_update_batch_bytes {
                Err(
                    Refusal {
                        rejection: MetadataStoreRejection::UpdateBatch,
                        dimension: MetadataLimit::UpdateBatchByte,
                        limit: config.max_update_batch_bytes,
                        required: batch,
                    },
                )
            } else {
                Ok(staging)
            },
        }
    }
}

/// The changes that a batch makes: the records that it replaces or adds, how many of its updates
/// change something, and the time that the next change would get.
pub struct Staged {
    pub records: EntriesView,
    pub changed: nat,
    pub clock: u64,
}

/// The record that an update makes.
pub open spec fn candidate(tenant_id: Seq<char>, update: UpdateView, clock: u64) -> RecordView {
    RecordView {
        tenant_id,
        metric_family_name: update.metric_family_name,
        metric_type: update.metric_type,
        help: update.help,
        unit: update.unit,
        updated_unix_ms: clock,
    }
}

/// The changes that a batch makes to a table. An update that says what is already known changes
/// nothing; each change gets a later time than the one before it.
pub open spec fn stage(
    entries: EntriesView,
    tenant_id: Seq<char>,
    updates: Seq<UpdateView>,
    now: u64,
) -> Staged
    decreases updates.len(),
{
    if updates.len() == 0 {
        Staged { records: Map::empty(), changed: 0, clock: now }
    } else {
        let before = stage(entries, tenant_id, updates.drop_last(), now);
        let update = updates.last();
        let key = (tenant_id, update.metric_family_name);
        let next = candidate(tenant_id, update, before.clock);
        let known = if before.records.contains_key(key) {
            Some(before.records[key])
        } else if entries.contains_key(key) {
            Some(entries[key])
        } else {
            None
        };
        if known is Some && record::same_metadata(known->0, next) {
            before
        } else {
            Staged {
                records: before.records.insert(key, next),
                changed: before.changed + 1,
                clock: sizes::sat64(before.clock + 1),
            }
        }
    }
}

/// The number of entries and the retained bytes once changes, in the order of their keys, are laid
/// over a table.
pub open spec fn final_model(
    entries: EntriesView,
    count: usize,
    retained: usize,
    staged: Seq<((Seq<char>, Seq<char>), RecordView)>,
) -> (usize, usize)
    decreases staged.len(),
{
    if staged.len() == 0 {
        (count, retained)
    } else {
        let (c, r) = final_model(entries, count, retained, staged.drop_last());
        let (key, next) = staged.last();
        let cost = sizes::sat_size(record::retained_entry_bytes(next) as int);
        if entries.contains_key(key) {
            let freed = sizes::sat_size(record::retained_entry_bytes(entries[key]) as int);
            let left = if r >= freed {
                r - freed
            } else {
                0
            };
            (c, sizes::sat_size(left + cost))
        } else {
            (sizes::sat_size(c + 1), sizes::sat_size(r + cost))
        }
    }
}

/// What a store is: its limits, whether it is kept in a file, its records and its counters.
pub struct StoreView {
    pub config: MetricMetadataStoreConfig,
    pub durable: bool,
    pub entries: EntriesView,
    pub retained_bytes: usize,
    pub accounting: MetricMetadataStoreAccounting,
}

/// The number of records of a table.
pub open spec fn entry_count(entries: EntriesView) -> nat {
    ordered::listing::<MetricMetadataKey, RecordView>(entries).len()
}

/// What a batch of updates comes to before anything is written.
pub enum ApplyPlan {
    /// There are no updates.
    Idle,
    /// A limit is exceeded.
    Refused { message: Seq<char>, accounting: MetricMetadataStoreAccounting },
    /// The updates say what is already known.
    Unchanged { accounting: MetricMetadataStoreAccounting },
    /// The changes keep within the limits on the records.
    Write {
        staged: EntriesView,
        changed: nat,
        retained: usize,
        accounting: MetricMetadataStoreAccounting,
        reservation: MetadataTransientReservation,
    },
}

impl StoreView {
    /// The counters with working memory as it was before.
    pub open spec fn settled(
        self,
        accounting: MetricMetadataStoreAccounting,
    ) -> MetricMetadataStoreAccounting {
        MetricMetadataStoreAccounting {
            transient_bytes: self.accounting.transient_bytes,
            ..accounting
        }
    }

    /// The store with other counters.
    pub open spec fn with_accounting(self, accounting: MetricMetadataStoreAccounting) -> Self {
        StoreView { accounting, ..self }
    }

    /// What a batch of updates comes to before anything is written.
    pub open spec fn plan(
        self,
        tenant_id: Seq<char>,
        updates: Seq<UpdateView>,
        now: u64,
    ) -> ApplyPlan {
        if updates.len() == 0 {
            ApplyPlan::Idle
        } else {
            match batch_check(self.config, tenant_id, updates) {
                Err(refusal) => ApplyPlan::Refused {
                    message: refusal.message(),
                    accounting: self.accounting.rejected(refusal.rejection),
                },
                Ok(staging) => {
                    let limit = self.config.max_write_transient_bytes;
                    if !self.accounting.has_room(staging as nat, limit as u64) {
                        ApplyPlan::Refused {
                            message: codes::limit_message(
                                MetadataLimit::WriteTransient,
                                limit as nat,
                                staging as nat,
                            ),
                            accounting: self.accounting.rejected(
                                MetadataStoreRejection::Transient,
                            ),
                        }
                    } else {
                        let working = self.accounting.working(
                            (self.accounting.transient_bytes + staging) as u64,
                        );
                        let staged = stage(self.entries, tenant_id, updates, now);
                        let listed = ordered::listing::<MetricMetadataKey, RecordView>(
                            staged.records,
                        );
                        let (count, retained) = final_model(
                            self.entries,
                            entry_count(self.entries) as usize,
                            self.retained_bytes,
                            listed,
                        );
                        if staged.changed == 0 {
                            ApplyPlan::Unchanged { accounting: self.settled(working) }
                        } else if count > self.config.max_entries {
                            ApplyPlan::Refused {
                                message: codes::limit_message(
                                    MetadataLimit::Entry,
                                    self.config.max_entries as nat,
                                    count as nat,
                                ),
                                accounting: self.settled(
                                    working.rejected(MetadataStoreRejection::Entry),
                                ),
                            }
                        } else if retained > self.config.max_retained_bytes {
                            ApplyPlan::Refused {
                                message: codes::limit_message(
                                    MetadataLimit::Retained,
                                    self.config.max_retained_bytes as nat,
                                    retained as nat,
                                ),
                                accounting: self.settled(
                                    working.rejected(MetadataStoreRejection::Retained),
                                ),
                            }
                        } else {
                            ApplyPlan::Write {
                                staged: staged.records,
                                changed: staged.changed,
                                retained,
                                accounting: working,
                                reservation: MetadataTransientReservation {
                                    bytes: staging as u64,
                                    limit: limit as u64,
                                },
                            }
                        }
                    }
                },
            }
        }
    }

    /// The store once changes are taken over.
    pub open spec fn committed(
        self,
        staged: EntriesView,
        retained: usize,
        accounting: MetricMetadataStoreAccounting,
        durable_file_bytes: nat,
    ) -> Self {
        let entries = self.entries.union_prefer_right(staged);
        StoreView {
            entries,
            retained_bytes: retained,
            accounting: self.settled(
                MetricMetadataStoreAccounting {
                    durable_file_bytes: sizes::sat64(durable_file_bytes as int),
                    ..accounting.published(entry_count(entries), retained as nat)
                },
            ),
            ..self
        }
    }

    /// The limits that the document of a planned change is written within.
    pub open spec fn write_bounds(
        self,
        reservation: MetadataTransientReservation,
        accounting: MetricMetadataStoreAccounting,
    ) -> WriteBounds {
        WriteBounds {
            max_file_bytes: self.config.max_durable_file_bytes,
            reservation,
            accounting,
        }
    }

    /// Whether a document is the one that a batch of updates is written as: the store is kept in a
    /// file, the batch changes something and keeps within every limit, and so does the document.
    pub open spec fn writes(
        self,
        tenant_id: Seq<char>,
        updates: Seq<UpdateView>,
        now: u64,
        document: Seq<u8>,
    ) -> bool {
        &&& self.durable
        &&& match self.plan(tenant_id, updates, now) {
            ApplyPlan::Write { staged, changed, retained, accounting, reservation } => {
                &&& document == encode::store_document(
                    encode::merged_records(self.entries, staged),
                )
                &&& self.write_bounds(reservation, accounting).fits(document.len())
            },
            _ => false,
        }
    }

    /// The bytes that the answer to a query is modeled to hold.
    pub open spec fn answer_bytes(
        self,
        tenant_id: Seq<char>,
        metric: Option<Seq<char>>,
        limit: usize,
    ) -> usize {
        sizes::sat_size(
            query::result_bytes(query::answer(self.entries, tenant_id, metric, limit as nat))
                as int,
        )
    }

    /// The limits that a copy of the document is written within.
    pub open spec fn copy_bounds(self) -> WriteBounds {
        self.write_bounds(
            MetadataTransientReservation {
                bytes: 0,
                limit: self.config.max_write_transient_bytes as u64,
            },
            self.accounting.working(self.accounting.transient_bytes),
        )
    }

    /// Whether a document is the one that is copied elsewhere: it keeps within the limits.
    pub open spec fn copies(self, document: Seq<u8>) -> bool {
        &&& self.accounting.has_room(0, self.config.max_write_transient_bytes as u64)
        &&& document == encode::store_document(query::records_of(self.entries))
        &&& self.copy_bounds().fits(document.len())
    }

    /// The message of a document that could not be written.
    pub open spec fn unwritten_message(self, error: EncodeStoreError) -> Seq<char> {
        match error {
            EncodeStoreError::DurableFileLimit { required } => codes::limit_message(
                MetadataLimit::DurableFile,
                self.config.max_durable_file_bytes as nat,
                required as nat,
            ),
            EncodeStoreError::TransientLimit { required } => codes::limit_message(
                MetadataLimit::WriteTransient,
                self.config.max_write_transient_bytes as nat,
                required as nat,
            ),
        }
    }

    /// The counters after a document could not be written.
    pub open spec fn unwritten_counters(
        self,
        error: EncodeStoreError,
        accounting: MetricMetadataStoreAccounting,
    ) -> MetricMetadataStoreAccounting {
        match error {
            EncodeStoreError::DurableFileLimit { .. } => accounting.rejected(
                MetadataStoreRejection::DurableFile,
            ),
            EncodeStoreError::TransientLimit { .. } => accounting,
        }
    }
}

/// What a list of updates says.
pub open spec fn updates_view(updates: Seq<NormalizedMetricMetadataUpdate>) -> Seq<UpdateView> {
    Seq::new(updates.len(), |i: int| updates[i]@)
}

proof fn lemma_updates_step(updates: Seq<NormalizedMetricMetadataUpdate>, i: int)
    requires
        0 <= i < updates.len(),
    ensures
        updates_view(updates).subrange(0, i + 1).drop_last() == updates_view(updates).subrange(
            0,
            i,
        ),
        updates_view(updates).subrange(0, i + 1).last() == updates[i]@,
{
    assert(updates_view(updates).subrange(0, i + 1).drop_last() =~= updates_view(updates).subrange(
        0,
        i,
    ));
}

proof fn lemma_batch_refusal_stays(
    config: MetricMetadataStoreConfig,
    tenant_id: Seq<char>,
    updates: Seq<UpdateView>,
    n: int,
)
    requires
        0 <= n <= updates.len(),
        batch_sizes(config, tenant_id, updates.subrange(0, n)) is Err,
    ensures
        batch_sizes(config, tenant_id, updates) == batch_sizes(
            config,
            tenant_id,
            updates.subrange(0, n),
        ),
    decreases updates.len(),
{
    if n == updates.len() {
        assert(updates.subrange(0, n) =~= updates);
    } else {
        let rest = updates.drop_last();
        assert(rest.subrange(0, n) =~= updates.subrange(0, n));
        lemma_batch_refusal_stays(config, tenant_id, rest, n);
    }
}

/// The staging bytes of a batch, or the limit that the batch exceeds.
fn check_batch(
    config: &MetricMetadataStoreConfig,
    tenant_id: &str,
    updates: &[NormalizedMetricMetadataUpdate],
) -> (checked: Result<usize, Refusal>)
    ensures
        checked == batch_check(*config, tenant_id@, updates_view(updates@)),
{
    let ghost views = updates_view(updates@);
    if updates.len() > config.max_update_batch_entries {
        return Err(
            Refusal {
                rejection: MetadataStoreRejection::UpdateBatch,
                dimension: MetadataLimit::UpdateBatchEntry,
                limit: config.max_update_batch_entries,
                required: updates.len(),
            },
        );
    }
    let mut batch_bytes: usize = 0;
    let mut staging_bytes: usize = 0;
    let mut i: usize = 0;
    while i < updates.len()
        invariant
            i <= updates.len(),
            views == updates_view(updates@),
            updates.len() <= config.max_update_batch_entries,
            batch_sizes(*config, tenant_id@, views.subrange(0, i as int)) == Ok::<
                (usize, usize),
                Refusal,
            >((batch_bytes, staging_bytes)),
        decreases updates.len() - i,
    {
        let update = &updates[i];
        proof {
            lemma_updates_step(updates@, i as int);
        }
        let ghost reached = views.subrange(0, i as int + 1);
        let record_bytes = record::modeled_record_input_bytes(
            tenant_id,
            update.metric_family_name.as_str(),
            update.help.as_str(),
            update.unit.as_str(),
        );
        if record_bytes > config.max_record_bytes {
            proof {
                lemma_batch_refusal_stays(*config, tenant_id@, views, i as int + 1);
            }
            return Err(
                Refusal {
                    rejection: MetadataStoreRejection::Record,
                    dimension: MetadataLimit::RecordInput,
                    limit: config.max_record_bytes,
                    required: record_bytes,
                },
            );
        }
        let next_batch = match batch_bytes.checked_add(record_bytes) {
            Some(sum) => sum,
            None => {
                proof {
                    lemma_batch_refusal_stays(*config, tenant_id@, views, i as int + 1);
                }
                return Err(
                    Refusal {
                        rejection: MetadataStoreRejection::UpdateBatch,
                        dimension: MetadataLimit::UpdateBatchByte,
                        limit: config.max_update_batch_bytes,
                        required: usize::MAX,
                    },
                );
            },
        };
        let entry_bytes = record::modeled_staged_entry_bytes(
            tenant_id,
            update.metric_family_name.as_str(),
            update.help.as_str(),
            update.unit.as_str(),
        );
        let next_staging = match staging_bytes.checked_add(entry_bytes) {
            Some(sum) => sum,
            None => {
                proof {
                    lemma_batch_refusal_stays(*config, tenant_id@, views, i as int + 1);
                }
                return Err(
                    Refusal {
                        rejection: MetadataStoreRejection::Transient,
                        dimension: MetadataLimit::WriteTransient,
                        limit: config.max_write_transient_bytes,
                        required: usize::MAX,
                    },
                );
            },
        };
        batch_bytes = next_batch;
        staging_bytes = next_staging;
        i = i + 1;
    }
    proof {
        assert(views.subrange(0, i as int) =~= views);
    }
    if batch_bytes > config.max_update_batch_bytes {
        return Err(
            Refusal {
                rejection: MetadataStoreRejection::UpdateBatch,
                dimension: MetadataLimit::UpdateBatchByte,
                limit: config.max_update_batch_bytes,
                required: batch_bytes,
            },
        );
    }
    Ok(staging_bytes)
}

/// The changes that a batch makes to a table, and how many of its updates change something.
fn stage_updates(
    entries: &MetricMetadataEntries,
    tenant_id: &str,
    updates: &[NormalizedMetricMetadataUpdate],
    now_unix_ms: u64,
) -> (staged: (MetricMetadataEntries, usize))
    ensures
        staged.0@ == stage(entries@, tenant_id@, updates_view(updates@), now_unix_ms).records,
        staged.1 == stage(entries@, tenant_id@, updates_view(updates@), now_unix_ms).changed,
{
    let ghost views = updates_view(updates@);
    let mut staged_entries = MetricMetadataEntries::new();
    let mut changed: usize = 0;
    let mut updated_unix_ms: u64 = now_unix_ms;
    let mut i: usize = 0;
    while i < updates.len()
        invariant
            i <= updates.len(),
            views == updates_view(updates@),
            changed <= i,
            ({
                let so_far = stage(
                    entries@,
                    tenant_id@,
                    views.subrange(0, i as int),
                    now_unix_ms,
                );
                &&& staged_entries@ == so_far.records
                &&& changed == so_far.changed
                &&& updated_unix_ms == so_far.clock
            }),
        decreases updates.len() - i,
    {
        let update = &updates[i];
        proof {
            lemma_updates_step(updates@, i as int);
        }
        let key: MetricMetadataKey = (
            text::owned(tenant_id),
            update.metric_family_name.clone(),
        );
        let next = MetricMetadataRecord {
            tenant_id: text::owned(tenant_id),
            metric_family_name: update.metric_family_name.clone(),
            metric_type: update.metric_type.number(),
            help: update.help.clone(),
            unit: update.unit.clone(),
            updated_unix_ms,
        };
        assert(next@ == candidate(tenant_id@, update@, updated_unix_ms));
        let known = match staged_entries.get(&key) {
            Some(existing) => Some(existing),
            None => entries.get(&key),
        };
        let matches_known = match known {
            Some(existing) => record::records_have_same_metadata(existing, &next),
            None => false,
        };
        if !matches_known {
            staged_entries.insert(key, next);
            changed = changed + 1;
            updated_unix_ms = updated_unix_ms.saturating_add(1);
        }
        i = i + 1;
    }
    proof {
        assert(views.subrange(0, i as int) =~= views);
    }
    (staged_entries, changed)
}

/// The number of entries and the retained bytes once changes are laid over a state.
fn modeled_final_state(
    state: &MetricMetadataStoreState,
    staged: &MetricMetadataEntries,
) -> (model: (usize, usize))
    ensures
        model == final_model(
            state.entries@,
            entry_count(state.entries@) as usize,
            state.retained_bytes,
            ordered::listing::<MetricMetadataKey, RecordView>(staged@),
        ),
{
    let mut entry_count_now: usize = state.entries.len();
    let mut retained_bytes: usize = state.retained_bytes;
    let n: usize = staged.len();
    let ghost listed = staged.entries();
    let ghost start = entry_count_now;
    proof {
        ordered::lemma_listing::<MetricMetadataKey, RecordView>(state.entries.entries());
        ordered::lemma_listing::<MetricMetadataKey, RecordView>(listed);
    }
    let mut i: usize = 0;
    while i < n
        invariant
            i <= n,
            n == listed.len(),
            listed == staged.entries(),
            (entry_count_now, retained_bytes) == final_model(
                state.entries@,
                start,
                state.retained_bytes,
                listed.subrange(0, i as int),
            ),
        decreases n - i,
    {
        let next = staged.value_at(i);
        proof {
            assert(listed.subrange(0, i as int + 1).drop_last() =~= listed.subrange(0, i as int));
        }
        match state.entries.get(staged.key_at(i)) {
            Some(existing) => {
                retained_bytes = retained_bytes.saturating_sub(
                    record::modeled_retained_entry_bytes(existing),
                );
            },
            None => {
                entry_count_now = entry_count_now.saturating_add(1);
            },
        }
        retained_bytes = retained_bytes.saturating_add(
            record::modeled_retained_entry_bytes(next),
        );
        i = i + 1;
    }
    proof {
        assert(listed.subrange(0, i as int) =~= listed);
    }
    (entry_count_now, retained_bytes)
}

/// Each entry of a sorted list adds itself to the map of the entries before it.
pub proof fn lemma_keyed_prefix(
    listed: Seq<((Seq<char>, Seq<char>), RecordView)>,
    i: int,
    base: EntriesView,
)
    requires
        ordered::sorted_keys::<MetricMetadataKey, RecordView>(listed),
        0 <= i < listed.len(),
    ensures
        base.union_prefer_right(
            ordered::keyed_map::<MetricMetadataKey, RecordView>(listed.subrange(0, i + 1)),
        ) == base.union_prefer_right(
            ordered::keyed_map::<MetricMetadataKey, RecordView>(listed.subrange(0, i)),
        ).insert(listed[i].0, listed[i].1),
{
    let short = listed.subrange(0, i);
    let long = listed.subrange(0, i + 1);
    let (key, value) = listed[i];
    ordered::lemma_keyed_map_at::<MetricMetadataKey, RecordView>(long, i);
    assert forall|k: (Seq<char>, Seq<char>)|
        ordered::holds_key::<MetricMetadataKey, RecordView>(long, k) == (ordered::holds_key::<
            MetricMetadataKey,
            RecordView,
        >(short, k) || k == key) by {
        if ordered::holds_key::<MetricMetadataKey, RecordView>(long, k) {
            let p = choose|p: int|
                ordered::key_stands::<MetricMetadataKey, RecordView>(long, k, p);
            if p < i {
                assert(ordered::key_stands::<MetricMetadataKey, RecordView>(short, k, p));
            }
        }
        if ordered::holds_key::<MetricMetadataKey, RecordView>(short, k) {
            let p = choose|p: int|
                ordered::key_stands::<MetricMetadataKey, RecordView>(short, k, p);
            assert(ordered::key_stands::<MetricMetadataKey, RecordView>(long, k, p));
        }
        if k == key {
            assert(ordered::key_stands::<MetricMetadataKey, RecordView>(long, k, i));
        }
    }
    assert forall|k: (Seq<char>, Seq<char>)|
        ordered::holds_key::<MetricMetadataKey, RecordView>(short, k)
            && k != key implies ordered::keyed_map::<MetricMetadataKey, RecordView>(long)[k]
        == ordered::keyed_map::<MetricMetadataKey, RecordView>(short)[k] by {
        let p = choose|p: int| ordered::key_stands::<MetricMetadataKey, RecordView>(short, k, p);
        ordered::lemma_keyed_map_at::<MetricMetadataKey, RecordView>(short, p);
        assert(long[p] == short[p]);
        ordered::lemma_keyed_map_at::<MetricMetadataKey, RecordView>(long, p);
    }
    assert(ordered::keyed_map::<MetricMetadataKey, RecordView>(long) =~= ordered::keyed_map::<
        MetricMetadataKey,
        RecordView,
    >(short).insert(key, value));
    assert(base.union_prefer_right(
        ordered::keyed_map::<MetricMetadataKey, RecordView>(long),
    ) =~= base.union_prefer_right(
        ordered::keyed_map::<MetricMetadataKey, RecordView>(short),
    ).insert(key, value));
}

/// Lays changes over a table.
fn take_over(entries: &mut MetricMetadataEntries, staged: &MetricMetadataEntries)
    ensures
        final(entries)@ == old(entries)@.union_prefer_right(staged@),
{
    let n: usize = staged.len();
    let ghost listed = staged.entries();
    let ghost base = entries@;
    let mut i: usize = 0;
    proof {
        assert(ordered::keyed_map::<MetricMetadataKey, RecordView>(listed.subrange(0, 0))
            =~= Map::<(Seq<char>, Seq<char>), RecordView>::empty());
        assert(base.union_prefer_right(
            ordered::keyed_map::<MetricMetadataKey, RecordView>(listed.subrange(0, 0)),
        ) =~= base);
    }
    while i < n
        invariant
            i <= n,
            n == listed.len(),
            listed == staged.entries(),
            ordered::sorted_keys::<MetricMetadataKey, RecordView>(listed),
            entries@ == base.union_prefer_right(
                ordered::keyed_map::<MetricMetadataKey, RecordView>(
                    listed.subrange(0, i as int),
                ),
            ),
        decreases n - i,
    {
        let key: MetricMetadataKey = (
            staged.key_at(i).0.clone(),
            staged.key_at(i).1.clone(),
        );
        let next = staged.value_at(i).clone();
        entries.insert(key, next);
        proof {
            lemma_keyed_prefix(listed, i as int, base);
        }
        i = i + 1;
    }
    proof {
        assert(listed.subrange(0, i as int) =~= listed);
    }
}

/// Changes that keep within the limits on the records, with the working memory set aside for them.
struct StagedBatch {
    records: MetricMetadataEntries,
    changed: usize,
    retained: usize,
    transient: MetadataTransientReservation,
}

/// A bounded store of what is known of metric families.
pub struct MetricMetadataStore {
    config: MetricMetadataStoreConfig,
    durable: bool,
    state: MetricMetadataStoreState,
    accounting: MetricMetadataStoreAccounting,
}

impl View for MetricMetadataStore {
    type V = StoreView;

    closed spec fn view(&self) -> StoreView {
        StoreView {
            config: self.config,
            durable: self.durable,
            entries: self.state.entries@,
            retained_bytes: self.state.retained_bytes,
            accounting: self.accounting,
        }
    }
}

impl MetricMetadataStore {
    /// What applying a batch of updates comes to, with the store before and after it.
    pub open spec fn applied_as<P: FnOnce(&Vec<u8>) -> Result<(), String>>(
        before: StoreView,
        after: StoreView,
        tenant_id: Seq<char>,
        updates: Seq<UpdateView>,
        now: u64,
        persist: P,
        applied: Result<usize, MetadataApplyError>,
    ) -> bool {
        match before.plan(tenant_id, updates, now) {
            ApplyPlan::Idle => applied == Ok::<usize, MetadataApplyError>(0) && after == before,
            ApplyPlan::Refused { message, accounting } => {
                &&& applied matches Err(MetadataApplyError::Store(text)) && text@ == message
                &&& after == before.with_accounting(accounting)
            },
            ApplyPlan::Unchanged { accounting } => {
                &&& applied == Ok::<usize, MetadataApplyError>(0)
                &&& after == before.with_accounting(accounting)
            },
            ApplyPlan::Write { staged, changed, retained, accounting, reservation } => {
                if !before.durable {
                    &&& applied matches Ok(n) && n == changed
                    &&& after == before.committed(staged, retained, accounting, 0)
                } else {
                    Self::written(
                        before,
                        after,
                        applied,
                        persist,
                        staged,
                        changed,
                        retained,
                        WriteBounds {
                            max_file_bytes: before.config.max_durable_file_bytes,
                            reservation,
                            accounting,
                        },
                    )
                }
            },
        }
    }

    /// Lets a batch of updates of one tenant take effect: all of it, or nothing.
    ///
    /// The changes become visible only once `persist` has kept the document that holds them. It is
    /// called for that document alone: not by a store without a file, nor where the batch changes
    /// nothing or is over a limit.
    pub fn apply_updates<P: FnOnce(&Vec<u8>) -> Result<(), String>>(
        &mut self,
        tenant_id: &str,
        updates: &[NormalizedMetricMetadataUpdate],
        now_unix_ms: u64,
        persist: P,
    ) -> (applied: Result<usize, MetadataApplyError>)
        requires
            forall|document: &Vec<u8>|
                old(self)@.writes(tenant_id@, updates_view(updates@), now_unix_ms, document@)
                    ==> #[trigger] call_requires(persist, (document,)),
        ensures
            Self::applied_as(
                old(self)@,
                final(self)@,
                tenant_id@,
                updates_view(updates@),
                now_unix_ms,
                persist,
                applied,
            ),
            final(self)@.accounting.transient_bytes == old(self)@.accounting.transient_bytes,
            applied is Err ==> final(self)@.entries == old(self)@.entries
                && final(self)@.retained_bytes == old(self)@.retained_bytes,
    {
        let ghost before = self@;
        match self.stage_batch(tenant_id, updates, now_unix_ms) {
            Err(message) => Err(MetadataApplyError::Store(message)),
            Ok(None) => Ok(0),
            Ok(Some(batch)) => {
                if !self.durable {
                    let changed = batch.changed;
                    self.commit(batch, 0);
                    Ok(changed)
                } else {
                    let ghost given = batch;
                    let ghost working = self@.accounting;
                    let applied = self.write_batch(batch, persist);
                    proof {
                        let bounds = WriteBounds {
                            max_file_bytes: before.config.max_durable_file_bytes,
                            reservation: given.transient,
                            accounting: working,
                        };
                        assert(Self::written(
                            before,
                            self@,
                            applied,
                            persist,
                            given.records@,
                            given.changed as nat,
                            given.retained,
                            bounds,
                        ));
                    }
                    applied
                }
            },
        }
    }

    /// Checks a batch of updates against the limits on its size and on the records, and sets
    /// working memory aside for it.
    fn stage_batch(
        &mut self,
        tenant_id: &str,
        updates: &[NormalizedMetricMetadataUpdate],
        now_unix_ms: u64,
    ) -> (staged: Result<Option<StagedBatch>, String>)
        ensures
            match old(self)@.plan(tenant_id@, updates_view(updates@), now_unix_ms) {
                ApplyPlan::Idle => staged matches Ok(None) && final(self)@ == old(self)@,
                ApplyPlan::Refused { message, accounting } => {
                    &&& staged matches Err(text) && text@ == message
                    &&& final(self)@ == old(self)@.with_accounting(accounting)
                },
                ApplyPlan::Unchanged { accounting } => {
                    &&& staged matches Ok(None)
                    &&& final(self)@ == old(self)@.with_accounting(accounting)
                },
                ApplyPlan::Write { staged: records, changed, retained, accounting, reservation } => {
                    &&& staged matches Ok(Some(batch)) && batch.records@ == records
                        && batch.changed == changed && batch.retained == retained
                        && batch.transient == reservation
                    &&& final(self)@ == old(self)@.with_accounting(accounting)
                    &&& reservation.bytes <= usize::MAX
                    &&& accounting.transient_bytes == old(self)@.accounting.transient_bytes
                        + reservation.bytes
                },
            },
    {
        if updates.len() == 0 {
            return Ok(None);
        }
        let staging_bytes = match check_batch(&self.config, tenant_id, updates) {
            Ok(bytes) => bytes,
            Err(refusal) => {
                return Err(
                    self.limit_error(
                        refusal.rejection,
                        refusal.dimension,
                        refusal.limit,
                        refusal.required,
                    ),
                );
            },
        };
        let limit = self.config.max_write_transient_bytes;
        let transient = match self.accounting.reserve_transient(staging_bytes, limit) {
            Ok(reservation) => reservation,
            Err(()) => {
                return Err(
                    codes::metadata_limit_message(
                        MetadataLimit::WriteTransient,
                        limit,
                        staging_bytes,
                    ),
                );
            },
        };
        let (staged, changed) = stage_updates(&self.state.entries, tenant_id, updates, now_unix_ms);
        if changed == 0 {
            transient.release(&mut self.accounting);
            return Ok(None);
        }
        let (count, retained) = modeled_final_state(&self.state, &staged);
        if count > self.config.max_entries {
            let message = self.limit_error(
                MetadataStoreRejection::Entry,
                MetadataLimit::Entry,
                self.config.max_entries,
                count,
            );
            transient.release(&mut self.accounting);
            return Err(message);
        }
        if retained > self.config.max_retained_bytes {
            let message = self.limit_error(
                MetadataStoreRejection::Retained,
                MetadataLimit::Retained,
                self.config.max_retained_bytes,
                retained,
            );
            transient.release(&mut self.accounting);
            return Err(message);
        }
        Ok(Some(StagedBatch { records: staged, changed, retained, transient }))
    }

    /// Counts a refusal and gives its message.
    fn limit_error(
        &mut self,
        rejection: MetadataStoreRejection,
        dimension: MetadataLimit,
        limit: usize,
        required: usize,
    ) -> (message: String)
        ensures
            message@ == codes::limit_message(dimension, limit as nat, required as nat),
            final(self)@ == old(self)@.with_accounting(old(self)@.accounting.rejected(rejection)),
    {
        self.accounting.record_rejection(rejection);
        codes::metadata_limit_message(dimension, limit, required)
    }

    /// Takes staged changes over and gives their working memory back.
    fn commit(&mut self, batch: StagedBatch, durable_file_bytes: usize)
        requires
            batch.transient.bytes <= old(self)@.accounting.transient_bytes,
        ensures
            final(self)@ == (StoreView {
                entries: old(self)@.entries.union_prefer_right(batch.records@),
                retained_bytes: batch.retained,
                accounting: MetricMetadataStoreAccounting {
                    durable_file_bytes: sizes::sat64(durable_file_bytes as int),
                    transient_bytes: (old(self)@.accounting.transient_bytes
                        - batch.transient.bytes) as u64,
                    ..old(self)@.accounting.published(
                        entry_count(old(self)@.entries.union_prefer_right(batch.records@)),
                        batch.retained as nat,
                    )
                },
                ..old(self)@
            }),
    {
        take_over(&mut self.state.entries, &batch.records);
        self.state.retained_bytes = batch.retained;
        let held: usize = self.state.entries.len();
        proof {
            ordered::lemma_listing::<MetricMetadataKey, RecordView>(self.state.entries.entries());
        }
        self.accounting.publish_current_state(held, batch.retained);
        self.accounting.durable_file_bytes = durable_file_bytes as u64;
        batch.transient.release(&mut self.accounting);
    }

    /// Writes staged changes out, and takes them over once they are kept.
    fn write_batch<P: FnOnce(&Vec<u8>) -> Result<(), String>>(
        &mut self,
        batch: StagedBatch,
        persist: P,
    ) -> (applied: Result<usize, MetadataApplyError>)
        requires
            forall|document: &Vec<u8>|
                document@ == encode::store_document(
                    encode::merged_records(old(self)@.entries, batch.records@),
                ) && old(self)@.write_bounds(batch.transient, old(self)@.accounting).fits(
                    document@.len(),
                ) ==> #[trigger] call_requires(persist, (document,)),
            batch.transient.bytes <= usize::MAX,
            batch.transient.bytes <= old(self)@.accounting.transient_bytes,
        ensures
            forall|before: StoreView|
                before.with_accounting(old(self)@.accounting) == old(self)@
                    && old(self)@.accounting.transient_bytes == before.accounting.transient_bytes
                    + batch.transient.bytes ==> #[trigger] Self::written(
                    before,
                    final(self)@,
                    applied,
                    persist,
                    batch.records@,
                    batch.changed as nat,
                    batch.retained,
                    WriteBounds {
                        max_file_bytes: old(self)@.config.max_durable_file_bytes,
                        reservation: batch.transient,
                        accounting: old(self)@.accounting,
                    },
                ),
    {
        let mut batch = batch;
        let ghost start = self@;
        let ghost bounds = WriteBounds {
            max_file_bytes: self@.config.max_durable_file_bytes,
            reservation: batch.transient,
            accounting: self@.accounting,
        };
        let ghost records = encode::merged_records(self@.entries, batch.records@);
        match self.encode_entries(&batch.records, &mut batch.transient) {
            Err(message) => {
                proof {
                    encode::lemma_stopped_document_does_not_fit(bounds, records);
                }
                batch.transient.release(&mut self.accounting);
                Err(MetadataApplyError::Store(message))
            },
            Ok(document) => {
                let durable_file_bytes = document.len();
                let outcome = persist(&document);
                assert(call_ensures(persist, (&document,), outcome));
                match outcome {
                    Ok(()) => {
                        let changed = batch.changed;
                        self.commit(batch, durable_file_bytes);
                        Ok(changed)
                    },
                    Err(error) => {
                        self.accounting.record_rejection(MetadataStoreRejection::Persistence);
                        batch.transient.release(&mut self.accounting);
                        Err(MetadataApplyError::Persistence(error))
                    },
                }
            },
        }
    }

    /// What applying updates to a durable store comes to once the changes keep within the limits
    /// on the records: the document does not fit; or it fits and `persist` decides.
    pub open spec fn written<P: FnOnce(&Vec<u8>) -> Result<(), String>>(
        before: StoreView,
        after: StoreView,
        applied: Result<usize, MetadataApplyError>,
        persist: P,
        staged: EntriesView,
        changed: nat,
        retained: usize,
        bounds: WriteBounds,
    ) -> bool {
        let records = encode::merged_records(before.entries, staged);
        let document = encode::store_document(records);
        if bounds.fits(document.len()) {
            exists|kept: Vec<u8>, outcome: Result<(), String>|
                kept@ == document && #[trigger] call_ensures(persist, (&kept,), outcome)
                    && match outcome {
                    Ok(_) => {
                        &&& applied matches Ok(n) && n == changed
                        &&& after == before.committed(
                            staged,
                            retained,
                            bounds.counters(document.len()),
                            document.len(),
                        )
                    },
                    Err(error) => {
                        &&& applied == Err::<usize, MetadataApplyError>(
                            MetadataApplyError::Persistence(error),
                        )
                        &&& after == before.with_accounting(
                            before.settled(
                                bounds.counters(document.len()).rejected(
                                    MetadataStoreRejection::Persistence,
                                ),
                            ),
                        )
                    },
                }
        } else {
            exists|error: EncodeStoreError, accounting: MetricMetadataStoreAccounting|
                #[trigger] bounds.stops_within(
                    encode::store_pieces(records),
                    error,
                    accounting,
                ) && {
                    &&& applied matches Err(MetadataApplyError::Store(text)) && text@
                        == before.unwritten_message(error)
                    &&& after == before.with_accounting(
                        before.settled(before.unwritten_counters(error, accounting)),
                    )
                }
        }
    }

    /// The document that holds the records with changes laid over them.
    fn encode_entries(
        &mut self,
        staged: &MetricMetadataEntries,
        transient: &mut MetadataTransientReservation,
    ) -> (encoded: Result<Vec<u8>, String>)
        requires
            old(transient).bytes <= usize::MAX,
            old(transient).bytes <= old(self)@.accounting.transient_bytes,
        ensures
            ({
                let before = old(self)@;
                let bounds = WriteBounds {
                    max_file_bytes: before.config.max_durable_file_bytes,
                    reservation: *old(transient),
                    accounting: before.accounting,
                };
                let records = encode::merged_records(before.entries, staged@);
                match encoded {
                    Ok(document) => {
                        &&& document@ == encode::store_document(records)
                        &&& bounds.fits(document@.len())
                        &&& final(self)@ == before.with_accounting(
                            bounds.counters(document@.len()),
                        )
                    },
                    Err(message) => exists|
                        error: EncodeStoreError,
                        accounting: MetricMetadataStoreAccounting,
                    |
                        #[trigger] bounds.stops_within(
                            encode::store_pieces(records),
                            error,
                            accounting,
                        ) && message@ == before.unwritten_message(error) && final(self)@
                            == before.with_accounting(before.unwritten_counters(error, accounting)),
                }
            }),
            final(transient).bytes <= final(self)@.accounting.transient_bytes,
            final(self)@.accounting.transient_bytes - final(transient).bytes == old(
                self,
            )@.accounting.transient_bytes - old(transient).bytes,
    {
        let ghost bounds = WriteBounds {
            max_file_bytes: self@.config.max_durable_file_bytes,
            reservation: *transient,
            accounting: self@.accounting,
        };
        let ghost records = encode::merged_records(self@.entries, staged@);
        let encoded = encode::encode_store(
            &self.state.entries,
            staged,
            self.config.max_durable_file_bytes,
            transient,
            &mut self.accounting,
        );
        let ghost counters = self.accounting;
        match encoded {
            Ok(document) => Ok(document),
            Err(error) => {
                assert(bounds.stops_within(encode::store_pieces(records), error, counters));
                match error {
                    EncodeStoreError::DurableFileLimit { required } => Err(
                        self.limit_error(
                            MetadataStoreRejection::DurableFile,
                            MetadataLimit::DurableFile,
                            self.config.max_durable_file_bytes,
                            required,
                        ),
                    ),
                    EncodeStoreError::TransientLimit { required } => Err(
                        codes::metadata_limit_message(
                            MetadataLimit::WriteTransient,
                            self.config.max_write_transient_bytes,
                            required,
                        ),
                    ),
                }
            },
        }
    }
}

/// A state that was read back, with the bytes of its file and the most working memory that
/// reading it took.
pub struct LoadedMetricMetadataStore {
    pub state: MetricMetadataStoreState,
    pub durable_file_bytes: usize,
    pub startup_peak_bytes: usize,
}

/// Whether a number of bytes is over a limit.
pub open spec fn over(bytes: usize, limit: usize) -> bool {
    bytes > limit
}

/// Records whose memory is charged until they are released.
#[derive(Debug)]
#[must_use]
pub struct AccountedMetricMetadataQueryResult {
    records: Vec<MetricMetadataRecord>,
    accounted_bytes: u64,
}

impl AccountedMetricMetadataQueryResult {
    /// What the records say.
    pub closed spec fn record_views(&self) -> Seq<RecordView> {
        query::record_views(self.records@)
    }

    /// The bytes that are charged for the records.
    pub closed spec fn charged(&self) -> u64 {
        self.accounted_bytes
    }

    /// The records.
    #[must_use]
    pub fn records(&self) -> (records: &[MetricMetadataRecord])
        ensures
            query::record_views(records@) == self.record_views(),
    {
        self.records.as_slice()
    }

    /// The bytes that are charged for the records.
    #[must_use]
    pub fn reserved_memory_bytes(&self) -> (bytes: u64)
        ensures
            bytes == self.charged(),
    {
        self.accounted_bytes
    }
}

/// What the store counts, and the limits that it keeps.
#[derive(Debug, Clone, Copy, PartialEq, Eq)]
pub struct MetricMetadataStoreMetricsSnapshot {
    pub limits: MetricMetadataStoreConfig,
    pub entries: u64,
    pub retained_bytes: u64,
    pub peak_retained_bytes: u64,
    pub durable_file_bytes: u64,
    pub transient_bytes: u64,
    pub peak_transient_bytes: u64,
    pub query_result_bytes: u64,
    pub peak_query_result_bytes: u64,
    pub rejections_total: u64,
    pub entry_rejections_total: u64,
    pub record_rejections_total: u64,
    pub update_batch_rejections_total: u64,
    pub retained_rejections_total: u64,
    pub durable_file_rejections_total: u64,
    pub transient_rejections_total: u64,
    pub query_rejections_total: u64,
    pub persistence_rejections_total: u64,
}

impl StoreView {
    /// The store that starts out with a state that was read back.
    pub open spec fn opened(
        config: MetricMetadataStoreConfig,
        durable: bool,
        loaded: LoadedMetricMetadataStore,
    ) -> Self {
        let published = MetricMetadataStoreAccounting::zero().published(
            entry_count(loaded.state.entries@),
            loaded.state.retained_bytes as nat,
        );
        StoreView {
            config,
            durable,
            entries: loaded.state.entries@,
            retained_bytes: loaded.state.retained_bytes,
            accounting: MetricMetadataStoreAccounting {
                durable_file_bytes: sizes::sat64(loaded.durable_file_bytes as int),
                peak_transient_bytes: sizes::sat64(loaded.startup_peak_bytes as int),
                ..published
            },
        }
    }

    /// The store without records and without a file.
    pub open spec fn fresh(config: MetricMetadataStoreConfig) -> Self {
        StoreView {
            config,
            durable: false,
            entries: Map::empty(),
            retained_bytes: config::empty_store_bytes() as usize,
            accounting: MetricMetadataStoreAccounting::zero().published(
                0,
                config::empty_store_bytes(),
            ),
        }
    }

    /// The store once a query was refused.
    pub open spec fn query_refused(self) -> Self {
        self.with_accounting(self.accounting.rejected(MetadataStoreRejection::Query))
    }
}

impl MetricMetadataStore {
    /// A store without a file, with the limits that hold where nothing else was set.
    pub fn in_memory() -> (store: Self)
        ensures
            store@ == StoreView::fresh(config::default_config()),
    {
        let state = MetricMetadataStoreState::empty();
        let mut accounting = MetricMetadataStoreAccounting::default();
        accounting.publish_current_state(0, state.retained_bytes);
        MetricMetadataStore {
            config: MetricMetadataStoreConfig::default(),
            durable: false,
            state,
            accounting,
        }
    }

    /// A store without a file, with the given limits.
    pub fn in_memory_with_config(config: MetricMetadataStoreConfig) -> (opened: Result<Self, String>)
        ensures
            match opened {
                Ok(store) => config.valid() && store@ == StoreView::fresh(config),
                Err(message) => config.complaint() == Some(message@),
            },
    {
        match config.validate() {
            Err(message) => Err(message),
            Ok(checked) => {
                let state = MetricMetadataStoreState::empty();
                let mut accounting = MetricMetadataStoreAccounting::default();
                accounting.publish_current_state(0, state.retained_bytes);
                Ok(MetricMetadataStore { config: checked, durable: false, state, accounting })
            },
        }
    }

    /// A store with the given limits and the state that was read back for it.
    pub fn open_with_config(
        config: MetricMetadataStoreConfig,
        durable: bool,
        loaded: LoadedMetricMetadataStore,
    ) -> (opened: Result<Self, String>)
        ensures
            match opened {
                Ok(store) => config.valid() && store@ == StoreView::opened(config, durable, loaded),
                Err(message) => config.complaint() == Some(message@),
            },
    {
        match config.validate() {
            Err(message) => Err(message),
            Ok(checked) => {
                let mut accounting = MetricMetadataStoreAccounting::default();
                let held: usize = loaded.state.entries.len();
                proof {
                    ordered::lemma_listing::<MetricMetadataKey, RecordView>(
                        loaded.state.entries.entries(),
                    );
                }
                accounting.publish_current_state(held, loaded.state.retained_bytes);
                accounting.observe_startup_peak(loaded.startup_peak_bytes);
                accounting.durable_file_bytes = loaded.durable_file_bytes as u64;
                Ok(
                    MetricMetadataStore {
                        config: checked,
                        durable,
                        state: loaded.state,
                        accounting,
                    },
                )
            },
        }
    }

    /// The limits of the store.
    #[must_use]
    pub fn config(&self) -> (config: MetricMetadataStoreConfig)
        ensures
            config == self@.config,
    {
        self.config
    }

    /// The stable code that a failure to apply updates carries. A failure to write the durable
    /// form carries none.
    #[must_use]
    pub fn classify_apply_error(error: &MetadataApplyError) -> (code: Option<
        MetricMetadataStoreErrorCode,
    >)
        ensures
            code == match *error {
                MetadataApplyError::Store(message) => codes::carried_code(message@),
                MetadataApplyError::Persistence(_) => None,
            },
    {
        match error {
            MetadataApplyError::Store(message) => codes::code_carried_by(message.as_str()),
            MetadataApplyError::Persistence(_) => None,
        }
    }

    /// The records of a tenant, or of one of its metric families.
    pub fn query(
        &mut self,
        tenant_id: &str,
        metric: Option<&str>,
        limit: usize,
    ) -> (found: Result<Vec<MetricMetadataRecord>, String>)
        ensures
            Self::caller_owned_answer(
                old(self)@,
                final(self)@,
                tenant_id@,
                query::opt_str(metric),
                limit,
                found,
            ),
    {
        self.query_caller_owned(tenant_id, metric, limit)
    }

    /// What a query gives whose records belong to the caller at once: a query for more records
    /// than the store gives, or for more bytes, is refused.
    pub open spec fn caller_owned_answer(
        before: StoreView,
        after: StoreView,
        tenant_id: Seq<char>,
        metric: Option<Seq<char>>,
        limit: usize,
        found: Result<Vec<MetricMetadataRecord>, String>,
    ) -> bool {
        let answer = query::answer(before.entries, tenant_id, metric, limit as nat);
        let bytes = sizes::sat_size(query::result_bytes(answer) as int);
        if limit > before.config.max_query_records {
            &&& found matches Err(message) && message@ == codes::limit_message(
                MetadataLimit::QueryRecord,
                before.config.max_query_records as nat,
                limit as nat,
            )
            &&& after == before.query_refused()
        } else if bytes > before.config.max_query_result_bytes {
            &&& found matches Err(message) && message@ == codes::limit_message(
                MetadataLimit::QueryResult,
                before.config.max_query_result_bytes as nat,
                bytes as nat,
            )
            &&& after == before.query_refused()
        } else {
            &&& found matches Ok(records) && query::record_views(records@) == answer
            &&& after == before
        }
    }

    /// The records of a tenant, or of one of its metric families, as the caller's own.
    pub fn query_caller_owned(
        &mut self,
        tenant_id: &str,
        metric: Option<&str>,
        limit: usize,
    ) -> (found: Result<Vec<MetricMetadataRecord>, String>)
        ensures
            Self::caller_owned_answer(
                old(self)@,
                final(self)@,
                tenant_id@,
                query::opt_str(metric),
                limit,
                found,
            ),
    {
        if limit > self.config.max_query_records {
            return Err(
                self.limit_error(
                    MetadataStoreRejection::Query,
                    MetadataLimit::QueryRecord,
                    self.config.max_query_records,
                    limit,
                ),
            );
        }
        let unbounded = || -> (outcome: Result<(), QueryBudgetError>)
            ensures
                outcome is Ok,
            { Ok(()) };
        let modeled = query::modeled_query_result(
            &self.state.entries,
            tenant_id,
            metric,
            limit,
            &unbounded,
        );
        assert(budget::never_stops(unbounded));
        let (count, bytes) = match modeled {
            Ok(model) => model,
            Err(_) => {
                assert(false);
                (0, 0)
            },
        };
        if bytes > self.config.max_query_result_bytes {
            return Err(
                self.limit_error(
                    MetadataStoreRejection::Query,
                    MetadataLimit::QueryResult,
                    self.config.max_query_result_bytes,
                    bytes,
                ),
            );
        }
        match query::clone_query_records(
            &self.state.entries,
            tenant_id,
            metric,
            count,
            limit,
            &unbounded,
        ) {
            Ok(records) => Ok(records),
            Err(_) => {
                assert(false);
                Ok(Vec::new())
            },
        }
    }

    /// The records of a tenant, or of one of its metric families, with their memory charged to a
    /// query budget: `checkpoint` asks whether to go on, `reserve` charges the modeled bytes before
    /// a record is copied, `resize` charges what the copies hold, and `observe` notes how many
    /// there are.
    pub fn query_with_execution_result<
        C: Fn() -> Result<(), QueryBudgetError>,
        R: FnOnce(u64) -> Result<(), QueryBudgetError>,
        S: FnOnce(u64) -> Result<(), QueryBudgetError>,
        O: FnOnce(u64) -> Result<(), QueryBudgetError>,
    >(
        &mut self,
        tenant_id: &str,
        metric: Option<&str>,
        limit: usize,
        checkpoint: &C,
        reserve: R,
        resize: S,
        observe: O,
    ) -> (found: Result<AccountedMetricMetadataQueryResult, MetricMetadataQueryError>)
        requires
            call_requires(*checkpoint, ()),
            forall|bytes: u64|
                budget::may_pass(*checkpoint) && limit <= old(self)@.config.max_query_records
                    && bytes == old(self)@.answer_bytes(tenant_id@, query::opt_str(metric), limit)
                    && bytes <= old(self)@.config.max_query_result_bytes
                    ==> #[trigger] call_requires(reserve, (bytes,)),
            forall|bytes: u64|
                budget::may_pass(*checkpoint) && old(self)@.answer_bytes(
                    tenant_id@,
                    query::opt_str(metric),
                    limit,
                ) <= bytes
                    && bytes <= old(self)@.config.max_query_result_bytes && budget::granted(
                    reserve,
                    old(self)@.answer_bytes(tenant_id@, query::opt_str(metric), limit) as u64,
                ) ==> #[trigger] call_requires(resize, (bytes,)),
            forall|count: u64|
                budget::may_pass(*checkpoint) && count == query::answer(
                    old(self)@.entries,
                    tenant_id@,
                    query::opt_str(metric),
                    limit as nat,
                ).len() as u64 ==> #[trigger] call_requires(observe, (count,)),
        ensures
            ({
                let before = old(self)@;
                let answer = query::answer(
                    before.entries,
                    tenant_id@,
                    query::opt_str(metric),
                    limit as nat,
                );
                let bytes = sizes::sat_size(query::result_bytes(answer) as int);
                &&& match found {
                    Ok(result) => {
                        &&& limit <= before.config.max_query_records
                        &&& bytes <= before.config.max_query_result_bytes
                        &&& result.record_views() == answer
                        &&& bytes <= result.charged() <= before.config.max_query_result_bytes
                        &&& budget::granted(reserve, bytes as u64)
                        &&& budget::granted(resize, result.charged())
                        &&& budget::granted(observe, answer.len() as u64)
                        &&& final(self)@ == before.with_accounting(
                            before.accounting.retaining(result.charged()),
                        )
                    },
                    Err(_) => final(self)@ == before.query_refused(),
                }
                &&& found is Err ==> !(found->Err_0 is StoreUnavailable) && !(
                found->Err_0 is Allocation)
                &&& found is Err && found->Err_0 is RecordLimit ==> limit
                    > before.config.max_query_records
                &&& found is Err && found->Err_0 is ResultLimit ==> exists|held: usize|
                    bytes <= held && #[trigger] over(held, before.config.max_query_result_bytes)
                &&& budget::never_stops(*checkpoint) && limit > before.config.max_query_records
                    ==> found is Err && found->Err_0 is RecordLimit
                &&& budget::never_stops(*checkpoint) && limit <= before.config.max_query_records
                    && bytes > before.config.max_query_result_bytes ==> found is Err
                    && found->Err_0 is ResultLimit
                &&& budget::never_stops(*checkpoint) && budget::always_grants(reserve)
                    && budget::always_grants(resize) && budget::always_grants(observe) && limit
                    <= before.config.max_query_records ==> found is Ok
                    || found->Err_0 is ResultLimit
                &&& found is Err && found->Err_0 is Budget ==> {
                    let error = found->Err_0->Budget_0;
                    ||| budget::may_stop(*checkpoint, error)
                    ||| budget::refused(reserve, bytes as u64, error)
                    ||| exists|held: u64| bytes <= held && #[trigger] budget::refused(
                        resize,
                        held,
                        error,
                    )
                    ||| budget::refused(observe, answer.len() as u64, error)
                }
                &&& budget::always_stops(*checkpoint) ==> (found matches Err(
                    MetricMetadataQueryError::Budget(error),
                ) && budget::may_stop(*checkpoint, error))
            }),
    {
        match checkpoint() {
            Ok(()) => {},
            Err(error) => {
                self.accounting.record_rejection(MetadataStoreRejection::Query);
                return Err(MetricMetadataQueryError::Budget(error));
            },
        }
        if limit > self.config.max_query_records {
            self.accounting.record_rejection(MetadataStoreRejection::Query);
            return Err(MetricMetadataQueryError::RecordLimit);
        }
        let (count, bytes) = match query::modeled_query_result(
            &self.state.entries,
            tenant_id,
            metric,
            limit,
            checkpoint,
        ) {
            Ok(model) => model,
            Err(error) => {
                self.accounting.record_rejection(MetadataStoreRejection::Query);
                return Err(MetricMetadataQueryError::Budget(error));
            },
        };
        if bytes > self.config.max_query_result_bytes {
            proof {
                assert(over(bytes, old(self)@.config.max_query_result_bytes));
            }
            self.accounting.record_rejection(MetadataStoreRejection::Query);
            return Err(MetricMetadataQueryError::ResultLimit);
        }
        let reserved = reserve(bytes as u64);
        assert(call_ensures(reserve, (bytes as u64,), reserved));
        match reserved {
            Ok(()) => {},
            Err(error) => {
                self.accounting.record_rejection(MetadataStoreRejection::Query);
                return Err(MetricMetadataQueryError::Budget(error));
            },
        }
        let records = match query::clone_query_records(
            &self.state.entries,
            tenant_id,
            metric,
            count,
            limit,
            checkpoint,
        ) {
            Ok(records) => records,
            Err(error) => {
                self.accounting.record_rejection(MetadataStoreRejection::Query);
                return Err(MetricMetadataQueryError::Budget(error));
            },
        };
        let retained = query::modeled_owned_query_result_bytes(&records);
        let found = self.keep_query_result(records, retained, checkpoint, resize, observe);
        proof {
            if retained > old(self)@.config.max_query_result_bytes {
                assert(over(retained, old(self)@.config.max_query_result_bytes));
            }
        }
        found
    }

    /// Holds the records of a query, which are measured to hold a number of bytes, against the
    /// limit on a query result, and charges them to a query budget: `resize` charges the bytes,
    /// `observe` notes how many records there are, and `checkpoint` asks whether to go on.
    pub fn keep_query_result<
        C: Fn() -> Result<(), QueryBudgetError>,
        S: FnOnce(u64) -> Result<(), QueryBudgetError>,
        O: FnOnce(u64) -> Result<(), QueryBudgetError>,
    >(
        &mut self,
        records: Vec<MetricMetadataRecord>,
        retained: usize,
        checkpoint: &C,
        resize: S,
        observe: O,
    ) -> (found: Result<AccountedMetricMetadataQueryResult, MetricMetadataQueryError>)
        requires
            call_requires(*checkpoint, ()),
            retained <= old(self)@.config.max_query_result_bytes ==> call_requires(
                resize,
                (retained as u64,),
            ),
            budget::granted(resize, retained as u64) ==> call_requires(
                observe,
                (records@.len() as u64,),
            ),
        ensures
            match found {
                Ok(result) => {
                    &&& retained <= old(self)@.config.max_query_result_bytes
                    &&& result.record_views() == query::record_views(records@)
                    &&& result.charged() == retained
                    &&& budget::granted(resize, retained as u64)
                    &&& budget::granted(observe, records@.len() as u64)
                    &&& final(self)@ == old(self)@.with_accounting(
                        old(self)@.accounting.retaining(retained as u64),
                    )
                },
                Err(error) => {
                    &&& final(self)@ == old(self)@.query_refused()
                    &&& if retained > old(self)@.config.max_query_result_bytes {
                        error is ResultLimit
                    } else {
                        error matches MetricMetadataQueryError::Budget(refusal) && {
                            ||| budget::refused(resize, retained as u64, refusal)
                            ||| budget::granted(resize, retained as u64) && budget::refused(
                                observe,
                                records@.len() as u64,
                                refusal,
                            )
                            ||| budget::may_stop(*checkpoint, refusal)
                        }
                    }
                },
            },
            retained <= old(self)@.config.max_query_result_bytes && budget::never_stops(*checkpoint)
                && budget::always_grants(resize) && budget::always_grants(observe) ==> found is Ok,
            budget::always_stops(*checkpoint) ==> found is Err,
            retained <= old(self)@.config.max_query_result_bytes && budget::always_stops(*checkpoint)
                && budget::always_grants(resize) && budget::always_grants(observe) ==> (
            found matches Err(MetricMetadataQueryError::Budget(error)) && budget::may_stop(
                *checkpoint,
                error,
            )),
    {
        if retained > self.config.max_query_result_bytes {
            self.accounting.record_rejection(MetadataStoreRejection::Query);
            return Err(MetricMetadataQueryError::ResultLimit);
        }
        let resized = resize(retained as u64);
        assert(call_ensures(resize, (retained as u64,), resized));
        match resized {
            Ok(()) => {},
            Err(error) => {
                assert(budget::refused(resize, retained as u64, error));
                self.accounting.record_rejection(MetadataStoreRejection::Query);
                return Err(MetricMetadataQueryError::Budget(error));
            },
        }
        let observed = observe(records.len() as u64);
        assert(call_ensures(observe, (records@.len() as u64,), observed));
        match observed {
            Ok(()) => {},
            Err(error) => {
                self.accounting.record_rejection(MetadataStoreRejection::Query);
                return Err(MetricMetadataQueryError::Budget(error));
            },
        }
        match checkpoint() {
            Ok(()) => {},
            Err(error) => {
                self.accounting.record_rejection(MetadataStoreRejection::Query);
                return Err(MetricMetadataQueryError::Budget(error));
            },
        }
        self.accounting.retain_query_bytes(retained as u64);
        Ok(AccountedMetricMetadataQueryResult { records, accounted_bytes: retained as u64 })
    }

    /// Gives the memory of a query result back.
    pub fn release_query_result(&mut self, result: AccountedMetricMetadataQueryResult)
        ensures
            final(self)@ == old(self)@.with_accounting(
                (MetricMetadataStoreAccounting {
                    query_result_bytes: old(self)@.accounting.query_result_bytes.wrapping_sub(
                        result.charged(),
                    ),
                    ..old(self)@.accounting
                }),
            ),
    {
        self.accounting.release_query_bytes(result.accounted_bytes);
    }

    /// Hands the document that holds all records to `write`, within the limits on the file and on
    /// working memory; where it is over one of them, `write` is not called.
    pub fn snapshot_into<W: FnOnce(&Vec<u8>) -> Result<(), String>>(&mut self, write: W) -> (done:
        Result<(), String>)
        requires
            forall|document: &Vec<u8>|
                old(self)@.copies(document@) ==> #[trigger] call_requires(write, (document,)),
        ensures
            Self::snapshot_outcome(old(self)@, final(self)@, done, write),
            final(self)@.accounting.transient_bytes == old(self)@.accounting.transient_bytes,
            final(self)@.entries == old(self)@.entries,
    {
        let limit = self.config.max_write_transient_bytes;
        let mut transient = match self.accounting.reserve_transient(0, limit) {
            Ok(reservation) => reservation,
            Err(()) => {
                return Err(
                    codes::metadata_limit_message(MetadataLimit::SnapshotTransient, limit, 0),
                );
            },
        };
        let ghost bounds = WriteBounds {
            max_file_bytes: self@.config.max_durable_file_bytes,
            reservation: transient,
            accounting: self@.accounting,
        };
        let none = MetricMetadataEntries::new();
        let ghost records = query::records_of(self@.entries);
        proof {
            assert(self@.entries.union_prefer_right(none@) =~= self@.entries);
            assert(encode::merged_records(self@.entries, none@) =~= records);
            encode::lemma_stopped_document_does_not_fit(bounds, records);
        }
        match self.encode_entries(&none, &mut transient) {
            Err(message) => {
                transient.release(&mut self.accounting);
                Err(message)
            },
            Ok(document) => {
                let outcome = write(&document);
                assert(call_ensures(write, (&document,), outcome));
                if outcome.is_err() {
                    self.accounting.record_rejection(MetadataStoreRejection::Persistence);
                }
                transient.release(&mut self.accounting);
                outcome
            },
        }
    }

    /// What a snapshot comes to: there is no working memory left; or the document does not fit; or
    /// it fits and `write` decides.
    pub open spec fn snapshot_outcome<W: FnOnce(&Vec<u8>) -> Result<(), String>>(
        before: StoreView,
        after: StoreView,
        done: Result<(), String>,
        write: W,
    ) -> bool {
        let limit = before.config.max_write_transient_bytes;
        let held = before.accounting.working(before.accounting.transient_bytes);
        let bounds = WriteBounds {
            max_file_bytes: before.config.max_durable_file_bytes,
            reservation: MetadataTransientReservation { bytes: 0, limit: limit as u64 },
            accounting: held,
        };
        let records = query::records_of(before.entries);
        let document = encode::store_document(records);
        if !before.accounting.has_room(0, limit as u64) {
            &&& done matches Err(message) && message@ == codes::limit_message(
                MetadataLimit::SnapshotTransient,
                limit as nat,
                0,
            )
            &&& after == before.with_accounting(
                before.accounting.rejected(MetadataStoreRejection::Transient),
            )
        } else if bounds.fits(document.len()) {
            exists|kept: Vec<u8>, outcome: Result<(), String>|
                kept@ == document && #[trigger] call_ensures(write, (&kept,), outcome) && done
                    == outcome && after == before.with_accounting(
                    before.settled(
                        if outcome is Ok {
                            bounds.counters(document.len())
                        } else {
                            bounds.counters(document.len()).rejected(
                                MetadataStoreRejection::Persistence,
                            )
                        },
                    ),
                )
        } else {
            exists|error: EncodeStoreError, accounting: MetricMetadataStoreAccounting|
                #[trigger] bounds.stops_within(
                    encode::store_pieces(records),
                    error,
                    accounting,
                ) && {
                    &&& done matches Err(message) && message@ == before.unwritten_message(error)
                    &&& after == before.with_accounting(
                        before.settled(before.unwritten_counters(error, accounting)),
                    )
                }
        }
    }

    /// What the store counts, and the limits that it keeps.
    pub fn metrics_snapshot(&self) -> (snapshot: MetricMetadataStoreMetricsSnapshot)
        ensures
            snapshot == Self::metrics(self@),
    {
        MetricMetadataStoreMetricsSnapshot {
            limits: self.config,
            entries: self.accounting.entries,
            retained_bytes: self.accounting.retained_bytes,
            peak_retained_bytes: self.accounting.peak_retained_bytes,
            durable_file_bytes: self.accounting.durable_file_bytes,
            transient_bytes: self.accounting.transient_bytes,
            peak_transient_bytes: self.accounting.peak_transient_bytes,
            query_result_bytes: self.accounting.query_result_bytes,
            peak_query_result_bytes: self.accounting.peak_query_result_bytes,
            rejections_total: self.accounting.rejections_total,
            entry_rejections_total: self.accounting.entry_rejections_total,
            record_rejections_total: self.accounting.record_rejections_total,
            update_batch_rejections_total: self.accounting.update_batch_rejections_total,
            retained_rejections_total: self.accounting.retained_rejections_total,
            durable_file_rejections_total: self.accounting.durable_file_rejections_total,
            transient_rejections_total: self.accounting.transient_rejections_total,
            query_rejections_total: self.accounting.query_rejections_total,
            persistence_rejections_total: self.accounting.persistence_rejections_total,
        }
    }

    /// What a store counts, and the limits that it keeps.
    pub open spec fn metrics(store: StoreView) -> MetricMetadataStoreMetricsSnapshot {
        MetricMetadataStoreMetricsSnapshot {
            limits: store.config,
            entries: store.accounting.entries,
            retained_bytes: store.accounting.retained_bytes,
            peak_retained_bytes: store.accounting.peak_retained_bytes,
            durable_file_bytes: store.accounting.durable_file_bytes,
            transient_bytes: store.accounting.transient_bytes,
            peak_transient_bytes: store.accounting.peak_transient_bytes,
            query_result_bytes: store.accounting.query_result_bytes,
            peak_query_result_bytes: store.accounting.peak_query_result_bytes,
            rejections_total: store.accounting.rejections_total,
            entry_rejections_total: store.accounting.entry_rejections_total,
            record_rejections_total: store.accounting.record_rejections_total,
            update_batch_rejections_total: store.accounting.update_batch_rejections_total,
            retained_rejections_total: store.accounting.retained_rejections_total,
            durable_file_rejections_total: store.accounting.durable_file_rejections_total,
            transient_rejections_total: store.accounting.transient_rejections_total,
            query_rejections_total: store.accounting.query_rejections_total,
            persistence_rejections_total: store.accounting.persistence_rejections_total,
        }
    }
}

} // verus!
