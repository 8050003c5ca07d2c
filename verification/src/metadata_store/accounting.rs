//! What the metadata store counts: its size, its peaks, its working memory and its refusals.

use vstd::prelude::*;

use crate::sizes;

verus! {

/// Why the store refused something.
#[derive(Debug, Clone, Copy, PartialEq, Eq, Structural)]
pub enum MetadataStoreRejection {
    Entry,
    Record,
    UpdateBatch,
    Retained,
    DurableFile,
    Transient,
    Query,
    Persistence,
}

/// The counters of a store.
#[derive(Debug, Clone, Copy, PartialEq, Eq, Structural)]
pub struct MetricMetadataStoreAccounting {
    pub entries: u64,
    pub retained_bytes: u64,
    pub peak_retained_bytes: u64,
    pub durable_file_bytes: u64,
    pub transient_bytes: u64,
    pub peak_transient_bytes: u64,
    pub query_result_bytes: u64,
    pub peak_query_result_bytes: u64,
    pub rejections_total: u64,
    pub entry_rejections_total: u64,
    pub record_rejections_total: u64,
    pub update_batch_rejections_total: u64,
    pub retained_rejections_total: u64,
    pub durable_file_rejections_total: u64,
    pub transient_rejections_total: u64,
    pub query_rejections_total: u64,
    pub persistence_rejections_total: u64,
}

impl Default for MetricMetadataStoreAccounting {
    fn default() -> (accounting: Self)
        ensures
            accounting == Self::zero(),
    {
        MetricMetadataStoreAccounting {
            entries: 0,
            retained_bytes: 0,
            peak_retained_bytes: 0,
            durable_file_bytes: 0,
            transient_bytes: 0,
            peak_transient_bytes: 0,
            query_result_bytes: 0,
            peak_query_result_bytes: 0,
            rejections_total: 0,
            entry_rejections_total: 0,
            record_rejections_total: 0,
            update_batch_rejections_total: 0,
            retained_rejections_total: 0,
            durable_file_rejections_total: 0,
            transient_rejections_total: 0,
            query_rejections_total: 0,
            persistence_rejections_total: 0,
        }
    }
}

/// One more than a counter, which stops at its largest value.
pub open spec fn counted(counter: u64) -> u64 {
    sizes::sat64(counter + 1)
}

/// The higher of a peak and what was just observed.
pub open spec fn peak_of(peak: u64, observed: u64) -> u64 {
    if observed > peak {
        observed
    } else {
        peak
    }
}

fn count_one(counter: u64) -> (next: u64)
    ensures
        next == counted(counter),
{
    counter.saturating_add(1)
}

fn observe_peak(peak: u64, observed: u64) -> (next: u64)
    ensures
        next == peak_of(peak, observed),
{
    if observed > peak {
        observed
    } else {
        peak
    }
}

impl MetricMetadataStoreAccounting {
    /// Counters that have counted nothing.
    pub open spec fn zero() -> Self {
        MetricMetadataStoreAccounting {
            entries: 0,
            retained_bytes: 0,
            peak_retained_bytes: 0,
            durable_file_bytes: 0,
            transient_bytes: 0,
            peak_transient_bytes: 0,
            query_result_bytes: 0,
            peak_query_result_bytes: 0,
            rejections_total: 0,
            entry_rejections_total: 0,
            record_rejections_total: 0,
            update_batch_rejections_total: 0,
            retained_rejections_total: 0,
            durable_file_rejections_total: 0,
            transient_rejections_total: 0,
            query_rejections_total: 0,
            persistence_rejections_total: 0,
        }
    }

    /// The counters after one more refusal.
    pub open spec fn rejected(self, rejection: MetadataStoreRejection) -> Self {
        let base = MetricMetadataStoreAccounting {
            rejections_total: counted(self.rejections_total),
            ..self
        };
        match rejection {
            MetadataStoreRejection::Entry => MetricMetadataStoreAccounting {
                entry_rejections_total: counted(self.entry_rejections_total),
                ..base
            },
            MetadataStoreRejection::Record => MetricMetadataStoreAccounting {
                record_rejections_total: counted(self.record_rejections_total),
                ..base
            },
            MetadataStoreRejection::UpdateBatch => MetricMetadataStoreAccounting {
                update_batch_rejections_total: counted(self.update_batch_rejections_total),
                ..base
            },
            MetadataStoreRejection::Retained => MetricMetadataStoreAccounting {
                retained_rejections_total: counted(self.retained_rejections_total),
                ..base
            },
            MetadataStoreRejection::DurableFile => MetricMetadataStoreAccounting {
                durable_file_rejections_total: counted(self.durable_file_rejections_total),
                ..base
            },
            MetadataStoreRejection::Transient => MetricMetadataStoreAccounting {
                transient_rejections_total: counted(self.transient_rejections_total),
                ..base
            },
            MetadataStoreRejection::Query => MetricMetadataStoreAccounting {
                query_rejections_total: counted(self.query_rejections_total),
                ..base
            },
            MetadataStoreRejection::Persistence => MetricMetadataStoreAccounting {
                persistence_rejections_total: counted(self.persistence_rejections_total),
                ..base
            },
        }
    }

    /// The counters once a state with so many entries and bytes is the current one.
    pub open spec fn published(self, entries: nat, retained_bytes: nat) -> Self {
        let bytes = sizes::sat64(retained_bytes as int);
        MetricMetadataStoreAccounting {
            entries: sizes::sat64(entries as int),
            retained_bytes: bytes,
            peak_retained_bytes: peak_of(self.peak_retained_bytes, bytes),
            ..self
        }
    }

    /// The counters while working memory stands at a number of bytes.
    pub open spec fn working(self, transient_bytes: u64) -> Self {
        MetricMetadataStoreAccounting {
            transient_bytes,
            peak_transient_bytes: peak_of(self.peak_transient_bytes, transient_bytes),
            ..self
        }
    }

    /// Whether so many more bytes of working memory keep within a limit.
    pub open spec fn has_room(self, bytes: nat, limit: u64) -> bool {
        self.transient_bytes + bytes <= limit
    }

    /// Counts one more refusal.
    pub fn record_rejection(&mut self, rejection: MetadataStoreRejection)
        ensures
            *final(self) == old(self).rejected(rejection),
    {
        self.rejections_total = count_one(self.rejections_total);
        match rejection {
            MetadataStoreRejection::Entry => {
                self.entry_rejections_total = count_one(self.entry_rejections_total);
            },
            MetadataStoreRejection::Record => {
                self.record_rejections_total = count_one(self.record_rejections_total);
            },
            MetadataStoreRejection::UpdateBatch => {
                self.update_batch_rejections_total = count_one(self.update_batch_rejections_total);
            },
            MetadataStoreRejection::Retained => {
                self.retained_rejections_total = count_one(self.retained_rejections_total);
            },
            MetadataStoreRejection::DurableFile => {
                self.durable_file_rejections_total = count_one(self.durable_file_rejections_total);
            },
            MetadataStoreRejection::Transient => {
                self.transient_rejections_total = count_one(self.transient_rejections_total);
            },
            MetadataStoreRejection::Query => {
                self.query_rejections_total = count_one(self.query_rejections_total);
            },
            MetadataStoreRejection::Persistence => {
                self.persistence_rejections_total = count_one(self.persistence_rejections_total);
            },
        }
    }

    /// Takes a state with so many entries and bytes for the current one.
    pub fn publish_current_state(&mut self, entries: usize, retained_bytes: usize)
        ensures
            *final(self) == old(self).published(entries as nat, retained_bytes as nat),
    {
        self.entries = entries as u64;
        self.retained_bytes = retained_bytes as u64;
        self.peak_retained_bytes = observe_peak(self.peak_retained_bytes, retained_bytes as u64);
    }

    /// Notes the most working memory that opening the store took.
    pub fn observe_startup_peak(&mut self, bytes: usize)
        ensures
            *final(self) == (MetricMetadataStoreAccounting {
                peak_transient_bytes: peak_of(old(self).peak_transient_bytes, bytes as u64),
                ..*old(self)
            }),
    {
        self.peak_transient_bytes = observe_peak(self.peak_transient_bytes, bytes as u64);
    }

    /// Sets working memory aside, where the limit leaves room for it.
    pub fn reserve_transient(&mut self, bytes: usize, limit: usize) -> (reserved: Result<
        MetadataTransientReservation,
        (),
    >)
        ensures
            match reserved {
                Ok(reservation) => {
                    &&& old(self).has_room(bytes as nat, limit as u64)
                    &&& reservation.bytes == bytes
                    &&& reservation.limit == limit
                    &&& *final(self) == old(self).working((old(self).transient_bytes + bytes) as u64)
                },
                Err(_) => {
                    &&& !old(self).has_room(bytes as nat, limit as u64)
                    &&& *final(self) == old(self).rejected(MetadataStoreRejection::Transient)
                },
            },
    {
        let requested = bytes as u64;
        let limit = limit as u64;
        let current = self.transient_bytes;
        if current > limit || requested > limit - current {
            self.record_rejection(MetadataStoreRejection::Transient);
            return Err(());
        }
        let next = current + requested;
        self.transient_bytes = next;
        self.peak_transient_bytes = observe_peak(self.peak_transient_bytes, next);
        Ok(MetadataTransientReservation { bytes: requested, limit })
    }

    /// Notes that a query result of so many bytes is held.
    pub fn retain_query_bytes(&mut self, bytes: u64)
        ensures
            *final(self) == old(self).retaining(bytes),
    {
        if bytes == 0 {
            return ;
        }
        let current = self.query_result_bytes;
        self.query_result_bytes = current.wrapping_add(bytes);
        self.peak_query_result_bytes = observe_peak(
            self.peak_query_result_bytes,
            current.saturating_add(bytes),
        );
    }

    /// The counters while one more query result is held.
    pub open spec fn retaining(self, bytes: u64) -> Self {
        if bytes == 0 {
            self
        } else {
            MetricMetadataStoreAccounting {
                query_result_bytes: self.query_result_bytes.wrapping_add(bytes),
                peak_query_result_bytes: peak_of(
                    self.peak_query_result_bytes,
                    sizes::sat64(self.query_result_bytes + bytes),
                ),
                ..self
            }
        }
    }

    /// Notes that a query result of so many bytes is no longer held.
    pub fn release_query_bytes(&mut self, bytes: u64)
        ensures
            *final(self) == (MetricMetadataStoreAccounting {
                query_result_bytes: old(self).query_result_bytes.wrapping_sub(bytes),
                ..*old(self)
            }),
    {
        self.query_result_bytes = self.query_result_bytes.wrapping_sub(bytes);
    }
}

/// Working memory that was set aside.
#[derive(Debug, Clone, Copy, PartialEq, Eq, Structural)]
pub struct MetadataTransientReservation {
    pub bytes: u64,
    pub limit: u64,
}

impl MetadataTransientReservation {
    /// Whether the reservation can be made to hold so many bytes.
    pub open spec fn can_hold(self, accounting: MetricMetadataStoreAccounting, bytes: nat) -> bool {
        bytes <= self.bytes || accounting.transient_bytes - self.bytes + bytes <= self.limit
    }

    /// The counters once the reservation holds so many bytes.
    pub open spec fn resized(
        self,
        accounting: MetricMetadataStoreAccounting,
        bytes: nat,
    ) -> MetricMetadataStoreAccounting {
        let next = (accounting.transient_bytes - self.bytes + bytes) as u64;
        if bytes <= self.bytes {
            MetricMetadataStoreAccounting { transient_bytes: next, ..accounting }
        } else {
            accounting.working(next)
        }
    }

    /// Makes the reservation hold so many bytes. Giving memory back always works; taking more is
    /// refused where the limit leaves no room.
    pub fn resize(
        &mut self,
        accounting: &mut MetricMetadataStoreAccounting,
        requested_bytes: usize,
    ) -> (done: Result<(), ()>)
        requires
            old(self).bytes <= old(accounting).transient_bytes,
        ensures
            final(self).limit == old(self).limit,
            match done {
                Ok(_) => {
                    &&& old(self).can_hold(*old(accounting), requested_bytes as nat)
                    &&& final(self).bytes == requested_bytes
                    &&& *final(accounting) == old(self).resized(
                        *old(accounting),
                        requested_bytes as nat,
                    )
                },
                Err(_) => {
                    &&& !old(self).can_hold(*old(accounting), requested_bytes as nat)
                    &&& *final(self) == *old(self)
                    &&& *final(accounting) == old(accounting).rejected(
                        MetadataStoreRejection::Transient,
                    )
                },
            },
            final(self).bytes <= final(accounting).transient_bytes,
    {
        let requested = requested_bytes as u64;
        if requested <= self.bytes {
            accounting.transient_bytes = accounting.transient_bytes - (self.bytes - requested);
            self.bytes = requested;
            return Ok(());
        }
        let additional = requested - self.bytes;
        let current = accounting.transient_bytes;
        let limit = self.limit;
        if current > limit || additional > limit - current {
            accounting.record_rejection(MetadataStoreRejection::Transient);
            return Err(());
        }
        let next = current + additional;
        accounting.transient_bytes = next;
        accounting.peak_transient_bytes = observe_peak(accounting.peak_transient_bytes, next);
        self.bytes = requested;
        Ok(())
    }

    /// Gives all of the working memory back.
    pub fn release(self, accounting: &mut MetricMetadataStoreAccounting)
        requires
            self.bytes <= old(accounting).transient_bytes,
        ensures
            *final(accounting) == (MetricMetadataStoreAccounting {
                transient_bytes: (old(accounting).transient_bytes - self.bytes) as u64,
                ..*old(accounting)
            }),
    {
        accounting.transient_bytes = accounting.transient_bytes - self.bytes;
    }
}

} // verus!
