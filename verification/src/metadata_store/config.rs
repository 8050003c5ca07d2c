//! The limits of a metric metadata store.

use vstd::layout;
use vstd::prelude::*;

use crate::metadata_store::record::MetricMetadataEntries;
use crate::text;

verus! {

/// The limits of a metric metadata store.
#[derive(Debug, Clone, Copy, PartialEq, Eq)]
pub struct MetricMetadataStoreConfig {
    pub max_entries: usize,
    pub max_record_bytes: usize,
    pub max_update_batch_entries: usize,
    pub max_update_batch_bytes: usize,
    pub max_retained_bytes: usize,
    pub max_durable_file_bytes: usize,
    pub max_startup_transient_bytes: usize,
    pub max_write_transient_bytes: usize,
    pub max_query_records: usize,
    pub max_query_result_bytes: usize,
}

/// The limits that hold where nothing else was set.
pub open spec fn default_config() -> MetricMetadataStoreConfig {
    MetricMetadataStoreConfig {
        max_entries: 100_000,
        max_record_bytes: 65_536,
        max_update_batch_entries: 512,
        max_update_batch_bytes: 4_194_304,
        max_retained_bytes: 67_108_864,
        max_durable_file_bytes: 16_777_216,
        max_startup_transient_bytes: 100_663_296,
        max_write_transient_bytes: 33_554_432,
        max_query_records: 10_000,
        max_query_result_bytes: 16_777_216,
    }
}

impl Default for MetricMetadataStoreConfig {
    fn default() -> (config: Self)
        ensures
            config == default_config(),
    {
        MetricMetadataStoreConfig {
            max_entries: 100_000,
            max_record_bytes: 64 * 1024,
            max_update_batch_entries: 512,
            max_update_batch_bytes: 4 * 1024 * 1024,
            max_retained_bytes: 64 * 1024 * 1024,
            max_durable_file_bytes: 16 * 1024 * 1024,
            max_startup_transient_bytes: 96 * 1024 * 1024,
            max_write_transient_bytes: 32 * 1024 * 1024,
            max_query_records: 10_000,
            max_query_result_bytes: 16 * 1024 * 1024,
        }
    }
}

/// The bytes that a store without records is modeled to retain.
pub open spec fn empty_store_bytes() -> nat {
    layout::size_of::<MetricMetadataEntries>()
}

/// The bytes that a store without records is modeled to retain.
pub fn modeled_empty_store_retained_bytes() -> (bytes: usize)
    ensures
        bytes == empty_store_bytes(),
{
    core::mem::size_of::<MetricMetadataEntries>()
}

/// The complaint about a limit that is zero.
pub open spec fn zero_limit_message(field: Seq<char>) -> Seq<char> {
    "metric metadata store "@ + field + " must be greater than zero"@
}

impl MetricMetadataStoreConfig {
    /// The first limit, in the order of the fields, that is zero.
    pub open spec fn first_zero_limit(self) -> Option<Seq<char>> {
        if self.max_entries == 0 {
            Some("max_entries"@)
        } else if self.max_record_bytes == 0 {
            Some("max_record_bytes"@)
        } else if self.max_update_batch_entries == 0 {
            Some("max_update_batch_entries"@)
        } else if self.max_update_batch_bytes == 0 {
            Some("max_update_batch_bytes"@)
        } else if self.max_retained_bytes == 0 {
            Some("max_retained_bytes"@)
        } else if self.max_durable_file_bytes == 0 {
            Some("max_durable_file_bytes"@)
        } else if self.max_startup_transient_bytes == 0 {
            Some("max_startup_transient_bytes"@)
        } else if self.max_write_transient_bytes == 0 {
            Some("max_write_transient_bytes"@)
        } else if self.max_query_records == 0 {
            Some("max_query_records"@)
        } else if self.max_query_result_bytes == 0 {
            Some("max_query_result_bytes"@)
        } else {
            None
        }
    }

    /// What is wrong with the limits, if anything is.
    pub open spec fn complaint(self) -> Option<Seq<char>> {
        if let Some(field) = self.first_zero_limit() {
            Some(zero_limit_message(field))
        } else if self.max_update_batch_entries > self.max_entries {
            Some("metric metadata store max_update_batch_entries cannot exceed max_entries"@)
        } else if self.max_record_bytes > self.max_update_batch_bytes {
            Some("metric metadata store max_record_bytes cannot exceed max_update_batch_bytes"@)
        } else if self.max_retained_bytes < empty_store_bytes() {
            Some("metric metadata store max_retained_bytes is below the empty-store model"@)
        } else {
            None
        }
    }

    /// Whether the limits can be used.
    pub open spec fn valid(self) -> bool {
        self.complaint() is None
    }

    /// Gives the limits back where they can be used, and says what is wrong where they cannot.
    pub fn validate(self) -> (checked: Result<Self, String>)
        ensures
            match checked {
                Ok(config) => config == self && self.valid(),
                Err(message) => self.complaint() == Some(message@),
            },
    {
        let zero: Option<&'static str> = if self.max_entries == 0 {
            Some("max_entries")
        } else if self.max_record_bytes == 0 {
            Some("max_record_bytes")
        } else if self.max_update_batch_entries == 0 {
            Some("max_update_batch_entries")
        } else if self.max_update_batch_bytes == 0 {
            Some("max_update_batch_bytes")
        } else if self.max_retained_bytes == 0 {
            Some("max_retained_bytes")
        } else if self.max_durable_file_bytes == 0 {
            Some("max_durable_file_bytes")
        } else if self.max_startup_transient_bytes == 0 {
            Some("max_startup_transient_bytes")
        } else if self.max_write_transient_bytes == 0 {
            Some("max_write_transient_bytes")
        } else if self.max_query_records == 0 {
            Some("max_query_records")
        } else if self.max_query_result_bytes == 0 {
            Some("max_query_result_bytes")
        } else {
            None
        };
        if let Some(field) = zero {
            return Err(
                text::text3("metric metadata store ", field, " must be greater than zero"),
            );
        }
        if self.max_update_batch_entries > self.max_entries {
            return Err(
                text::owned(
                    "metric metadata store max_update_batch_entries cannot exceed max_entries",
                ),
            );
        }
        if self.max_record_bytes > self.max_update_batch_bytes {
            return Err(
                text::owned(
                    "metric metadata store max_record_bytes cannot exceed max_update_batch_bytes",
                ),
            );
        }
        if self.max_retained_bytes < modeled_empty_store_retained_bytes() {
            return Err(
                text::owned(
                    "metric metadata store max_retained_bytes is below the empty-store model",
                ),
            );
        }
        Ok(self)
    }
}

} // verus!
