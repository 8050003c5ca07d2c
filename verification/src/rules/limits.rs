//! What rules and their runtime are held to.

use vstd::prelude::*;

use crate::text;

verus! {

/// The most bytes of an HTTP body.
pub const MAX_BODY_BYTES: usize = 67108864;

/// How long the scheduler waits between runs where nothing else was set, in milliseconds.
pub const DEFAULT_RULES_SCHEDULER_TICK_MS: u64 = 1000;

/// The most rows that one evaluation records where nothing else was set.
pub const DEFAULT_MAX_RECORDING_ROWS_PER_EVAL: usize = 10000;

/// The most alert instances of one rule where nothing else was set.
pub const DEFAULT_MAX_ALERT_INSTANCES_PER_RULE: usize = 10000;

/// What the rules store is held to.
#[derive(Debug, Clone, Copy, PartialEq, Eq, Structural)]
pub struct RulesStoreLimits {
    pub max_groups: usize,
    pub max_rules_per_group: usize,
    pub max_rules_total: usize,
    pub max_alert_instances_per_rule: usize,
    pub max_labels_per_set: usize,
    pub max_label_set_bytes: usize,
    pub max_name_bytes: usize,
    pub max_expression_bytes: usize,
    pub max_annotation_bytes: usize,
    pub max_total_retained_state_bytes: usize,
    pub max_durable_file_bytes: usize,
    pub max_startup_transient_bytes: usize,
    pub max_replacement_transient_bytes: usize,
    pub max_runtime_update_transient_bytes: usize,
    pub max_snapshot_status_bytes: usize,
}

/// The limits that hold where nothing else was set.
pub open spec fn default_limits() -> RulesStoreLimits {
    RulesStoreLimits {
        max_groups: 256,
        max_rules_per_group: 256,
        max_rules_total: 4096,
        max_alert_instances_per_rule: 10000,
        max_labels_per_set: 64,
        max_label_set_bytes: 65536,
        max_name_bytes: 1024,
        max_expression_bytes: 262144,
        max_annotation_bytes: 65536,
        max_total_retained_state_bytes: 16777216,
        max_durable_file_bytes: 33554432,
        max_startup_transient_bytes: 134217728,
        max_replacement_transient_bytes: 67108864,
        max_runtime_update_transient_bytes: 50331648,
        max_snapshot_status_bytes: 67108864,
    }
}

impl Default for RulesStoreLimits {
    fn default() -> (limits: RulesStoreLimits)
        ensures
            limits == default_limits(),
    {
        RulesStoreLimits {
            max_groups: 256,
            max_rules_per_group: 256,
            max_rules_total: 4096,
            max_alert_instances_per_rule: 10000,
            max_labels_per_set: 64,
            max_label_set_bytes: 65536,
            max_name_bytes: 1024,
            max_expression_bytes: 262144,
            max_annotation_bytes: 65536,
            max_total_retained_state_bytes: 16777216,
            max_durable_file_bytes: 33554432,
            max_startup_transient_bytes: 134217728,
            max_replacement_transient_bytes: 67108864,
            max_runtime_update_transient_bytes: 50331648,
            max_snapshot_status_bytes: 67108864,
        }
    }
}

impl RulesStoreLimits {
    /// Whether every limit is greater than zero.
    pub open spec fn all_positive(self) -> bool {
        &&& self.max_groups > 0
        &&& self.max_rules_per_group > 0
        &&& self.max_rules_total > 0
        &&& self.max_alert_instances_per_rule > 0
        &&& self.max_labels_per_set > 0
        &&& self.max_label_set_bytes > 0
        &&& self.max_name_bytes > 0
        &&& self.max_expression_bytes > 0
        &&& self.max_annotation_bytes > 0
        &&& self.max_total_retained_state_bytes > 0
        &&& self.max_durable_file_bytes > 0
        &&& self.max_startup_transient_bytes > 0
        &&& self.max_replacement_transient_bytes > 0
        &&& self.max_runtime_update_transient_bytes > 0
        &&& self.max_snapshot_status_bytes > 0
    }

    /// What is wrong with the limits.
    pub open spec fn problem(self) -> Option<Seq<char>> {
        if !self.all_positive() {
            Some("rules store limits must all be greater than zero"@)
        } else if self.max_rules_per_group > self.max_rules_total {
            Some("rules max_rules_per_group must not exceed max_rules_total"@)
        } else if self.max_snapshot_status_bytes > MAX_BODY_BYTES {
            Some("rules snapshot/status limit must not exceed the HTTP body limit"@)
        } else {
            None
        }
    }

    /// The limits themselves, if nothing is wrong with them.
    pub fn validate(self) -> (checked: Result<RulesStoreLimits, String>)
        ensures
            match self.problem() {
                None => checked == Ok::<RulesStoreLimits, String>(self),
                Some(problem) => checked matches Err(message) && message@ == problem,
            },
    {
        let positive = self.max_groups > 0 && self.max_rules_per_group > 0 && self.max_rules_total
            > 0 && self.max_alert_instances_per_rule > 0 && self.max_labels_per_set > 0
            && self.max_label_set_bytes > 0 && self.max_name_bytes > 0 && self.max_expression_bytes
            > 0 && self.max_annotation_bytes > 0 && self.max_total_retained_state_bytes > 0
            && self.max_durable_file_bytes > 0 && self.max_startup_transient_bytes > 0
            && self.max_replacement_transient_bytes > 0 && self.max_runtime_update_transient_bytes
            > 0 && self.max_snapshot_status_bytes > 0;
        if !positive {
            return Err(text::owned("rules store limits must all be greater than zero"));
        }
        if self.max_rules_per_group > self.max_rules_total {
            return Err(text::owned("rules max_rules_per_group must not exceed max_rules_total"));
        }
        if self.max_snapshot_status_bytes > MAX_BODY_BYTES {
            return Err(
                text::owned("rules snapshot/status limit must not exceed the HTTP body limit"),
            );
        }
        Ok(self)
    }
}

/// What the rules runtime is held to; the wait between scheduler runs is in nanoseconds.
#[derive(Debug, Clone, Copy, PartialEq, Eq, Structural)]
pub struct RulesRuntimeConfig {
    pub scheduler_tick_nanos: u128,
    pub max_recording_rows_per_eval: usize,
    pub max_alert_instances_per_rule: usize,
    pub store_limits: RulesStoreLimits,
}

/// The configuration that holds where nothing else was set.
pub open spec fn default_config() -> RulesRuntimeConfig {
    RulesRuntimeConfig {
        scheduler_tick_nanos: 1000000000,
        max_recording_rows_per_eval: DEFAULT_MAX_RECORDING_ROWS_PER_EVAL,
        max_alert_instances_per_rule: DEFAULT_MAX_ALERT_INSTANCES_PER_RULE,
        store_limits: default_limits(),
    }
}

impl Default for RulesRuntimeConfig {
    fn default() -> (config: RulesRuntimeConfig)
        ensures
            config == default_config(),
    {
        RulesRuntimeConfig {
            scheduler_tick_nanos: 1000000000,
            max_recording_rows_per_eval: DEFAULT_MAX_RECORDING_ROWS_PER_EVAL,
            max_alert_instances_per_rule: DEFAULT_MAX_ALERT_INSTANCES_PER_RULE,
            store_limits: RulesStoreLimits::default(),
        }
    }
}

/// What the environment holds under a name.
#[derive(Debug, PartialEq, Eq)]
pub enum EnvValue {
    Missing,
    NotUnicode,
    Text(String),
}

/// The settings of the rules runtime as the environment holds them.
#[derive(Debug, PartialEq, Eq)]
pub struct RulesEnvironment {
    /// Under `TSINK_RULES_SCHEDULER_TICK_MS`.
    pub scheduler_tick_ms: EnvValue,
    /// Under `TSINK_RULES_MAX_RECORDING_ROWS_PER_EVAL`.
    pub max_recording_rows_per_eval: EnvValue,
    /// Under `TSINK_RULES_MAX_ALERT_INSTANCES_PER_RULE`.
    pub max_alert_instances_per_rule: EnvValue,
}

/// A positive number from the environment, at most a largest one; the default where nothing is
/// set, or what is wrong with what is.
pub open spec fn env_number(name: Seq<char>, value: EnvValue, default: nat, max: nat) -> Result<
    nat,
    Seq<char>,
> {
    match value {
        EnvValue::Missing => Ok(default),
        EnvValue::NotUnicode => Err(name + " must be valid UTF-8"@),
        EnvValue::Text(text) => match text::unsigned_value(text::trimmed(text@)) {
            None => Err(name + " must be a positive integer"@),
            Some(number) => if number > max {
                Err(name + " must be a positive integer"@)
            } else if number == 0 {
                Err(name + " must be greater than zero"@)
            } else {
                Ok(number)
            },
        },
    }
}

/// A positive number from the environment, or the default where nothing is set.
pub fn parse_env_u64(name: &str, value: &EnvValue, default: u64) -> (parsed: Result<u64, String>)
    ensures
        match env_number(name@, *value, default as nat, u64::MAX as nat) {
            Ok(number) => parsed == Ok::<u64, String>(number as u64),
            Err(problem) => parsed matches Err(message) && message@ == problem,
        },
{
    match value {
        EnvValue::Missing => Ok(default),
        EnvValue::NotUnicode => Err(text::text2(name, " must be valid UTF-8")),
        EnvValue::Text(text) => match text::parse_u64(text::trim(text.as_str())) {
            None => Err(text::text2(name, " must be a positive integer")),
            Some(number) => if number == 0 {
                Err(text::text2(name, " must be greater than zero"))
            } else {
                Ok(number)
            },
        },
    }
}

/// A positive number from the environment, or the default where nothing is set.
pub fn parse_env_usize(name: &str, value: &EnvValue, default: usize) -> (parsed: Result<
    usize,
    String,
>)
    ensures
        match env_number(name@, *value, default as nat, usize::MAX as nat) {
            Ok(number) => parsed == Ok::<usize, String>(number as usize),
            Err(problem) => parsed matches Err(message) && message@ == problem,
        },
{
    match value {
        EnvValue::Missing => Ok(default),
        EnvValue::NotUnicode => Err(text::text2(name, " must be valid UTF-8")),
        EnvValue::Text(text) => match text::parse_usize(text::trim(text.as_str())) {
            None => Err(text::text2(name, " must be a positive integer")),
            Some(number) => if number == 0 {
                Err(text::text2(name, " must be greater than zero"))
            } else {
                Ok(number)
            },
        },
    }
}

/// The configuration that the environment describes, before it is checked as a whole.
pub open spec fn env_config(env: RulesEnvironment) -> Result<RulesRuntimeConfig, Seq<char>> {
    match env_number(
        "TSINK_RULES_SCHEDULER_TICK_MS"@,
        env.scheduler_tick_ms,
        DEFAULT_RULES_SCHEDULER_TICK_MS as nat,
        u64::MAX as nat,
    ) {
        Err(problem) => Err(problem),
        Ok(tick_ms) => match env_number(
            "TSINK_RULES_MAX_RECORDING_ROWS_PER_EVAL"@,
            env.max_recording_rows_per_eval,
            DEFAULT_MAX_RECORDING_ROWS_PER_EVAL as nat,
            usize::MAX as nat,
        ) {
            Err(problem) => Err(problem),
            Ok(rows) => match env_number(
                "TSINK_RULES_MAX_ALERT_INSTANCES_PER_RULE"@,
                env.max_alert_instances_per_rule,
                DEFAULT_MAX_ALERT_INSTANCES_PER_RULE as nat,
                usize::MAX as nat,
            ) {
                Err(problem) => Err(problem),
                Ok(instances) => Ok(
                    RulesRuntimeConfig {
                        scheduler_tick_nanos: (tick_ms * 1000000) as u128,
                        max_recording_rows_per_eval: rows as usize,
                        max_alert_instances_per_rule: instances as usize,
                        store_limits: default_limits(),
                    },
                ),
            },
        },
    }
}

impl RulesRuntimeConfig {
    /// What is wrong with the configuration.
    pub open spec fn problem(self) -> Option<Seq<char>> {
        if self.scheduler_tick_nanos == 0 || self.max_recording_rows_per_eval == 0
            || self.max_alert_instances_per_rule == 0 {
            Some("rules runtime limits must all be greater than zero"@)
        } else if self.store_limits.problem() is Some {
            self.store_limits.problem()
        } else if self.max_alert_instances_per_rule
            > self.store_limits.max_alert_instances_per_rule {
            Some("rules runtime alert limit exceeds the rules store alert limit"@)
        } else {
            None
        }
    }

    /// The configuration that the environment describes.
    pub fn from_env(env: &RulesEnvironment) -> (config: Result<RulesRuntimeConfig, String>)
        ensures
            match env_config(*env) {
                Err(problem) => config matches Err(message) && message@ == problem,
                Ok(described) => match described.problem() {
                    None => config == Ok::<RulesRuntimeConfig, String>(described),
                    Some(problem) => config matches Err(message) && message@ == problem,
                },
            },
    {
        let tick_ms = match parse_env_u64(
            "TSINK_RULES_SCHEDULER_TICK_MS",
            &env.scheduler_tick_ms,
            DEFAULT_RULES_SCHEDULER_TICK_MS,
        ) {
            Ok(number) => number,
            Err(message) => {
                return Err(message);
            },
        };
        let rows = match parse_env_usize(
            "TSINK_RULES_MAX_RECORDING_ROWS_PER_EVAL",
            &env.max_recording_rows_per_eval,
            DEFAULT_MAX_RECORDING_ROWS_PER_EVAL,
        ) {
            Ok(number) => number,
            Err(message) => {
                return Err(message);
            },
        };
        let instances = match parse_env_usize(
            "TSINK_RULES_MAX_ALERT_INSTANCES_PER_RULE",
            &env.max_alert_instances_per_rule,
            DEFAULT_MAX_ALERT_INSTANCES_PER_RULE,
        ) {
            Ok(number) => number,
            Err(message) => {
                return Err(message);
            },
        };
        RulesRuntimeConfig {
            scheduler_tick_nanos: tick_ms as u128 * 1000000,
            max_recording_rows_per_eval: rows,
            max_alert_instances_per_rule: instances,
            store_limits: RulesStoreLimits::default(),
        }.validate()
    }

    /// The configuration itself, if nothing is wrong with it.
    pub fn validate(self) -> (checked: Result<RulesRuntimeConfig, String>)
        ensures
            match self.problem() {
                None => checked == Ok::<RulesRuntimeConfig, String>(self),
                Some(problem) => checked matches Err(message) && message@ == problem,
            },
    {
        if self.scheduler_tick_nanos == 0 || self.max_recording_rows_per_eval == 0
            || self.max_alert_instances_per_rule == 0 {
            return Err(text::owned("rules runtime limits must all be greater than zero"));
        }
        match self.store_limits.validate() {
            Err(message) => {
                return Err(message);
            },
            Ok(_) => {},
        }
        if self.max_alert_instances_per_rule > self.store_limits.max_alert_instances_per_rule {
            return Err(
                text::owned("rules runtime alert limit exceeds the rules store alert limit"),
            );
        }
        Ok(self)
    }

    /// The wait between scheduler runs in whole milliseconds, or the most that fits.
    pub open spec fn tick_ms(self) -> u64 {
        if self.scheduler_tick_nanos / 1000000 > u64::MAX {
            u64::MAX
        } else {
            (self.scheduler_tick_nanos / 1000000) as u64
        }
    }

    /// The wait between scheduler runs in whole milliseconds, or the most that fits.
    pub fn scheduler_tick_ms(&self) -> (ms: u64)
        ensures
            ms == self.tick_ms(),
    {
        let ms: u128 = self.scheduler_tick_nanos / 1000000;
        if ms > u64::MAX as u128 {
            u64::MAX
        } else {
            ms as u64
        }
    }
}

/// The limits that hold where nothing else was set are sound, and so is the configuration.
pub proof fn lemma_defaults_sound()
    ensures
        default_limits().problem() is None,
        default_config().problem() is None,
{
}

} // verus!
