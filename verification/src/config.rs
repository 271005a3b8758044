//! Timing configuration handed to the openraft engine.

use vstd::prelude::*;

verus! {

/// The three timing knobs (milliseconds) a raft instance is configured with.
/// Every other openraft setting keeps its default value.
#[derive(Clone, Copy, Debug, PartialEq, Eq, Structural)]
pub struct RaftTiming {
    pub heartbeat_interval: u64,
    pub election_timeout_min: u64,
    pub election_timeout_max: u64,
}

/// Why openraft refused a configuration.
#[derive(Clone, Debug, PartialEq, Eq)]
pub enum ConfigFault {
    /// The configuration could not be parsed from arguments.
    ParseError { source: String, args: Vec<String> },
    /// The minimum election timeout is not below the maximum.
    ElectionTimeout { min: u64, max: u64 },
    /// At most zero entries may be sent in one payload.
    MaxPayloadIs0,
    /// The minimum election timeout does not exceed the heartbeat interval.
    ElectionTimeoutLTHeartBeat { election_timeout_min: u64, heartbeat_interval: u64 },
    /// A snapshot policy could not be parsed.
    InvalidSnapshotPolicy { invalid: String, syntax: String },
    /// A number could not be parsed.
    InvalidNumber { invalid: String, reason: String },
}

/// When openraft builds a snapshot.
pub ghost enum SnapshotRule {
    /// Once this many entries were logged since the last snapshot.
    LogsSinceLast(u64),
    Never,
}

/// What an openraft configuration holds, field by field.
pub ghost struct ConfigContents {
    pub cluster_name: Seq<char>,
    pub election_timeout_min: u64,
    pub election_timeout_max: u64,
    pub heartbeat_interval: u64,
    pub install_snapshot_timeout: u64,
    pub send_snapshot_timeout: u64,
    pub max_payload_entries: u64,
    pub replication_lag_threshold: u64,
    pub snapshot_policy: SnapshotRule,
    pub snapshot_max_chunk_size: u64,
    pub max_in_snapshot_log_to_keep: u64,
    pub purge_batch_size: u64,
    pub enable_tick: bool,
    pub enable_heartbeat: bool,
    pub enable_elect: bool,
}

/// The contents of openraft's default configuration with the given timing
/// in place of the default one.
pub open spec fn defaults_with_timing(heartbeat: u64, min: u64, max: u64) -> ConfigContents {
    ConfigContents {
        cluster_name: seq!['f', 'o', 'o'],
        election_timeout_min: min,
        election_timeout_max: max,
        heartbeat_interval: heartbeat,
        install_snapshot_timeout: 200,
        send_snapshot_timeout: 0,
        max_payload_entries: 300,
        replication_lag_threshold: 5000,
        snapshot_policy: SnapshotRule::LogsSinceLast(5000),
        snapshot_max_chunk_size: 3145728,
        max_in_snapshot_log_to_keep: 1000,
        purge_batch_size: 1,
        enable_tick: true,
        enable_heartbeat: true,
        enable_elect: true,
    }
}

/// What an openraft configuration holds.
pub uninterp spec fn config_contents(c: openraft::Config) -> ConfigContents;

impl RaftTiming {
    /// openraft accepts a timing when the election window is non-empty and
    /// starts after one heartbeat interval.
    pub open spec fn is_valid(self) -> bool {
        &&& self.election_timeout_min < self.election_timeout_max
        &&& self.heartbeat_interval < self.election_timeout_min
    }

    /// The fault openraft reports for this timing, checked in openraft's order.
    pub open spec fn fault(self) -> Option<ConfigFault> {
        if self.election_timeout_min >= self.election_timeout_max {
            Some(ConfigFault::ElectionTimeout {
                min: self.election_timeout_min,
                max: self.election_timeout_max,
            })
        } else if self.election_timeout_min <= self.heartbeat_interval {
            Some(ConfigFault::ElectionTimeoutLTHeartBeat {
                election_timeout_min: self.election_timeout_min,
                heartbeat_interval: self.heartbeat_interval,
            })
        } else {
            None
        }
    }

    /// openraft's default configuration with this timing.
    pub open spec fn contents(self) -> ConfigContents {
        defaults_with_timing(self.heartbeat_interval, self.election_timeout_min, self.election_timeout_max)
    }

    /// Builds and validates the openraft configuration for this timing.
    pub fn to_openraft(&self) -> (res: Result<openraft::Config, ConfigFault>)
        ensures
            res is Ok <==> self.is_valid(),
            res is Err ==> self.fault() == Some(res->Err_0),
            res matches Ok(c) ==> config_contents(c) == self.contents(),
            self.is_valid() <==> self.fault() is None,
    {
        validated_openraft_config(
            self.heartbeat_interval,
            self.election_timeout_min,
            self.election_timeout_max,
        )
    }
}

/// The timing a conductor gives each raft instance it creates.
pub fn make_config() -> (c: RaftTiming)
    ensures
        c == (RaftTiming {
            heartbeat_interval: 500,
            election_timeout_min: 1500,
            election_timeout_max: 3000,
        }),
        c.is_valid(),
{
    RaftTiming { heartbeat_interval: 500, election_timeout_min: 1500, election_timeout_max: 3000 }
}

/// The faster timing used by in-memory raft instances.
pub fn mem_config() -> (c: RaftTiming)
    ensures
        c == (RaftTiming {
            heartbeat_interval: 100,
            election_timeout_min: 250,
            election_timeout_max: 500,
        }),
        c.is_valid(),
{
    RaftTiming { heartbeat_interval: 100, election_timeout_min: 250, election_timeout_max: 500 }
}

/// Validates a timing into a ready openraft configuration.
pub fn validated_config(timing: RaftTiming) -> (res: Result<openraft::Config, ConfigFault>)
    ensures
        res is Ok <==> timing.is_valid(),
        res is Err ==> timing.fault() == Some(res->Err_0),
        res matches Ok(c) ==> config_contents(c) == timing.contents(),
{
    timing.to_openraft()
}

#[verifier::external_type_specification]
#[verifier::external_body]
pub struct ExOpenraftConfig(openraft::Config);

/// Calls `openraft::Config::validate` on `openraft::Config::default()` with
/// its heartbeat interval and election timeouts replaced by the arguments.
/// Per openraft's source the defaults are the `clap` defaults of each field
/// (cluster `foo`, snapshot install timeout 200, no send timeout, 300 entries
/// per payload, lag threshold 5000, a snapshot every 5000 entries, 3 MiB
/// chunks, 1000 entries kept, purge batches of 1, tick, heartbeat and
/// election enabled); validation fails first when `min >= max`, then when
/// `min <= heartbeat`, and the remaining check (`max_payload_entries == 0`)
/// cannot fail with the default of 300. On success the validated
/// configuration is returned unchanged.
#[verifier::external_body]
fn validated_openraft_config(heartbeat: u64, min: u64, max: u64) -> (res: Result<
    openraft::Config,
    ConfigFault,
>)
    ensures
        res is Ok <==> (min < max && heartbeat < min),
        res matches Ok(c) ==> config_contents(c) == defaults_with_timing(heartbeat, min, max),
        res matches Err(f) ==> (if min >= max {
            f == (ConfigFault::ElectionTimeout { min, max })
        } else {
            f == (ConfigFault::ElectionTimeoutLTHeartBeat {
                election_timeout_min: min,
                heartbeat_interval: heartbeat,
            })
        }),
{
    let config = openraft::Config {
        heartbeat_interval: heartbeat,
        election_timeout_min: min,
        election_timeout_max: max,
        ..Default::default()
    };
    match config.validate() {
        Ok(c) => Ok(c),
        Err(openraft::ConfigError::ParseError { source, args }) => Err(ConfigFault::ParseError { source: source.to_string(), args }),
        Err(openraft::ConfigError::ElectionTimeout { min, max }) => Err(ConfigFault::ElectionTimeout { min, max }),
        Err(openraft::ConfigError::MaxPayloadIs0) => Err(ConfigFault::MaxPayloadIs0),
        Err(openraft::ConfigError::ElectionTimeoutLTHeartBeat { election_timeout_min, heartbeat_interval }) => Err(ConfigFault::ElectionTimeoutLTHeartBeat { election_timeout_min, heartbeat_interval }),
        Err(openraft::ConfigError::InvalidSnapshotPolicy { invalid, syntax }) => Err(ConfigFault::InvalidSnapshotPolicy { invalid, syntax }),
        Err(openraft::ConfigError::InvalidNumber { invalid, reason }) => Err(ConfigFault::InvalidNumber { invalid, reason }),
    }
}

} // verus!
