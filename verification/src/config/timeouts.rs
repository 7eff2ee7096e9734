//! The `[timeouts]` section.
use vstd::prelude::*;

use crate::config::settings;
use crate::config::settings::put_int;

verus! {

/// How long a read waits when the configuration does not say, in seconds.
pub const DEFAULT_READ_TIMEOUT_SECS: u64 = 60;

/// The `[timeouts]` section.
#[derive(Debug, Clone, Copy)]
pub struct TimeoutsConfig {
    pub peer_timeout: Option<i64>,
    pub urlseed_timeout: Option<i64>,
    pub urlseed_pipeline_size: Option<i64>,
    pub stop_tracker_timeout: Option<i64>,
    pub tracker_completion_timeout: Option<i64>,
    pub tracker_receive_timeout: Option<i64>,
    pub inactivity_timeout: Option<i64>,
    /// How long a read waits, in seconds. Not handed to the swarm library.
    pub read_timeout_secs: Option<i64>,
}

impl Default for TimeoutsConfig {
    fn default() -> (d: Self)
        ensures
            d.peer_timeout is None,
            d.urlseed_timeout is None,
            d.urlseed_pipeline_size is None,
            d.stop_tracker_timeout is None,
            d.tracker_completion_timeout is None,
            d.tracker_receive_timeout is None,
            d.inactivity_timeout is None,
            d.read_timeout_secs is None,
    {
        TimeoutsConfig {
            peer_timeout: None,
            urlseed_timeout: None,
            urlseed_pipeline_size: None,
            stop_tracker_timeout: None,
            tracker_completion_timeout: None,
            tracker_receive_timeout: None,
            inactivity_timeout: None,
            read_timeout_secs: None,
        }
    }
}

impl TimeoutsConfig {
    /// The configured read timeout when it is positive, otherwise the default.
    pub open spec fn read_timeout(self) -> u64 {
        match self.read_timeout_secs {
            Some(v) => if v > 0 {
                v as u64
            } else {
                DEFAULT_READ_TIMEOUT_SECS
            },
            None => DEFAULT_READ_TIMEOUT_SECS,
        }
    }

    /// The configured read timeout when it is positive, otherwise
    /// [`DEFAULT_READ_TIMEOUT_SECS`].
    pub fn resolved_read_timeout_secs(&self) -> (secs: u64)
        ensures
            secs == self.read_timeout(),
            secs > 0,
    {
        match self.read_timeout_secs {
            Some(v) => {
                if v > 0 {
                    v as u64
                } else {
                    DEFAULT_READ_TIMEOUT_SECS
                }
            },
            None => DEFAULT_READ_TIMEOUT_SECS,
        }
    }

    /// Writes the section's values into the settings object.
    pub fn write_json(&self, map: &mut serde_json::Map<String, serde_json::Value>)
        ensures
            settings::json_entries(*final(map)) == ({
                let m = settings::json_entries(*old(map));
                let m = settings::with_int(m, "peer_timeout"@, self.peer_timeout);
                let m = settings::with_int(m, "urlseed_timeout"@, self.urlseed_timeout);
                let m = settings::with_int(m, "urlseed_pipeline_size"@, self.urlseed_pipeline_size);
                let m = settings::with_int(m, "stop_tracker_timeout"@, self.stop_tracker_timeout);
                let m = settings::with_int(
                    m,
                    "tracker_completion_timeout"@,
                    self.tracker_completion_timeout,
                );
                let m = settings::with_int(
                    m,
                    "tracker_receive_timeout"@,
                    self.tracker_receive_timeout,
                );
                settings::with_int(m, "inactivity_timeout"@, self.inactivity_timeout)
            }),
    {
        put_int(map, "peer_timeout", self.peer_timeout);
        put_int(map, "urlseed_timeout", self.urlseed_timeout);
        put_int(map, "urlseed_pipeline_size", self.urlseed_pipeline_size);
        put_int(map, "stop_tracker_timeout", self.stop_tracker_timeout);
        put_int(map, "tracker_completion_timeout", self.tracker_completion_timeout);
        put_int(map, "tracker_receive_timeout", self.tracker_receive_timeout);
        put_int(map, "inactivity_timeout", self.inactivity_timeout);
    }
}

} // verus!
