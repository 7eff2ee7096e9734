//! The `[connections]` section.
use vstd::prelude::*;

use crate::config::settings;
use crate::config::settings::{put_flag, put_int, put_text};
use crate::text;

verus! {

/// The `[connections]` section.
#[derive(Debug, Clone)]
pub struct ConnectionsConfig {
    pub listen_interfaces: Option<String>,
    pub outgoing_interfaces: Option<String>,
    pub max_connections: Option<i64>,
    pub max_uploads: Option<i64>,
    pub listen_queue_size: Option<i64>,
    pub connection_speed: Option<i64>,
    pub smooth_connects: Option<bool>,
    pub allow_multiple_connections_per_ip: Option<bool>,
    pub max_peerlist_size: Option<i64>,
    pub max_paused_peerlist_size: Option<i64>,
    pub min_reconnect_time: Option<i64>,
    pub peer_connect_timeout: Option<i64>,
}

impl Default for ConnectionsConfig {
    fn default() -> (d: Self)
        ensures
            d.listen_interfaces is None,
            d.outgoing_interfaces is None,
            d.max_connections is None,
            d.max_uploads is None,
            d.listen_queue_size is None,
            d.connection_speed is None,
            d.smooth_connects is None,
            d.allow_multiple_connections_per_ip is None,
            d.max_peerlist_size is None,
            d.max_paused_peerlist_size is None,
            d.min_reconnect_time is None,
            d.peer_connect_timeout is None,
    {
        ConnectionsConfig {
            listen_interfaces: None,
            outgoing_interfaces: None,
            max_connections: None,
            max_uploads: None,
            listen_queue_size: None,
            connection_speed: None,
            smooth_connects: None,
            allow_multiple_connections_per_ip: None,
            max_peerlist_size: None,
            max_paused_peerlist_size: None,
            min_reconnect_time: None,
            peer_connect_timeout: None,
        }
    }
}

/// Why a count is refused: below one, or too large for the swarm library.
pub open spec fn count_defect(name: Seq<char>, value: Option<i64>) -> Option<Seq<char>> {
    match value {
        Some(v) => if v < 1 {
            Some("[connections] "@ + name + " must be >= 1, got "@ + text::dec_int(v as int))
        } else if v > i32::MAX {
            Some(
                "[connections] "@ + name + " must be <= "@ + text::dec_int(i32::MAX as int)
                    + ", got "@ + text::dec_int(v as int),
            )
        } else {
            None
        },
        None => None,
    }
}

/// The text of a refusal, if there is one.
pub open spec fn refusal(r: Result<(), String>) -> Option<Seq<char>> {
    match r {
        Ok(_) => None,
        Err(s) => Some(s@),
    }
}

/// A count must lie between one and the largest 32-bit number.
pub fn check_positive_i32(name: &str, value: Option<i64>) -> (r: Result<(), String>)
    ensures
        refusal(r) == count_defect(name@, value),
{
    let v: i64 = match value {
        Some(v) => v,
        None => {
            return Ok(());
        },
    };
    let mut message: String = "[connections] ".to_owned();
    text::push_text(&mut message, name);
    if v < 1 {
        text::push_text(&mut message, " must be >= 1, got ");
        text::push_dec_int(&mut message, v);
        Err(message)
    } else if v > i32::MAX as i64 {
        text::push_text(&mut message, " must be <= ");
        text::push_dec_int(&mut message, i32::MAX as i64);
        text::push_text(&mut message, ", got ");
        text::push_dec_int(&mut message, v);
        Err(message)
    } else {
        Ok(())
    }
}

impl ConnectionsConfig {
    /// Checks the values that have bounds: the two counts. The first refusal
    /// wins.
    pub fn validate(&self) -> (r: Result<(), String>)
        ensures
            refusal(r) == (match count_defect("max_connections"@, self.max_connections) {
                Some(why) => Some(why),
                None => count_defect("max_uploads"@, self.max_uploads),
            }),
    {
        let first: Result<(), String> = check_positive_i32("max_connections", self.max_connections);
        if first.is_err() {
            return first;
        }
        check_positive_i32("max_uploads", self.max_uploads)
    }

    /// Writes the section's values into the settings object.
    pub fn write_json(&self, map: &mut serde_json::Map<String, serde_json::Value>)
        ensures
            settings::json_entries(*final(map)) == ({
                let m = settings::json_entries(*old(map));
                let m = settings::with_text(m, "listen_interfaces"@, self.listen_interfaces);
                let m = settings::with_text(m, "outgoing_interfaces"@, self.outgoing_interfaces);
                let m = settings::with_int(m, "max_connections"@, self.max_connections);
                let m = settings::with_int(m, "max_uploads"@, self.max_uploads);
                let m = settings::with_int(m, "listen_queue_size"@, self.listen_queue_size);
                let m = settings::with_int(m, "connection_speed"@, self.connection_speed);
                let m = settings::with_flag(m, "smooth_connects"@, self.smooth_connects);
                let m = settings::with_flag(
                    m,
                    "allow_multiple_connections_per_ip"@,
                    self.allow_multiple_connections_per_ip,
                );
                let m = settings::with_int(m, "max_peerlist_size"@, self.max_peerlist_size);
                let m = settings::with_int(
                    m,
                    "max_paused_peerlist_size"@,
                    self.max_paused_peerlist_size,
                );
                let m = settings::with_int(m, "min_reconnect_time"@, self.min_reconnect_time);
                settings::with_int(m, "peer_connect_timeout"@, self.peer_connect_timeout)
            }),
    {
        put_text(map, "listen_interfaces", &self.listen_interfaces);
        put_text(map, "outgoing_interfaces", &self.outgoing_interfaces);
        put_int(map, "max_connections", self.max_connections);
        put_int(map, "max_uploads", self.max_uploads);
        put_int(map, "listen_queue_size", self.listen_queue_size);
        put_int(map, "connection_speed", self.connection_speed);
        put_flag(map, "smooth_connects", self.smooth_connects);
        put_flag(map, "allow_multiple_connections_per_ip", self.allow_multiple_connections_per_ip);
        put_int(map, "max_peerlist_size", self.max_peerlist_size);
        put_int(map, "max_paused_peerlist_size", self.max_paused_peerlist_size);
        put_int(map, "min_reconnect_time", self.min_reconnect_time);
        put_int(map, "peer_connect_timeout", self.peer_connect_timeout);
    }
}

} // verus!
