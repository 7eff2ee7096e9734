//! The `[rate_limits]` section.
use vstd::prelude::*;

use crate::config::connections;
use crate::config::settings;
use crate::config::settings::{put_flag, put_int};
use crate::text;

verus! {

/// The `[rate_limits]` section. Zero means unlimited.
#[derive(Debug, Clone, Copy)]
pub struct RateLimitsConfig {
    pub download_rate_limit: Option<i64>,
    pub upload_rate_limit: Option<i64>,
    pub rate_limit_utp: Option<bool>,
    pub rate_limit_ip_overhead: Option<bool>,
}

impl Default for RateLimitsConfig {
    fn default() -> (d: Self)
        ensures
            d.download_rate_limit is None,
            d.upload_rate_limit is None,
            d.rate_limit_utp is None,
            d.rate_limit_ip_overhead is None,
    {
        RateLimitsConfig {
            download_rate_limit: None,
            upload_rate_limit: None,
            rate_limit_utp: None,
            rate_limit_ip_overhead: None,
        }
    }
}

/// Why a limit is refused: negative, or too large for the swarm library.
pub open spec fn limit_defect(name: Seq<char>, value: Option<i64>) -> Option<Seq<char>> {
    match value {
        Some(v) => if v < 0 {
            Some("[rate_limits] "@ + name + " must be >= 0, got "@ + text::dec_int(v as int))
        } else if v > i32::MAX {
            Some(
                "[rate_limits] "@ + name + " must be <= "@ + text::dec_int(i32::MAX as int)
                    + ", got "@ + text::dec_int(v as int),
            )
        } else {
            None
        },
        None => None,
    }
}

/// A limit must lie between zero and the largest 32-bit number.
pub fn check_non_negative_i32(name: &str, value: Option<i64>) -> (r: Result<(), String>)
    ensures
        connections::refusal(r) == limit_defect(name@, value),
{
    let v: i64 = match value {
        Some(v) => v,
        None => {
            return Ok(());
        },
    };
    let mut message: String = "[rate_limits] ".to_owned();
    text::push_text(&mut message, name);
    if v < 0 {
        text::push_text(&mut message, " must be >= 0, got ");
        text::push_dec_int(&mut message, v);
        Err(message)
    } else if v > i32::MAX as i64 {
        text::push_text(&mut message, " must be <= ");
        text::push_dec_int(&mut message, i32::MAX as i64);
        text::push_text(&mut message, ", got ");
        text::push_dec_int(&mut message, v);
        Err(message)
    } else {
        Ok(())
    }
}

impl RateLimitsConfig {
    /// Checks both limits. The first refusal wins.
    pub fn validate(&self) -> (r: Result<(), String>)
        ensures
            connections::refusal(r) == (match limit_defect(
                "download_rate_limit"@,
                self.download_rate_limit,
            ) {
                Some(why) => Some(why),
                None => limit_defect("upload_rate_limit"@, self.upload_rate_limit),
            }),
    {
        let first: Result<(), String> = check_non_negative_i32(
            "download_rate_limit",
            self.download_rate_limit,
        );
        if first.is_err() {
            return first;
        }
        check_non_negative_i32("upload_rate_limit", self.upload_rate_limit)
    }

    /// Writes the section's values into the settings object.
    pub fn write_json(&self, map: &mut serde_json::Map<String, serde_json::Value>)
        ensures
            settings::json_entries(*final(map)) == ({
                let m = settings::json_entries(*old(map));
                let m = settings::with_int(m, "download_rate_limit"@, self.download_rate_limit);
                let m = settings::with_int(m, "upload_rate_limit"@, self.upload_rate_limit);
                let m = settings::with_flag(m, "rate_limit_utp"@, self.rate_limit_utp);
                settings::with_flag(m, "rate_limit_ip_overhead"@, self.rate_limit_ip_overhead)
            }),
    {
        put_int(map, "download_rate_limit", self.download_rate_limit);
        put_int(map, "upload_rate_limit", self.upload_rate_limit);
        put_flag(map, "rate_limit_utp", self.rate_limit_utp);
        put_flag(map, "rate_limit_ip_overhead", self.rate_limit_ip_overhead);
    }
}

} // verus!
