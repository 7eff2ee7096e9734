//! The `[proxy]` section.
use vstd::prelude::*;

use crate::config::connections;
use crate::config::settings;
use crate::config::settings::{put_flag, put_int, put_text};
use crate::text;

verus! {

/// The `[proxy]` section.
#[derive(Debug, Clone)]
pub struct ProxyConfig {
    pub host: Option<String>,
    pub port: Option<i64>,
    /// The proxy's kind by name; absent means no proxy.
    pub proxy_type: Option<String>,
    pub proxy_hostnames: Option<bool>,
    pub proxy_peer_connections: Option<bool>,
    pub proxy_tracker_connections: Option<bool>,
    pub anonymous_mode: Option<bool>,
    pub force_proxy: Option<bool>,
}

impl Default for ProxyConfig {
    fn default() -> (d: Self)
        ensures
            d.host is None,
            d.port is None,
            d.proxy_type is None,
            d.proxy_hostnames is None,
            d.proxy_peer_connections is None,
            d.proxy_tracker_connections is None,
            d.anonymous_mode is None,
            d.force_proxy is None,
    {
        ProxyConfig {
            host: None,
            port: None,
            proxy_type: None,
            proxy_hostnames: None,
            proxy_peer_connections: None,
            proxy_tracker_connections: None,
            anonymous_mode: None,
            force_proxy: None,
        }
    }
}

/// The proxy kinds that the swarm library knows.
pub open spec fn legal_type(name: Seq<char>) -> bool {
    name == "socks4"@ || name == "socks5"@ || name == "socks5_pw"@ || name == "http"@ || name
        == "http_pw"@ || name == "i2p_proxy"@
}

/// Why a proxy kind is refused.
pub open spec fn type_defect(proxy_type: Option<String>, i2p_enabled: bool) -> Option<Seq<char>> {
    match proxy_type {
        Some(name) => if name@ == "i2p_proxy"@ && !i2p_enabled {
            Some(
                "i2p_proxy requires a libtorrent build with I2P support (TORRENT_USE_I2P=1); this build has I2P compiled out"@,
            )
        } else if legal_type(name@) {
            None
        } else {
            Some(
                "[proxy] proxy_type must be one of socks4, socks5, socks5_pw, http, http_pw, i2p_proxy, got "@
                    + text::debug_text(name@),
            )
        },
        None => None,
    }
}

/// Whether the swarm library knows a proxy kind.
fn is_legal_type(name: &str) -> (yes: bool)
    ensures
        yes == legal_type(name@),
{
    text::same(name, "socks4") || text::same(name, "socks5") || text::same(name, "socks5_pw")
        || text::same(name, "http") || text::same(name, "http_pw") || text::same(
        name,
        "i2p_proxy",
    )
}

/// What is said of a proxy kind that does not exist, quoted as given.
pub fn unknown_type(quoted: &str) -> (message: String)
    ensures
        message@
            == "[proxy] proxy_type must be one of socks4, socks5, socks5_pw, http, http_pw, i2p_proxy, got "@
            + quoted@,
{
    let mut message: String =
        "[proxy] proxy_type must be one of socks4, socks5, socks5_pw, http, http_pw, i2p_proxy, got ".to_owned();
    text::push_text(&mut message, quoted);
    message
}

impl ProxyConfig {
    /// Checks the proxy kind. It may be absent; once present, even empty, it
    /// must name a kind, and the I2P kind only where the library was built
    /// with it.
    pub fn validate_with(&self, i2p_enabled: bool) -> (r: Result<(), String>)
        ensures
            connections::refusal(r) == type_defect(self.proxy_type, i2p_enabled),
    {
        let name: &String = match &self.proxy_type {
            Some(name) => name,
            None => {
                return Ok(());
            },
        };
        if text::same(name.as_str(), "i2p_proxy") && !i2p_enabled {
            return Err(
                "i2p_proxy requires a libtorrent build with I2P support (TORRENT_USE_I2P=1); this build has I2P compiled out".to_owned(),
            );
        }
        if is_legal_type(name.as_str()) {
            return Ok(());
        }
        Err(unknown_type(text::debug_string(name.as_str()).as_str()))
    }

    /// Writes the section's values into the settings object, the host and port
    /// under the names that the swarm library knows.
    pub fn write_json(&self, map: &mut serde_json::Map<String, serde_json::Value>)
        ensures
            settings::json_entries(*final(map)) == ({
                let m = settings::json_entries(*old(map));
                let m = settings::with_text(m, "proxy_hostname"@, self.host);
                let m = settings::with_int(m, "proxy_port"@, self.port);
                let m = settings::with_text(m, "proxy_type"@, self.proxy_type);
                let m = settings::with_flag(m, "proxy_hostnames"@, self.proxy_hostnames);
                let m = settings::with_flag(
                    m,
                    "proxy_peer_connections"@,
                    self.proxy_peer_connections,
                );
                let m = settings::with_flag(
                    m,
                    "proxy_tracker_connections"@,
                    self.proxy_tracker_connections,
                );
                let m = settings::with_flag(m, "anonymous_mode"@, self.anonymous_mode);
                settings::with_flag(m, "force_proxy"@, self.force_proxy)
            }),
    {
        put_text(map, "proxy_hostname", &self.host);
        put_int(map, "proxy_port", self.port);
        put_text(map, "proxy_type", &self.proxy_type);
        put_flag(map, "proxy_hostnames", self.proxy_hostnames);
        put_flag(map, "proxy_peer_connections", self.proxy_peer_connections);
        put_flag(map, "proxy_tracker_connections", self.proxy_tracker_connections);
        put_flag(map, "anonymous_mode", self.anonymous_mode);
        put_flag(map, "force_proxy", self.force_proxy);
    }
}

/// A configuration without a proxy kind, or with one of the kinds that need no
/// special build, passes whatever the build can do.
pub proof fn law_plain_types_need_no_capability(proxy_type: Option<String>)
    requires
        proxy_type matches Some(name) ==> legal_type(name@) && name@ != "i2p_proxy"@,
    ensures
        type_defect(proxy_type, true) is None,
        type_defect(proxy_type, false) is None,
{
}

} // verus!
