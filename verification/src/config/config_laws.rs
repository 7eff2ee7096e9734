//! Which values the configuration accepts, and what is handed on of them.
use vstd::prelude::*;

use crate::config::connections;
use crate::config::enums;
use crate::config::enums::EnumRangeError;
use crate::config::proxy;
use crate::config::rate_limits;
use crate::config::settings;
use crate::config::settings::{Setting, SettingView};
use crate::config::timeouts::TimeoutsConfig;
use crate::text;

verus! {

/// A count is accepted when it is absent or between one and the largest signed number
/// of 32 bits; the refusal names the setting, the bound and the value.
pub proof fn law_counts_are_positive(name: Seq<char>, v: i64)
    ensures
        connections::count_defect(name, None) is None,
        connections::count_defect(name, Some(v)) is None <==> 1 <= v <= 2_147_483_647,
        v < 1 ==> connections::count_defect(name, Some(v)) == Some(
            "[connections] "@ + name + " must be >= 1, got "@ + text::dec_int(v as int),
        ),
        v > 2_147_483_647 ==> connections::count_defect(name, Some(v)) == Some(
            "[connections] "@ + name + " must be <= "@ + text::dec_int(2_147_483_647) + ", got "@
                + text::dec_int(v as int),
        ),
{
}

/// A rate limit is accepted when it is absent or between zero, which means no limit,
/// and the largest signed number of 32 bits.
pub proof fn law_limits_are_not_negative(name: Seq<char>, v: i64)
    ensures
        rate_limits::limit_defect(name, None) is None,
        rate_limits::limit_defect(name, Some(v)) is None <==> 0 <= v <= 2_147_483_647,
        v < 0 ==> rate_limits::limit_defect(name, Some(v)) == Some(
            "[rate_limits] "@ + name + " must be >= 0, got "@ + text::dec_int(v as int),
        ),
        v > 2_147_483_647 ==> rate_limits::limit_defect(name, Some(v)) == Some(
            "[rate_limits] "@ + name + " must be <= "@ + text::dec_int(2_147_483_647) + ", got "@
                + text::dec_int(v as int),
        ),
{
}

/// A proxy kind is accepted when it is absent or one of six, and the I2P kind only
/// where the swarm library was built with it.
pub proof fn law_which_proxies_are_accepted(name: String, i2p: bool)
    ensures
        proxy::type_defect(None, i2p) is None,
        proxy::type_defect(Some(name), i2p) is None <==> name@ == "socks4"@ || name@ == "socks5"@
            || name@ == "socks5_pw"@ || name@ == "http"@ || name@ == "http_pw"@ || (name@
            == "i2p_proxy"@ && i2p),
{
    reveal_strlit("i2p_proxy");
    reveal_strlit("socks4");
    reveal_strlit("socks5");
    reveal_strlit("socks5_pw");
    reveal_strlit("http");
    reveal_strlit("http_pw");
    assert("i2p_proxy"@[0] != "socks4"@[0]);
    assert("i2p_proxy"@[0] != "socks5"@[0]);
    assert("i2p_proxy"@[0] != "socks5_pw"@[0]);
    assert("i2p_proxy"@[0] != "http"@[0]);
    assert("i2p_proxy"@[0] != "http_pw"@[0]);
}

/// A choice is accepted when it is absent or among its legal values.
pub proof fn law_choices_are_among_their_values(
    r: Option<EnumRangeError>,
    field: Seq<char>,
    allowed: Seq<char>,
    values: Seq<i64>,
    v: Option<i64>,
)
    requires
        enums::checked(r, field, allowed, values, v),
    ensures
        v is None ==> r is None,
        v matches Some(n) ==> (r is None <==> exists|i: int|
            0 <= i < values.len() && #[trigger] values[i] == n),
        r matches Some(e) ==> e.field@ == field && e.allowed@ == allowed,
{
}

/// A read waits as long as configured, a minute when that is absent or not positive.
pub proof fn law_how_long_a_read_waits(c: TimeoutsConfig)
    ensures
        c.read_timeout_secs matches Some(v) ==> v > 0 ==> c.read_timeout() == v,
        (c.read_timeout_secs matches Some(v) ==> v <= 0) ==> c.read_timeout() == 60,
{
}

/// A setting that has a value is handed on under its own key, and no other key is
/// touched; one that is absent, or an empty text, is not handed on.
pub proof fn law_settings_are_handed_on(
    m: Map<Seq<char>, SettingView>,
    key: Seq<char>,
    other: Seq<char>,
    t: Option<String>,
    i: Option<i64>,
    b: Option<bool>,
)
    requires
        other != key,
    ensures
        t matches Some(s) ==> s@.len() > 0 ==> settings::with_text(m, key, t).contains_key(key)
            && settings::with_text(m, key, t)[key] == SettingView::Text(s@),
        (t matches Some(s) ==> s@.len() == 0) ==> settings::with_text(m, key, t) == m,
        i matches Some(n) ==> settings::with_int(m, key, i).contains_key(key)
            && settings::with_int(m, key, i)[key] == SettingView::Int(n),
        i is None ==> settings::with_int(m, key, i) == m,
        b matches Some(f) ==> settings::with_flag(m, key, b).contains_key(key)
            && settings::with_flag(m, key, b)[key] == SettingView::Flag(f),
        b is None ==> settings::with_flag(m, key, b) == m,
        settings::with_text(m, key, t).contains_key(other) == m.contains_key(other),
        settings::with_int(m, key, i).contains_key(other) == m.contains_key(other),
        settings::with_flag(m, key, b).contains_key(other) == m.contains_key(other),
        m.contains_key(other) ==> settings::with_text(m, key, t)[other] == m[other]
            && settings::with_int(m, key, i)[other] == m[other] && settings::with_flag(
            m,
            key,
            b,
        )[other] == m[other],
{
}

/// The plain value of a setting is what it holds.
pub proof fn law_setting_is_what_it_holds(t: String, n: i64, b: bool)
    ensures
        Setting::Text(t)@ == SettingView::Text(t@),
        Setting::Int(n)@ == SettingView::Int(n),
        Setting::Flag(b)@ == SettingView::Flag(b),
{
}

} // verus!
