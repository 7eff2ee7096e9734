//! The settings object that is handed to the swarm library.
use vstd::prelude::*;

verus! {

/// Declares `serde_json::Map`.
#[verifier::external_type_specification]
#[verifier::external_body]
#[verifier::reject_recursive_types(K)]
#[verifier::reject_recursive_types(V)]
pub struct ExJsonMap<K, V>(serde_json::Map<K, V>);

/// Declares `serde_json::Value`.
#[verifier::external_type_specification]
#[verifier::external_body]
pub struct ExJsonValue(serde_json::Value);

/// A setting's value.
pub enum Setting {
    Text(String),
    Int(i64),
    Flag(bool),
}

/// A setting's value, as mathematics.
pub enum SettingView {
    Text(Seq<char>),
    Int(i64),
    Flag(bool),
}

impl View for Setting {
    type V = SettingView;

    open spec fn view(&self) -> SettingView {
        match self {
            Setting::Text(s) => SettingView::Text(s@),
            Setting::Int(i) => SettingView::Int(*i),
            Setting::Flag(b) => SettingView::Flag(*b),
        }
    }
}

/// The entries of a settings object: each key that holds a string, an integer
/// or a boolean, with its value.
pub uninterp spec fn json_entries(
    map: serde_json::Map<String, serde_json::Value>,
) -> Map<Seq<char>, SettingView>;

/// Calls `serde_json::Map::insert`: the key has the given value afterwards,
/// whatever it had before, and every other key keeps what it had.
#[verifier::external_body]
fn json_insert(map: &mut serde_json::Map<String, serde_json::Value>, key: &str, value: Setting)
    ensures
        json_entries(*final(map)) == json_entries(*old(map)).insert(key@, value@),
{
    let value = match value {
        Setting::Text(s) => serde_json::Value::String(s),
        Setting::Int(i) => serde_json::Value::Number(serde_json::Number::from(i)),
        Setting::Flag(b) => serde_json::Value::Bool(b),
    };
    map.insert(key.to_string(), value);
}

/// The entries with an optional text, which is left out when it is absent or
/// empty.
pub open spec fn with_text(
    entries: Map<Seq<char>, SettingView>,
    key: Seq<char>,
    value: Option<String>,
) -> Map<Seq<char>, SettingView> {
    match value {
        Some(s) => if s@.len() == 0 {
            entries
        } else {
            entries.insert(key, SettingView::Text(s@))
        },
        None => entries,
    }
}

/// The entries with an optional number.
pub open spec fn with_int(
    entries: Map<Seq<char>, SettingView>,
    key: Seq<char>,
    value: Option<i64>,
) -> Map<Seq<char>, SettingView> {
    match value {
        Some(i) => entries.insert(key, SettingView::Int(i)),
        None => entries,
    }
}

/// The entries with an optional flag.
pub open spec fn with_flag(
    entries: Map<Seq<char>, SettingView>,
    key: Seq<char>,
    value: Option<bool>,
) -> Map<Seq<char>, SettingView> {
    match value {
        Some(b) => entries.insert(key, SettingView::Flag(b)),
        None => entries,
    }
}

/// Writes an optional text; see [`with_text`].
pub fn put_text(
    map: &mut serde_json::Map<String, serde_json::Value>,
    key: &str,
    value: &Option<String>,
)
    ensures
        json_entries(*final(map)) == with_text(json_entries(*old(map)), key@, *value),
{
    match value {
        Some(s) => {
            if !s.as_str().is_empty() {
                json_insert(map, key, Setting::Text(s.clone()));
            }
        },
        None => {},
    }
}

/// Writes an optional number.
pub fn put_int(
    map: &mut serde_json::Map<String, serde_json::Value>,
    key: &str,
    value: Option<i64>,
)
    ensures
        json_entries(*final(map)) == with_int(json_entries(*old(map)), key@, value),
{
    match value {
        Some(i) => json_insert(map, key, Setting::Int(i)),
        None => {},
    }
}

/// Writes an optional flag.
pub fn put_flag(
    map: &mut serde_json::Map<String, serde_json::Value>,
    key: &str,
    value: Option<bool>,
)
    ensures
        json_entries(*final(map)) == with_flag(json_entries(*old(map)), key@, value),
{
    match value {
        Some(b) => json_insert(map, key, Setting::Flag(b)),
        None => {},
    }
}

} // verus!
