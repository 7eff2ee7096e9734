//! Settings whose integer stands for one of a few choices.
use vstd::prelude::*;

use crate::text;

verus! {

/// A value outside its legal set.
#[derive(Debug)]
pub struct EnumRangeError {
    /// The field's name in the configuration file.
    pub field: &'static str,
    /// The legal values, for a person to read.
    pub allowed: &'static str,
}

impl EnumRangeError {
    /// The error as a message.
    pub fn message(&self) -> (s: String)
        ensures
            s@ == "enum value for `"@ + self.field@ + "` out of range: legal values are {"@
                + self.allowed@ + "}"@,
    {
        let mut s: String = "enum value for `".to_owned();
        text::push_text(&mut s, self.field);
        text::push_text(&mut s, "` out of range: legal values are {");
        text::push_text(&mut s, self.allowed);
        text::push_text(&mut s, "}");
        s
    }
}

/// What a check of an optional value must come to.
pub open spec fn checked(
    r: Option<EnumRangeError>,
    field: Seq<char>,
    allowed: Seq<char>,
    values: Seq<i64>,
    v: Option<i64>,
) -> bool {
    match r {
        Some(e) => (v matches Some(n) && !values.contains(n)) && e.field@ == field && e.allowed@
            == allowed,
        None => v matches Some(n) ==> values.contains(n),
    }
}

/// Checks a value against its legal set.
fn check(field: &'static str, allowed: &'static str, values: &[i64], value: i64) -> (r: Option<
    EnumRangeError,
>)
    ensures
        checked(r, field@, allowed@, values@, Some(value)),
{
    let mut i: usize = 0;
    while i < values.len()
        invariant
            i <= values@.len(),
            forall|j: int| 0 <= j < i ==> values@[j] != value,
        decreases values@.len() - i,
    {
        if values[i] == value {
            assert(values@.contains(value));
            return None;
        }
        i = i + 1;
    }
    Some(EnumRangeError { field, allowed })
}

/// Checks an optional value against its legal set; an absent one is legal.
fn check_optional(
    field: &'static str,
    allowed: &'static str,
    values: &[i64],
    value: Option<i64>,
) -> (r: Option<EnumRangeError>)
    ensures
        checked(r, field@, allowed@, values@, value),
{
    match value {
        Some(n) => check(field, allowed, values, n),
        None => None,
    }
}

/// Checks of the choices.
pub struct EnumValidator;

impl EnumValidator {
    /// No suggestions, or suggest what is in the read cache.
    pub fn suggest_mode(v: Option<i64>) -> (r: Option<EnumRangeError>)
        ensures
            checked(r, "algorithms.suggest_mode"@, "0, 1"@, seq![0i64, 1i64], v),
    {
        let values: [i64; 2] = [0, 1];
        assert(values@ =~= seq![0i64, 1i64]);
        check_optional("algorithms.suggest_mode", "0, 1", &values, v)
    }

    /// Fixed slots, rate based, or the deprecated tyrant, which is still legal.
    pub fn choking_algorithm(v: Option<i64>) -> (r: Option<EnumRangeError>)
        ensures
            checked(r, "algorithms.choking_algorithm"@, "0, 2, 3"@, seq![0i64, 2i64, 3i64], v),
    {
        let values: [i64; 3] = [0, 2, 3];
        assert(values@ =~= seq![0i64, 2i64, 3i64]);
        check_optional("algorithms.choking_algorithm", "0, 2, 3", &values, v)
    }

    /// Round robin, fastest upload or anti-leech.
    pub fn seed_choking_algorithm(v: Option<i64>) -> (r: Option<EnumRangeError>)
        ensures
            checked(r, "algorithms.seed_choking_algorithm"@, "0, 1, 2"@, seq![0i64, 1i64, 2i64], v),
    {
        let values: [i64; 3] = [0, 1, 2];
        assert(values@ =~= seq![0i64, 1i64, 2i64]);
        check_optional("algorithms.seed_choking_algorithm", "0, 1, 2", &values, v)
    }

    /// Prefer TCP, or share by peers.
    pub fn mixed_mode_algorithm(v: Option<i64>) -> (r: Option<EnumRangeError>)
        ensures
            checked(r, "algorithms.mixed_mode_algorithm"@, "0, 1"@, seq![0i64, 1i64], v),
    {
        let values: [i64; 2] = [0, 1];
        assert(values@ =~= seq![0i64, 1i64]);
        check_optional("algorithms.mixed_mode_algorithm", "0, 1", &values, v)
    }

    /// Forced, enabled or disabled.
    pub fn encryption_policy(v: Option<i64>) -> (r: Option<EnumRangeError>)
        ensures
            checked(r, "encryption.encryption_policy"@, "0, 1, 2"@, seq![0i64, 1i64, 2i64], v),
    {
        let values: [i64; 3] = [0, 1, 2];
        assert(values@ =~= seq![0i64, 1i64, 2i64]);
        check_optional("encryption.encryption_policy", "0, 1, 2", &values, v)
    }

    /// Plain text, RC4 or both.
    pub fn allowed_encryption_level(v: Option<i64>) -> (r: Option<EnumRangeError>)
        ensures
            checked(
                r,
                "encryption.allowed_encryption_level"@,
                "1, 2, 3"@,
                seq![1i64, 2i64, 3i64],
                v,
            ),
    {
        let values: [i64; 3] = [1, 2, 3];
        assert(values@ =~= seq![1i64, 2i64, 3i64]);
        check_optional("encryption.allowed_encryption_level", "1, 2, 3", &values, v)
    }
}

} // verus!
