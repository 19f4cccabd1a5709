//! Values minted by the host platform: fresh identifiers and the current
//! time. Nothing can be promised about which value comes back, only about
//! its shape.

use vstd::prelude::*;

verus! {

/// Relies on `uuid::Uuid::new_v4` and its default hyphenated `Display`
/// form: a random identifier rendered as 36 characters.
#[verifier::external_body]
pub(crate) fn fresh_uuid() -> (r: String)
    ensures
        r@.len() == 36,
{
    uuid::Uuid::new_v4().to_string()
}

/// Relies on `chrono::Utc::now` and `DateTime::to_rfc3339`: the current
/// instant rendered as a non-empty RFC 3339 timestamp.
#[verifier::external_body]
pub(crate) fn now_rfc3339() -> (r: String)
    ensures
        r@.len() > 0,
{
    chrono::Utc::now().to_rfc3339()
}

} // verus!
