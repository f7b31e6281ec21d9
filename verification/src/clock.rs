//! The wall clock, as RFC 3339 text.
use vstd::prelude::*;

verus! {

/// Reads the current time: `chrono::Utc::now()`, rendered by
/// `chrono::DateTime::to_rfc3339_opts` with `SecondsFormat::AutoSi` and a `Z`
/// suffix. Nothing is promised of the text: it depends on the clock.
/// `Utc::now` panics only when the system clock reads a time before
/// 1970-01-01 or past the last date chrono can hold (the year 262143). A
/// clock set outside that range is taken as a broken machine: no `requires`
/// could name the clock's state, so none is given.
#[verifier::external_body]
pub(crate) fn current_timestamp() -> String {
    chrono::Utc::now().to_rfc3339_opts(chrono::SecondsFormat::AutoSi, true)
}

} // verus!
