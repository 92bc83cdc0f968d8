//! Key names of the Linux input subsystem, looked up through evdev.

use vstd::prelude::*;

verus! {

/// The key code that evdev gives to a key name such as `KEY_A` or
/// `BTN_SOUTH`, if it knows the name.
pub uninterp spec fn key_code_of(name: Seq<char>) -> Option<u16>;

/// Relies on evdev's `FromStr for Key`: an exact lookup of the name among
/// evdev's key constants, which depends on the name alone.
#[verifier::external_body]
pub(crate) fn key_from_name(name: &str) -> (r: Option<u16>)
    ensures
        r == key_code_of(name@),
{
    match <evdev::Key as std::str::FromStr>::from_str(name) {
        Ok(key) => Some(key.code()),
        Err(_) => None,
    }
}

} // verus!
