//! Per-device options, read from the settings of the fallback profile.

use crate::config::{parse_modifiers, parse_tokens, setting, setting_of};
use crate::event::Event;
use crate::keycode::{key_code_of, key_from_name};
use crate::text::{parse_bool, parse_i32, parse_unsigned, signed_value, split_on, str_eq, unsigned_value};
use vstd::prelude::*;

verus! {

/// What an analog stick does.
#[derive(Debug, Clone, Copy, PartialEq, Eq, Structural)]
pub enum StickFunction {
    Cursor,
    Scroll,
    Bind,
    Disabled,
}

/// The options of one analog stick.
#[derive(Debug, Clone)]
pub struct Stick {
    pub function: StickFunction,
    pub sensitivity: u64,
    pub deadzone: i32,
    pub activation_modifiers: Vec<Event>,
}

/// The options of a device.
#[derive(Debug, Clone)]
pub struct Settings {
    pub lstick: Stick,
    pub rstick: Stick,
    pub invert_cursor_axis: bool,
    pub invert_scroll_axis: bool,
    pub axis_16_bit: bool,
    pub chain_only: bool,
    pub layout_switcher: u16,
    pub notify_layout_switch: bool,
    pub grab_device: bool,
}

/// The stick function a setting value names, if it names one.
pub open spec fn function_named(v: Seq<char>) -> Option<StickFunction> {
    if v == "cursor"@ {
        Some(StickFunction::Cursor)
    } else if v == "scroll"@ {
        Some(StickFunction::Scroll)
    } else if v == "bind"@ {
        Some(StickFunction::Bind)
    } else if v == "disabled"@ {
        Some(StickFunction::Disabled)
    } else {
        None
    }
}

/// A stick function setting, `default` when absent, `None` when invalid.
pub open spec fn function_setting(pairs: Seq<(String, String)>, name: Seq<char>, default: StickFunction) -> Option<StickFunction> {
    match setting_of(pairs, name) {
        Some(v) => function_named(v),
        None => Some(default),
    }
}

/// A deadzone setting: an integer from 0 to 128, `default` when absent,
/// `None` when invalid.
pub open spec fn deadzone_setting(pairs: Seq<(String, String)>, name: Seq<char>, default: i32) -> Option<i32> {
    match i32_setting(pairs, name, default) {
        Some(d) => if 0 <= d <= 128 { Some(d) } else { None },
        None => None,
    }
}

/// A non-negative integer setting, `default` when absent, `None` when invalid.
pub open spec fn u64_setting(pairs: Seq<(String, String)>, name: Seq<char>, default: u64) -> Option<u64> {
    match setting_of(pairs, name) {
        None => Some(default),
        Some(v) => match unsigned_value(v) {
            Some(n) => if n <= u64::MAX { Some(n as u64) } else { None },
            None => None,
        },
    }
}

/// An integer setting, `default` when absent, `None` when invalid.
pub open spec fn i32_setting(pairs: Seq<(String, String)>, name: Seq<char>, default: i32) -> Option<i32> {
    match setting_of(pairs, name) {
        None => Some(default),
        Some(v) => match signed_value(v) {
            Some(n) => if i32::MIN <= n <= i32::MAX { Some(n as i32) } else { None },
            None => None,
        },
    }
}

/// A boolean setting, `default` when absent, `None` when invalid.
pub open spec fn bool_setting(pairs: Seq<(String, String)>, name: Seq<char>, default: bool) -> Option<bool> {
    match setting_of(pairs, name) {
        None => Some(default),
        Some(v) => if v == "true"@ {
            Some(true)
        } else if v == "false"@ {
            Some(false)
        } else {
            None
        },
    }
}

/// The key named by `LAYOUT_SWITCHER`, `BTN_0` when absent.
pub open spec fn switcher_setting(pairs: Seq<(String, String)>) -> Option<u16> {
    match setting_of(pairs, "LAYOUT_SWITCHER"@) {
        None => key_code_of("BTN_0"@),
        Some(v) => key_code_of(v),
    }
}

/// The modifiers listed in setting `name`.
pub open spec fn modifiers_setting(pairs: Seq<(String, String)>, name: Seq<char>) -> Seq<Event> {
    match setting_of(pairs, name) {
        Some(v) => parse_tokens(split_on(v, '-'), true),
        None => Seq::empty(),
    }
}

/// The name of the first invalid setting, in the order they are read.
pub open spec fn first_invalid(p: Seq<(String, String)>) -> Option<Seq<char>> {
    if function_setting(p, "LSTICK"@, StickFunction::Cursor) is None {
        Some("LSTICK"@)
    } else if u64_setting(p, "LSTICK_SENSITIVITY"@, 0) is None {
        Some("LSTICK_SENSITIVITY"@)
    } else if deadzone_setting(p, "LSTICK_DEADZONE"@, 5) is None {
        Some("LSTICK_DEADZONE"@)
    } else if function_setting(p, "RSTICK"@, StickFunction::Scroll) is None {
        Some("RSTICK"@)
    } else if u64_setting(p, "RSTICK_SENSITIVITY"@, 0) is None {
        Some("RSTICK_SENSITIVITY"@)
    } else if deadzone_setting(p, "RSTICK_DEADZONE"@, 5) is None {
        Some("RSTICK_DEADZONE"@)
    } else if bool_setting(p, "AXIS_16_BIT"@, false) is None {
        Some("AXIS_16_BIT"@)
    } else if bool_setting(p, "CHAIN_ONLY"@, true) is None {
        Some("CHAIN_ONLY"@)
    } else if bool_setting(p, "INVERT_CURSOR_AXIS"@, false) is None {
        Some("INVERT_CURSOR_AXIS"@)
    } else if bool_setting(p, "INVERT_SCROLL_AXIS"@, false) is None {
        Some("INVERT_SCROLL_AXIS"@)
    } else if switcher_setting(p) is None {
        Some("LAYOUT_SWITCHER"@)
    } else if bool_setting(p, "NOTIFY_LAYOUT_SWITCH"@, false) is None {
        Some("NOTIFY_LAYOUT_SWITCH"@)
    } else if bool_setting(p, "GRAB_DEVICE"@, true) is None {
        Some("GRAB_DEVICE"@)
    } else {
        None
    }
}

fn function_of(pairs: &Vec<(String, String)>, name: &str, default: StickFunction) -> (r: Option<StickFunction>)
    ensures
        r == function_setting(pairs@, name@, default),
{
    match setting(pairs, name) {
        None => Some(default),
        Some(v) => if str_eq(v.as_str(), "cursor") {
            Some(StickFunction::Cursor)
        } else if str_eq(v.as_str(), "scroll") {
            Some(StickFunction::Scroll)
        } else if str_eq(v.as_str(), "bind") {
            Some(StickFunction::Bind)
        } else if str_eq(v.as_str(), "disabled") {
            Some(StickFunction::Disabled)
        } else {
            None
        },
    }
}

fn deadzone_of(pairs: &Vec<(String, String)>, name: &str, default: i32) -> (r: Option<i32>)
    ensures
        r == deadzone_setting(pairs@, name@, default),
{
    match i32_of(pairs, name, default) {
        Some(d) => if 0 <= d && d <= 128 { Some(d) } else { None },
        None => None,
    }
}

fn u64_of(pairs: &Vec<(String, String)>, name: &str, default: u64) -> (r: Option<u64>)
    ensures
        r == u64_setting(pairs@, name@, default),
{
    match setting(pairs, name) {
        None => Some(default),
        Some(v) => parse_unsigned(v.as_str(), u64::MAX),
    }
}

fn i32_of(pairs: &Vec<(String, String)>, name: &str, default: i32) -> (r: Option<i32>)
    ensures
        r == i32_setting(pairs@, name@, default),
{
    match setting(pairs, name) {
        None => Some(default),
        Some(v) => parse_i32(v.as_str()),
    }
}

fn bool_of(pairs: &Vec<(String, String)>, name: &str, default: bool) -> (r: Option<bool>)
    ensures
        r == bool_setting(pairs@, name@, default),
{
    match setting(pairs, name) {
        None => Some(default),
        Some(v) => parse_bool(v.as_str()),
    }
}


/// `s` holds the options that `p` sets, each at its default when unset.
pub open spec fn reads(s: Settings, p: Seq<(String, String)>) -> bool {
    &&& Some(s.lstick.function) == function_setting(p, "LSTICK"@, StickFunction::Cursor)
    &&& Some(s.rstick.function) == function_setting(p, "RSTICK"@, StickFunction::Scroll)
    &&& Some(s.lstick.sensitivity) == u64_setting(p, "LSTICK_SENSITIVITY"@, 0)
    &&& Some(s.rstick.sensitivity) == u64_setting(p, "RSTICK_SENSITIVITY"@, 0)
    &&& Some(s.lstick.deadzone) == deadzone_setting(p, "LSTICK_DEADZONE"@, 5)
    &&& Some(s.rstick.deadzone) == deadzone_setting(p, "RSTICK_DEADZONE"@, 5)
    &&& s.lstick.activation_modifiers@ == modifiers_setting(p, "LSTICK_ACTIVATION_MODIFIERS"@)
    &&& s.rstick.activation_modifiers@ == modifiers_setting(p, "RSTICK_ACTIVATION_MODIFIERS"@)
    &&& Some(s.axis_16_bit) == bool_setting(p, "AXIS_16_BIT"@, false)
    &&& Some(s.chain_only) == bool_setting(p, "CHAIN_ONLY"@, true)
    &&& Some(s.invert_cursor_axis) == bool_setting(p, "INVERT_CURSOR_AXIS"@, false)
    &&& Some(s.invert_scroll_axis) == bool_setting(p, "INVERT_SCROLL_AXIS"@, false)
    &&& Some(s.layout_switcher) == switcher_setting(p)
    &&& Some(s.notify_layout_switch) == bool_setting(p, "NOTIFY_LAYOUT_SWITCH"@, false)
    &&& Some(s.grab_device) == bool_setting(p, "GRAB_DEVICE"@, true)
}

impl Settings {
    /// Reads the device options; the name of the first invalid one otherwise.
    pub fn from_pairs(pairs: &Vec<(String, String)>) -> (r: Result<Settings, String>)
        ensures
            match first_invalid(pairs@) {
                Some(name) => r is Err && r->Err_0@ == name,
                None => r is Ok && reads(r->Ok_0, pairs@),
            },
    {
        let lf = match function_of(pairs, "LSTICK", StickFunction::Cursor) {
            Some(v) => v,
            None => return Err(String::from_str("LSTICK")),
        };
        let ls = match u64_of(pairs, "LSTICK_SENSITIVITY", 0) {
            Some(v) => v,
            None => return Err(String::from_str("LSTICK_SENSITIVITY")),
        };
        let ld = match deadzone_of(pairs, "LSTICK_DEADZONE", 5) {
            Some(v) => v,
            None => return Err(String::from_str("LSTICK_DEADZONE")),
        };
        let rf = match function_of(pairs, "RSTICK", StickFunction::Scroll) {
            Some(v) => v,
            None => return Err(String::from_str("RSTICK")),
        };
        let rs = match u64_of(pairs, "RSTICK_SENSITIVITY", 0) {
            Some(v) => v,
            None => return Err(String::from_str("RSTICK_SENSITIVITY")),
        };
        let rd = match deadzone_of(pairs, "RSTICK_DEADZONE", 5) {
            Some(v) => v,
            None => return Err(String::from_str("RSTICK_DEADZONE")),
        };
        let bits = match bool_of(pairs, "AXIS_16_BIT", false) {
            Some(v) => v,
            None => return Err(String::from_str("AXIS_16_BIT")),
        };
        let chain = match bool_of(pairs, "CHAIN_ONLY", true) {
            Some(v) => v,
            None => return Err(String::from_str("CHAIN_ONLY")),
        };
        let inv_c = match bool_of(pairs, "INVERT_CURSOR_AXIS", false) {
            Some(v) => v,
            None => return Err(String::from_str("INVERT_CURSOR_AXIS")),
        };
        let inv_s = match bool_of(pairs, "INVERT_SCROLL_AXIS", false) {
            Some(v) => v,
            None => return Err(String::from_str("INVERT_SCROLL_AXIS")),
        };
        let switcher = match setting(pairs, "LAYOUT_SWITCHER") {
            None => key_from_name("BTN_0"),
            Some(v) => key_from_name(v.as_str()),
        };
        let switcher = match switcher {
            Some(v) => v,
            None => return Err(String::from_str("LAYOUT_SWITCHER")),
        };
        let notify = match bool_of(pairs, "NOTIFY_LAYOUT_SWITCH", false) {
            Some(v) => v,
            None => return Err(String::from_str("NOTIFY_LAYOUT_SWITCH")),
        };
        let grab = match bool_of(pairs, "GRAB_DEVICE", true) {
            Some(v) => v,
            None => return Err(String::from_str("GRAB_DEVICE")),
        };
        Ok(
            Settings {
                lstick: Stick {
                    function: lf,
                    sensitivity: ls,
                    deadzone: ld,
                    activation_modifiers: parse_modifiers(pairs, "LSTICK_ACTIVATION_MODIFIERS"),
                },
                rstick: Stick {
                    function: rf,
                    sensitivity: rs,
                    deadzone: rd,
                    activation_modifiers: parse_modifiers(pairs, "RSTICK_ACTIVATION_MODIFIERS"),
                },
                invert_cursor_axis: inv_c,
                invert_scroll_axis: inv_s,
                axis_16_bit: bits,
                chain_only: chain,
                layout_switcher: switcher,
                notify_layout_switch: notify,
                grab_device: grab,
            },
        )
    }
}

} // verus!
