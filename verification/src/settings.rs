//! Configuration values and the decisions the desktop shell takes on them:
//! defaults, flag and number parsing, what a changed setting sets off, and
//! what a menu entry does.

use vstd::prelude::*;
use crate::fmt::{decimal, digit_char};
use crate::text::{chars_eq, chars_of};

verus! {

/// The default configuration, as `(key, value)` pairs in order.
pub open spec fn default_pairs() -> Seq<(Seq<char>, Seq<char>)> {
    seq![
        ("refresh_interval_ms"@, "1000"@),
        ("theme"@, "dark"@),
        ("auto_start"@, "false"@),
        ("minimize_to_tray"@, "true"@),
        ("alert_sound"@, "true"@),
        ("taskbar_speed"@, "false"@),
    ]
}

pub open spec fn pair_views(v: Seq<(String, String)>) -> Seq<(Seq<char>, Seq<char>)> {
    Seq::new(v.len(), |i: int| (v[i].0@, v[i].1@))
}

fn owned(s: &str) -> (r: String)
    ensures
        r@ == s@,
{
    s.to_owned()
}

/// The project's default configuration values (inserted where missing).
pub fn config_defaults() -> (r: Vec<(String, String)>)
    ensures
        pair_views(r@) == default_pairs(),
{
    let r = vec![
        (owned("refresh_interval_ms"), owned("1000")),
        (owned("theme"), owned("dark")),
        (owned("auto_start"), owned("false")),
        (owned("minimize_to_tray"), owned("true")),
        (owned("alert_sound"), owned("true")),
        (owned("taskbar_speed"), owned("false")),
    ];
    assert(pair_views(r@) =~= default_pairs());
    r
}

/// Whether two strings hold the same characters.
pub fn str_is(a: &str, b: &str) -> (r: bool)
    ensures
        r == (a@ == b@),
{
    chars_eq(&chars_of(a), &chars_of(b))
}

pub open spec fn is_ascii_digit(c: char) -> bool {
    48 <= (c as u32) <= 57
}

/// Value of a string of decimal digits.
pub open spec fn digits_value(s: Seq<char>) -> nat
    decreases s.len(),
{
    if s.len() == 0 {
        0
    } else {
        digits_value(s.drop_last()) * 10 + ((s.last() as u32) - 48) as nat
    }
}

/// The number an unsigned decimal text denotes: an optional `+` and then
/// one or more ASCII digits; `None` for any other text.
pub open spec fn unsigned_decimal(s: Seq<char>) -> Option<nat> {
    let body = if s.len() > 0 && s[0] == '+' {
        s.drop_first()
    } else {
        s
    };
    if body.len() > 0 && forall|i: int| 0 <= i < body.len() ==> is_ascii_digit(#[trigger] body[i]) {
        Some(digits_value(body))
    } else {
        None
    }
}

/// Calls `str::parse::<u32>`, which accepts an optional `+` followed by ASCII
/// digits whose value fits in a `u32`, and fails on anything else.
#[verifier::external_body]
pub(crate) fn parse_u32(s: &str) -> (r: Option<u32>)
    ensures
        r == match unsigned_decimal(s@) {
            Some(v) => if v <= u32::MAX {
                Some(v as u32)
            } else {
                None
            },
            None => None,
        },
{
    s.parse::<u32>().ok()
}

/// Calls `str::parse::<u64>`, which accepts an optional `+` followed by ASCII
/// digits whose value fits in a `u64`, and fails on anything else.
#[verifier::external_body]
pub(crate) fn parse_u64(s: &str) -> (r: Option<u64>)
    ensures
        r == match unsigned_decimal(s@) {
            Some(v) => if v <= u64::MAX {
                Some(v as u64)
            } else {
                None
            },
            None => None,
        },
{
    s.parse::<u64>().ok()
}

/// A stored boolean setting: `"true"` is on, any other stored text is off,
/// and a missing value takes `default`.
pub open spec fn flag_value(stored: Option<Seq<char>>, default: bool) -> bool {
    match stored {
        Some(v) => v == "true"@,
        None => default,
    }
}

pub fn flag_on(stored: Option<&str>, default: bool) -> (r: bool)
    ensures
        r == flag_value(
            match stored {
                Some(v) => Some(v@),
                None => None,
            },
            default,
        ),
{
    match stored {
        Some(v) => str_is(v, "true"),
        None => default,
    }
}

/// Emit cadence read at startup: the stored `refresh_interval_ms` when it
/// parses as a `u64`, else 1000 ms.
pub fn initial_refresh_interval(stored: Option<&str>) -> (ms: u64)
    ensures
        ms == match stored {
            Some(v) => match unsigned_decimal(v@) {
                Some(n) => if n <= u64::MAX {
                    n as u64
                } else {
                    1000
                },
                None => 1000,
            },
            None => 1000,
        },
{
    match stored {
        Some(v) => match parse_u64(v) {
            Some(n) => n,
            None => 1000,
        },
        None => 1000,
    }
}

/// What the shell does after a setting is stored (besides announcing the
/// change itself).
#[derive(Debug)]
pub enum ConfigEffect {
    /// Refresh the taskbar and floating speed displays.
    SpeedDisplays,
    /// Make the floating widget ignore (or take) the mouse.
    ClickThrough(bool),
    /// Apply a new floating widget opacity.
    Opacity(u32),
    /// Announce the new theme.
    Theme(String),
    /// Nothing more.
    Nothing,
}

/// The effect of storing `value` under `key`.
pub open spec fn config_effect_of(key: Seq<char>, value: Seq<char>, e: ConfigEffect) -> bool {
    if key == "taskbar_speed"@ || key == "floating_speed"@ {
        e is SpeedDisplays
    } else if key == "floating_click_through"@ {
        e == ConfigEffect::ClickThrough(value == "true"@)
    } else if key == "floating_opacity"@ {
        match unsigned_decimal(value) {
            Some(v) => if v <= u32::MAX {
                e == ConfigEffect::Opacity(v as u32)
            } else {
                e is Nothing
            },
            None => e is Nothing,
        }
    } else if key == "theme"@ {
        e matches ConfigEffect::Theme(t) && t@ == value
    } else {
        e is Nothing
    }
}

pub fn config_effect(key: &str, value: &str) -> (e: ConfigEffect)
    ensures
        config_effect_of(key@, value@, e),
{
    if str_is(key, "taskbar_speed") || str_is(key, "floating_speed") {
        ConfigEffect::SpeedDisplays
    } else if str_is(key, "floating_click_through") {
        ConfigEffect::ClickThrough(str_is(value, "true"))
    } else if str_is(key, "floating_opacity") {
        match parse_u32(value) {
            Some(v) => ConfigEffect::Opacity(v),
            None => ConfigEffect::Nothing,
        }
    } else if str_is(key, "theme") {
        ConfigEffect::Theme(owned(value))
    } else {
        ConfigEffect::Nothing
    }
}

/// What a tray or floating-widget menu entry does.
#[derive(Debug)]
pub enum MenuCommand {
    /// Show, restore and focus the main window.
    ShowMain,
    /// Store and apply this floating widget opacity.
    SetOpacity(u32),
    /// Store and apply this click-through setting.
    SetClickThrough(bool),
    /// Make the floating widget clickable again (click-through off) and
    /// announce the stored setting.
    RestoreClickable,
    /// Turn the floating widget off and hide it.
    HideFloating,
    /// Leave the application.
    Quit,
    /// Unknown entry: nothing.
    Ignore,
}

/// The command of menu entry `id`, given whether the floating widget is
/// click-through now (toggling flips it).
pub open spec fn menu_command_of(id: Seq<char>, click_through: bool) -> MenuCommand {
    if id == "float_dashboard"@ || id == "dashboard"@ {
        MenuCommand::ShowMain
    } else if id == "op_100"@ {
        MenuCommand::SetOpacity(100)
    } else if id == "op_80"@ {
        MenuCommand::SetOpacity(80)
    } else if id == "op_60"@ {
        MenuCommand::SetOpacity(60)
    } else if id == "op_40"@ {
        MenuCommand::SetOpacity(40)
    } else if id == "float_click_through"@ {
        MenuCommand::SetClickThrough(!click_through)
    } else if id == "tray_restore_click"@ {
        MenuCommand::RestoreClickable
    } else if id == "float_hide"@ {
        MenuCommand::HideFloating
    } else if id == "quit"@ {
        MenuCommand::Quit
    } else {
        MenuCommand::Ignore
    }
}

pub fn menu_command(id: &str, click_through: bool) -> (c: MenuCommand)
    ensures
        c == menu_command_of(id@, click_through),
{
    if str_is(id, "float_dashboard") || str_is(id, "dashboard") {
        MenuCommand::ShowMain
    } else if str_is(id, "op_100") {
        MenuCommand::SetOpacity(100)
    } else if str_is(id, "op_80") {
        MenuCommand::SetOpacity(80)
    } else if str_is(id, "op_60") {
        MenuCommand::SetOpacity(60)
    } else if str_is(id, "op_40") {
        MenuCommand::SetOpacity(40)
    } else if str_is(id, "float_click_through") {
        MenuCommand::SetClickThrough(!click_through)
    } else if str_is(id, "tray_restore_click") {
        MenuCommand::RestoreClickable
    } else if str_is(id, "float_hide") {
        MenuCommand::HideFloating
    } else if str_is(id, "quit") {
        MenuCommand::Quit
    } else {
        MenuCommand::Ignore
    }
}


proof fn lemma_digit_char(d: nat)
    requires
        d < 10,
    ensures
        digit_char(d) as u32 == 48 + d,
{
}

pub(crate) proof fn lemma_decimal_digits(n: nat)
    ensures
        decimal(n).len() > 0,
        forall|i: int| 0 <= i < decimal(n).len() ==> is_ascii_digit(#[trigger] decimal(n)[i]),
        digits_value(decimal(n)) == n,
    decreases n,
{
    lemma_digit_char(n % 10);
    if n < 10 {
        assert(decimal(n).drop_last() =~= Seq::<char>::empty());
        assert(decimal(n).last() == digit_char(n));
        assert(digits_value(decimal(n)) == digits_value(decimal(n).drop_last()) * 10 + ((decimal(n).last() as u32) - 48) as nat);
        assert(digits_value(Seq::<char>::empty()) == 0);
    } else {
        lemma_decimal_digits(n / 10);
        let s = decimal(n / 10);
        assert(decimal(n).drop_last() =~= s);
        assert(n == (n / 10) * 10 + n % 10);
        assert(decimal(n).last() == digit_char(n % 10));
        assert(digits_value(decimal(n)) == digits_value(s) * 10 + ((decimal(n).last() as u32) - 48) as nat);
        assert forall|i: int| 0 <= i < decimal(n).len() implies is_ascii_digit(#[trigger] decimal(n)[i]) by {
            if i < s.len() {
                assert(decimal(n)[i] == s[i]);
            }
        }
    }
}

/// A number written in decimal reads back as itself, so a cadence stored
/// as its decimal text is what the next startup reads.
pub proof fn decimal_reads_back(n: nat)
    ensures
        unsigned_decimal(decimal(n)) == Some(n),
{
    lemma_decimal_digits(n);
    assert(decimal(n)[0] != '+');
}

} // verus!
