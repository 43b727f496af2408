//! Settings whose behaviour is logic of their own: the repeat mode and the defaults.
use vstd::prelude::*;
use crate::i18n::{Language, message, tr};

verus! {

/// What happens when a track ends.
#[derive(Debug, Clone, Copy, PartialEq, Eq, Structural)]
pub enum RepeatMode {
    Off,
    One,
    All,
}

/// The message key of a repeat mode.
pub open spec fn repeat_key(m: RepeatMode) -> Seq<char> {
    match m {
        RepeatMode::Off => "repeat.none"@,
        RepeatMode::One => "repeat.one"@,
        RepeatMode::All => "repeat.all"@,
    }
}

/// The mode that the repeat button moves to: off, then all, then one, then off again.
pub open spec fn next_mode(m: RepeatMode) -> RepeatMode {
    match m {
        RepeatMode::Off => RepeatMode::All,
        RepeatMode::All => RepeatMode::One,
        RepeatMode::One => RepeatMode::Off,
    }
}

impl RepeatMode {
    /// The label in Spanish.
    pub fn label(&self) -> (r: &'static str)
        ensures
            r@ == message(Language::Es, repeat_key(*self)),
    {
        self.label_lang(Language::Es)
    }

    /// The label in the given language.
    pub fn label_lang(&self, language: Language) -> (r: &'static str)
        ensures
            r@ == message(language, repeat_key(*self)),
    {
        match self {
            RepeatMode::Off => tr(language, "repeat.none"),
            RepeatMode::One => tr(language, "repeat.one"),
            RepeatMode::All => tr(language, "repeat.all"),
        }
    }

    /// The short text on the repeat button.
    pub fn icon(&self) -> (r: &'static str)
        ensures
            r@ == match *self {
                RepeatMode::Off => "OFF"@,
                RepeatMode::One => "1"@,
                RepeatMode::All => "ALL"@,
            },
    {
        match self {
            RepeatMode::Off => "OFF",
            RepeatMode::One => "1",
            RepeatMode::All => "ALL",
        }
    }

    /// The next mode in the cycle off → all → one → off.
    pub fn next(&self) -> (r: RepeatMode)
        ensures
            r == next_mode(*self),
    {
        match self {
            RepeatMode::Off => RepeatMode::All,
            RepeatMode::All => RepeatMode::One,
            RepeatMode::One => RepeatMode::Off,
        }
    }
}

/// Pressing the repeat button three times comes back to the mode it started from,
/// and no press leaves the mode as it was.
pub proof fn repeat_cycle_has_period_three(m: RepeatMode)
    ensures
        next_mode(next_mode(next_mode(m))) == m,
        next_mode(m) != m,
        next_mode(next_mode(m)) != m,
{
}

/// The language used when the settings do not name one.
pub fn default_language() -> (r: Language)
    ensures
        r == Language::Es,
{
    Language::Es
}

/// Whether updates are checked when the settings do not say.
pub fn default_auto_check_updates() -> (r: bool)
    ensures
        r,
{
    true
}

/// The subtitle font when the settings do not name one.
pub fn default_sub_font_family() -> (r: String)
    ensures
        r@ == "sans-serif"@,
{
    String::from_str("sans-serif")
}

/// The shape the picture is shown in. A custom ratio is held by the bits of its
/// `f64` value (`f64::to_bits`).
#[derive(Debug, Clone, Copy, PartialEq, Eq, Structural)]
pub enum AspectRatio {
    Auto,
    Ratio4_3,
    Ratio16_9,
    Ratio21_9,
    Ratio1_1,
    Custom(u64),
}

impl AspectRatio {
    /// The name shown in the menus.
    pub fn label(&self) -> (r: &'static str)
        ensures
            r@ == match *self {
                AspectRatio::Auto => "Auto"@,
                AspectRatio::Ratio4_3 => "4:3"@,
                AspectRatio::Ratio16_9 => "16:9"@,
                AspectRatio::Ratio21_9 => "21:9"@,
                AspectRatio::Ratio1_1 => "1:1"@,
                AspectRatio::Custom(_) => "Personalizado"@,
            },
    {
        match self {
            AspectRatio::Auto => "Auto",
            AspectRatio::Ratio4_3 => "4:3",
            AspectRatio::Ratio16_9 => "16:9",
            AspectRatio::Ratio21_9 => "21:9",
            AspectRatio::Ratio1_1 => "1:1",
            AspectRatio::Custom(_) => "Personalizado",
        }
    }

    /// The value of mpv's `video-aspect-override` for the fixed shapes; none for
    /// a custom ratio, whose value is the number itself with four decimals.
    pub fn to_mpv_value(&self) -> (r: Option<&'static str>)
        ensures
            match *self {
                AspectRatio::Auto => r == Some("-1"),
                AspectRatio::Ratio4_3 => r == Some("4/3"),
                AspectRatio::Ratio16_9 => r == Some("16/9"),
                AspectRatio::Ratio21_9 => r == Some("21/9"),
                AspectRatio::Ratio1_1 => r == Some("1/1"),
                AspectRatio::Custom(_) => r is None,
            },
    {
        match self {
            AspectRatio::Auto => Some("-1"),
            AspectRatio::Ratio4_3 => Some("4/3"),
            AspectRatio::Ratio16_9 => Some("16/9"),
            AspectRatio::Ratio21_9 => Some("21/9"),
            AspectRatio::Ratio1_1 => Some("1/1"),
            AspectRatio::Custom(_) => None,
        }
    }

    /// The fixed shapes, in the order the menus list them.
    pub fn all() -> (r: Vec<AspectRatio>)
        ensures
            r@ == seq![
                AspectRatio::Auto,
                AspectRatio::Ratio16_9,
                AspectRatio::Ratio4_3,
                AspectRatio::Ratio21_9,
                AspectRatio::Ratio1_1,
            ],
    {
        let r = vec![
            AspectRatio::Auto,
            AspectRatio::Ratio16_9,
            AspectRatio::Ratio4_3,
            AspectRatio::Ratio21_9,
            AspectRatio::Ratio1_1,
        ];
        assert(r@ =~= seq![
            AspectRatio::Auto,
            AspectRatio::Ratio16_9,
            AspectRatio::Ratio4_3,
            AspectRatio::Ratio21_9,
            AspectRatio::Ratio1_1,
        ]);
        r
    }
}

} // verus!
