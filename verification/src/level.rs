//! Print, prompt and color levels, and which messages a print level lets
//! through.
use vstd::prelude::*;

verus! {

/// Color level, as set with `--color`.
#[derive(Debug, Clone, Copy, PartialEq, Eq, Structural, Hash)]
pub enum ColorLevel {
    Always,
    Never,
    Auto,
}

impl ColorLevel {
    /// The name of the level as the `--color` flag takes it.
    pub fn to_string(&self) -> (r: String)
        ensures
            r@ == match *self {
                ColorLevel::Always => "always"@,
                ColorLevel::Never => "never"@,
                ColorLevel::Auto => "auto"@,
            },
    {
        match self {
            ColorLevel::Always => "always".to_string(),
            ColorLevel::Never => "never".to_string(),
            ColorLevel::Auto => "auto".to_string(),
        }
    }
}

impl Default for ColorLevel {
    fn default() -> (r: Self)
        ensures
            r == ColorLevel::Auto,
    {
        ColorLevel::Auto
    }
}

/// Print level, as set with `-v` and `-q`; the variants go from the
/// quietest to the most verbose.
#[derive(Debug, Clone, Copy, PartialEq, Eq, Structural, PartialOrd, Ord, Hash)]
pub enum PrintLevel {
    QuietQuiet,
    Quiet,
    Normal,
    Verbose,
    VerboseVerbose,
}

impl PrintLevel {
    /// The position of the level, from 0 (quietest) to 4.
    pub open spec fn rank(self) -> u8 {
        match self {
            PrintLevel::QuietQuiet => 0,
            PrintLevel::Quiet => 1,
            PrintLevel::Normal => 2,
            PrintLevel::Verbose => 3,
            PrintLevel::VerboseVerbose => 4,
        }
    }

    /// The position of the level, from 0 (quietest) to 4.
    pub fn to_u8(self) -> (r: u8)
        ensures
            r == self.rank(),
    {
        match self {
            PrintLevel::QuietQuiet => 0,
            PrintLevel::Quiet => 1,
            PrintLevel::Normal => 2,
            PrintLevel::Verbose => 3,
            PrintLevel::VerboseVerbose => 4,
        }
    }

    /// The level of a `-v`/`-q` count: negative counts are quieter, and
    /// counts past two saturate.
    pub open spec fn from_count(v: i8) -> PrintLevel {
        if v <= -2 {
            PrintLevel::QuietQuiet
        } else if v == -1 {
            PrintLevel::Quiet
        } else if v == 0 {
            PrintLevel::Normal
        } else if v == 1 {
            PrintLevel::Verbose
        } else {
            PrintLevel::VerboseVerbose
        }
    }

    /// The level at a position; an unknown position is `Normal`.
    pub open spec fn from_rank(v: u8) -> PrintLevel {
        if v == 0 {
            PrintLevel::QuietQuiet
        } else if v == 1 {
            PrintLevel::Quiet
        } else if v == 3 {
            PrintLevel::Verbose
        } else if v == 4 {
            PrintLevel::VerboseVerbose
        } else {
            PrintLevel::Normal
        }
    }
}

impl From<i8> for PrintLevel {
    fn from(value: i8) -> (r: Self) {
        if value <= -2 {
            PrintLevel::QuietQuiet
        } else if value == -1 {
            PrintLevel::Quiet
        } else if value == 0 {
            PrintLevel::Normal
        } else if value == 1 {
            PrintLevel::Verbose
        } else {
            PrintLevel::VerboseVerbose
        }
    }
}

impl vstd::std_specs::convert::FromSpecImpl<i8> for PrintLevel {
    open spec fn obeys_from_spec() -> bool {
        true
    }

    open spec fn from_spec(v: i8) -> PrintLevel {
        PrintLevel::from_count(v)
    }
}

impl From<u8> for PrintLevel {
    fn from(value: u8) -> (r: Self) {
        match value {
            0 => PrintLevel::QuietQuiet,
            1 => PrintLevel::Quiet,
            3 => PrintLevel::Verbose,
            4 => PrintLevel::VerboseVerbose,
            _ => PrintLevel::Normal,
        }
    }
}

impl vstd::std_specs::convert::FromSpecImpl<u8> for PrintLevel {
    open spec fn obeys_from_spec() -> bool {
        true
    }

    open spec fn from_spec(v: u8) -> PrintLevel {
        PrintLevel::from_rank(v)
    }
}

impl From<PrintLevel> for u8 {
    fn from(value: PrintLevel) -> (r: u8) {
        value.to_u8()
    }
}

impl vstd::std_specs::convert::FromSpecImpl<PrintLevel> for u8 {
    open spec fn obeys_from_spec() -> bool {
        true
    }

    open spec fn from_spec(v: PrintLevel) -> u8 {
        v.rank()
    }
}

} // verus!

verus! {

/// Prompt level, as set with `--yes`, `--interactive` and
/// `--non-interactive`.
#[derive(Debug, Clone, Copy, PartialEq, Eq, Structural)]
pub enum PromptLevel {
    /// Show prompts interactively.
    Interactive,
    /// Answer "yes" to every yes/no prompt.
    Yes,
    /// Allow no prompt: showing one is an error.
    No,
}

impl PromptLevel {
    /// The position of the level: 0, 1 or 2.
    pub open spec fn rank(self) -> u8 {
        match self {
            PromptLevel::Interactive => 0,
            PromptLevel::Yes => 1,
            PromptLevel::No => 2,
        }
    }

    /// The level at a position; an unknown position is `Interactive`.
    pub open spec fn from_rank(v: u8) -> PromptLevel {
        if v == 1 {
            PromptLevel::Yes
        } else if v == 2 {
            PromptLevel::No
        } else {
            PromptLevel::Interactive
        }
    }

    /// The position of the level: 0, 1 or 2.
    pub fn to_u8(self) -> (r: u8)
        ensures
            r == self.rank(),
    {
        match self {
            PromptLevel::Interactive => 0,
            PromptLevel::Yes => 1,
            PromptLevel::No => 2,
        }
    }
}

impl From<u8> for PromptLevel {
    fn from(value: u8) -> (r: Self) {
        match value {
            1 => PromptLevel::Yes,
            2 => PromptLevel::No,
            _ => PromptLevel::Interactive,
        }
    }
}

impl vstd::std_specs::convert::FromSpecImpl<u8> for PromptLevel {
    open spec fn obeys_from_spec() -> bool {
        true
    }

    open spec fn from_spec(v: u8) -> PromptLevel {
        PromptLevel::from_rank(v)
    }
}

impl From<PromptLevel> for u8 {
    fn from(value: PromptLevel) -> (r: u8) {
        value.to_u8()
    }
}

impl vstd::std_specs::convert::FromSpecImpl<PromptLevel> for u8 {
    open spec fn obeys_from_spec() -> bool {
        true
    }

    open spec fn from_spec(v: PromptLevel) -> u8 {
        v.rank()
    }
}

/// The level of a message or print event.
#[derive(Debug, Clone, Copy, PartialEq, Eq, Structural)]
pub enum Lv {
    Error,
    Hint,
    Print,
    Warn,
    Info,
    Debug,
    Trace,
}

impl Lv {
    /// Whether a message of this level shows at print level `level`:
    /// errors, hints and prints show unless `-qq`; warnings and infos need
    /// at least the normal level; debug needs `-v`; trace needs `-vv`.
    pub open spec fn shows_at(self, level: PrintLevel) -> bool {
        match self {
            Lv::Error | Lv::Hint | Lv::Print => level.rank() >= 1,
            Lv::Warn | Lv::Info => level.rank() >= 2,
            Lv::Debug => level.rank() >= 3,
            Lv::Trace => level.rank() >= 4,
        }
    }

    /// The lowest print level at which this level shows.
    pub open spec fn min_rank(self) -> u8 {
        match self {
            Lv::Error | Lv::Hint | Lv::Print => 1,
            Lv::Warn | Lv::Info => 2,
            Lv::Debug => 3,
            Lv::Trace => 4,
        }
    }

    /// Checks if the print level `level` lets messages of this level through.
    pub fn can_print(self, level: PrintLevel) -> (r: bool)
        ensures
            r == self.shows_at(level),
    {
        match self {
            Lv::Error | Lv::Hint | Lv::Print => level != PrintLevel::QuietQuiet,
            Lv::Warn | Lv::Info => level.to_u8() > 1,
            Lv::Debug => level.to_u8() > 2,
            Lv::Trace => level == PrintLevel::VerboseVerbose,
        }
    }
}

/// A threshold for log records, in the order of the `log` crate's
/// `LevelFilter`.
#[derive(Debug, Clone, Copy, PartialEq, Eq, Structural)]
pub enum LogFilter {
    Off,
    Error,
    Warn,
    Info,
    Debug,
    Trace,
}

impl PrintLevel {
    /// The log threshold that matches a print level.
    pub fn log_filter(self) -> (r: LogFilter)
        ensures
            r == match self {
                PrintLevel::QuietQuiet => LogFilter::Off,
                PrintLevel::Quiet => LogFilter::Error,
                PrintLevel::Normal => LogFilter::Info,
                PrintLevel::Verbose => LogFilter::Debug,
                PrintLevel::VerboseVerbose => LogFilter::Trace,
            },
    {
        match self {
            PrintLevel::QuietQuiet => LogFilter::Off,
            PrintLevel::Quiet => LogFilter::Error,
            PrintLevel::Normal => LogFilter::Info,
            PrintLevel::Verbose => LogFilter::Debug,
            PrintLevel::VerboseVerbose => LogFilter::Trace,
        }
    }
}

} // verus!

verus! {

/// A print level survives the trip to its number and back.
pub proof fn law_print_level_round_trip(p: PrintLevel)
    ensures
        PrintLevel::from_rank(p.rank()) == p,
{
}

/// A prompt level survives the trip to its number and back.
pub proof fn law_prompt_level_round_trip(p: PromptLevel)
    ensures
        PromptLevel::from_rank(p.rank()) == p,
{
}

/// A message that shows at one print level shows at every louder level.
pub proof fn law_can_print_monotone(lv: Lv, a: PrintLevel, b: PrintLevel)
    requires
        lv.shows_at(a),
        a.rank() <= b.rank(),
    ensures
        lv.shows_at(b),
{
}

/// More `-v` flags never give a quieter level.
pub proof fn law_count_monotone(a: i8, b: i8)
    requires
        a <= b,
    ensures
        PrintLevel::from_count(a).rank() <= PrintLevel::from_count(b).rank(),
{
}

} // verus!

verus! {

/// The level of a message in the simple printer; the same levels as
/// `Lv`.
#[derive(Debug, Clone, Copy, PartialEq, Eq, Structural)]
pub enum PrintType {
    Error,
    Hint,
    Print,
    Warn,
    Info,
    Debug,
    Trace,
}

impl PrintType {
    /// The `Lv` of the same name.
    pub open spec fn lv(self) -> Lv {
        match self {
            PrintType::Error => Lv::Error,
            PrintType::Hint => Lv::Hint,
            PrintType::Print => Lv::Print,
            PrintType::Warn => Lv::Warn,
            PrintType::Info => Lv::Info,
            PrintType::Debug => Lv::Debug,
            PrintType::Trace => Lv::Trace,
        }
    }

    /// Checks if the print level `level` lets messages of this type through;
    /// the same rule as `Lv::can_print`.
    pub fn can_print(self, level: PrintLevel) -> (r: bool)
        ensures
            r == self.lv().shows_at(level),
    {
        match self {
            PrintType::Error | PrintType::Hint | PrintType::Print => level != PrintLevel::QuietQuiet,
            PrintType::Warn | PrintType::Info => level.to_u8() > 1,
            PrintType::Debug => level.to_u8() > 2,
            PrintType::Trace => level == PrintLevel::VerboseVerbose,
        }
    }
}

} // verus!
