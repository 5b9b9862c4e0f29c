//! The configuration of the bot, as read from its file, and the names of
//! the xp settings that the `config` command changes.

use vstd::prelude::*;

use crate::text::same_text;

verus! {

/// The configuration of the bot.
#[derive(Debug)]
pub struct Config {
    /// Address of the SQLite database.
    pub database: String,
    /// The WebSub listener that receives the YouTube notifications.
    pub brzthook: HookCfg,
}

/// The WebSub listener's configuration.
#[derive(Debug)]
pub struct HookCfg {
    pub port: u32,
    pub ip_addr: String,
    pub callback: String,
    /// Whether only new videos are announced, not updated ones.
    pub new_only: bool,
}

/// A setting that the `config` command reads or changes.
#[derive(Debug, Clone, Copy, PartialEq, Eq, Structural)]
pub enum Parameters {
    SpamDelay,
    MinXpGain,
    MaxXpGain,
    TestString,
}

/// The setting called `value` on the command line.
pub open spec fn spec_parameter(value: Seq<char>) -> Option<Parameters> {
    if value == "spam_delay"@ {
        Some(Parameters::SpamDelay)
    } else if value == "min_xp_gain"@ {
        Some(Parameters::MinXpGain)
    } else if value == "max_xp_gain"@ {
        Some(Parameters::MaxXpGain)
    } else if value == "test_string"@ {
        Some(Parameters::TestString)
    } else {
        None
    }
}

/// The name under which a setting is shown.
pub open spec fn spec_parameter_name(p: Parameters) -> Seq<char> {
    match p {
        Parameters::SpamDelay => "spam delay"@,
        Parameters::MinXpGain => "min xp gain"@,
        Parameters::MaxXpGain => "max xp gain"@,
        Parameters::TestString => "test_string"@,
    }
}

/// `s` with each `_` written as a space.
pub open spec fn underscores_as_spaces(s: Seq<char>) -> Seq<char> {
    s.map_values(|c: char| if c == '_' { ' ' } else { c })
}

/// Each setting name on the command line leads to the setting shown under
/// that name with its underscores written as spaces (`test_string` is shown
/// as it is written), so different names lead to different settings, and
/// each of the four names is known.
pub proof fn lemma_parameter_names(value: Seq<char>, other: Seq<char>)
    ensures
        spec_parameter(value) matches Some(p) ==> if p == Parameters::TestString {
            value == spec_parameter_name(p)
        } else {
            spec_parameter_name(p) == underscores_as_spaces(value)
        },
        spec_parameter(value) is Some && spec_parameter(value) == spec_parameter(other) ==> value == other,
        spec_parameter("spam_delay"@) is Some,
        spec_parameter("min_xp_gain"@) is Some,
        spec_parameter("max_xp_gain"@) is Some,
        spec_parameter("test_string"@) is Some,
{
    reveal_strlit("spam_delay");
    reveal_strlit("min_xp_gain");
    reveal_strlit("max_xp_gain");
    reveal_strlit("test_string");
    reveal_strlit("spam delay");
    reveal_strlit("min xp gain");
    reveal_strlit("max xp gain");
    assert(underscores_as_spaces("spam_delay"@) =~= "spam delay"@);
    assert(underscores_as_spaces("min_xp_gain"@) =~= "min xp gain"@);
    assert(underscores_as_spaces("max_xp_gain"@) =~= "max xp gain"@);
}

impl Parameters {
    /// The setting called `value`, or the error text for an unknown name.
    pub fn try_from(value: &str) -> (r: Result<Parameters, &'static str>)
        ensures
            match r {
                Ok(p) => spec_parameter(value@) == Some(p),
                Err(e) => spec_parameter(value@) is None
                    && e@ == "Parameters::try_from() returned with error: invalid value"@,
            },
            r matches Ok(p) ==> if p == Parameters::TestString {
                value@ == spec_parameter_name(p)
            } else {
                spec_parameter_name(p) == underscores_as_spaces(value@)
            },
    {
        proof {
            lemma_parameter_names(value@, value@);
        }
        if same_text(value, "spam_delay") {
            Ok(Parameters::SpamDelay)
        } else if same_text(value, "min_xp_gain") {
            Ok(Parameters::MinXpGain)
        } else if same_text(value, "max_xp_gain") {
            Ok(Parameters::MaxXpGain)
        } else if same_text(value, "test_string") {
            Ok(Parameters::TestString)
        } else {
            Err("Parameters::try_from() returned with error: invalid value")
        }
    }

    /// The name under which the setting is shown.
    pub fn name(&self) -> (n: &'static str)
        ensures
            n@ == spec_parameter_name(*self),
    {
        match self {
            Parameters::SpamDelay => "spam delay",
            Parameters::MinXpGain => "min xp gain",
            Parameters::MaxXpGain => "max xp gain",
            Parameters::TestString => "test_string",
        }
    }
}

} // verus!
