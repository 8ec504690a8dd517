//! Hardening levels and the command-line shape shared with the profiling
//! fragment, plus the parsing of the user's editor preference.

use vstd::prelude::*;
use vstd::string::StringExecFns;

verus! {

/// How hard to harden.
#[derive(Debug, Clone, Copy, PartialEq, Eq, Structural)]
pub enum HardeningMode {
    /// Only generate options with a very low risk of breaking things.
    Safe,
    /// Harden further, at a higher risk of breaking services.
    Aggressive,
}

impl HardeningMode {
    /// The mode's name on a command line.
    pub open spec fn spec_name(self) -> Seq<char> {
        match self {
            HardeningMode::Safe => "safe"@,
            HardeningMode::Aggressive => "aggressive"@,
        }
    }

    pub fn name(&self) -> (r: &'static str)
        ensures
            r@ == self.spec_name(),
    {
        match self {
            HardeningMode::Safe => "safe",
            HardeningMode::Aggressive => "aggressive",
        }
    }
}

/// The knobs that steer which sandboxing options are considered.
#[derive(Debug, Clone, Copy, PartialEq, Eq, Structural)]
pub struct HardeningOptions {
    /// How hard to harden.
    pub mode: HardeningMode,
    /// Enable advanced network firewalling.
    pub network_firewalling: bool,
}

impl HardeningOptions {
    /// The most safe options.
    pub fn safe() -> (r: HardeningOptions)
        ensures
            r == (HardeningOptions { mode: HardeningMode::Safe, network_firewalling: false }),
    {
        HardeningOptions { mode: HardeningMode::Safe, network_firewalling: false }
    }

    /// The most strict options.
    pub fn strict() -> (r: HardeningOptions)
        ensures
            r == (HardeningOptions {
                mode: HardeningMode::Aggressive,
                network_firewalling: true,
            }),
    {
        HardeningOptions { mode: HardeningMode::Aggressive, network_firewalling: true }
    }

    /// The command-line rendering of the options.
    pub open spec fn spec_cmdline(self) -> Seq<char> {
        "-m "@ + self.mode.spec_name() + (if self.network_firewalling {
            " -n"@
        } else {
            Seq::<char>::empty()
        })
    }

    pub fn to_cmdline(&self) -> (r: String)
        ensures
            r@ == self.spec_cmdline(),
    {
        let mut s = "-m ".to_owned();
        s.append(self.mode.name());
        if self.network_firewalling {
            s.append(" -n");
        }
        proof {
            assert(s@ =~= self.spec_cmdline());
        }
        s
    }
}

/// What `shlex::split` returns on the given characters: the shell words, or
/// nothing when the input is erroneous (an unclosed quote, a lone backslash).
pub uninterp spec fn shlex_split_of(s: Seq<char>) -> Option<Seq<Seq<char>>>;

/// Relies on `shlex::split`: splits a POSIX-shell-quoted string into words,
/// returning `None` on erroneous input; the result depends on the characters
/// alone.
#[verifier::external_body]
fn shlex_split(s: &str) -> (r: Option<Vec<String>>)
    ensures
        r is Some == shlex_split_of(s@) is Some,
        r matches Some(v) ==> v.deep_view() == shlex_split_of(s@).unwrap(),
{
    shlex::split(s)
}

/// Splits an editor preference (as from the environment) into the program to
/// run and its leading arguments: `None` when the value cannot be parsed as
/// shell words or names no program.
pub fn editor_command(editor: &String) -> (r: Option<(String, Vec<String>)>)
    ensures
        r is Some == (shlex_split_of(editor@) matches Some(parts) && parts.len() > 0),
        r matches Some(pa) ==> shlex_split_of(editor@) matches Some(parts) && pa.0@ == parts[0]
            && pa.1.deep_view() == parts.drop_first(),
{
    match shlex_split(editor.as_str()) {
        None => None,
        Some(mut parts) => {
            if parts.len() == 0 {
                None
            } else {
                let ghost parts0 = parts.deep_view();
                let first = parts.remove(0);
                proof {
                    assert(parts.deep_view() =~= parts0.drop_first());
                }
                Some((first, parts))
            }
        },
    }
}

} // verus!
