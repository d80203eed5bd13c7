//! User configuration: default SoundFont and sample directory.
//!
//! The configuration file is optional; missing files or fields fall back to defaults,
//! and command-line arguments always take precedence over configured values.
use vstd::prelude::*;

verus! {

/// User configuration.
#[derive(Debug)]
pub struct Config {
    /// Default SoundFont file path (overridden by `--sf2`).
    pub sf2: Option<String>,
    /// Default sample directory (overridden by `--sample-dir`).
    pub sample_dir: Option<String>,
}

impl Default for Config {
    fn default() -> (c: Self)
        ensures
            c.sf2 is None,
            c.sample_dir is None,
    {
        Config { sf2: None, sample_dir: None }
    }
}

/// `first` when it is given, otherwise `fallback`.
pub open spec fn prefer(first: Option<String>, fallback: Option<String>) -> Option<String> {
    match first {
        Some(x) => Some(x),
        None => fallback,
    }
}

impl Config {
    /// The settings in effect: each command-line value replaces the configured one,
    /// and a missing command-line value keeps it.
    pub fn with_overrides(self, sf2: Option<String>, sample_dir: Option<String>) -> (c: Config)
        ensures
            c.sf2 == prefer(sf2, self.sf2),
            c.sample_dir == prefer(sample_dir, self.sample_dir),
    {
        let sf2 = match sf2 {
            Some(x) => Some(x),
            None => self.sf2,
        };
        let sample_dir = match sample_dir {
            Some(x) => Some(x),
            None => self.sample_dir,
        };
        Config { sf2, sample_dir }
    }
}

/// A command-line value always wins over the configured one; the configured value is
/// used exactly when none is given on the command line.
pub proof fn law_cli_precedence(cli: Option<String>, configured: Option<String>)
    ensures
        cli is Some ==> prefer(cli, configured) == cli,
        cli is None ==> prefer(cli, configured) == configured,
{
}

} // verus!
