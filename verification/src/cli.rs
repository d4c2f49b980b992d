//! The command line: which mode the builder runs in.
use vstd::prelude::*;

use crate::text::{str_eq, chars_of, string_from_chars};

verus! {

/// What the builder was asked to do.
pub enum Mode {
    /// Watch the sources and rebuild on change.
    Watch,
    /// Build once.
    Build,
    /// Show the usage.
    Help,
    /// An argument the builder does not know.
    Unknown(String),
}

/// Reads the mode from the first argument: `--watch`/`-w`, `--build`/`-b` (also when
/// there is none), `--help`/`-h`; anything else is unknown.
pub fn parse_mode(arg: Option<&str>) -> (r: Mode)
    ensures
        match arg {
            None => r is Build,
            Some(a) => if a@ == "--watch"@ || a@ == "-w"@ {
                r is Watch
            } else if a@ == "--build"@ || a@ == "-b"@ {
                r is Build
            } else if a@ == "--help"@ || a@ == "-h"@ {
                r is Help
            } else {
                r matches Mode::Unknown(s) && s@ == a@
            },
        },
{
    match arg {
        None => Mode::Build,
        Some(a) => {
            if str_eq(a, "--watch") || str_eq(a, "-w") {
                Mode::Watch
            } else if str_eq(a, "--build") || str_eq(a, "-b") {
                Mode::Build
            } else if str_eq(a, "--help") || str_eq(a, "-h") {
                Mode::Help
            } else {
                let v = chars_of(a);
                Mode::Unknown(string_from_chars(v.as_slice()))
            }
        },
    }
}

} // verus!
