//! The parsed command-line options, as plain values.
//!
//! Argument parsing itself is presentation-side; the library holds the
//! options' meaning: which mode was asked for, and which configuration
//! path applies.

use vstd::prelude::*;

verus! {

/// The command-line options: generate a default configuration, use a
/// given configuration file, or generate an override-table template.
#[derive(Clone, Debug)]
pub struct Cli {
    pub generate: bool,
    pub config: Option<String>,
    pub template: bool,
}

impl Cli {
    /// The configuration file to read: the one given, or `./user.toml`.
    pub fn effective_config_path(&self) -> (r: &str)
        ensures
            match self.config {
                Option::Some(p) => r@ == p@,
                Option::None => r@ == "./user.toml"@,
            },
    {
        match &self.config {
            Option::Some(p) => p.as_str(),
            Option::None => "./user.toml",
        }
    }
}

} // verus!
