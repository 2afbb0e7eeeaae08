//! The model of a cutler configuration.
use vstd::prelude::*;
use crate::value::ConfigValue;

verus! {

/// Struct representing a cutler configuration.
///
/// Maps of the file (`[set]`, `[vars]`, `[command]`) are held as lists of
/// entries with distinct keys.
pub struct Config {
    pub lock: Option<bool>,
    pub set: Option<Vec<(String, Vec<(String, ConfigValue)>)>>,
    pub vars: Option<Vec<(String, String)>>,
    pub command: Option<Vec<(String, Command)>>,
    pub brew: Option<Brew>,
    pub mas: Option<Mas>,
    pub remote: Option<Remote>,
    pub path: String,
}

/// Represents the [remote] table.
pub struct Remote {
    pub url: String,
    pub autosync: Option<bool>,
}

/// Represents [command.***] tables.
pub struct Command {
    pub run: String,
    pub ensure_first: Option<bool>,
    pub required: Option<Vec<String>>,
    pub flag: Option<bool>,
    pub sudo: Option<bool>,
}

/// Represents the [mas] table.
pub struct Mas {
    pub ids: Vec<String>,
}

/// Represents the [brew] table.
pub struct Brew {
    pub formulae: Option<Vec<String>>,
    pub casks: Option<Vec<String>>,
    pub taps: Option<Vec<String>>,
    pub no_deps: Option<bool>,
}

} // verus!
