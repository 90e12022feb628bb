use vstd::prelude::*;

verus! {

/// The settings that the service reads from `config/config.json`.
#[derive(Debug, Clone, PartialEq, Eq)]
pub struct Settings {
    pub port: u16,
    pub memory_size_limit: usize,
}

/// A configuration file's contents: the port and the memory limit in bytes.
#[derive(Debug, Clone, PartialEq, Eq)]
pub struct Config {
    pub port: u16,
    pub max_ram_limit: usize,
}

} // verus!
