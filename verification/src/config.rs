//! Process configuration, supplied from the outside at startup; the
//! library only carries the values.

use vstd::prelude::*;

verus! {

/// Where the server should listen.
#[derive(Debug)]
pub struct Config {
    pub ip: String,
    pub port: u32,
}

impl Config {
    pub fn new() -> (c: Config)
        ensures
            c.ip@ == Seq::<char>::empty(),
            c.port == 0,
    {
        Config { ip: String::new(), port: 0 }
    }
}

/// Loading the environment file is the process bootstrap's business;
/// the library keeps nothing from it.
pub fn read_from_envfile() {
}

/// Holds the configuration for whoever wires the server up.
pub struct ConfigService {
    pub config: Config,
}

impl ConfigService {
    pub fn new(config: Config) -> (s: ConfigService)
        ensures
            s.config.ip@ == config.ip@,
            s.config.port == config.port,
    {
        ConfigService { config }
    }
}

/// A raw frame as the connection layer hands it around: the operation
/// byte and the payload bytes.
pub struct Context {
    pub opcode: u8,
    pub payload: Vec<u8>,
}

} // verus!
