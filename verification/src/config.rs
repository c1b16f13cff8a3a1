//! What the service is started with.

use crate::decimal::number_of;
use crate::decimal::read_digits;
use vstd::prelude::*;
use vstd::string::StrSliceExecFns;

verus! {

/// The port that is listened on where none is given.
pub const DEFAULT_PORT: u16 = 9999;

/// How many connections to the store are kept where no number is given.
pub const DEFAULT_CONNECTIONS: u32 = 50;

/// How many seconds a request may take before it is given up.
pub const DEADLINE_SECS: u64 = 5;

/// What the service is started with.
#[derive(Debug)]
pub struct Config {
    /// Where the store is reached.
    pub database_url: String,
    /// The port to listen on.
    pub port: u16,
    /// How many connections to the store are kept at most.
    pub max_connections: u32,
}

/// Why the service cannot be started.
#[derive(Clone, Copy, Debug, PartialEq, Eq, Structural)]
pub enum ConfigError {
    /// It is not said where the store is reached.
    MissingDatabaseUrl,
    /// The port is no number of 16 bits.
    InvalidPort,
    /// The number of connections is no number of 32 bits.
    InvalidConnections,
}

/// The number that `text` writes in decimal, where it writes one of at most
/// `most`: a `+` may stand in front, then come one digit or more and nothing
/// else.
pub open spec fn unsigned_of(text: Seq<char>, most: int) -> Option<int> {
    if text.len() > 0 && text[0] == '+' {
        number_of(text.skip(1), most)
    } else {
        number_of(text, most)
    }
}

/// The number that a setting gives: the one it writes, or `default` where the
/// setting is absent.
pub open spec fn setting_of(setting: Option<String>, default: int, most: int) -> Option<int> {
    match setting {
        Some(text) => unsigned_of(text@, most),
        None => Some(default),
    }
}

/// What the settings amount to: the store's address is needed; the port and
/// the number of connections have defaults and must be numbers where given.
pub open spec fn configured(
    database_url: Option<String>,
    port: Option<String>,
    connections: Option<String>,
    r: Result<Config, ConfigError>,
) -> bool {
    match (database_url, setting_of(port, DEFAULT_PORT as int, u16::MAX as int), setting_of(
        connections,
        DEFAULT_CONNECTIONS as int,
        u32::MAX as int,
    )) {
        (None, _, _) => r matches Err(ConfigError::MissingDatabaseUrl),
        (Some(_), None, _) => r matches Err(ConfigError::InvalidPort),
        (Some(_), Some(_), None) => r matches Err(ConfigError::InvalidConnections),
        (Some(url), Some(p), Some(c)) => r matches Ok(config) && config.database_url == url && config.port
            == p && config.max_connections == c,
    }
}

/// Reads a number of at most `most` that is written in decimal.
pub fn unsigned(raw: &str, most: u64) -> (r: Option<u64>)
    ensures
        match unsigned_of(raw@, most as int) {
            Some(value) => r == Some(value as u64) && 0 <= value <= most,
            None => r.is_none(),
        },
{
    if raw.unicode_len() == 0 {
        assert(raw@.skip(0) =~= raw@);
        return read_digits(raw, 0, most);
    }
    let start: usize = if raw.get_char(0) == '+' {
        1
    } else {
        0
    };
    assert(raw@.skip(0) =~= raw@);
    read_digits(raw, start, most)
}

impl Config {
    /// Puts the settings together as the process was given them.
    pub fn from_vars(database_url: Option<String>, port: Option<String>, connections: Option<String>) -> (r:
        Result<Config, ConfigError>)
        ensures
            configured(database_url, port, connections, r),
    {
        let database_url = match database_url {
            Some(url) => url,
            None => {
                return Err(ConfigError::MissingDatabaseUrl);
            },
        };
        let port: u16 = match port {
            Some(text) => match unsigned(text.as_str(), 0xffff) {
                Some(value) => value as u16,
                None => {
                    return Err(ConfigError::InvalidPort);
                },
            },
            None => DEFAULT_PORT,
        };
        let max_connections: u32 = match connections {
            Some(text) => match unsigned(text.as_str(), 0xffff_ffff) {
                Some(value) => value as u32,
                None => {
                    return Err(ConfigError::InvalidConnections);
                },
            },
            None => DEFAULT_CONNECTIONS,
        };
        Ok(Config { database_url, port, max_connections })
    }
}

} // verus!
