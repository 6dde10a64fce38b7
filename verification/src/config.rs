//! Server settings.
//!
//! The settings come from seven named values, two of which must be given:
//!
//! | Value | Required | Default |
//! |-------|----------|---------|
//! | database URL | yes | |
//! | JWT secret | yes | |
//! | cookie name | no | `auth_token` |
//! | host | no | `0.0.0.0` |
//! | port | no | `3000` |
//! | connection pool size | no | `10` |
//! | allowed CORS origins, separated by commas | no | none |

use vstd::prelude::*;
use crate::decimal::{decimal, parse_number, parsed_number, push_decimal};
use crate::text::{chars_of, push_range, split_at, split_text, string_of, texts};

verus! {

/// The port that the server binds where none is configured.
pub const DEFAULT_PORT: u16 = 3000;

/// The size of the connection pool where none is configured.
pub const DEFAULT_MAX_CONNECTIONS: u32 = 10;

/// Server settings.
#[derive(Debug, Clone)]
pub struct Config {
    /// PostgreSQL connection string.
    pub database_url: String,
    /// JWT signing secret.
    pub jwt_secret: String,
    /// Cookie name for JWT storage.
    pub cookie_name: String,
    /// Server bind address.
    pub host: String,
    /// Server port.
    pub port: u16,
    /// Database connection pool size.
    pub max_connections: u32,
    /// Allowed CORS origins.
    pub allowed_origins: Vec<String>,
}

/// The number that a configured value sets: the value read as a decimal
/// numeral not above `max`, or `default` where the value is missing or is
/// no such numeral.
pub open spec fn number_or(value: Option<String>, max: nat, default: nat) -> nat {
    match value {
        Some(text) => match parsed_number(text@, max) {
            Some(n) => n,
            None => default,
        },
        None => default,
    }
}

/// The text that a configured value sets, or `default` where it is missing.
pub open spec fn text_or(value: Option<String>, default: Seq<char>) -> Seq<char> {
    match value {
        Some(text) => text@,
        None => default,
    }
}

/// The origins that a configured list names: its pieces between commas, or
/// none where the list is missing.
pub open spec fn origins_of(value: Option<String>) -> Seq<Seq<char>> {
    match value {
        Some(list) => split_at(list@, ','),
        None => Seq::empty(),
    }
}

fn read_number(value: &Option<String>, max: u32, default: u32) -> (number: u32)
    requires
        default <= max,
    ensures
        number == number_or(*value, max as nat, default as nat),
        number <= max,
{
    match value {
        Some(text) => {
            let digits: Vec<char> = chars_of(text.as_str());
            match parse_number(&digits, max) {
                Some(n) => n,
                None => default,
            }
        },
        None => default,
    }
}

impl Config {
    /// Builds the settings from the configured values. An optional value
    /// that is missing takes its default, and so does a port or a pool size
    /// that is no decimal numeral in the range of its type.
    #[must_use]
    pub fn from_values(
        database_url: String,
        jwt_secret: String,
        cookie_name: Option<String>,
        host: Option<String>,
        port: Option<String>,
        max_connections: Option<String>,
        allowed_origins: Option<String>,
    ) -> (config: Config)
        ensures
            config.database_url@ == database_url@,
            config.jwt_secret@ == jwt_secret@,
            config.cookie_name@ == text_or(cookie_name, "auth_token"@),
            config.host@ == text_or(host, "0.0.0.0"@),
            config.port == number_or(port, u16::MAX as nat, DEFAULT_PORT as nat),
            config.max_connections == number_or(
                max_connections,
                u32::MAX as nat,
                DEFAULT_MAX_CONNECTIONS as nat,
            ),
            texts(config.allowed_origins@) == origins_of(allowed_origins),
    {
        let port_number: u32 = read_number(&port, 65535, 3000);
        let pool_size: u32 = read_number(&max_connections, u32::MAX, 10);
        let origins: Vec<String> = match &allowed_origins {
            Some(list) => {
                let text: Vec<char> = chars_of(list.as_str());
                split_text(&text, ',')
            },
            None => {
                let none: Vec<String> = Vec::new();
                assert(texts(none@) =~= Seq::<Seq<char>>::empty());
                none
            },
        };
        Config {
            database_url,
            jwt_secret,
            cookie_name: match cookie_name {
                Some(name) => name,
                None => "auth_token".to_owned(),
            },
            host: match host {
                Some(name) => name,
                None => "0.0.0.0".to_owned(),
            },
            port: port_number as u16,
            max_connections: pool_size,
            allowed_origins: origins,
        }
    }

    /// The address to bind, written as `host:port`.
    #[must_use]
    pub fn bind_address(&self) -> (address: String)
        ensures
            address@ == self.host@ + seq![':'] + decimal(self.port as nat),
    {
        let host: Vec<char> = chars_of(self.host.as_str());
        let mut out: Vec<char> = Vec::new();
        push_range(&mut out, &host, 0, host.len());
        out.push(':');
        push_decimal(&mut out, self.port as u64);
        proof {
            assert(host@.subrange(0, host.len() as int) =~= host@);
            assert(out@ =~= self.host@ + seq![':'] + decimal(self.port as nat));
        }
        string_of(&out)
    }

    /// Returns true if CORS should be permissive (development mode): no
    /// origin is configured.
    #[must_use]
    pub fn is_cors_permissive(&self) -> (permissive: bool)
        ensures
            permissive == (self.allowed_origins@.len() == 0),
    {
        self.allowed_origins.is_empty()
    }
}

} // verus!
