//! The user's settings and the rules they must satisfy.

use core::time::Duration;
use std::path::PathBuf;
use vstd::prelude::*;

use crate::addr::{is_socket_addr, parse_socket_addr, SocketAddress};
use crate::text::{is_blank, str_is_blank};

verus! {

#[verifier::external_type_specification]
#[verifier::external_body]
pub struct ExPathBuf(PathBuf);

/// `PathBuf`'s `clone`, which the derived `Clone` of `ConfigStore` calls;
/// nothing is stated of the copy.
pub assume_specification[ <PathBuf as Clone>::clone ](p: &PathBuf) -> PathBuf;

/// The duration that `Duration::from_millis` makes of a number of milliseconds.
pub uninterp spec fn millis(ms: u64) -> Duration;

/// Calls `Duration::from_millis`, which is a function of its argument alone;
/// its result is named, not described.
#[verifier::external_body]
fn duration_from_millis(ms: u64) -> (d: Duration)
    ensures
        d == millis(ms),
{
    Duration::from_millis(ms)
}

/// The settings, stored as TOML.
#[derive(Debug, Clone, PartialEq, Eq)]
pub struct Config {
    pub listen_addr: String,
    pub peer_addr: String,
    pub start_on_login: bool,
    pub poll_ms: u64,
    pub max_text_bytes: usize,
}

pub const DEFAULT_LISTEN_ADDR: &'static str = "0.0.0.0:38765";

pub const DEFAULT_POLL_MS: u64 = 500;

pub const DEFAULT_MAX_TEXT_BYTES: usize = 1048576;

/// The shortest clipboard poll interval allowed, in milliseconds.
pub const MIN_POLL_MS: u64 = 100;

impl Default for Config {
    fn default() -> (c: Self)
        ensures
            c.listen_addr@ == DEFAULT_LISTEN_ADDR@,
            c.peer_addr@ == Seq::<char>::empty(),
            !c.start_on_login,
            c.poll_ms == DEFAULT_POLL_MS,
            c.max_text_bytes == DEFAULT_MAX_TEXT_BYTES,
    {
        Config {
            listen_addr: String::from_str(DEFAULT_LISTEN_ADDR),
            peer_addr: String::new(),
            start_on_login: false,
            poll_ms: DEFAULT_POLL_MS,
            max_text_bytes: DEFAULT_MAX_TEXT_BYTES,
        }
    }
}

/// Which rule a configuration breaks.
#[derive(Debug, Clone, Copy, PartialEq, Eq, Structural)]
pub enum ConfigError {
    BadListenAddr,
    BadPeerAddr,
    PollTooShort,
    ZeroMaxTextBytes,
}

pub open spec fn config_error_message(e: ConfigError) -> Seq<char> {
    match e {
        ConfigError::BadListenAddr => "listen_addr must be a valid ip:port"@,
        ConfigError::BadPeerAddr => "peer_addr must be empty or a valid ip:port"@,
        ConfigError::PollTooShort => "poll_ms must be at least 100"@,
        ConfigError::ZeroMaxTextBytes => "max_text_bytes must be greater than zero"@,
    }
}

impl ConfigError {
    /// The message shown to the user.
    pub fn message(&self) -> (m: &'static str)
        ensures
            m@ == config_error_message(*self),
    {
        match self {
            ConfigError::BadListenAddr => "listen_addr must be a valid ip:port",
            ConfigError::BadPeerAddr => "peer_addr must be empty or a valid ip:port",
            ConfigError::PollTooShort => "poll_ms must be at least 100",
            ConfigError::ZeroMaxTextBytes => "max_text_bytes must be greater than zero",
        }
    }
}

/// The first rule, in this order, that a configuration breaks: the listen
/// address must parse, the peer address must be blank or parse, the poll
/// interval must be at least 100 ms, the text limit must be positive.
pub open spec fn config_check(c: Config) -> Result<(), ConfigError> {
    if !is_socket_addr(c.listen_addr@) {
        Err(ConfigError::BadListenAddr)
    } else if !is_blank(c.peer_addr@) && !is_socket_addr(c.peer_addr@) {
        Err(ConfigError::BadPeerAddr)
    } else if c.poll_ms < MIN_POLL_MS {
        Err(ConfigError::PollTooShort)
    } else if c.max_text_bytes == 0 {
        Err(ConfigError::ZeroMaxTextBytes)
    } else {
        Ok(())
    }
}

/// A configuration is accepted exactly when its listen address parses, its
/// peer address is blank or parses, it polls at most every 100 ms and its
/// text limit is positive; each refusal names a rule the configuration breaks,
/// the listen address first.
pub proof fn lemma_config_accepted_exactly(c: Config)
    ensures
        (config_check(c) is Ok) <==> (is_socket_addr(c.listen_addr@) && (is_blank(c.peer_addr@)
            || is_socket_addr(c.peer_addr@)) && c.poll_ms >= 100 && c.max_text_bytes > 0),
        !is_socket_addr(c.listen_addr@) ==> config_check(c) == Err::<(), ConfigError>(
            ConfigError::BadListenAddr,
        ),
        config_check(c) == Err::<(), ConfigError>(ConfigError::BadPeerAddr) ==> !is_blank(c.peer_addr@)
            && !is_socket_addr(c.peer_addr@),
        config_check(c) == Err::<(), ConfigError>(ConfigError::PollTooShort) ==> c.poll_ms < 100,
        config_check(c) == Err::<(), ConfigError>(ConfigError::ZeroMaxTextBytes) ==> c.max_text_bytes
            == 0,
{
}

impl Config {
    /// Checks the configuration against its rules.
    pub fn validate(&self) -> (r: Result<(), ConfigError>)
        ensures
            r == config_check(*self),
    {
        if self.listen_socket_addr().is_none() {
            return Err(ConfigError::BadListenAddr);
        }
        if !str_is_blank(self.peer_addr.as_str()) {
            if self.peer_socket_addr().is_none() {
                return Err(ConfigError::BadPeerAddr);
            }
        }
        if self.poll_ms < MIN_POLL_MS {
            return Err(ConfigError::PollTooShort);
        }
        if self.max_text_bytes == 0 {
            return Err(ConfigError::ZeroMaxTextBytes);
        }
        Ok(())
    }

    /// The address to listen on, parsed.
    pub fn listen_socket_addr(&self) -> (r: Option<SocketAddress>)
        ensures
            match crate::addr::socket_addr_parse(vstd::utf8::encode_utf8(self.listen_addr@)) {
                Some(m) => r matches Some(a) && a.model() == m,
                None => r is None,
            },
    {
        parse_socket_addr(self.listen_addr.as_str())
    }

    /// The peer's address, parsed.
    pub fn peer_socket_addr(&self) -> (r: Option<SocketAddress>)
        ensures
            match crate::addr::socket_addr_parse(vstd::utf8::encode_utf8(self.peer_addr@)) {
                Some(m) => r matches Some(a) && a.model() == m,
                None => r is None,
            },
    {
        parse_socket_addr(self.peer_addr.as_str())
    }

    /// How often the clipboard is polled.
    pub fn poll_interval(&self) -> (d: Duration)
        ensures
            d == millis(self.poll_ms),
    {
        duration_from_millis(self.poll_ms)
    }

    /// Whether a peer address is set: it is not blank.
    pub fn has_peer_addr(&self) -> (r: bool)
        ensures
            r == !is_blank(self.peer_addr@),
    {
        !str_is_blank(self.peer_addr.as_str())
    }
}

/// Where the configuration file lives.
#[derive(Debug, Clone)]
pub struct ConfigStore {
    path: PathBuf,
}

impl ConfigStore {
    /// The file's path.
    pub closed spec fn file(&self) -> PathBuf {
        self.path
    }

    /// A store for the file at `path`.
    pub fn at(path: PathBuf) -> (s: Self)
        ensures
            s.file() == path,
    {
        ConfigStore { path }
    }

    /// The path of the configuration file.
    pub fn path(&self) -> (p: &PathBuf)
        ensures
            *p == self.file(),
    {
        &self.path
    }
}

} // verus!
