//! The configuration of the daemon's RPC server.
use vstd::prelude::*;

verus! {

/// An IPv4 socket address: the four octets of the host, in order, and the
/// port.
#[derive(Clone, Copy, Debug, PartialEq, Eq, Structural)]
pub struct TcpAddress {
    pub a: u8,
    pub b: u8,
    pub c: u8,
    pub d: u8,
    pub port: u16,
}

/// The port the daemon listens on by default.
pub const DEFAULT_PORT: u16 = 50051;

/// Where and how much the server serves.
#[derive(Debug, Clone)]
pub struct ServerConfig {
    /// Address for the TCP transport, if it is used.
    pub tcp_addr: Option<TcpAddress>,
    /// Path of the Unix socket, if that transport is used.
    pub unix_socket: Option<String>,
    /// How many sessions may run at once.
    pub max_sessions: usize,
    /// How many clients may attach to one session at once.
    pub max_clients_per_session: usize,
    /// Seconds without a heartbeat after which a client is dropped.
    pub heartbeat_timeout_secs: u64,
}

/// The limits every configuration starts with: ten sessions, five clients
/// per session, a thirty-second heartbeat timeout.
pub open spec fn default_limits(c: ServerConfig) -> bool {
    &&& c.max_sessions == 10
    &&& c.max_clients_per_session == 5
    &&& c.heartbeat_timeout_secs == 30
}

impl Default for ServerConfig {
    /// TCP on the loopback address at the default port, with the default
    /// limits.
    fn default() -> (c: ServerConfig)
        ensures
            c.tcp_addr == Some(TcpAddress { a: 127, b: 0, c: 0, d: 1, port: DEFAULT_PORT }),
            c.unix_socket is None,
            default_limits(c),
    {
        ServerConfig {
            tcp_addr: Some(TcpAddress { a: 127, b: 0, c: 0, d: 1, port: DEFAULT_PORT }),
            unix_socket: None,
            max_sessions: 10,
            max_clients_per_session: 5,
            heartbeat_timeout_secs: 30,
        }
    }
}

impl ServerConfig {
    /// Serves over TCP at `addr`, with the default limits.
    pub fn tcp(addr: TcpAddress) -> (c: ServerConfig)
        ensures
            c.tcp_addr == Some(addr),
            c.unix_socket is None,
            default_limits(c),
    {
        ServerConfig { tcp_addr: Some(addr), unix_socket: None, ..ServerConfig::default() }
    }

    /// Serves over the Unix socket at `path`, with the default limits.
    pub fn unix(path: String) -> (c: ServerConfig)
        ensures
            c.tcp_addr is None,
            c.unix_socket == Some(path),
            default_limits(c),
    {
        ServerConfig { tcp_addr: None, unix_socket: Some(path), ..ServerConfig::default() }
    }

    /// The same configuration with another session limit.
    pub fn with_max_sessions(self, max: usize) -> (c: ServerConfig)
        ensures
            c.max_sessions == max,
            c.tcp_addr == self.tcp_addr,
            c.unix_socket == self.unix_socket,
            c.max_clients_per_session == self.max_clients_per_session,
            c.heartbeat_timeout_secs == self.heartbeat_timeout_secs,
    {
        ServerConfig { max_sessions: max, ..self }
    }

    /// The same configuration with another limit of clients per session.
    pub fn with_max_clients_per_session(self, max: usize) -> (c: ServerConfig)
        ensures
            c.max_clients_per_session == max,
            c.tcp_addr == self.tcp_addr,
            c.unix_socket == self.unix_socket,
            c.max_sessions == self.max_sessions,
            c.heartbeat_timeout_secs == self.heartbeat_timeout_secs,
    {
        ServerConfig { max_clients_per_session: max, ..self }
    }
}

} // verus!
