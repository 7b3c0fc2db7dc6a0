//! Server and client configuration.
use vstd::prelude::*;

verus! {

/// The kind of socket a server listens on or a client connects to.
#[derive(Clone, Debug, PartialEq, Eq, Structural)]
pub enum SocketType {
    Tcp,
    Unix,
}

impl Default for SocketType {
    /// TCP is the default transport.
    fn default() -> (t: Self)
        ensures
            t == SocketType::Tcp,
    {
        SocketType::Tcp
    }
}

/// The socket type that an absent choice stands for.
pub open spec fn socket_type_or_default(t: Option<SocketType>) -> SocketType {
    match t {
        Some(t) => t,
        None => SocketType::Tcp,
    }
}

/// An explicit socket type is kept as given; only its absence stands for TCP.
pub proof fn lemma_explicit_socket_type_kept(t: SocketType)
    ensures
        socket_type_or_default(Some(t)) == t,
        socket_type_or_default(None) == SocketType::Tcp,
{
}

fn unwrap_socket_type(t: Option<SocketType>) -> (r: SocketType)
    ensures
        r == socket_type_or_default(t),
{
    match t {
        Some(t) => t,
        None => SocketType::default(),
    }
}

/// Configuration of a listening server.
#[derive(Clone, Debug)]
pub struct RapidServerConfig {
    pub no_delay: bool,
    pub address: String,
    pub socket_type: SocketType,
    pub unix_path: Option<String>,
}

impl Default for RapidServerConfig {
    /// An empty TCP address with TCP_NODELAY enabled and no Unix socket path.
    fn default() -> (c: Self)
        ensures
            c.no_delay,
            c.address@ == Seq::<char>::empty(),
            c.socket_type == SocketType::Tcp,
            c.unix_path is None,
    {
        RapidServerConfig { no_delay: true, address: String::new(), socket_type: SocketType::Tcp, unix_path: None }
    }
}

impl RapidServerConfig {
    /// Builds a configuration; a missing socket type means TCP.
    pub fn new_with_unix_path(
        address: String,
        no_delay: bool,
        socket_type: Option<SocketType>,
        unix_path: Option<String>,
    ) -> (c: Self)
        ensures
            c.address == address,
            c.no_delay == no_delay,
            c.socket_type == socket_type_or_default(socket_type),
            c.unix_path == unix_path,
    {
        RapidServerConfig {
            no_delay,
            address,
            socket_type: unwrap_socket_type(socket_type),
            unix_path,
        }
    }

    /// Builds a configuration without a Unix socket path.
    pub fn new(address: String, no_delay: bool, socket_type: Option<SocketType>) -> (c: Self)
        ensures
            c.address == address,
            c.no_delay == no_delay,
            c.socket_type == socket_type_or_default(socket_type),
            c.unix_path is None,
    {
        Self::new_with_unix_path(address, no_delay, socket_type, None)
    }

    pub fn address(&self) -> (a: &str)
        ensures
            a@ == self.address@,
    {
        self.address.as_str()
    }

    pub fn no_delay(&self) -> (b: bool)
        ensures
            b == self.no_delay,
    {
        self.no_delay
    }

    pub fn socket_type(&self) -> (t: &SocketType)
        ensures
            *t == self.socket_type,
    {
        &self.socket_type
    }

    pub fn unix_path(&self) -> (p: Option<&str>)
        ensures
            p is Some <==> self.unix_path is Some,
            p is Some ==> p->0@ == self.unix_path->0@,
    {
        match &self.unix_path {
            Some(path) => Some(path.as_str()),
            None => None,
        }
    }
}

/// Configuration of an outgoing client connection.
#[derive(Clone, Debug)]
pub struct RapidClientConfig {
    pub no_delay: bool,
    pub address: String,
    pub socket_type: SocketType,
    pub unix_path: Option<String>,
}

impl Default for RapidClientConfig {
    /// An empty TCP address with TCP_NODELAY enabled and no Unix socket path.
    fn default() -> (c: Self)
        ensures
            c.no_delay,
            c.address@ == Seq::<char>::empty(),
            c.socket_type == SocketType::Tcp,
            c.unix_path is None,
    {
        RapidClientConfig { no_delay: true, address: String::new(), socket_type: SocketType::Tcp, unix_path: None }
    }
}

impl RapidClientConfig {
    /// Builds a configuration; a missing socket type means TCP.
    pub fn new_with_unix_path(
        address: String,
        no_delay: bool,
        socket_type: Option<SocketType>,
        unix_path: Option<String>,
    ) -> (c: Self)
        ensures
            c.address == address,
            c.no_delay == no_delay,
            c.socket_type == socket_type_or_default(socket_type),
            c.unix_path == unix_path,
    {
        RapidClientConfig {
            no_delay,
            address,
            socket_type: unwrap_socket_type(socket_type),
            unix_path,
        }
    }

    /// Builds a configuration without a Unix socket path.
    pub fn new(address: String, no_delay: bool, socket_type: Option<SocketType>) -> (c: Self)
        ensures
            c.address == address,
            c.no_delay == no_delay,
            c.socket_type == socket_type_or_default(socket_type),
            c.unix_path is None,
    {
        Self::new_with_unix_path(address, no_delay, socket_type, None)
    }

    pub fn address(&self) -> (a: &str)
        ensures
            a@ == self.address@,
    {
        self.address.as_str()
    }

    pub fn no_delay(&self) -> (b: bool)
        ensures
            b == self.no_delay,
    {
        self.no_delay
    }

    pub fn socket_type(&self) -> (t: &SocketType)
        ensures
            *t == self.socket_type,
    {
        &self.socket_type
    }

    pub fn unix_path(&self) -> (p: Option<&str>)
        ensures
            p is Some <==> self.unix_path is Some,
            p is Some ==> p->0@ == self.unix_path->0@,
    {
        match &self.unix_path {
            Some(path) => Some(path.as_str()),
            None => None,
        }
    }
}

} // verus!
