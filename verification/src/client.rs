//! The configuration of an HTTP client of the Tangram server: the address it connects to,
//! whether it uses TLS, and the kind of connection that follows from them.

use vstd::prelude::*;

verus! {

/// A network address: a host and a port.
#[derive(Debug)]
pub struct Inet {
    pub host: String,
    pub port: u16,
}

/// The address of a server: on the network, or a Unix socket at a path.
#[derive(Debug)]
pub enum Addr {
    Inet(Inet),
    Unix(String),
}

/// The mathematical form of an address.
pub enum AddrView {
    Inet { host: Seq<char>, port: u16 },
    Unix(Seq<char>),
}

impl View for Addr {
    type V = AddrView;

    open spec fn view(&self) -> AddrView {
        match self {
            Addr::Inet(i) => AddrView::Inet { host: i.host@, port: i.port },
            Addr::Unix(p) => AddrView::Unix(p@),
        }
    }
}

/// A builder of a client: the address, and TLS if it was chosen.
#[derive(Debug)]
pub struct Builder {
    pub addr: Addr,
    pub tls: Option<bool>,
}

/// How many files a client keeps open at once.
pub const FILE_DESCRIPTOR_PERMITS: usize = 16;

/// What a client is built with: its address, whether it uses TLS, how many files it may keep
/// open at once, and whether it is connected (a new client is not: it connects when it first
/// sends a request).
#[derive(Debug)]
pub struct ClientConfig {
    pub addr: Addr,
    pub tls: bool,
    pub file_descriptor_permits: usize,
    pub connected: bool,
}

/// The kind of connection a client opens.
#[derive(Debug, Clone, Copy, PartialEq, Eq, Structural)]
pub enum Transport {
    /// TCP with TLS on top.
    TcpTls,
    /// Plain TCP.
    Tcp,
    /// A Unix socket.
    Unix,
}

impl Builder {
    /// A builder for the address `addr`, with TLS not chosen yet.
    pub fn new(addr: Addr) -> (r: Builder)
        ensures
            r.addr@ == addr@,
            r.tls is None,
    {
        Builder { addr, tls: None }
    }

    /// The builder with TLS turned on or off.
    pub fn tls(self, tls: bool) -> (r: Builder)
        ensures
            r.addr@ == self.addr@,
            r.tls == Some(tls),
    {
        Builder { addr: self.addr, tls: Some(tls) }
    }

    /// The configuration of the client: TLS is off unless it was turned on; the client may
    /// keep `FILE_DESCRIPTOR_PERMITS` files open at once and is not connected yet.
    pub fn build(self) -> (r: ClientConfig)
        ensures
            r.addr@ == self.addr@,
            r.tls == (self.tls == Some(true)),
            r.file_descriptor_permits == FILE_DESCRIPTOR_PERMITS,
            !r.connected,
    {
        let tls = match self.tls {
            Some(t) => t,
            None => false,
        };
        ClientConfig { addr: self.addr, tls, file_descriptor_permits: FILE_DESCRIPTOR_PERMITS, connected: false }
    }
}

impl ClientConfig {
    /// The client after its connection is dropped: it connects again on its next request.
    pub fn disconnect(&mut self)
        ensures
            !final(self).connected,
            final(self).addr@ == old(self).addr@,
            final(self).tls == old(self).tls,
            final(self).file_descriptor_permits == old(self).file_descriptor_permits,
    {
        self.connected = false;
    }

    /// The connection the client opens: TLS over TCP for a network address with TLS, plain
    /// TCP for one without, and a Unix socket for a path.
    pub fn transport(&self) -> (r: Transport)
        ensures
            r == (match self.addr@ {
                AddrView::Inet { .. } => if self.tls { Transport::TcpTls } else { Transport::Tcp },
                AddrView::Unix(_) => Transport::Unix,
            }),
    {
        match &self.addr {
            Addr::Inet(_) => {
                if self.tls {
                    Transport::TcpTls
                } else {
                    Transport::Tcp
                }
            },
            Addr::Unix(_) => Transport::Unix,
        }
    }
}

} // verus!
