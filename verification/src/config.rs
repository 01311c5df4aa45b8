//! How a session is set up: the transport, and the addresses the client
//! and the server bind and call.

use vstd::prelude::*;

verus! {

/// The network transport a session uses.
#[derive(Clone, Copy, Debug, PartialEq, Eq, Structural)]
pub enum Transports {
    Udp,
    Webtransport,
}

/// An IPv4 socket address: the four octets and the port.
#[derive(Clone, Copy, Debug, PartialEq, Eq)]
pub struct SocketAddrV4 {
    pub ip: [u8; 4],
    pub port: u16,
}

/// The IPv4 address that means "any interface".
pub const UNSPECIFIED: [u8; 4] = [0, 0, 0, 0];

/// Which socket a side opens, and for a web-transport client whom it calls.
#[derive(Clone, Copy, Debug, PartialEq, Eq)]
pub enum TransportConfig {
    UdpSocket(SocketAddrV4),
    WebTransportClient { client_addr: SocketAddrV4, server_addr: SocketAddrV4 },
    WebTransportServer { server_addr: SocketAddrV4 },
}

/// The settings a client session starts with.
#[derive(Clone, Copy, Debug, PartialEq, Eq)]
pub struct MyClientPlugin {
    pub client_id: u64,
    pub client_port: u16,
    pub server_addr: [u8; 4],
    pub server_port: u16,
    pub transport: Transports,
}

/// The settings a server session starts with.
#[derive(Clone, Copy, Debug, PartialEq, Eq, Structural)]
pub struct MyServerPlugin {
    pub headless: bool,
    pub port: u16,
    pub transport: Transports,
}

impl MyClientPlugin {
    /// The transport a client opens: a UDP socket on any interface at the
    /// client port, or a web-transport connection from there to the server.
    pub fn transport_config(&self) -> (t: TransportConfig)
        ensures
            ({
                let client_addr = SocketAddrV4 { ip: UNSPECIFIED, port: self.client_port };
                let server_addr = SocketAddrV4 { ip: self.server_addr, port: self.server_port };
                t == match self.transport {
                    Transports::Udp => TransportConfig::UdpSocket(client_addr),
                    Transports::Webtransport => TransportConfig::WebTransportClient {
                        client_addr,
                        server_addr,
                    },
                }
            }),
    {
        let server_addr = SocketAddrV4 { ip: self.server_addr, port: self.server_port };
        let client_addr = SocketAddrV4 { ip: UNSPECIFIED, port: self.client_port };
        match self.transport {
            Transports::Udp => TransportConfig::UdpSocket(client_addr),
            Transports::Webtransport => TransportConfig::WebTransportClient { client_addr, server_addr },
        }
    }
}

impl MyServerPlugin {
    /// The transport a server opens: a UDP or web-transport socket on any
    /// interface at its port.
    pub fn transport_config(&self) -> (t: TransportConfig)
        ensures
            ({
                let server_addr = SocketAddrV4 { ip: UNSPECIFIED, port: self.port };
                t == match self.transport {
                    Transports::Udp => TransportConfig::UdpSocket(server_addr),
                    Transports::Webtransport => TransportConfig::WebTransportServer { server_addr },
                }
            }),
    {
        let server_addr = SocketAddrV4 { ip: UNSPECIFIED, port: self.port };
        match self.transport {
            Transports::Udp => TransportConfig::UdpSocket(server_addr),
            Transports::Webtransport => TransportConfig::WebTransportServer { server_addr },
        }
    }
}

} // verus!
