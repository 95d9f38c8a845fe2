use vstd::prelude::*;

verus! {

/// The network part of a peer address, IPv4 or IPv6, held as its bits.
#[derive(Clone, Copy, Debug, PartialEq, Eq, Hash, Structural)]
pub enum Ip {
    V4(u32),
    V6(u128),
}

/// A peer's socket address: its IP and its port.
#[derive(Clone, Copy, Debug, PartialEq, Eq, Hash, Structural)]
pub struct PeerAddr {
    pub ip: Ip,
    pub port: u16,
}

impl PeerAddr {
    pub fn new(ip: Ip, port: u16) -> (r: PeerAddr)
        ensures
            r.ip == ip,
            r.port == port,
    {
        PeerAddr { ip, port }
    }

    /// The IP of this address, without its port.
    pub fn ip(&self) -> (r: Ip)
        ensures
            r == self.ip,
    {
        self.ip
    }
}

} // verus!
