//! The physical network beneath the tunnel.

use vstd::prelude::*;

verus! {

/// An address of either family, as its number.
#[derive(Debug, Clone, Copy, PartialEq, Eq, Structural)]
pub enum IpAddr {
    V4(u32),
    V6(u128),
}

/// The addresses of a gateway.
#[derive(Debug)]
pub struct GatewayAddrs {
    pub ipv4: Vec<u32>,
    pub ipv6: Vec<u128>,
}

/// The interface that the machine's own traffic leaves through.
#[derive(Debug)]
pub struct UnderlayInfo {
    pub interface_index: u32,
    pub interface_name: String,
    pub gateway: Option<IpAddr>,
    pub dns_servers: Vec<IpAddr>,
}

/// The address that a gateway is reached at: its first IPv4 address, else its first IPv6 address.
pub open spec fn gateway_addr(g: GatewayAddrs) -> Option<IpAddr> {
    if g.ipv4@.len() > 0 {
        Some(IpAddr::V4(g.ipv4@[0]))
    } else if g.ipv6@.len() > 0 {
        Some(IpAddr::V6(g.ipv6@[0]))
    } else {
        None
    }
}

/// The address of an optional gateway.
pub open spec fn opt_gateway_addr(g: Option<GatewayAddrs>) -> Option<IpAddr> {
    match g {
        Some(g) => gateway_addr(g),
        None => None,
    }
}

impl GatewayAddrs {
    /// The address that the gateway is reached at.
    pub fn first(&self) -> (r: Option<IpAddr>)
        ensures
            r == gateway_addr(*self),
    {
        if self.ipv4.len() > 0 {
            Some(IpAddr::V4(self.ipv4[0]))
        } else if self.ipv6.len() > 0 {
            Some(IpAddr::V6(self.ipv6[0]))
        } else {
            None
        }
    }
}

impl UnderlayInfo {
    /// The underlay of an interface: its own gateway, else the machine's default one.
    pub fn from_interface(
        interface_index: u32,
        interface_name: String,
        own: &Option<GatewayAddrs>,
        fallback: &Option<GatewayAddrs>,
        dns_servers: Vec<IpAddr>,
    ) -> (r: UnderlayInfo)
        ensures
            r.interface_index == interface_index,
            r.interface_name@ == interface_name@,
            r.dns_servers@ == dns_servers@,
            r.gateway == (if opt_gateway_addr(*own) is Some {
                opt_gateway_addr(*own)
            } else {
                opt_gateway_addr(*fallback)
            }),
    {
        let first = match own {
            Some(g) => g.first(),
            None => None,
        };
        let gateway = match first {
            Some(a) => Some(a),
            None => match fallback {
                Some(g) => g.first(),
                None => None,
            },
        };
        UnderlayInfo { interface_index, interface_name, gateway, dns_servers }
    }

    /// The gateway, when it is reached over IPv4.
    pub fn gateway_v4(&self) -> (r: Option<u32>)
        ensures
            r == (match self.gateway {
                Some(IpAddr::V4(ip)) => Some(ip),
                _ => None,
            }),
    {
        match self.gateway {
            Some(IpAddr::V4(ip)) => Some(ip),
            _ => None,
        }
    }
}

/// The name of the interface that forwarded traffic is masqueraded on.
pub fn default_uplink_name(underlay: &Option<UnderlayInfo>) -> (r: Option<String>)
    ensures
        r is Some <==> *underlay is Some,
        r matches Some(name) ==> name@ == underlay->0.interface_name@,
{
    match underlay {
        Some(u) => Some(u.interface_name.clone()),
        None => None,
    }
}

} // verus!
