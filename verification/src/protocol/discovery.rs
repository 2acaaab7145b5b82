//! Finding radios on the local network.

use crate::protocol::types::{DiscoveredDevice, HpsdrHw, SocketAddress};
use crate::protocol::wire::{pad_to, zeros};
use vstd::prelude::*;

verus! {

/// Port of a radio.
pub const RADIO_PORT: u16 = 1024;

/// Address that reaches every host of the local network.
pub const BROADCAST_V4: u32 = 0xffff_ffff;

/// Discovery request of Protocol 1.
pub fn build_p1_discovery_request() -> (req: Vec<u8>)
    ensures
        req@ == seq![0xefu8, 0xfeu8, 0x02u8] + zeros(60),
{
    let mut req: Vec<u8> = Vec::with_capacity(63);
    req.push(0xef);
    req.push(0xfe);
    req.push(0x02);
    pad_to(&mut req, 63);
    req
}

/// The same address with another port; the parts of an IPv6 address beyond
/// address and port are reset.
pub open spec fn with_port(addr: SocketAddress, port: u16) -> SocketAddress {
    match addr {
        SocketAddress::V4 { ip, .. } => SocketAddress::V4 { ip, port },
        SocketAddress::V6 { ip6, .. } => SocketAddress::V6 {
            ip6,
            port,
            flow_info: 0,
            scope_id: 0,
        },
    }
}

pub(crate) fn set_port(addr: SocketAddress, port: u16) -> (r: SocketAddress)
    ensures
        r == with_port(addr, port),
{
    match addr {
        SocketAddress::V4 { ip, .. } => SocketAddress::V4 { ip, port },
        SocketAddress::V6 { ip6, .. } => SocketAddress::V6 {
            ip6,
            port,
            flow_info: 0,
            scope_id: 0,
        },
    }
}

/// The radio that a code stands for.
pub open spec fn hw_of_code(code: u8) -> Option<HpsdrHw> {
    if code == 1 {
        Some(HpsdrHw::Hermes)
    } else if code == 6 {
        Some(HpsdrHw::HermesLite)
    } else {
        None
    }
}

/// A discovery response of a supported radio that speaks Protocol 1: magic
/// bytes, a status of 2 (idle) or 3 (in use), protocol version 0 and a known
/// device code.
pub open spec fn is_p1_response(data: Seq<u8>) -> bool {
    &&& data.len() >= 20
    &&& data[0] == 0xef && data[1] == 0xfe
    &&& data[2] == 0x02 || data[2] == 0x03
    &&& data[11] == 0
    &&& hw_of_code(data[10]) is Some
}

/// Reads a discovery response that came from `addr`.
pub fn parse_p1_discovery_response(data: &[u8], addr: SocketAddress) -> (r: Option<
    DiscoveredDevice,
>)
    ensures
        r is Some <==> is_p1_response(data@),
        r matches Some(d) ==> d.addr == with_port(addr, RADIO_PORT) && d.mac@ == data@.subrange(
            3,
            9,
        ) && Some(d.hw_type) == hw_of_code(data@[10]) && d.firmware_version == data@[9]
            && d.num_rxs == (if data@.len() > 20 {
            data@[20]
        } else {
            1
        }) && d.status == data@[2],
{
    if data.len() < 20 || data[0] != 0xef || data[1] != 0xfe {
        return None;
    }
    let status: u8 = data[2];
    if (status != 0x02 && status != 0x03) || data[11] != 0 {
        return None;
    }
    let hw_type: HpsdrHw = match HpsdrHw::from_p1_code(data[10]) {
        Some(hw) => hw,
        None => {
            return None;
        },
    };
    let mac: [u8; 6] = [data[3], data[4], data[5], data[6], data[7], data[8]];
    assert(mac@ =~= data@.subrange(3, 9));
    let num_rxs: u8 = if data.len() > 20 {
        data[20]
    } else {
        1
    };
    Some(
        DiscoveredDevice {
            addr: set_port(addr, RADIO_PORT),
            mac,
            hw_type,
            firmware_version: data[9],
            num_rxs,
            status,
        },
    )
}

/// An interface of this host, with its IPv4 address and broadcast address
/// where it has them.
#[derive(Debug, Clone, Copy, PartialEq, Eq, Structural)]
pub struct NetInterface {
    pub loopback: bool,
    pub v4: Option<InterfaceV4>,
}

/// IPv4 address of an interface.
#[derive(Debug, Clone, Copy, PartialEq, Eq, Structural)]
pub struct InterfaceV4 {
    pub ip: u32,
    pub broadcast: Option<u32>,
}

/// Where a discovery request is sent from and to.
#[derive(Debug, Clone, Copy, PartialEq, Eq, Structural)]
pub struct DiscoveryRoute {
    pub bind: SocketAddress,
    pub target: SocketAddress,
}

/// The route from `ip` to `target`.
pub open spec fn route(ip: u32, target: u32, port: u16) -> DiscoveryRoute {
    DiscoveryRoute {
        bind: SocketAddress::V4 { ip, port: 0 },
        target: SocketAddress::V4 { ip: target, port },
    }
}

/// Routes over one interface: to all hosts, and to its broadcast address where
/// it has one.
pub open spec fn interface_routes(iface: NetInterface, port: u16) -> Seq<DiscoveryRoute> {
    match iface.v4 {
        Some(v4) if !iface.loopback => match v4.broadcast {
            Some(b) => seq![route(v4.ip, BROADCAST_V4, port), route(v4.ip, b, port)],
            None => seq![route(v4.ip, BROADCAST_V4, port)],
        },
        _ => Seq::empty(),
    }
}

/// Routes over several interfaces, in their order.
pub open spec fn all_routes(ifaces: Seq<NetInterface>, port: u16) -> Seq<DiscoveryRoute>
    decreases ifaces.len(),
{
    if ifaces.len() == 0 {
        Seq::empty()
    } else {
        all_routes(ifaces.drop_last(), port) + interface_routes(ifaces.last(), port)
    }
}

/// The only route where no interface can be used.
pub open spec fn default_route(port: u16) -> DiscoveryRoute {
    route(0, BROADCAST_V4, port)
}

/// Plans where discovery requests are sent: over every IPv4 interface but the
/// loopback ones, or over the system's choice where there is none.
pub fn discovery_routes(ifaces: &[NetInterface], port: u16) -> (routes: Vec<DiscoveryRoute>)
    ensures
        routes@ == if all_routes(ifaces@, port).len() == 0 {
            seq![default_route(port)]
        } else {
            all_routes(ifaces@, port)
        },
{
    let mut routes: Vec<DiscoveryRoute> = Vec::new();
    let mut i: usize = 0;
    while i < ifaces.len()
        invariant
            i <= ifaces@.len(),
            routes@ == all_routes(ifaces@.take(i as int), port),
        decreases ifaces@.len() - i,
    {
        let ghost before = routes@;
        let iface: NetInterface = ifaces[i];
        if !iface.loopback {
            if let Some(v4) = iface.v4 {
                let bind: SocketAddress = SocketAddress::V4 { ip: v4.ip, port: 0 };
                routes.push(
                    DiscoveryRoute {
                        bind,
                        target: SocketAddress::V4 { ip: BROADCAST_V4, port },
                    },
                );
                if let Some(b) = v4.broadcast {
                    routes.push(
                        DiscoveryRoute { bind, target: SocketAddress::V4 { ip: b, port } },
                    );
                }
            }
        }
        i = i + 1;
        proof {
            assert(ifaces@.take(i as int).drop_last() == ifaces@.take(i - 1));
            assert(routes@ =~= before + interface_routes(iface, port));
        }
    }
    assert(ifaces@.take(ifaces@.len() as int) == ifaces@);
    if routes.len() == 0 {
        routes.push(
            DiscoveryRoute {
                bind: SocketAddress::V4 { ip: 0, port: 0 },
                target: SocketAddress::V4 { ip: BROADCAST_V4, port },
            },
        );
        assert(routes@ =~= seq![default_route(port)]);
    }
    routes
}

/// Radios found so far, each once.
pub struct DiscoveryList {
    devices: Vec<DiscoveredDevice>,
}

/// A radio with the address is in the list.
pub open spec fn lists_mac(devices: Seq<DiscoveredDevice>, mac: Seq<u8>) -> bool {
    exists|i: int| 0 <= i < devices.len() && (#[trigger] devices[i]).mac@ == mac
}

impl DiscoveryList {
    /// The radios found so far, in the order of their answers.
    pub closed spec fn found(&self) -> Seq<DiscoveredDevice> {
        self.devices@
    }

    /// No radio is listed twice.
    pub open spec fn wf(&self) -> bool {
        forall|i: int, j: int|
            0 <= i < j < self.found().len() ==> (#[trigger] self.found()[i]).mac@ != (
            #[trigger] self.found()[j]).mac@
    }

    /// No radio has been found.
    pub fn new() -> (l: Self)
        ensures
            l.wf(),
            l.found() == Seq::<DiscoveredDevice>::empty(),
    {
        DiscoveryList { devices: Vec::new() }
    }

    /// Adds a radio unless it is listed already. Returns whether it was new.
    pub fn add(&mut self, device: DiscoveredDevice) -> (new: bool)
        requires
            old(self).wf(),
        ensures
            final(self).wf(),
            new == !lists_mac(old(self).found(), device.mac@),
            final(self).found() == if new {
                old(self).found().push(device)
            } else {
                old(self).found()
            },
    {
        let mut i: usize = 0;
        while i < self.devices.len()
            invariant
                i <= self.devices@.len(),
                self.wf(),
                self.found() == old(self).found(),
                forall|j: int| 0 <= j < i ==> (#[trigger] self.devices@[j]).mac@ != device.mac@,
            decreases self.devices@.len() - i,
        {
            if same_mac(&self.devices[i].mac, &device.mac) {
                assert(self.found()[i as int].mac@ == device.mac@);
                return false;
            }
            i = i + 1;
        }
        self.devices.push(device);
        true
    }

    /// Hands the list out.
    pub fn into_devices(self) -> (devices: Vec<DiscoveredDevice>)
        ensures
            devices@ == self.found(),
    {
        self.devices
    }
}

fn same_mac(a: &[u8; 6], b: &[u8; 6]) -> (r: bool)
    ensures
        r == (a@ == b@),
{
    let r: bool = a[0] == b[0] && a[1] == b[1] && a[2] == b[2] && a[3] == b[3] && a[4] == b[4]
        && a[5] == b[5];
    assert(r ==> a@ =~= b@);
    r
}

} // verus!
