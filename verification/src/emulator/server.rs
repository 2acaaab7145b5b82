//! Which clients the emulator serves, and what it does with each packet.

use crate::emulator::radio::HwInfo;
use crate::protocol::discovery::{hw_of_code, is_p1_response};
use crate::protocol::types::{p1_code_of, SocketAddress};
use crate::protocol::wire::{pad_to, push_all, zeros};
use vstd::prelude::*;

verus! {

/// Most clients that are served unless told otherwise.
pub const DEFAULT_MAX_CLIENTS: usize = 32;

/// Number of data packets between two looks for clients that have gone.
pub const SWEEP_INTERVAL: u32 = 100;

/// The response of a radio to a discovery request.
pub open spec fn discovery_response(hw: HwInfo, nddc: u8) -> Seq<u8> {
    seq![0xefu8, 0xfeu8, 0x02u8] + hw.mac@ + seq![
        hw.firmware_version,
        p1_code_of(hw.hw),
        0u8,
        0u8,
        0u8,
    ] + hw.mercury_versions@ + seq![hw.penny_version, hw.metis_version, nddc] + zeros(39)
}

/// Builds the response of a radio to a discovery request.
pub fn build_discovery_response(hw: &HwInfo, nddc: u8) -> (buf: Vec<u8>)
    ensures
        buf@ == discovery_response(*hw, nddc),
        buf@.len() == 60,
{
    let mut buf: Vec<u8> = Vec::with_capacity(60);
    buf.push(0xef);
    buf.push(0xfe);
    buf.push(0x02);
    push_all(&mut buf, &hw.mac);
    buf.push(hw.firmware_version);
    buf.push(hw.hw.p1_code());
    buf.push(0);
    buf.push(0);
    buf.push(0);
    push_all(&mut buf, &hw.mercury_versions);
    buf.push(hw.penny_version);
    buf.push(hw.metis_version);
    buf.push(nddc);
    pad_to(&mut buf, 60);
    assert(buf@ =~= discovery_response(*hw, nddc));
    buf
}

/// A host that reads the response of an emulated radio finds that radio: its
/// kind, address, version and number of receivers.
pub proof fn lemma_discovery_finds_the_radio(hw: HwInfo, nddc: u8)
    ensures
        is_p1_response(discovery_response(hw, nddc)),
        discovery_response(hw, nddc).subrange(3, 9) == hw.mac@,
        hw_of_code(discovery_response(hw, nddc)[10]) == Some(hw.hw),
        discovery_response(hw, nddc)[9] == hw.firmware_version,
        discovery_response(hw, nddc).len() > 20,
        discovery_response(hw, nddc)[20] == nddc,
{
    let r = discovery_response(hw, nddc);
    assert(r.subrange(3, 9) =~= hw.mac@);
}

/// A client that is served.
#[derive(Debug, Clone, Copy, PartialEq, Eq, Structural)]
pub struct ServedClient {
    pub addr: SocketAddress,
    /// Number that tells this client from all others.
    pub id: u64,
}

/// What a packet asks for.
#[derive(Debug, Clone, Copy, PartialEq, Eq, Structural)]
pub enum ServerAction {
    /// Nothing.
    Ignore,
    /// A discovery response.
    SendDiscovery,
    /// A new client is to be served.
    StartClient { id: u64 },
    /// A client is no longer to be served.
    StopClient { id: u64 },
    /// The packet is for a client.
    Forward { id: u64 },
}

/// What is to be done with a packet.
#[derive(Debug, Clone, Copy, PartialEq, Eq, Structural)]
pub struct ServerStep {
    pub action: ServerAction,
    /// Clients that have gone are to be looked for.
    pub sweep: bool,
}

/// The server's state as mathematical values.
#[verifier::ext_equal]
pub struct ServerModel {
    pub clients: Seq<ServedClient>,
    pub next_id: u64,
    pub data_packets: u32,
    pub max_clients: usize,
}

/// Index of a client.
pub open spec fn serves_at(clients: Seq<ServedClient>, addr: SocketAddress, k: int) -> bool {
    0 <= k < clients.len() && clients[k].addr == addr
}

/// A client is served.
pub open spec fn serves(clients: Seq<ServedClient>, addr: SocketAddress) -> bool {
    exists|k: int| serves_at(clients, addr, k)
}

/// Number of a client that is served.
pub open spec fn id_of(clients: Seq<ServedClient>, addr: SocketAddress) -> u64 {
    clients[choose|k: int| serves_at(clients, addr, k)].id
}

/// The clients without the one at an address.
pub open spec fn without(clients: Seq<ServedClient>, addr: SocketAddress) -> Seq<ServedClient> {
    clients.remove(choose|k: int| serves_at(clients, addr, k))
}

impl ServerModel {
    /// Invariant: each client is served once, under a number of its own, and
    /// there are no more than allowed.
    pub open spec fn wf(self) -> bool {
        &&& self.clients.len() <= self.max_clients
        &&& self.data_packets < SWEEP_INTERVAL
        &&& forall|j: int, k: int|
            0 <= j < k < self.clients.len() ==> (#[trigger] self.clients[j]).addr != (
            #[trigger] self.clients[k]).addr && self.clients[j].id != self.clients[k].id
        &&& forall|k: int|
            0 <= k < self.clients.len() ==> (#[trigger] self.clients[k]).id < self.next_id
    }

    /// What a packet asks for.
    pub open spec fn action(self, addr: SocketAddress, data: Seq<u8>) -> ServerAction {
        let known = serves(self.clients, addr);
        if data.len() < 4 || data[0] != 0xef || data[1] != 0xfe {
            ServerAction::Ignore
        } else if data[2] == 0x02 {
            ServerAction::SendDiscovery
        } else if data[2] == 0x04 && data[3] == 0x01 {
            if known || self.clients.len() >= self.max_clients {
                ServerAction::Ignore
            } else {
                ServerAction::StartClient { id: self.next_id }
            }
        } else if data[2] == 0x04 && data[3] == 0x00 {
            if known {
                ServerAction::StopClient { id: id_of(self.clients, addr) }
            } else {
                ServerAction::Ignore
            }
        } else if data[2] == 0x01 {
            if known {
                ServerAction::Forward { id: id_of(self.clients, addr) }
            } else {
                ServerAction::Ignore
            }
        } else {
            ServerAction::Ignore
        }
    }

    /// The packet counts as a data packet.
    pub open spec fn counts(data: Seq<u8>) -> bool {
        data.len() >= 4 && data[0] == 0xef && data[1] == 0xfe && data[2] == 0x01
    }

    /// The server after a packet.
    pub open spec fn after(self, addr: SocketAddress, data: Seq<u8>) -> ServerModel {
        match self.action(addr, data) {
            ServerAction::StartClient { id } => ServerModel {
                clients: self.clients.push(ServedClient { addr, id }),
                next_id: (self.next_id + 1) as u64,
                ..self
            },
            ServerAction::StopClient { .. } => ServerModel {
                clients: without(self.clients, addr),
                ..self
            },
            _ => if Self::counts(data) {
                ServerModel {
                    data_packets: ((self.data_packets + 1) % SWEEP_INTERVAL as int) as u32,
                    ..self
                }
            } else {
                self
            },
        }
    }
}

/// Decides what the emulator does with each packet.
pub struct P1Server {
    clients: Vec<ServedClient>,
    next_id: u64,
    data_packets: u32,
    max_clients: usize,
}

impl View for P1Server {
    type V = ServerModel;

    closed spec fn view(&self) -> ServerModel {
        ServerModel {
            clients: self.clients@,
            next_id: self.next_id,
            data_packets: self.data_packets,
            max_clients: self.max_clients,
        }
    }
}

impl P1Server {
    /// A server without clients.
    pub fn new(max_clients: usize) -> (s: Self)
        ensures
            s@ == (ServerModel {
                clients: Seq::empty(),
                next_id: 0,
                data_packets: 0,
                max_clients,
            }),
            s@.wf(),
    {
        P1Server { clients: Vec::new(), next_id: 0, data_packets: 0, max_clients }
    }

    fn find(&self, addr: SocketAddress) -> (k: Option<usize>)
        requires
            self@.wf(),
        ensures
            k is Some <==> serves(self@.clients, addr),
            k matches Some(i) ==> serves_at(self@.clients, addr, i as int) && i == (choose|j: int|
                serves_at(self@.clients, addr, j)) && self@.clients[i as int].id == id_of(
                self@.clients,
                addr,
            ),
    {
        let mut i: usize = 0;
        while i < self.clients.len()
            invariant
                i <= self.clients@.len(),
                self@.wf(),
                forall|j: int| 0 <= j < i ==> !#[trigger] serves_at(self@.clients, addr, j),
            decreases self.clients@.len() - i,
        {
            if self.clients[i].addr == addr {
                proof {
                    assert(serves_at(self@.clients, addr, i as int));
                    let j = choose|j: int| serves_at(self@.clients, addr, j);
                    assert(j == i) by {
                        if j < i {
                            assert(self@.clients[j].addr != self@.clients[i as int].addr);
                        } else if i < j {
                            assert(self@.clients[i as int].addr != self@.clients[j].addr);
                        }
                    }
                }
                return Some(i);
            }
            i = i + 1;
        }
        None
    }

    /// Number of clients that are served.
    pub fn client_count(&self) -> (n: usize)
        ensures
            n == self@.clients.len(),
    {
        self.clients.len()
    }

    /// Whether there is a number left for another client.
    pub fn has_free_id(&self) -> (r: bool)
        ensures
            r == (self@.next_id < u64::MAX),
    {
        self.next_id < u64::MAX
    }

    /// Takes in a packet.
    pub fn on_packet(&mut self, addr: SocketAddress, data: &[u8]) -> (step: ServerStep)
        requires
            old(self)@.wf(),
            old(self)@.next_id < u64::MAX,
        ensures
            step.action == old(self)@.action(addr, data@),
            step.sweep == (ServerModel::counts(data@) && old(self)@.data_packets + 1
                == SWEEP_INTERVAL),
            final(self)@ == old(self)@.after(addr, data@),
            final(self)@.wf(),
    {
        if data.len() < 4 || data[0] != 0xef || data[1] != 0xfe {
            return ServerStep { action: ServerAction::Ignore, sweep: false };
        }
        let kind: u8 = data[2];
        if kind == 0x02 {
            return ServerStep { action: ServerAction::SendDiscovery, sweep: false };
        }
        if kind == 0x04 {
            let at: Option<usize> = self.find(addr);
            if data[3] == 0x01 {
                if at.is_some() || self.clients.len() >= self.max_clients {
                    return ServerStep { action: ServerAction::Ignore, sweep: false };
                }
                let id: u64 = self.next_id;
                let ghost before = self.clients@;
                self.clients.push(ServedClient { addr, id });
                self.next_id = id + 1;
                proof {
                    assert forall|j: int| 0 <= j < before.len() implies (#[trigger] before[j]).addr
                        != addr by {
                        assert(!serves_at(before, addr, j));
                    }
                }
                return ServerStep { action: ServerAction::StartClient { id }, sweep: false };
            }
            if data[3] == 0x00 {
                return match at {
                    Some(i) => {
                        let c: ServedClient = self.clients.remove(i);
                        ServerStep { action: ServerAction::StopClient { id: c.id }, sweep: false }
                    },
                    None => ServerStep { action: ServerAction::Ignore, sweep: false },
                };
            }
            return ServerStep { action: ServerAction::Ignore, sweep: false };
        }
        if kind == 0x01 {
            let action: ServerAction = match self.find(addr) {
                Some(i) => ServerAction::Forward { id: self.clients[i].id },
                None => ServerAction::Ignore,
            };
            let sweep: bool = self.data_packets + 1 >= SWEEP_INTERVAL;
            self.data_packets = if sweep {
                0
            } else {
                self.data_packets + 1
            };
            return ServerStep { action, sweep };
        }
        ServerStep { action: ServerAction::Ignore, sweep: false }
    }

    /// Forgets a client that has gone by itself.
    pub fn forget(&mut self, addr: SocketAddress)
        requires
            old(self)@.wf(),
        ensures
            final(self)@ == (if serves(old(self)@.clients, addr) {
                ServerModel { clients: without(old(self)@.clients, addr), ..old(self)@ }
            } else {
                old(self)@
            }),
            final(self)@.wf(),
    {
        match self.find(addr) {
            Some(i) => {
                let _ = self.clients.remove(i);
            },
            None => {},
        }
    }
}

/// A client that stops is no longer served, and may start again.
pub proof fn lemma_stopped_client_may_start_again(
    m: ServerModel,
    addr: SocketAddress,
    stop: Seq<u8>,
    start: Seq<u8>,
)
    requires
        m.wf(),
        serves(m.clients, addr),
        stop.len() >= 4 && stop[0] == 0xef && stop[1] == 0xfe && stop[2] == 0x04 && stop[3] == 0,
        start.len() >= 4 && start[0] == 0xef && start[1] == 0xfe && start[2] == 0x04 && start[3]
            == 1,
    ensures
        !serves(m.after(addr, stop).clients, addr),
        m.after(addr, stop).action(addr, start) is StartClient,
{
    let k = choose|k: int| serves_at(m.clients, addr, k);
    assert(serves_at(m.clients, addr, k));
    let rest = m.clients.remove(k);
    assert forall|j: int| !#[trigger] serves_at(rest, addr, j) by {
        if 0 <= j < rest.len() {
            if j < k {
                assert(rest[j] == m.clients[j]);
                assert(m.clients[j].addr != m.clients[k].addr);
            } else {
                assert(rest[j] == m.clients[j + 1]);
                assert(m.clients[k].addr != m.clients[j + 1].addr);
            }
        }
    }
}

/// A client that is served already is not started twice, and a full server
/// takes no other.
pub proof fn lemma_no_client_beyond_the_limit(
    m: ServerModel,
    addr: SocketAddress,
    data: Seq<u8>,
)
    requires
        serves(m.clients, addr) || m.clients.len() >= m.max_clients,
    ensures
        !(m.action(addr, data) is StartClient),
{
}

/// Packets from a host that has not started are dropped.
pub proof fn lemma_strangers_are_not_served(m: ServerModel, addr: SocketAddress, data: Seq<u8>)
    requires
        !serves(m.clients, addr),
    ensures
        !(m.action(addr, data) is Forward),
        !(m.action(addr, data) is StopClient),
{
}

/// A packet of a host, whatever it asks for.
pub open spec fn is_host_packet(data: Seq<u8>) -> bool {
    data.len() >= 4 && data[0] == 0xef && data[1] == 0xfe
}

proof fn lemma_without(clients: Seq<ServedClient>, addr: SocketAddress, other: SocketAddress)
    requires
        serves(clients, addr),
        forall|j: int, k: int|
            0 <= j < k < clients.len() ==> (#[trigger] clients[j]).addr != (
            #[trigger] clients[k]).addr,
    ensures
        without(clients, addr).len() == clients.len() - 1,
        serves(without(clients, addr), other) == (other != addr && serves(clients, other)),
{
    let k = choose|k: int| serves_at(clients, addr, k);
    assert(serves_at(clients, addr, k));
    let rest = clients.remove(k);
    if serves(rest, other) {
        let j = choose|j: int| serves_at(rest, other, j);
        assert(serves_at(rest, other, j));
        let at = if j < k {
            j
        } else {
            j + 1
        };
        assert(rest[j] == clients[at]);
        assert(serves_at(clients, other, at));
        if at < k {
            assert(clients[at].addr != clients[k].addr);
        } else {
            assert(clients[k].addr != clients[at].addr);
        }
    }
    if other != addr && serves(clients, other) {
        let j = choose|j: int| serves_at(clients, other, j);
        assert(serves_at(clients, other, j));
        let at = if j < k {
            j
        } else {
            j - 1
        };
        assert(rest[at] == clients[j]);
        assert(serves_at(rest, other, at));
    }
}

proof fn lemma_with(clients: Seq<ServedClient>, c: ServedClient, other: SocketAddress)
    ensures
        serves(clients.push(c), other) == (other == c.addr || serves(clients, other)),
{
    let more = clients.push(c);
    assert(serves_at(more, c.addr, clients.len() as int));
    if serves(clients, other) {
        let j = choose|j: int| serves_at(clients, other, j);
        assert(serves_at(clients, other, j));
        assert(serves_at(more, other, j));
    }
    if serves(more, other) && other != c.addr {
        let j = choose|j: int| serves_at(more, other, j);
        assert(serves_at(more, other, j));
        assert(serves_at(clients, other, j));
    }
}

/// A discovery request is answered whoever asks and however many are served, and
/// changes nothing. A request to start is granted exactly if the host is not served
/// yet and there is room. A request to stop ends the service of that host. No packet
/// changes whether another host is served, and there are never more clients than
/// allowed.
pub proof fn lemma_requests_are_answered(
    m: ServerModel,
    addr: SocketAddress,
    data: Seq<u8>,
    other: SocketAddress,
)
    requires
        m.wf(),
        is_host_packet(data),
    ensures
        data[2] == 0x02 ==> m.action(addr, data) is SendDiscovery && m.after(addr, data) == m,
        data[2] == 0x04 && data[3] == 0x01 ==> {
            &&& m.action(addr, data) is StartClient <==> !serves(m.clients, addr)
                && m.clients.len() < m.max_clients
            &&& serves(m.after(addr, data).clients, addr) <==> serves(m.clients, addr)
                || m.clients.len() < m.max_clients
        },
        data[2] == 0x04 && data[3] == 0x00 ==> {
            &&& m.action(addr, data) is StopClient <==> serves(m.clients, addr)
            &&& !serves(m.after(addr, data).clients, addr)
        },
        other != addr ==> serves(m.after(addr, data).clients, other) == serves(m.clients, other),
        m.after(addr, data).clients.len() <= m.max_clients,
        m.after(addr, data).max_clients == m.max_clients,
{
    let action = m.action(addr, data);
    if let ServerAction::StartClient { id } = action {
        lemma_with(m.clients, ServedClient { addr, id }, addr);
        lemma_with(m.clients, ServedClient { addr, id }, other);
    } else if action is StopClient {
        lemma_without(m.clients, addr, addr);
        lemma_without(m.clients, addr, other);
    }
}

} // verus!
