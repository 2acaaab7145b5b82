//! Finding radios, and collecting what they send.

use crate::protocol::discovery::{
    all_routes, build_p1_discovery_request, discovery_routes, interface_routes,
    parse_p1_discovery_response, DiscoveryRoute, NetInterface,
};
use crate::protocol::iq_accumulator::IqAccumulator;
use crate::protocol::protocol1::{Protocol1Client, SubframeReport};
use crate::protocol::types::{DiscoveredDevice, HpsdrHw, SocketAddress};
use crate::protocol::wire::decimal;
use vstd::prelude::*;

verus! {

/// Discovery of Protocol 1: a request has 63 bytes, the magic ones, a 2 and zeros. A
/// response of at least 20 bytes starts with the magic bytes and a status of 2 or 3;
/// the interface address, the version, the kind and a zero follow, and the number of
/// receivers is byte 20 where there is one.
pub proof fn lemma_p1_discovery_layout(
    request: Vec<u8>,
    data: &[u8],
    addr: SocketAddress,
    r: Option<DiscoveredDevice>,
    hw: Option<HpsdrHw>,
    k: int,
)
    requires
        call_ensures(build_p1_discovery_request, (), request),
        call_ensures(parse_p1_discovery_response, (data, addr), r),
        data@.len() > 10 ==> call_ensures(HpsdrHw::from_p1_code, (data@[10],), hw),
    ensures
        request@.len() == 63,
        request@[0] == 0xef && request@[1] == 0xfe && request@[2] == 2,
        3 <= k < 63 ==> request@[k] == 0,
        r is Some <==> {
            &&& data@.len() >= 20
            &&& data@[0] == 0xef && data@[1] == 0xfe
            &&& data@[2] == 2 || data@[2] == 3
            &&& data@[10] == 1 || data@[10] == 6
            &&& data@[11] == 0
        },
        r matches Some(d) ==> {
            &&& d.status == data@[2]
            &&& 0 <= k < 6 ==> d.mac@[k] == data@[3 + k]
            &&& d.firmware_version == data@[9]
            &&& Some(d.hw_type) == hw
            &&& data@.len() > 20 ==> d.num_rxs == data@[20]
            &&& data@.len() == 20 ==> d.num_rxs == 1
            &&& addr matches SocketAddress::V4 { ip, port } ==> d.addr == (SocketAddress::V4 {
                ip,
                port: 1024,
            })
            &&& addr matches SocketAddress::V6 { ip6, port, flow_info, scope_id } ==> d.addr == (
            SocketAddress::V6 { ip6, port: 1024, flow_info: 0, scope_id: 0 })
        },
{
}

/// A route that leaves an interface to an address.
pub open spec fn leads(r: DiscoveryRoute, from: u32, to: u32, port: u16) -> bool {
    &&& r.bind == (SocketAddress::V4 { ip: from, port: 0 })
    &&& r.target == (SocketAddress::V4 { ip: to, port })
}

/// Whether requests go out over an interface.
pub open spec fn is_usable(iface: NetInterface) -> bool {
    !iface.loopback && iface.v4 is Some
}

proof fn lemma_route_from(ifaces: Seq<NetInterface>, port: u16, k: int) -> (i: int)
    requires
        0 <= k < all_routes(ifaces, port).len(),
    ensures
        0 <= i < ifaces.len(),
        is_usable(ifaces[i]),
        leads(all_routes(ifaces, port)[k], ifaces[i].v4->0.ip, 0xffff_ffff, port) || (
        ifaces[i].v4->0.broadcast is Some && leads(
            all_routes(ifaces, port)[k],
            ifaces[i].v4->0.ip,
            ifaces[i].v4->0.broadcast->0,
            port,
        )),
    decreases ifaces.len(),
{
    let init = ifaces.drop_last();
    let before = all_routes(init, port);
    if k < before.len() {
        let i = lemma_route_from(init, port, k);
        assert(init[i] == ifaces[i]);
        assert(all_routes(ifaces, port)[k] == before[k]);
        i
    } else {
        let own = interface_routes(ifaces.last(), port);
        assert(all_routes(ifaces, port)[k] == own[k - before.len()]);
        ifaces.len() - 1
    }
}

proof fn lemma_route_over(ifaces: Seq<NetInterface>, port: u16, i: int) -> (k: (int, int))
    requires
        0 <= i < ifaces.len(),
        is_usable(ifaces[i]),
    ensures
        ({
            let routes = all_routes(ifaces, port);
            let v4 = ifaces[i].v4->0;
            &&& 0 <= k.0 < routes.len()
            &&& leads(routes[k.0], v4.ip, 0xffff_ffff, port)
            &&& v4.broadcast is Some ==> 0 <= k.1 < routes.len() && leads(
                routes[k.1],
                v4.ip,
                v4.broadcast->0,
                port,
            )
        }),
    decreases ifaces.len(),
{
    let init = ifaces.drop_last();
    let before = all_routes(init, port);
    let routes = all_routes(ifaces, port);
    if i < init.len() {
        assert(init[i] == ifaces[i]);
        let k = lemma_route_over(init, port, i);
        assert(routes[k.0] == before[k.0]);
        if ifaces[i].v4->0.broadcast is Some {
            assert(routes[k.1] == before[k.1]);
        }
        k
    } else {
        let own = interface_routes(ifaces.last(), port);
        let n = before.len() as int;
        assert(routes[n] == own[0]);
        if ifaces[i].v4->0.broadcast is Some {
            assert(routes[n + 1] == own[1]);
        }
        (n, n + 1)
    }
}

/// Discovery requests go out over every interface with an IPv4 address that is not a
/// loopback one, to all hosts and to the broadcast address where there is one, and
/// nowhere else; without such an interface one goes out to all hosts as the system likes.
pub proof fn lemma_requests_go_out_everywhere(
    ifaces: &[NetInterface],
    port: u16,
    routes: Vec<DiscoveryRoute>,
    i: int,
    k: int,
) -> (r: (int, int, int))
    requires
        call_ensures(discovery_routes, (ifaces, port), routes),
        0 <= k < routes@.len(),
    ensures
        0 <= i < ifaces@.len() && is_usable(ifaces@[i]) ==> {
            let v4 = ifaces@[i].v4->0;
            &&& 0 <= r.0 < routes@.len() && leads(routes@[r.0], v4.ip, 0xffff_ffff, port)
            &&& v4.broadcast is Some ==> 0 <= r.1 < routes@.len() && leads(
                routes@[r.1],
                v4.ip,
                v4.broadcast->0,
                port,
            )
        },
        leads(routes@[k], 0, 0xffff_ffff, port) && routes@.len() == 1 || (0 <= r.2 < ifaces@.len()
            && is_usable(ifaces@[r.2]) && (leads(
            routes@[k],
            ifaces@[r.2].v4->0.ip,
            0xffff_ffff,
            port,
        ) || (ifaces@[r.2].v4->0.broadcast is Some && leads(
            routes@[k],
            ifaces@[r.2].v4->0.ip,
            ifaces@[r.2].v4->0.broadcast->0,
            port,
        )))),
        routes@.len() > 0,
{
    let over = if 0 <= i < ifaces@.len() && is_usable(ifaces@[i]) {
        lemma_route_over(ifaces@, port, i)
    } else {
        (0, 0)
    };
    let from = if all_routes(ifaces@, port).len() > 0 {
        lemma_route_from(ifaces@, port, k)
    } else {
        0
    };
    (over.0, over.1, from)
}

/// Samples wait in order, and at most sixteen blocks of them: when there are more, the
/// oldest give way.
pub proof fn lemma_sixteen_blocks_wait<T: Copy>(a: &mut IqAccumulator<T>, samples: &[T], k: int)
    requires
        call_ensures(IqAccumulator::<T>::push, (a, samples), ()),
        old(a).wf(),
    ensures
        ({
            let all = old(a).waiting() + samples@;
            let kept = final(a).waiting();
            let limit = 16 * old(a).block_len();
            &&& kept.len() == if all.len() < limit {
                all.len()
            } else {
                limit
            }
            &&& 0 <= k < kept.len() ==> kept[k] == all[all.len() - kept.len() + k]
        }),
{
}

/// A block is taken out oldest sample first, as soon as there are enough; the rest waits
/// on, and what the target holds beyond the block stays.
pub proof fn lemma_blocks_are_taken_in_order<T: Copy>(
    a: &mut IqAccumulator<T>,
    out: &mut [T],
    r: bool,
    k: int,
)
    requires
        call_ensures(IqAccumulator::<T>::next_block, (a, out), r),
        old(a).wf(),
        old(out)@.len() >= old(a).block_len(),
    ensures
        ({
            let was = old(a).waiting();
            let n = old(a).block_len();
            &&& r <==> was.len() >= n
            &&& !r ==> final(a).waiting() == was && final(out)@ == old(out)@
            &&& final(out)@.len() == old(out)@.len()
            &&& r && 0 <= k < n ==> final(out)@[k] == was[k]
            &&& r && n <= k < old(out)@.len() ==> final(out)@[k] == old(out)@[k]
            &&& r ==> final(a).waiting() == was.subrange(n as int, was.len() as int)
        }),
{
}

/// A packet from the radio: its number is in bytes 4 to 7, the next one is expected to
/// have the number behind it; each frame that is in sync is reported.
pub proof fn lemma_radio_packets_are_taken_in(
    c: &mut Protocol1Client,
    data: &[u8],
    reports: Vec<SubframeReport>,
)
    requires
        call_ensures(Protocol1Client::handle_radio_packet, (c, data), reports),
        old(c)@.wf(),
    ensures
        ({
            let d = data@;
            let is_data = d.len() >= 1032 && d[0] == 0xef && d[1] == 0xfe && d[2] == 1;
            let first = is_data && d[8] == 0x7f && d[9] == 0x7f && d[10] == 0x7f;
            let second = is_data && d[520] == 0x7f && d[521] == 0x7f && d[522] == 0x7f;
            let number = d[4] * 0x100_0000 + d[5] * 0x1_0000 + d[6] * 0x100 + d[7];
            &&& !is_data ==> final(c)@ == old(c)@ && reports@.len() == 0
            &&& is_data && number < 0xffff_ffff ==> final(c)@.rx_seq == number + 1
            &&& is_data && number == 0xffff_ffff ==> final(c)@.rx_seq == 0
            &&& reports@.len() == (if first {
                1int
            } else {
                0
            }) + (if second {
                1int
            } else {
                0
            })
        }),
{
}

/// The digits of a byte as a decimal number stand for it, and the first is no zero unless
/// it is the only one.
pub proof fn lemma_decimal_digits_stand_for_the_number(n: u8)
    ensures
        ({
            let d = decimal(n as int);
            let digit = |k: int| d[k] as int - '0' as int;
            &&& 1 <= d.len() <= 3
            &&& forall|k: int| 0 <= k < d.len() ==> '0' <= #[trigger] d[k] <= '9'
            &&& d.len() == 1 ==> digit(0) == n
            &&& d.len() == 2 ==> 10 * digit(0) + digit(1) == n && digit(0) > 0
            &&& d.len() == 3 ==> 100 * digit(0) + 10 * digit(1) + digit(2) == n && digit(0) > 0
        }),
{
}

} // verus!
