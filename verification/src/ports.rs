//! Process-to-port mapping: the local bound TCP and UDP ports of each
//! process, as the process search field finds them.

use vstd::prelude::*;
use std::collections::HashMap;

verus! {

broadcast use vstd::std_specs::hash::group_hash_axioms;

/// The network protocol used by a socket.
#[derive(Clone, Copy, Debug, PartialEq, Eq, Structural)]
pub enum Protocol {
    /// Transmission Control Protocol.
    TCP,
    /// User Datagram Protocol.
    UDP,
}

/// The state of a socket connection.
#[derive(Clone, Copy, Debug, PartialEq, Eq, Structural)]
pub enum SocketState {
    Established,
    SynSent,
    SynReceived,
    FinWait1,
    FinWait2,
    TimeWait,
    Closed,
    CloseWait,
    LastAck,
    Listen,
    Closing,
    Unknown,
}

/// A socket and the process that holds it.
#[derive(Clone, Copy, Debug, PartialEq, Eq, Structural)]
pub struct SocketEntry {
    pub pid: u32,
    pub port: u16,
    pub protocol: Protocol,
    pub state: SocketState,
}

/// Whether a socket should be searchable from the process search field: TCP
/// sockets only in LISTEN state, UDP sockets always, and only with a real
/// (non-zero) local port.
pub open spec fn indexable(protocol: Protocol, state: SocketState, port: u16) -> bool {
    port != 0 && match protocol {
        Protocol::TCP => state == SocketState::Listen,
        Protocol::UDP => true,
    }
}

/// Whether a socket should be searchable from the process search field.
pub fn should_index_socket(protocol: Protocol, state: SocketState, port: u16) -> (b: bool)
    ensures
        b == indexable(protocol, state, port),
{
    if port == 0 {
        return false;
    }
    match protocol {
        Protocol::TCP => match state {
            SocketState::Listen => true,
            _ => false,
        },
        Protocol::UDP => true,
    }
}

/// Whether process `pid` holds a searchable socket on `port`.
pub open spec fn indexed_port(sockets: Seq<SocketEntry>, pid: u32, port: u16) -> bool {
    exists|i: int|
        0 <= i < sockets.len() && (#[trigger] sockets[i]).pid == pid && sockets[i].port == port
            && indexable(sockets[i].protocol, sockets[i].state, sockets[i].port)
}

/// Whether the ports are in strictly increasing order.
pub open spec fn strictly_increasing(ports: Seq<u16>) -> bool {
    forall|i: int, j: int| 0 <= i < j < ports.len() ==> #[trigger] ports[i] < #[trigger] ports[j]
}

/// Whether `map` lists, for every process with a searchable socket among
/// `sockets`, exactly the ports of those sockets, each once and in
/// increasing order, and no other process.
pub open spec fn ports_index(sockets: Seq<SocketEntry>, map: Map<u32, Vec<u16>>) -> bool {
    &&& forall|pid: u32| #[trigger]
        map.contains_key(pid) <==> exists|port: u16| indexed_port(sockets, pid, port)
    &&& forall|pid: u32| #[trigger]
        map.contains_key(pid) ==> strictly_increasing(map[pid]@) && forall|port: u16|
            map[pid]@.contains(port) <==> indexed_port(sockets, pid, port)
}

/// Adds `port` to the increasing `ports`, unless it is there already.
fn insert_port(ports: &mut Vec<u16>, port: u16)
    requires
        strictly_increasing(old(ports)@),
    ensures
        strictly_increasing(final(ports)@),
        forall|p: u16| final(ports)@.contains(p) <==> (old(ports)@.contains(p) || p == port),
{
    let mut i: usize = 0;
    while i < ports.len() && ports[i] < port
        invariant
            i <= ports.len(),
            ports@ == old(ports)@,
            forall|j: int| 0 <= j < i ==> ports@[j] < port,
        decreases ports.len() - i,
    {
        i += 1;
    }
    if i < ports.len() && ports[i] == port {
        return;
    }
    let ghost before = ports@;
    proof {
        assert forall|j: int| i <= j < before.len() implies before[j] > port by {
            assert(before[i as int] > port);
            if j > i {
                assert(before[i as int] < before[j]);
            }
        }
    }
    ports.insert(i, port);
    proof {
        let after = ports@;
        assert forall|a: int, b: int| 0 <= a < b < after.len() implies #[trigger] after[a]
            < #[trigger] after[b] by {
            if b < i {
                assert(after[a] == before[a] && after[b] == before[b]);
            } else if b == i {
                assert(after[a] == before[a]);
            } else if a < i {
                assert(after[a] == before[a] && after[b] == before[b - 1]);
            } else if a == i {
                assert(after[b] == before[b - 1]);
            } else {
                assert(after[a] == before[a - 1] && after[b] == before[b - 1]);
            }
        }
        assert forall|p: u16| after.contains(p) <==> (before.contains(p) || p == port) by {
            if after.contains(p) {
                let k = choose|k: int| 0 <= k < after.len() && after[k] == p;
                if k < i {
                    assert(before[k] == p);
                } else if k > i {
                    assert(before[k - 1] == p);
                }
            }
            if before.contains(p) {
                let k = choose|k: int| 0 <= k < before.len() && before[k] == p;
                if k < i {
                    assert(after[k] == p);
                } else {
                    assert(after[k + 1] == p);
                }
            }
            if p == port {
                assert(after[i as int] == p);
            }
        }
    }
}

/// Groups the searchable local ports of the sockets by process: each
/// process with such a socket gets its ports, each once, in increasing
/// order.
pub fn collect_ports_by_pid(sockets: &Vec<SocketEntry>) -> (r: HashMap<u32, Vec<u16>>)
    ensures
        ports_index(sockets@, r@),
{
    let mut map: HashMap<u32, Vec<u16>> = HashMap::new();
    let mut i: usize = 0;
    while i < sockets.len()
        invariant
            i <= sockets.len(),
            ports_index(sockets@.take(i as int), map@),
        decreases sockets.len() - i,
    {
        let s = sockets[i];
        let ghost pre = sockets@.take(i as int);
        let ghost next = sockets@.take(i + 1);
        assert(next =~= pre.push(s));
        proof {
            assert forall|pid: u32, port: u16| indexed_port(next, pid, port) <==> (indexed_port(
                pre,
                pid,
                port,
            ) || (pid == s.pid && port == s.port && indexable(s.protocol, s.state, s.port))) by {
                if indexed_port(next, pid, port) {
                    let k = choose|k: int|
                        0 <= k < next.len() && (#[trigger] next[k]).pid == pid && next[k].port
                            == port && indexable(next[k].protocol, next[k].state, next[k].port);
                    if k < pre.len() {
                        assert(pre[k] == next[k]);
                    }
                }
                if indexed_port(pre, pid, port) {
                    let k = choose|k: int|
                        0 <= k < pre.len() && (#[trigger] pre[k]).pid == pid && pre[k].port == port
                            && indexable(pre[k].protocol, pre[k].state, pre[k].port);
                    assert(next[k] == pre[k]);
                }
                if pid == s.pid && port == s.port && indexable(s.protocol, s.state, s.port) {
                    assert(next[i as int] == s);
                }
            }
        }
        if should_index_socket(s.protocol, s.state, s.port) {
            let ghost old_map = map@;
            let ports = match map.remove(&s.pid) {
                Some(mut ports) => {
                    insert_port(&mut ports, s.port);
                    ports
                },
                None => {
                    let mut ports: Vec<u16> = Vec::new();
                    ports.push(s.port);
                    ports
                },
            };
            map.insert(s.pid, ports);
            proof {
                assert forall|pid: u32| #[trigger]
                    map@.contains_key(pid) <==> exists|port: u16| indexed_port(next, pid, port) by {
                    if pid == s.pid {
                        assert(indexed_port(next, pid, s.port));
                    } else if map@.contains_key(pid) {
                        assert(old_map.contains_key(pid));
                        let port = choose|port: u16| indexed_port(pre, pid, port);
                        assert(indexed_port(next, pid, port));
                    } else if exists|port: u16| indexed_port(next, pid, port) {
                        let port = choose|port: u16| indexed_port(next, pid, port);
                        assert(indexed_port(pre, pid, port));
                    }
                }
                assert forall|pid: u32| #[trigger] map@.contains_key(pid) implies strictly_increasing(
                    map@[pid]@,
                ) && forall|port: u16|
                    map@[pid]@.contains(port) <==> indexed_port(next, pid, port) by {
                    if pid == s.pid {
                        if old_map.contains_key(pid) {
                        } else {
                            assert forall|port: u16| !indexed_port(pre, pid, port) by {
                                if indexed_port(pre, pid, port) {
                                    assert(old_map.contains_key(pid));
                                }
                            }
                            assert forall|port: u16|
                                map@[pid]@.contains(port) <==> indexed_port(next, pid, port) by {
                                if map@[pid]@.contains(port) {
                                    assert(map@[pid]@[0] == s.port);
                                }
                                if port == s.port {
                                    assert(map@[pid]@[0] == s.port);
                                }
                            }
                        }
                    }
                }
            }
        } else {
            proof {
                assert forall|pid: u32| #[trigger]
                    map@.contains_key(pid) <==> exists|port: u16| indexed_port(next, pid, port) by {
                    if exists|port: u16| indexed_port(next, pid, port) {
                        let port = choose|port: u16| indexed_port(next, pid, port);
                        assert(indexed_port(pre, pid, port));
                    }
                    if map@.contains_key(pid) {
                        let port = choose|port: u16| indexed_port(pre, pid, port);
                        assert(indexed_port(next, pid, port));
                    }
                }
            }
        }
        i += 1;
    }
    assert(sockets@.take(sockets.len() as int) =~= sockets@);
    map
}

} // verus!

verus! {

/// Port 0 (a socket not bound to a real local port) is never listed.
pub proof fn law_port_zero_never_listed(sockets: Seq<SocketEntry>, map: Map<u32, Vec<u16>>, pid: u32)
    requires
        ports_index(sockets, map),
        map.contains_key(pid),
    ensures
        !map[pid]@.contains(0),
{
    if indexed_port(sockets, pid, 0) {
        let i = choose|i: int|
            0 <= i < sockets.len() && (#[trigger] sockets[i]).pid == pid && sockets[i].port == 0
                && indexable(sockets[i].protocol, sockets[i].state, sockets[i].port);
    }
}

/// A TCP socket is listed only while it is listening.
pub proof fn law_tcp_listed_only_when_listening(state: SocketState, port: u16)
    ensures
        indexable(Protocol::TCP, state, port) ==> state == SocketState::Listen,
{
}

} // verus!
