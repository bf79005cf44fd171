//! The result of a scan by host: for every address its open ports, in the
//! order in which they were found.

use crate::address::{IpAddress, SocketTarget};
use vstd::prelude::*;

verus! {

/// The ports of the targets in `open` whose address is `ip`, in the order of
/// `open`.
pub open spec fn ports_of(open: Seq<SocketTarget>, ip: IpAddress) -> Seq<u16>
    decreases open.len(),
{
    if open.len() == 0 {
        Seq::empty()
    } else {
        let front = ports_of(open.drop_last(), ip);
        if open.last().ip == ip {
            front.push(open.last().port)
        } else {
            front
        }
    }
}

/// The addresses of the targets in `open`, each once, in the order in which
/// they first occur.
pub open spec fn hosts_of(open: Seq<SocketTarget>) -> Seq<IpAddress>
    decreases open.len(),
{
    if open.len() == 0 {
        Seq::empty()
    } else {
        let front = hosts_of(open.drop_last());
        if front.contains(open.last().ip) {
            front
        } else {
            front.push(open.last().ip)
        }
    }
}

/// The open ports by host: every address that has a target in `open`, with
/// its ports.
pub open spec fn grouped(open: Seq<SocketTarget>) -> Map<IpAddress, Seq<u16>> {
    Map::new(|ip: IpAddress| ports_of(open, ip).len() > 0, |ip: IpAddress| ports_of(open, ip))
}

/// An address has ports exactly when one of the targets bears it, and a port
/// is among them exactly when the pair is a target.
pub proof fn lemma_ports_of(open: Seq<SocketTarget>, ip: IpAddress)
    ensures
        ports_of(open, ip).len() > 0 <==> exists|k: int|
            0 <= k < open.len() && (#[trigger] open[k]).ip == ip,
        forall|port: u16|
            ports_of(open, ip).contains(port) <==> open.contains(SocketTarget { ip, port }),
        ports_of(open, ip).len() <= open.len(),
    decreases open.len(),
{
    if open.len() > 0 {
        let front = open.drop_last();
        let last = open.last();
        lemma_ports_of(front, ip);
        let before = ports_of(front, ip);
        let all = ports_of(open, ip);
        if all.len() > 0 {
            if last.ip == ip {
                assert(open[open.len() - 1].ip == ip);
            } else {
                let k = choose|k: int| 0 <= k < front.len() && (#[trigger] front[k]).ip == ip;
                assert(open[k].ip == ip);
            }
        }
        if exists|k: int| 0 <= k < open.len() && (#[trigger] open[k]).ip == ip {
            let k = choose|k: int| 0 <= k < open.len() && (#[trigger] open[k]).ip == ip;
            if k < front.len() {
                assert(front[k].ip == ip);
            }
        }
        assert forall|port: u16| all.contains(port) <==> open.contains(
            SocketTarget { ip, port },
        ) by {
            let target = SocketTarget { ip, port };
            if all.contains(port) {
                let k = choose|k: int| 0 <= k < all.len() && all[k] == port;
                if k < before.len() {
                    assert(before[k] == port);
                    assert(before.contains(port));
                    assert(front.contains(target));
                    let j = choose|j: int| 0 <= j < front.len() && front[j] == target;
                    assert(open[j] == target);
                } else {
                    assert(open[open.len() - 1] == target);
                }
            }
            if open.contains(target) {
                let j = choose|j: int| 0 <= j < open.len() && open[j] == target;
                if j < front.len() {
                    assert(front[j] == target);
                    assert(front.contains(target));
                    assert(before.contains(port));
                    let k = choose|k: int| 0 <= k < before.len() && before[k] == port;
                    assert(all[k] == port);
                } else {
                    assert(all[all.len() - 1] == port);
                }
            }
        }
    }
}

/// One host with its open ports.
#[derive(Debug)]
pub struct HostPorts {
    pub ip: IpAddress,
    pub ports: Vec<u16>,
}

/// The open ports of a scan, by host.
#[derive(Debug)]
pub struct PortsByHost {
    hosts: Vec<HostPorts>,
}

impl View for PortsByHost {
    type V = Map<IpAddress, Seq<u16>>;

    closed spec fn view(&self) -> Map<IpAddress, Seq<u16>> {
        Map::new(
            |ip: IpAddress| exists|e: int| 0 <= e < self.hosts.len() && (#[trigger] self.hosts[e]).ip == ip,
            |ip: IpAddress|
                self.hosts[choose|e: int| 0 <= e < self.hosts.len() && (#[trigger] self.hosts[e]).ip == ip].ports@,
        )
    }
}

impl PortsByHost {
    /// The hosts with their ports, in the order in which the entries stand.
    pub closed spec fn entries(&self) -> Seq<HostPorts> {
        self.hosts@
    }

    /// Whether the entries are the hosts of `open` in the order in which they
    /// were found, each with its ports in the order in which they were found.
    pub open spec fn lists(&self, open: Seq<SocketTarget>) -> bool {
        &&& self.entries().len() == hosts_of(open).len()
        &&& forall|e: int|
            0 <= e < self.entries().len() ==> {
                &&& (#[trigger] self.entries()[e]).ip == hosts_of(open)[e]
                &&& self.entries()[e].ports@ == ports_of(open, hosts_of(open)[e])
            }
    }

    /// No host stands twice, and every host has a port.
    pub closed spec fn wf(&self) -> bool {
        &&& forall|a: int, b: int|
            0 <= a < b < self.hosts.len() ==> (#[trigger] self.hosts[a]).ip != (
            #[trigger] self.hosts[b]).ip
        &&& forall|e: int| 0 <= e < self.hosts.len() ==> (#[trigger] self.hosts[e]).ports@.len() > 0
    }

    /// Each entry holds the ports that the map gives its host, and the hosts
    /// of the entries are those of the map.
    pub proof fn lemma_entries(&self)
        requires
            self.wf(),
        ensures
            forall|e: int|
                0 <= e < self.entries().len() ==> {
                    &&& self@.dom().contains((#[trigger] self.entries()[e]).ip)
                    &&& self@[self.entries()[e].ip] == self.entries()[e].ports@
                },
            forall|ip: IpAddress|
                self@.dom().contains(ip) ==> exists|e: int|
                    0 <= e < self.entries().len() && (#[trigger] self.entries()[e]).ip == ip,
            forall|a: int, b: int|
                0 <= a < b < self.entries().len() ==> (#[trigger] self.entries()[a]).ip != (
                #[trigger] self.entries()[b]).ip,
    {
        assert forall|e: int| 0 <= e < self.entries().len() implies {
            &&& self@.dom().contains((#[trigger] self.entries()[e]).ip)
            &&& self@[self.entries()[e].ip] == self.entries()[e].ports@
        } by {
            let ip = self.hosts[e].ip;
            let c = choose|c: int| 0 <= c < self.hosts.len() && (#[trigger] self.hosts[c]).ip == ip;
            assert(c == e);
        }
    }

    /// The position of the entry of `ip`, if it has one.
    fn find(&self, ip: IpAddress) -> (position: Option<usize>)
        ensures
            match position {
                Some(e) => e < self.hosts.len() && self.hosts[e as int].ip == ip,
                None => forall|e: int| 0 <= e < self.hosts.len() ==> (#[trigger] self.hosts[e]).ip != ip,
            },
    {
        let mut e: usize = 0;
        while e < self.hosts.len()
            invariant
                e <= self.hosts.len(),
                forall|k: int| 0 <= k < e ==> (#[trigger] self.hosts[k]).ip != ip,
            decreases self.hosts.len() - e,
        {
            if self.hosts[e].ip == ip {
                return Some(e);
            }
            e += 1;
        }
        None
    }

    /// Groups the open targets of a scan by their address. The hosts stand in
    /// the order in which they were found, and the ports of a host keep the
    /// order in which they were found.
    pub fn group(open: &Vec<SocketTarget>) -> (by_host: PortsByHost)
        ensures
            by_host.wf(),
            by_host@ == grouped(open@),
            by_host.lists(open@),
    {
        let mut by_host = PortsByHost { hosts: Vec::new() };
        let mut i: usize = 0;
        while i < open.len()
            invariant
                i <= open.len(),
                by_host.wf(),
                by_host.hosts.len() == hosts_of(open@.take(i as int)).len(),
                forall|e: int|
                    0 <= e < by_host.hosts.len() ==> (#[trigger] by_host.hosts[e]).ip == hosts_of(
                        open@.take(i as int),
                    )[e],
                forall|e: int|
                    0 <= e < by_host.hosts.len() ==> (#[trigger] by_host.hosts[e]).ports@
                        == ports_of(open@.take(i as int), by_host.hosts[e].ip),
                forall|ip: IpAddress|
                    (forall|e: int|
                        0 <= e < by_host.hosts.len() ==> (#[trigger] by_host.hosts[e]).ip != ip)
                        ==> #[trigger] ports_of(open@.take(i as int), ip).len() == 0,
            decreases open.len() - i,
        {
            let target = open[i];
            let ghost old_hosts = by_host.hosts@;
            let ghost before = open@.take(i as int);
            let ghost now = open@.take(i + 1);
            assert(now.drop_last() =~= before);
            assert(now.last() == target);
            let ghost mut entry_of_target: int = 0;
            let ghost known = hosts_of(before);
            match by_host.find(target.ip) {
                Some(e) => {
                    assert(known[e as int] == target.ip);
                    assert(known.contains(target.ip));
                    by_host.hosts[e].ports.push(target.port);
                    proof {
                        entry_of_target = e as int;
                    }
                    assert(by_host.hosts@.len() == old_hosts.len());
                    assert forall|k: int| 0 <= k < by_host.hosts.len() implies (
                    #[trigger] by_host.hosts[k]).ip == old_hosts[k].ip && by_host.hosts[k].ports@
                        == ports_of(now, by_host.hosts[k].ip) by {
                        if k != e {
                            assert(by_host.hosts[k] == old_hosts[k]);
                        }
                    }
                },
                None => {
                    proof {
                        if known.contains(target.ip) {
                            let k = choose|k: int| 0 <= k < known.len() && known[k] == target.ip;
                            assert(by_host.hosts[k].ip == target.ip);
                        }
                    }
                    let mut ports: Vec<u16> = Vec::new();
                    ports.push(target.port);
                    by_host.hosts.push(HostPorts { ip: target.ip, ports });
                    proof {
                        entry_of_target = old_hosts.len() as int;
                    }
                    assert forall|k: int| 0 <= k < by_host.hosts.len() implies (
                    #[trigger] by_host.hosts[k]).ports@ == ports_of(now, by_host.hosts[k].ip) by {
                        if k < old_hosts.len() {
                            assert(by_host.hosts[k] == old_hosts[k]);
                        } else {
                            assert(ports_of(before, target.ip).len() == 0);
                            assert(by_host.hosts[k].ports@ =~= ports_of(now, target.ip));
                        }
                    }
                },
            }
            assert(0 <= entry_of_target < by_host.hosts.len());
            assert(by_host.hosts[entry_of_target].ip == target.ip);
            assert forall|e: int| 0 <= e < by_host.hosts.len() implies (
            #[trigger] by_host.hosts[e]).ip == hosts_of(now)[e] by {
                if e < old_hosts.len() {
                    assert(by_host.hosts[e].ip == old_hosts[e].ip);
                }
            }
            assert forall|ip: IpAddress|
                (forall|e: int|
                    0 <= e < by_host.hosts.len() ==> (#[trigger] by_host.hosts[e]).ip
                        != ip) implies #[trigger] ports_of(now, ip).len() == 0 by {
                assert forall|e: int| 0 <= e < old_hosts.len() implies (#[trigger] old_hosts[e]).ip
                    != ip by {
                    assert(by_host.hosts[e].ip == old_hosts[e].ip);
                }
                assert(ports_of(before, ip).len() == 0);
                if target.ip == ip {
                    assert(by_host.hosts[entry_of_target].ip == ip);
                }
            }
            i += 1;
        }
        assert(open@.take(open.len() as int) =~= open@);
        proof {
            by_host.lemma_entries();
            assert forall|ip: IpAddress| by_host@.dom().contains(ip) <==> grouped(
                open@,
            ).dom().contains(ip) by {
                if by_host@.dom().contains(ip) {
                    let e = choose|e: int|
                        0 <= e < by_host.hosts.len() && (#[trigger] by_host.hosts[e]).ip == ip;
                    assert(by_host.hosts[e].ports@.len() > 0);
                }
            }
            assert forall|ip: IpAddress| by_host@.dom().contains(ip) implies by_host@[ip]
                == grouped(open@)[ip] by {
                let e = choose|e: int|
                    0 <= e < by_host.hosts.len() && (#[trigger] by_host.hosts[e]).ip == ip;
            }
            assert(by_host@ =~= grouped(open@));
        }
        by_host
    }

    /// The number of hosts with an open port.
    pub fn len(&self) -> (n: usize)
        ensures
            n == self.entries().len(),
    {
        self.hosts.len()
    }

    /// The open ports of `ip`, if it has any.
    pub fn get(&self, ip: IpAddress) -> (ports: Option<&Vec<u16>>)
        requires
            self.wf(),
        ensures
            match ports {
                Some(list) => self@.dom().contains(ip) && list@ == self@[ip],
                None => !self@.dom().contains(ip),
            },
    {
        proof {
            self.lemma_entries();
        }
        match self.find(ip) {
            Some(e) => Some(&self.hosts[e].ports),
            None => None,
        }
    }

    /// Whether `ip` has an open port.
    pub fn contains_key(&self, ip: IpAddress) -> (found: bool)
        ensures
            found == self@.dom().contains(ip),
    {
        self.find(ip).is_some()
    }

    /// The hosts with their ports, in the order in which the entries stand:
    /// after [`PortsByHost::group`], the order in which the hosts were found.
    pub fn hosts(&self) -> (hosts: &Vec<HostPorts>)
        ensures
            hosts@ == self.entries(),
    {
        &self.hosts
    }

    /// The addresses of `ips` for which the scan found no open port, in the
    /// order of `ips`.
    pub fn missing(&self, ips: &[IpAddress]) -> (absent: Vec<IpAddress>)
        ensures
            absent@ == ips@.filter(|ip: IpAddress| !self@.dom().contains(ip)),
    {
        let mut absent: Vec<IpAddress> = Vec::new();
        let mut i: usize = 0;
        let ghost silent = |ip: IpAddress| !self@.dom().contains(ip);
        proof {
            reveal(Seq::filter);
        }
        assert(ips@.take(0) =~= Seq::<IpAddress>::empty());
        while i < ips.len()
            invariant
                i <= ips.len(),
                silent == |ip: IpAddress| !self@.dom().contains(ip),
                absent@ == ips@.take(i as int).filter(silent),
            decreases ips.len() - i,
        {
            let ip = ips[i];
            proof {
                assert(ips@.take(i + 1) =~= ips@.take(i as int).push(ip));
                ips@.take(i as int).lemma_filter_push(ip, silent);
            }
            if !self.contains_key(ip) {
                absent.push(ip);
            }
            i += 1;
        }
        assert(ips@.take(ips.len() as int) =~= ips@);
        absent
    }
}

} // verus!
