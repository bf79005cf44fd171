//! The order in which a scan visits its targets.
//!
//! Every address is visited for one port before any address is visited for the
//! next port, so that consecutive targets belong to different hosts.

use crate::address::{IpAddress, SocketTarget};
use vstd::prelude::*;

verus! {

/// The number of targets that `ips` and `ports` span.
pub open spec fn target_count(ips: Seq<IpAddress>, ports: Seq<u16>) -> nat {
    ips.len() * ports.len()
}

/// The target at position `k` of the scan over `ips` and `ports`: the address
/// cycles fastest, the port advances once per round over the addresses.
pub open spec fn target_at(ips: Seq<IpAddress>, ports: Seq<u16>, k: int) -> SocketTarget
    recommends
        0 <= k < target_count(ips, ports),
{
    SocketTarget { ip: ips[k % (ips.len() as int)], port: ports[k / (ips.len() as int)] }
}

/// All targets of the scan over `ips` and `ports`, in the order of the scan.
pub open spec fn socket_sequence(ips: Seq<IpAddress>, ports: Seq<u16>) -> Seq<SocketTarget> {
    Seq::new(target_count(ips, ports), |k: int| target_at(ips, ports, k))
}

/// The position at which the scan pairs address `i` with port `p`.
pub open spec fn position_of(ips: Seq<IpAddress>, i: int, p: int) -> int {
    p * ips.len() + i
}

/// Position `p * n + i` splits back into round `p` and offset `i`.
pub proof fn lemma_position_splits(n: int, p: int, i: int)
    requires
        0 <= i < n,
        0 <= p,
    ensures
        (p * n + i) / n == p,
        (p * n + i) % n == i,
        0 <= p * n + i,
{
    vstd::arithmetic::div_mod::lemma_fundamental_div_mod_converse(p * n + i, n, p, i);
    assert(0 <= p * n) by (nonlinear_arith)
        requires
            0 <= p,
            0 < n,
    ;
}

/// A position inside round `p < rounds` lies below `rounds * n`.
pub proof fn lemma_position_in_range(n: int, rounds: int, p: int, i: int)
    requires
        0 <= i < n,
        0 <= p < rounds,
    ensures
        p * n + i < rounds * n,
{
    assert((p + 1) * n <= rounds * n) by (nonlinear_arith)
        requires
            p + 1 <= rounds,
            0 < n,
    ;
    assert((p + 1) * n == p * n + n) by (nonlinear_arith);
}

/// The scan order, position by position: target `k` pairs address
/// `k mod |ips|` with port `k div |ips|`, and both indices are in range.
pub proof fn lemma_sequence_index(ips: Seq<IpAddress>, ports: Seq<u16>, k: int)
    requires
        0 <= k < target_count(ips, ports),
    ensures
        ips.len() > 0,
        0 <= k % (ips.len() as int) < ips.len(),
        0 <= k / (ips.len() as int) < ports.len(),
        socket_sequence(ips, ports).len() == target_count(ips, ports),
        socket_sequence(ips, ports)[k] == (SocketTarget {
            ip: ips[k % (ips.len() as int)],
            port: ports[k / (ips.len() as int)],
        }),
{
    let n = ips.len() as int;
    let m = ports.len() as int;
    assert(n > 0) by (nonlinear_arith)
        requires
            0 <= k < n * m,
            0 <= n,
            0 <= m,
    ;
    vstd::arithmetic::div_mod::lemma_fundamental_div_mod(k, n);
    vstd::arithmetic::div_mod::lemma_mod_bound(k, n);
    let q = k / n;
    assert(0 <= q < m) by (nonlinear_arith)
        requires
            k == n * q + k % n,
            0 <= k % n < n,
            0 <= k < n * m,
            0 < n,
    ;
}

/// Every pair of an address and a port is visited: position `p * |ips| + i`
/// holds the pair `(ips[i], ports[p])` and splits back into `i` and `p`.
pub proof fn lemma_each_pair_visited(ips: Seq<IpAddress>, ports: Seq<u16>, i: int, p: int)
    requires
        0 <= i < ips.len(),
        0 <= p < ports.len(),
    ensures
        0 <= position_of(ips, i, p) < target_count(ips, ports),
        position_of(ips, i, p) % (ips.len() as int) == i,
        position_of(ips, i, p) / (ips.len() as int) == p,
        socket_sequence(ips, ports)[position_of(ips, i, p)] == (SocketTarget {
            ip: ips[i],
            port: ports[p],
        }),
{
    let n = ips.len() as int;
    lemma_position_splits(n, p, i);
    lemma_position_in_range(n, ports.len() as int, p, i);
}

/// A pair is visited at one position only: a position is the one that its own
/// two indices name.
pub proof fn lemma_each_pair_once(ips: Seq<IpAddress>, ports: Seq<u16>, k: int)
    requires
        0 <= k < target_count(ips, ports),
    ensures
        position_of(ips, k % (ips.len() as int), k / (ips.len() as int)) == k,
{
    let n = ips.len() as int;
    lemma_sequence_index(ips, ports, k);
    vstd::arithmetic::div_mod::lemma_fundamental_div_mod(k, n);
    assert(n * (k / n) == (k / n) * n) by (nonlinear_arith);
}

/// Where neither the addresses nor the ports repeat, no target is visited
/// twice.
pub proof fn lemma_sequence_no_duplicates(ips: Seq<IpAddress>, ports: Seq<u16>)
    requires
        ips.no_duplicates(),
        ports.no_duplicates(),
    ensures
        socket_sequence(ips, ports).no_duplicates(),
{
    let s = socket_sequence(ips, ports);
    let n = ips.len() as int;
    assert forall|a: int, b: int| 0 <= a < s.len() && 0 <= b < s.len() && a != b implies s[a]
        != s[b] by {
        lemma_sequence_index(ips, ports, a);
        lemma_sequence_index(ips, ports, b);
        lemma_each_pair_once(ips, ports, a);
        lemma_each_pair_once(ips, ports, b);
    }
}

/// Targets that lie closer together than there are addresses belong to
/// different addresses: a pool of probes that is filled in scan order spans as
/// many hosts as it can.
pub proof fn lemma_neighbours_differ(ips: Seq<IpAddress>, ports: Seq<u16>, a: int, b: int)
    requires
        ips.no_duplicates(),
        0 <= a < b < target_count(ips, ports),
        b - a < ips.len(),
    ensures
        socket_sequence(ips, ports)[a].ip != socket_sequence(ips, ports)[b].ip,
{
    let n = ips.len() as int;
    lemma_sequence_index(ips, ports, a);
    lemma_sequence_index(ips, ports, b);
    lemma_each_pair_once(ips, ports, a);
    lemma_each_pair_once(ips, ports, b);
    if a % n == b % n {
        assert(false) by (nonlinear_arith)
            requires
                (a / n) * n + a % n == a,
                (b / n) * n + b % n == b,
                a % n == b % n,
                0 < b - a < n,
        ;
    }
}

/// A target is visited exactly when it pairs one of the addresses with one of
/// the ports.
pub proof fn lemma_sequence_is_product(ips: Seq<IpAddress>, ports: Seq<u16>, t: SocketTarget)
    ensures
        socket_sequence(ips, ports).contains(t) <==> ips.contains(t.ip) && ports.contains(t.port),
{
    let s = socket_sequence(ips, ports);
    if s.contains(t) {
        let k = choose|k: int| 0 <= k < s.len() && s[k] == t;
        lemma_sequence_index(ips, ports, k);
        assert(ips[k % (ips.len() as int)] == t.ip);
        assert(ports[k / (ips.len() as int)] == t.port);
    }
    if ips.contains(t.ip) && ports.contains(t.port) {
        let i = choose|i: int| 0 <= i < ips.len() && ips[i] == t.ip;
        let p = choose|p: int| 0 <= p < ports.len() && ports[p] == t.port;
        lemma_each_pair_visited(ips, ports, i, p);
        assert(s[position_of(ips, i, p)] == t);
    }
}

/// A cursor over the targets of a scan.
///
/// The state is two indices: one into the addresses and one into the ports.
pub struct SocketIterator {
    ips: Vec<IpAddress>,
    ports: Vec<u16>,
    ip_cursor: usize,
    port_cursor: usize,
}

impl SocketIterator {
    /// The addresses of the scan.
    pub closed spec fn ips(&self) -> Seq<IpAddress> {
        self.ips@
    }

    /// The ports of the scan.
    pub closed spec fn ports(&self) -> Seq<u16> {
        self.ports@
    }

    /// The number of targets handed out so far.
    pub closed spec fn position(&self) -> nat {
        (self.port_cursor * self.ips.len() + self.ip_cursor) as nat
    }

    /// The two cursors point into their lists, and the address cursor rests at
    /// the start once the ports are used up.
    pub closed spec fn wf(&self) -> bool {
        &&& self.ip_cursor < self.ips.len() || self.ip_cursor == 0
        &&& self.port_cursor <= self.ports.len()
        &&& self.port_cursor == self.ports.len() ==> self.ip_cursor == 0
        &&& self.ips.len() == 0 ==> self.port_cursor == 0
    }

    /// All targets of the scan, in order.
    pub open spec fn sequence(&self) -> Seq<SocketTarget> {
        socket_sequence(self.ips(), self.ports())
    }

    /// The cursor never runs past the last target.
    pub proof fn lemma_position_bounded(&self)
        requires
            self.wf(),
        ensures
            self.position() <= self.sequence().len(),
            self.sequence().len() == target_count(self.ips(), self.ports()),
    {
        self.lemma_cursors();
    }

    /// How the two cursors relate to the position and to the end of the scan.
    proof fn lemma_cursors(&self)
        requires
            self.wf(),
        ensures
            self.position() == self.port_cursor * self.ips.len() + self.ip_cursor,
            self.sequence().len() == self.ips.len() * self.ports.len(),
            self.position() <= self.sequence().len(),
            self.position() == self.sequence().len() <==> (self.ips.len() == 0
                || self.port_cursor == self.ports.len()),
    {
        let n = self.ips.len() as int;
        let m = self.ports.len() as int;
        let p = self.port_cursor as int;
        assert(n * m == m * n) by (nonlinear_arith);
        assert(0 <= p * n) by (nonlinear_arith)
            requires
                0 <= p,
                0 <= n,
        ;
        if n == 0 {
            assert(p * n == 0 && m * n == 0) by (nonlinear_arith)
                requires
                    n == 0,
            ;
        } else if p < m {
            lemma_position_in_range(n, m, p, self.ip_cursor as int);
        }
    }

    /// A cursor at the first target of the scan over `ips` and `ports`.
    pub fn new(ips: &[IpAddress], ports: &[u16]) -> (it: SocketIterator)
        ensures
            it.wf(),
            it.ips() == ips@,
            it.ports() == ports@,
            it.position() == 0,
    {
        let mut own_ips: Vec<IpAddress> = Vec::new();
        let mut i: usize = 0;
        while i < ips.len()
            invariant
                i <= ips.len(),
                own_ips@ == ips@.take(i as int),
            decreases ips.len() - i,
        {
            own_ips.push(ips[i]);
            i += 1;
        }
        let mut own_ports: Vec<u16> = Vec::new();
        let mut j: usize = 0;
        while j < ports.len()
            invariant
                j <= ports.len(),
                own_ports@ == ports@.take(j as int),
            decreases ports.len() - j,
        {
            own_ports.push(ports[j]);
            j += 1;
        }
        let it = SocketIterator { ips: own_ips, ports: own_ports, ip_cursor: 0, port_cursor: 0 };
        assert(0 * it.ips.len() == 0) by (nonlinear_arith);
        it
    }

    /// Whether every target has been handed out.
    pub fn is_exhausted(&self) -> (done: bool)
        requires
            self.wf(),
        ensures
            done == (self.position() == self.sequence().len()),
    {
        proof {
            self.lemma_cursors();
        }
        self.ips.len() == 0 || self.port_cursor >= self.ports.len()
    }

    /// Hands out the next target and advances, or reports the end and stays.
    pub fn next(&mut self) -> (item: Option<SocketTarget>)
        requires
            old(self).wf(),
        ensures
            final(self).wf(),
            final(self).ips() == old(self).ips(),
            final(self).ports() == old(self).ports(),
            old(self).position() < old(self).sequence().len() ==> {
                &&& item == Some(old(self).sequence()[old(self).position() as int])
                &&& final(self).position() == old(self).position() + 1
            },
            old(self).position() >= old(self).sequence().len() ==> {
                &&& item.is_none()
                &&& final(self).position() == old(self).position()
            },
    {
        let ghost n = self.ips.len() as int;
        let ghost m = self.ports.len() as int;
        let ghost p = self.port_cursor as int;
        let ghost i = self.ip_cursor as int;
        proof {
            self.lemma_cursors();
        }
        if self.ips.len() == 0 || self.port_cursor >= self.ports.len() {
            return None;
        }
        proof {
            lemma_position_splits(n, p, i);
            lemma_sequence_index(self.ips@, self.ports@, p * n + i);
        }
        let target = SocketTarget {
            ip: self.ips[self.ip_cursor],
            port: self.ports[self.port_cursor],
        };
        self.ip_cursor += 1;
        if self.ip_cursor == self.ips.len() {
            self.ip_cursor = 0;
            self.port_cursor += 1;
            proof {
                assert((p + 1) * n + 0 == p * n + i + 1) by (nonlinear_arith)
                    requires
                        i + 1 == n,
                ;
            }
        }
        Some(target)
    }
}

} // verus!
