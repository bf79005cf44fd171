//! The configuration of a scan, and the start of its schedule.

use crate::address::{IpAddress, SocketTarget};
use crate::digest::digest_limit;
use crate::port_strategy::PortStrategy;
use crate::probe::effective_tries;
use crate::scheduler::{Launch, ScanState, Scheduler};
use crate::socket_iterator::{
    lemma_sequence_is_product,
    lemma_sequence_no_duplicates,
    socket_sequence,
};
use std::time::Duration;
use vstd::prelude::*;

verus! {

/// `ports` without the ports of `exclude`, in the same order.
pub open spec fn without(ports: Seq<u16>, exclude: Seq<u16>) -> Seq<u16> {
    ports.filter(|port: u16| !exclude.contains(port))
}

/// What is left after the exclusion: the ports that are not excluded, each as
/// often as before.
pub proof fn lemma_without(ports: Seq<u16>, exclude: Seq<u16>)
    ensures
        forall|p: u16|
            without(ports, exclude).contains(p) <==> ports.contains(p) && !exclude.contains(p),
        ports.no_duplicates() ==> without(ports, exclude).no_duplicates(),
        without(ports, exclude).len() <= ports.len(),
    decreases ports.len(),
{
    reveal(Seq::filter);
    let keep = |port: u16| !exclude.contains(port);
    if ports.len() > 0 {
        let front = ports.drop_last();
        let last = ports.last();
        lemma_without(front, exclude);
        let kept = without(front, exclude);
        let all = without(ports, exclude);
        assert(all == if keep(last) {
            kept.push(last)
        } else {
            kept
        });
        assert forall|p: u16| all.contains(p) <==> ports.contains(p) && !exclude.contains(p) by {
            if all.contains(p) {
                let k = choose|k: int| 0 <= k < all.len() && all[k] == p;
                if k < kept.len() {
                    assert(kept[k] == p);
                    assert(kept.contains(p));
                    assert(front.contains(p));
                    let j = choose|j: int| 0 <= j < front.len() && front[j] == p;
                    assert(ports[j] == p);
                } else {
                    assert(ports[ports.len() - 1] == p);
                }
            }
            if ports.contains(p) && !exclude.contains(p) {
                let j = choose|j: int| 0 <= j < ports.len() && ports[j] == p;
                if j < front.len() {
                    assert(front[j] == p);
                    assert(front.contains(p));
                    assert(kept.contains(p));
                    let k = choose|k: int| 0 <= k < kept.len() && kept[k] == p;
                    assert(all[k] == p);
                } else {
                    assert(all[all.len() - 1] == p);
                }
            }
        }
        if ports.no_duplicates() {
            assert(front.no_duplicates());
            if keep(last) && kept.contains(last) {
                assert(front.contains(last));
                let j = choose|j: int| 0 <= j < front.len() && front[j] == last;
                assert(ports[j] == ports[ports.len() - 1]);
            }
        }
    }
}

/// `ports` without the ports of `exclude`, in the same order.
pub fn remove_excluded(ports: &Vec<u16>, exclude: &Vec<u16>) -> (kept: Vec<u16>)
    ensures
        kept@ == without(ports@, exclude@),
{
    let mut kept: Vec<u16> = Vec::new();
    let mut i: usize = 0;
    assert(ports@.take(0) =~= Seq::<u16>::empty());
    proof {
        reveal(Seq::filter);
    }
    while i < ports.len()
        invariant
            i <= ports.len(),
            kept@ == without(ports@.take(i as int), exclude@),
        decreases ports.len() - i,
    {
        let port = ports[i];
        let excluded = crate::port_strategy::holds_port(exclude, port);
        proof {
            let keep = |port: u16| !exclude@.contains(port);
            assert(ports@.take(i + 1) =~= ports@.take(i as int).push(port));
            ports@.take(i as int).lemma_filter_push(port, keep);
        }
        if !excluded {
            kept.push(port);
        }
        i += 1;
    }
    assert(ports@.take(ports.len() as int) =~= ports@);
    kept
}

/// How a socket that was found open is announced while the scan runs.
#[derive(Clone, Copy, Debug, PartialEq, Eq, Structural)]
pub enum Announcement {
    /// Not at all: only the summary of each host is printed.
    Silent,
    /// As a plain line.
    Plain,
    /// As a line with the socket in colour.
    Styled,
}

/// How an open socket is announced under the two flags of presentation.
pub open spec fn announcement_for(greppable: bool, accessible: bool) -> Announcement {
    if greppable {
        Announcement::Silent
    } else if accessible {
        Announcement::Plain
    } else {
        Announcement::Styled
    }
}

/// How an open socket is announced under the two flags of presentation:
/// nothing is printed for a summary that is meant for other programs, and no
/// colour is used where plain output is asked for.
pub fn announcement(greppable: bool, accessible: bool) -> (announced: Announcement)
    ensures
        announced == announcement_for(greppable, accessible),
{
    if greppable {
        Announcement::Silent
    } else if accessible {
        Announcement::Plain
    } else {
        Announcement::Styled
    }
}

/// A scan as it is asked for: the addresses, the ports and their order, the
/// ports to leave out, and how hard to try.
#[derive(Debug)]
pub struct Scanner {
    ips: Vec<IpAddress>,
    batch_size: u16,
    timeout: Duration,
    tries: u8,
    greppable: bool,
    port_strategy: PortStrategy,
    accessible: bool,
    exclude_ports: Vec<u16>,
}

/// What a [`Scanner`] holds, with its lists as sequences.
pub struct ScanConfig {
    /// The addresses to scan.
    pub ips: Seq<IpAddress>,
    /// The most probes that may be in flight at once.
    pub batch_size: u16,
    /// How long one connection attempt may take.
    pub timeout: Duration,
    /// How many attempts each target is given: at least one.
    pub tries: u8,
    /// Whether only the final summary is printed.
    pub greppable: bool,
    /// The ports and their order.
    pub port_strategy: PortStrategy,
    /// Whether output is plain, without colour.
    pub accessible: bool,
    /// The ports that are never probed.
    pub exclude_ports: Seq<u16>,
}

impl View for Scanner {
    type V = ScanConfig;

    closed spec fn view(&self) -> ScanConfig {
        ScanConfig {
            ips: self.ips@,
            batch_size: self.batch_size,
            timeout: self.timeout,
            tries: self.tries,
            greppable: self.greppable,
            port_strategy: self.port_strategy,
            accessible: self.accessible,
            exclude_ports: self.exclude_ports@,
        }
    }
}

impl Scanner {
    /// Every target is given at least one attempt.
    pub open spec fn wf(&self) -> bool {
        self@.tries >= 1
    }

    /// A scan of `ips` on the ports of `port_strategy` less `exclude_ports`,
    /// with at most `batch_size` probes in flight, each attempt bounded by
    /// `timeout`. A target is given `tries` attempts, and one where `tries` is
    /// zero.
    pub fn new(
        ips: &[IpAddress],
        batch_size: u16,
        timeout: Duration,
        tries: u8,
        greppable: bool,
        port_strategy: PortStrategy,
        accessible: bool,
        exclude_ports: Vec<u16>,
    ) -> (scanner: Scanner)
        ensures
            scanner.wf(),
            scanner@.ips == ips@,
            scanner@.batch_size == batch_size,
            scanner@.timeout == timeout,
            scanner@.tries == effective_tries(tries),
            scanner@.greppable == greppable,
            scanner@.port_strategy == port_strategy,
            scanner@.accessible == accessible,
            scanner@.exclude_ports == exclude_ports@,
    {
        let mut own_ips: Vec<IpAddress> = Vec::new();
        let mut i: usize = 0;
        while i < ips.len()
            invariant
                i <= ips.len(),
                own_ips@ == ips@.take(i as int),
            decreases ips.len() - i,
        {
            own_ips.push(ips[i]);
            i += 1;
        }
        assert(own_ips@ =~= ips@);
        Scanner {
            ips: own_ips,
            batch_size,
            timeout,
            tries: if tries == 0 {
                1
            } else {
                tries
            },
            greppable,
            port_strategy,
            accessible,
            exclude_ports,
        }
    }

    /// The addresses to scan.
    pub fn ips(&self) -> (ips: &Vec<IpAddress>)
        ensures
            ips@ == self@.ips,
    {
        &self.ips
    }

    /// The most probes that may be in flight at once.
    pub fn batch_size(&self) -> (batch_size: u16)
        ensures
            batch_size == self@.batch_size,
    {
        self.batch_size
    }

    /// How long one connection attempt may take.
    pub fn timeout(&self) -> (timeout: Duration)
        ensures
            timeout == self@.timeout,
    {
        self.timeout
    }

    /// How many attempts each target is given: at least one.
    pub fn tries(&self) -> (tries: u8)
        ensures
            tries == self@.tries,
    {
        self.tries
    }

    /// Whether only the final summary is printed.
    pub fn greppable(&self) -> (greppable: bool)
        ensures
            greppable == self@.greppable,
    {
        self.greppable
    }

    /// Whether output is plain, without colour.
    pub fn accessible(&self) -> (accessible: bool)
        ensures
            accessible == self@.accessible,
    {
        self.accessible
    }

    /// The ports and their order.
    pub fn port_strategy(&self) -> (strategy: &PortStrategy)
        ensures
            *strategy == self@.port_strategy,
    {
        &self.port_strategy
    }

    /// The ports that are never probed.
    pub fn exclude_ports(&self) -> (exclude: &Vec<u16>)
        ensures
            exclude@ == self@.exclude_ports,
    {
        &self.exclude_ports
    }

    /// The plan of the scan where the strategy gives its ports in `order`:
    /// every address on every port of `order` that is not excluded, all
    /// addresses for one port before the next port.
    pub open spec fn plan_for(&self, order: Seq<u16>) -> Seq<SocketTarget> {
        socket_sequence(self@.ips, without(order, self@.exclude_ports))
    }

    /// Whether `state` and `launches` are the start of the scan where the
    /// strategy gives its ports in `order`.
    pub open spec fn starts_with(
        &self,
        order: Seq<u16>,
        state: ScanState,
        launches: Seq<Launch>,
    ) -> bool {
        &&& self@.port_strategy.admits(order)
        &&& state == ScanState::initial(
            self.plan_for(order),
            self@.batch_size as nat,
            digest_limit(self@.ips.len()),
        )
        &&& launches == ScanState::first_launches(self.plan_for(order), self@.batch_size as nat)
    }

    /// The ports of this scan in one order of the strategy, less the excluded
    /// ports. A random strategy gives another order at every call, and
    /// [`Scanner::begin`] asks it anew: the order in which a scan probes is
    /// that of its scheduler.
    pub fn ports(&self) -> (ports: Vec<u16>)
        ensures
            exists|order: Seq<u16>|
                #![trigger self@.port_strategy.admits(order)]
                self@.port_strategy.admits(order) && ports@ == without(order, self@.exclude_ports),
    {
        let order = self.port_strategy.order();
        let ports = remove_excluded(&order, &self.exclude_ports);
        assert(self@.port_strategy.admits(order@));
        ports
    }

    /// Starts the scan: asks the strategy for the order of the ports, leaves
    /// the excluded ports out, and returns the scheduler with the probes to
    /// start first.
    pub fn begin(&self) -> (started: (Scheduler, Vec<Launch>))
        ensures
            started.0.wf(),
            started.0.ips() == self@.ips,
            exists|order: Seq<u16>|
                #![trigger self.starts_with(order, started.0@, started.1@)]
                self.starts_with(order, started.0@, started.1@) && started.0.ports() == without(
                    order,
                    self@.exclude_ports,
                ),
    {
        let order = self.port_strategy.order();
        let ports = remove_excluded(&order, &self.exclude_ports);
        let started = Scheduler::start(self.ips.as_slice(), ports.as_slice(), self.batch_size);
        assert(self.starts_with(order@, started.0@, started.1@));
        started
    }

    /// Exclusion is subtractive: the targets of the plan are the pairs of an
    /// address of the scan with a port of the order that is not excluded.
    pub proof fn lemma_plan_is_product(&self, order: Seq<u16>, target: SocketTarget)
        ensures
            self.plan_for(order).contains(target) <==> {
                &&& self@.ips.contains(target.ip)
                &&& order.contains(target.port)
                &&& !self@.exclude_ports.contains(target.port)
            },
    {
        lemma_without(order, self@.exclude_ports);
        lemma_sequence_is_product(self@.ips, without(order, self@.exclude_ports), target);
    }

    /// Where neither the addresses nor the ports of the order repeat, the plan
    /// holds no target twice.
    pub proof fn lemma_plan_is_distinct(&self, order: Seq<u16>)
        requires
            self@.ips.no_duplicates(),
            order.no_duplicates(),
        ensures
            self.plan_for(order).no_duplicates(),
    {
        lemma_without(order, self@.exclude_ports);
        lemma_sequence_no_duplicates(self@.ips, without(order, self@.exclude_ports));
    }

    /// Completeness: a scan with room for at least one probe that has drained
    /// without a fatal error has attempted its whole plan, which is every
    /// address on every port that is not excluded.
    pub proof fn lemma_drained_scan_is_complete(&self, order: Seq<u16>, state: ScanState)
        requires
            state.inv(),
            state.plan == self.plan_for(order),
            !state.aborted,
            state.capacity > 0,
            state.drained(),
        ensures
            state.attempted() == self.plan_for(order),
            forall|target: SocketTarget|
                state.attempted().contains(target) <==> {
                    &&& self@.ips.contains(target.ip)
                    &&& order.contains(target.port)
                    &&& !self@.exclude_ports.contains(target.port)
                },
    {
        state.lemma_drained_is_complete();
        assert forall|target: SocketTarget|
            state.attempted().contains(target) <==> {
                &&& self@.ips.contains(target.ip)
                &&& order.contains(target.port)
                &&& !self@.exclude_ports.contains(target.port)
            } by {
            self.lemma_plan_is_product(order, target);
        }
    }

    /// No excluded port is ever found open: every open target pairs an address
    /// of the scan with a port of the order that is not excluded.
    pub proof fn lemma_open_is_subtractive(&self, order: Seq<u16>, state: ScanState, j: int)
        requires
            state.inv(),
            state.plan == self.plan_for(order),
            0 <= j < state.open.len(),
        ensures
            self@.ips.contains(state.open[j].ip),
            order.contains(state.open[j].port),
            !self@.exclude_ports.contains(state.open[j].port),
    {
        state.lemma_open_was_attempted(j);
        self.lemma_plan_is_product(order, state.open[j]);
    }

    /// Where neither the addresses nor the ports of the order repeat, no
    /// target is found open twice.
    pub proof fn lemma_open_is_distinct(&self, order: Seq<u16>, state: ScanState)
        requires
            state.inv(),
            state.plan == self.plan_for(order),
            self@.ips.no_duplicates(),
            order.no_duplicates(),
        ensures
            state.open.no_duplicates(),
    {
        self.lemma_plan_is_distinct(order);
        state.lemma_open_once();
    }
}

} // verus!
