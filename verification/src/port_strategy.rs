//! The ports of a scan and the order in which they are probed.

use vstd::prelude::*;

verus! {

/// A range of ports, both ends included.
#[derive(Clone, Copy, Debug, PartialEq, Eq, Structural)]
pub struct PortRange {
    pub start: u16,
    pub end: u16,
}

/// The order in which the ports are probed.
#[derive(Clone, Copy, Debug, PartialEq, Eq, Structural)]
pub enum ScanOrder {
    /// Ascending for a range; as given for a list.
    Serial,
    /// Shuffled anew for every scan.
    Random,
}

/// Why a choice of ports is refused.
#[derive(Clone, Copy, Debug, PartialEq, Eq, Structural)]
pub enum ConfigError {
    /// Neither a range nor a list of ports was given.
    MissingPorts,
    /// The range starts at port zero or ends before it starts.
    InvalidRange,
    /// The list of ports is empty.
    EmptyPortList,
    /// The list holds port zero.
    PortOutOfRange,
}

/// A range is valid when it starts at port one or above and does not end
/// before it starts.
pub open spec fn valid_range(range: PortRange) -> bool {
    1 <= range.start <= range.end
}

/// The ports from `start` to `end`, ascending; none where `end` is below
/// `start`.
pub open spec fn range_ports(start: int, end: int) -> Seq<u16>
    recommends
        0 <= start,
        end <= u16::MAX,
{
    if start <= end {
        Seq::new((end - start + 1) as nat, |i: int| (start + i) as u16)
    } else {
        Seq::empty()
    }
}

/// `ports` without repetitions: of equal ports the first stays.
pub open spec fn distinct(ports: Seq<u16>) -> Seq<u16>
    decreases ports.len(),
{
    if ports.len() == 0 {
        Seq::empty()
    } else {
        let front = distinct(ports.drop_last());
        if front.contains(ports.last()) {
            front
        } else {
            front.push(ports.last())
        }
    }
}

/// `distinct` repeats no port and holds the same ports as its argument.
pub proof fn lemma_distinct(ports: Seq<u16>)
    ensures
        distinct(ports).no_duplicates(),
        distinct(ports).len() <= ports.len(),
        ports.len() > 0 ==> distinct(ports).len() > 0,
        forall|p: u16| distinct(ports).contains(p) <==> ports.contains(p),
    decreases ports.len(),
{
    if ports.len() > 0 {
        let front = ports.drop_last();
        let last = ports.last();
        lemma_distinct(front);
        let kept = distinct(front);
        let all = distinct(ports);
        assert forall|p: u16| all.contains(p) <==> ports.contains(p) by {
            if all.contains(p) {
                let k = choose|k: int| 0 <= k < all.len() && all[k] == p;
                if k < kept.len() {
                    assert(kept[k] == p);
                    assert(kept.contains(p));
                    assert(front.contains(p));
                    let j = choose|j: int| 0 <= j < front.len() && front[j] == p;
                    assert(ports[j] == p);
                } else {
                    assert(ports[ports.len() - 1] == p);
                }
            }
            if ports.contains(p) {
                let j = choose|j: int| 0 <= j < ports.len() && ports[j] == p;
                if j < front.len() {
                    assert(front[j] == p);
                    assert(front.contains(p));
                    assert(kept.contains(p));
                    let k = choose|k: int| 0 <= k < kept.len() && kept[k] == p;
                    assert(all[k] == p);
                } else if kept.contains(p) {
                } else {
                    assert(all[all.len() - 1] == p);
                }
            }
        }
    }
}

/// The ports that a range and a list select, in serial order, or the reason
/// why they select none. A list takes precedence over a range.
pub open spec fn selection(range: Option<PortRange>, ports: Option<Seq<u16>>) -> Result<
    Seq<u16>,
    ConfigError,
> {
    match ports {
        Some(list) => if list.len() == 0 {
            Err(ConfigError::EmptyPortList)
        } else if list.contains(0u16) {
            Err(ConfigError::PortOutOfRange)
        } else {
            Ok(distinct(list))
        },
        None => match range {
            None => Err(ConfigError::MissingPorts),
            Some(r) => if valid_range(r) {
                Ok(range_ports(r.start as int, r.end as int))
            } else {
                Err(ConfigError::InvalidRange)
            },
        },
    }
}

/// The list of an optional vector of ports.
pub open spec fn listed(ports: Option<Vec<u16>>) -> Option<Seq<u16>> {
    match ports {
        Some(list) => Some(list@),
        None => None,
    }
}

/// The generator of `rand` that is local to a thread, as an opaque value.
#[verifier::external_type_specification]
#[verifier::external_body]
pub struct ExThreadRng(rand::rngs::ThreadRng);

/// `rand::thread_rng` hands out the generator of the calling thread, which
/// the system seeds. Trusted; nothing is claimed of the generator.
pub assume_specification[ rand::thread_rng ]() -> (generator: rand::rngs::ThreadRng)
;

/// Calls `rand::seq::SliceRandom::shuffle` on the ports. Trusted: the shuffle
/// only swaps elements, so the vector holds the same ports as before, each as
/// often as before. Nothing is claimed of their order.
#[verifier::external_body]
fn shuffle(ports: &mut Vec<u16>, generator: &mut rand::rngs::ThreadRng)
    ensures
        final(ports)@.to_multiset() == old(ports)@.to_multiset(),
{
    rand::seq::SliceRandom::shuffle(ports.as_mut_slice(), generator);
}

/// The ports of a scan, with the order in which to probe them.
#[derive(Debug)]
pub struct PortStrategy {
    ports: Vec<u16>,
    scan_order: ScanOrder,
}

impl PortStrategy {
    /// The ports in serial order: ascending for a range, as listed for a
    /// list.
    pub closed spec fn serial_ports(&self) -> Seq<u16> {
        self.ports@
    }

    /// The order chosen.
    pub closed spec fn scan_order(&self) -> ScanOrder {
        self.scan_order
    }

    /// There is at least one port, none is port zero and none repeats.
    pub open spec fn wf(&self) -> bool {
        &&& self.serial_ports().len() > 0
        &&& self.serial_ports().no_duplicates()
        &&& !self.serial_ports().contains(0u16)
    }

    /// Whether `ports` is an order in which the strategy may probe: the serial
    /// order itself, or for a random strategy any rearrangement of it.
    pub open spec fn admits(&self, ports: Seq<u16>) -> bool {
        match self.scan_order() {
            ScanOrder::Serial => ports == self.serial_ports(),
            ScanOrder::Random => ports.to_multiset() == self.serial_ports().to_multiset(),
        }
    }

    /// Every order that a strategy admits holds the ports of the strategy, each
    /// once.
    pub proof fn lemma_admitted(&self, ports: Seq<u16>)
        requires
            self.wf(),
            self.admits(ports),
        ensures
            ports.no_duplicates(),
            ports.len() == self.serial_ports().len(),
            forall|p: u16| ports.contains(p) <==> self.serial_ports().contains(p),
    {
        let serial = self.serial_ports();
        if ports != serial {
            vstd::seq_lib::to_multiset_len(ports);
            vstd::seq_lib::to_multiset_len(serial);
            serial.lemma_multiset_has_no_duplicates();
            ports.lemma_multiset_has_no_duplicates_conv();
            assert forall|p: u16| ports.contains(p) <==> serial.contains(p) by {
                vstd::seq_lib::to_multiset_contains(ports, p);
                vstd::seq_lib::to_multiset_contains(serial, p);
            }
        }
    }

    /// Chooses the ports of a scan from a range or a list, and their order.
    ///
    /// A list must not be empty nor hold port zero; its repetitions are
    /// dropped. A range must be valid. Where both are given the list counts,
    /// and where neither is given there is nothing to scan.
    pub fn pick(range: &Option<PortRange>, ports: Option<Vec<u16>>, order: ScanOrder) -> (picked:
        Result<PortStrategy, ConfigError>)
        ensures
            match picked {
                Ok(strategy) => {
                    &&& strategy.wf()
                    &&& strategy.scan_order() == order
                    &&& selection(*range, listed(ports)) == Ok::<Seq<u16>, ConfigError>(
                        strategy.serial_ports(),
                    )
                },
                Err(error) => selection(*range, listed(ports)) == Err::<Seq<u16>, ConfigError>(
                    error,
                ),
            },
    {
        match ports {
            Some(list) => {
                if list.len() == 0 {
                    return Err(ConfigError::EmptyPortList);
                }
                if holds_port(&list, 0) {
                    return Err(ConfigError::PortOutOfRange);
                }
                let unique = dedup(&list);
                proof {
                    lemma_distinct(list@);
                }
                Ok(PortStrategy { ports: unique, scan_order: order })
            },
            None => match range {
                None => Err(ConfigError::MissingPorts),
                Some(r) => {
                    if r.start == 0 || r.start > r.end {
                        return Err(ConfigError::InvalidRange);
                    }
                    let ascending = ascending_ports(r.start, r.end);
                    assert(ascending@[0] == r.start);
                    Ok(PortStrategy { ports: ascending, scan_order: order })
                },
            },
        }
    }

    /// The ports in the order in which this scan probes them.
    ///
    /// A serial strategy gives its serial order. A random strategy gives the
    /// same ports in an order that differs from call to call.
    pub fn order(&self) -> (ports: Vec<u16>)
        ensures
            self.admits(ports@),
    {
        let mut ports: Vec<u16> = Vec::new();
        let mut i: usize = 0;
        while i < self.ports.len()
            invariant
                i <= self.ports.len(),
                ports@ == self.ports@.take(i as int),
            decreases self.ports.len() - i,
        {
            ports.push(self.ports[i]);
            i += 1;
        }
        assert(ports@ =~= self.ports@);
        match self.scan_order {
            ScanOrder::Serial => {},
            ScanOrder::Random => {
                let mut generator = rand::thread_rng();
                shuffle(&mut ports, &mut generator);
            },
        }
        ports
    }
}

/// Whether `port` is one of `ports`.
pub fn holds_port(ports: &Vec<u16>, port: u16) -> (found: bool)
    ensures
        found == ports@.contains(port),
{
    let mut i: usize = 0;
    while i < ports.len()
        invariant
            i <= ports.len(),
            forall|j: int| 0 <= j < i ==> ports@[j] != port,
        decreases ports.len() - i,
    {
        if ports[i] == port {
            return true;
        }
        i += 1;
    }
    false
}

/// The ports from `start` to `end`, ascending; none where `end` is below
/// `start`.
pub fn ascending_ports(start: u16, end: u16) -> (ports: Vec<u16>)
    ensures
        ports@ == range_ports(start as int, end as int),
        ports@.no_duplicates(),
        forall|p: u16| ports@.contains(p) <==> start <= p <= end,
{
    let mut ports: Vec<u16> = Vec::new();
    if start > end {
        assert(ports@ =~= range_ports(start as int, end as int));
        return ports;
    }
    let mut next: u32 = start as u32;
    assert(ports@ =~= range_ports(start as int, next - 1));
    while next <= end as u32
        invariant
            start <= next <= end + 1,
            ports@ == range_ports(start as int, next - 1),
        decreases end + 1 - next,
    {
        ports.push(next as u16);
        next += 1;
        assert(ports@ =~= range_ports(start as int, next - 1));
    }
    assert forall|p: u16| ports@.contains(p) <==> start <= p <= end by {
        if start <= p <= end {
            assert(ports@[p - start] == p);
        }
    }
    ports
}

/// `ports` without repetitions: of equal ports the first stays.
pub fn dedup(ports: &Vec<u16>) -> (unique: Vec<u16>)
    ensures
        unique@ == distinct(ports@),
{
    let mut seen: Vec<bool> = Vec::new();
    let mut filled: u32 = 0;
    while filled <= 0xffff
        invariant
            filled <= 0x1_0000,
            seen.len() == filled,
            forall|p: int| 0 <= p < filled ==> !seen@[p],
        decreases 0x1_0000 - filled,
    {
        seen.push(false);
        filled += 1;
    }
    let mut unique: Vec<u16> = Vec::new();
    let mut i: usize = 0;
    while i < ports.len()
        invariant
            i <= ports.len(),
            seen.len() == 0x1_0000,
            unique@ == distinct(ports@.take(i as int)),
            forall|p: u16| seen@[p as int] == unique@.contains(p),
        decreases ports.len() - i,
    {
        let port = ports[i];
        let ghost before = unique@;
        assert(ports@.take(i + 1).drop_last() =~= ports@.take(i as int));
        if !seen[port as usize] {
            seen[port as usize] = true;
            unique.push(port);
            assert forall|p: u16| seen@[p as int] == unique@.contains(p) by {
                if p == port {
                    assert(unique@[unique@.len() - 1] == p);
                } else if before.contains(p) {
                    let k = choose|k: int| 0 <= k < before.len() && before[k] == p;
                    assert(unique@[k] == p);
                } else if unique@.contains(p) {
                    let k = choose|k: int| 0 <= k < unique@.len() && unique@[k] == p;
                    assert(before[k] == p);
                }
            }
        }
        i += 1;
    }
    assert(ports@.take(ports.len() as int) =~= ports@);
    unique
}

} // verus!
