//! The scheduler of a scan: a pool of probes in flight that is kept full
//! while targets remain.
//!
//! The scheduler makes no connection itself. It hands out targets, each with
//! the slot of the pool that its probe occupies, and is told the outcome of
//! each probe. On every outcome it records the result and gives the freed slot
//! to the next target, so that the pool never holds more probes than its
//! capacity and every target is handed out once.

use crate::address::{IpAddress, SocketTarget};
use crate::digest::{digest_after, digest_limit, lemma_digest_after_keeps_order, ErrorDigest};
use crate::probe::{OutcomeView, ProbeOutcome};
use crate::socket_iterator::{socket_sequence, SocketIterator};
use vstd::prelude::*;

verus! {

/// A probe to start: the target, and the slot of the pool that it occupies
/// until its outcome is reported.
#[derive(Clone, Copy, Debug, PartialEq, Eq, Structural)]
pub struct Launch {
    pub slot: usize,
    pub target: SocketTarget,
}

/// What the caller does after it has reported an outcome.
#[derive(Debug)]
pub enum Action {
    /// Start the probe given here.
    Launch(Launch),
    /// Start nothing: no target is left.
    Wait,
    /// Give the scan up; the text is the error that was fatal.
    Abort(String),
}

/// An [`Action`] with its text as a sequence of characters.
pub enum ActionView {
    Launch(Launch),
    Wait,
    Abort(Seq<char>),
}

impl View for Action {
    type V = ActionView;

    open spec fn view(&self) -> ActionView {
        match self {
            Action::Launch(launch) => ActionView::Launch(*launch),
            Action::Wait => ActionView::Wait,
            Action::Abort(reason) => ActionView::Abort(reason@),
        }
    }
}

/// The number of occupied slots among `slots`.
pub open spec fn busy_count(slots: Seq<Option<SocketTarget>>) -> nat
    decreases slots.len(),
{
    if slots.len() == 0 {
        0
    } else {
        busy_count(slots.drop_last()) + if slots.last().is_some() {
            1nat
        } else {
            0nat
        }
    }
}

/// No more slots are occupied than there are.
pub proof fn lemma_busy_count_bounded(slots: Seq<Option<SocketTarget>>)
    ensures
        busy_count(slots) <= slots.len(),
    decreases slots.len(),
{
    if slots.len() > 0 {
        lemma_busy_count_bounded(slots.drop_last());
    }
}

/// Changing one slot changes the count by what that slot gains or loses.
pub proof fn lemma_busy_count_update(
    slots: Seq<Option<SocketTarget>>,
    slot: int,
    value: Option<SocketTarget>,
)
    requires
        0 <= slot < slots.len(),
    ensures
        busy_count(slots.update(slot, value)) + (if slots[slot].is_some() {
            1nat
        } else {
            0nat
        }) == busy_count(slots) + (if value.is_some() {
            1nat
        } else {
            0nat
        }),
    decreases slots.len(),
{
    let changed = slots.update(slot, value);
    if slot == slots.len() - 1 {
        assert(changed.drop_last() =~= slots.drop_last());
    } else {
        assert(changed.drop_last() =~= slots.drop_last().update(slot, value));
        lemma_busy_count_update(slots.drop_last(), slot, value);
    }
}

/// The count is zero exactly when every slot is free, and full exactly when
/// every slot is occupied.
pub proof fn lemma_busy_count_extremes(slots: Seq<Option<SocketTarget>>)
    ensures
        busy_count(slots) == 0 <==> (forall|s: int| 0 <= s < slots.len() ==> slots[s].is_none()),
        busy_count(slots) == slots.len() <==> (forall|s: int|
            0 <= s < slots.len() ==> slots[s].is_some()),
    decreases slots.len(),
{
    if slots.len() > 0 {
        let front = slots.drop_last();
        lemma_busy_count_extremes(front);
        lemma_busy_count_bounded(front);
        assert(forall|s: int| 0 <= s < front.len() ==> front[s] == slots[s]);
        if forall|s: int| 0 <= s < slots.len() ==> slots[s].is_none() {
            assert(forall|s: int| 0 <= s < front.len() ==> front[s].is_none());
        }
        if forall|s: int| 0 <= s < slots.len() ==> slots[s].is_some() {
            assert(forall|s: int| 0 <= s < front.len() ==> front[s].is_some());
        }
        if busy_count(slots) == 0 {
            assert(slots.last().is_none());
        }
        if busy_count(slots) == slots.len() {
            assert(slots.last().is_some());
        }
    }
}

/// The state of a scan as its scheduler sees it.
pub struct ScanState {
    /// All targets of the scan, in the order in which they are handed out.
    pub plan: Seq<SocketTarget>,
    /// The number of targets handed out so far.
    pub launched: nat,
    /// The most probes that may be in flight at once.
    pub capacity: nat,
    /// The pool: for each slot the target of the probe that occupies it.
    pub slots: Seq<Option<SocketTarget>>,
    /// For each slot, the position in the plan of the target that it holds.
    pub slot_positions: Seq<int>,
    /// The targets found open, in the order in which their probes ended.
    pub open: Seq<SocketTarget>,
    /// For each open target, its position in the plan.
    pub open_positions: Seq<int>,
    /// The distinct descriptions of the probes that found their target closed.
    pub errors: Seq<Seq<char>>,
    /// The most descriptions that are kept.
    pub error_limit: nat,
    /// Whether a probe ended with a fatal error.
    pub aborted: bool,
}

/// The smaller of two numbers.
pub open spec fn smaller(a: nat, b: nat) -> nat {
    if a <= b {
        a
    } else {
        b
    }
}

impl ScanState {
    /// The number of probes in flight.
    pub open spec fn in_flight(self) -> nat {
        busy_count(self.slots)
    }

    /// The targets handed out so far, in order: the targets that the scan has
    /// attempted.
    pub open spec fn attempted(self) -> Seq<SocketTarget> {
        self.plan.take(self.launched as int)
    }

    /// The outcomes that the scan still awaits before it is over: one for
    /// every probe in flight and one for every target not yet handed out.
    pub open spec fn outstanding(self) -> nat {
        (self.plan.len() - self.launched) as nat + self.in_flight()
    }

    /// The pool is empty: no outcome is awaited.
    pub open spec fn drained(self) -> bool {
        self.in_flight() == 0
    }

    /// Slot `s` is occupied.
    pub open spec fn busy(self, s: int) -> bool {
        0 <= s < self.slots.len() && self.slots[s].is_some()
    }

    /// What holds of every state that a scan reaches.
    ///
    /// The pool has a slot for each probe that can be in flight. Every probe
    /// in flight and every open target stands for a position of the plan that
    /// was handed out, and no position stands twice among them: a target that
    /// was handed out is in flight or over, and is found open at most once.
    /// The descriptions are distinct and within their limit, and while targets
    /// remain and no fatal error has come, the pool is full.
    pub open spec fn inv(self) -> bool {
        &&& self.launched <= self.plan.len()
        &&& self.slots.len() == smaller(self.capacity, self.plan.len())
        &&& self.slot_positions.len() == self.slots.len()
        &&& self.open_positions.len() == self.open.len()
        &&& forall|s: int| #[trigger]
            self.busy(s) ==> 0 <= self.slot_positions[s] < self.launched
                && self.plan[self.slot_positions[s]] == self.slots[s].unwrap()
        &&& forall|j: int|
            0 <= j < self.open.len() ==> 0 <= #[trigger] self.open_positions[j] < self.launched
                && self.plan[self.open_positions[j]] == self.open[j]
        &&& forall|a: int, b: int|
            #![trigger self.busy(a), self.busy(b)]
            self.busy(a) && self.busy(b) && a != b ==> self.slot_positions[a]
                != self.slot_positions[b]
        &&& forall|s: int, j: int|
            #![trigger self.busy(s), self.open_positions[j]]
            self.busy(s) && 0 <= j < self.open.len() ==> self.slot_positions[s]
                != self.open_positions[j]
        &&& self.open_positions.no_duplicates()
        &&& self.errors.no_duplicates()
        &&& self.errors.len() <= self.error_limit
        &&& !self.aborted && self.launched < self.plan.len() ==> forall|s: int|
            0 <= s < self.slots.len() ==> (#[trigger] self.slots[s]).is_some()
    }

    /// The state of a scan of `plan` right after its start: the first targets
    /// of the plan fill the pool, as far as there are targets and slots.
    pub open spec fn initial(plan: Seq<SocketTarget>, capacity: nat, error_limit: nat)
        -> ScanState {
        ScanState {
            plan,
            launched: smaller(capacity, plan.len()),
            capacity,
            slots: Seq::new(smaller(capacity, plan.len()), |s: int| Some(plan[s])),
            slot_positions: Seq::new(smaller(capacity, plan.len()), |s: int| s),
            open: Seq::empty(),
            open_positions: Seq::empty(),
            errors: Seq::empty(),
            error_limit,
            aborted: false,
        }
    }

    /// The probes to start for [`ScanState::initial`]: target `s` of the plan
    /// in slot `s`.
    pub open spec fn first_launches(plan: Seq<SocketTarget>, capacity: nat) -> Seq<Launch> {
        Seq::new(
            smaller(capacity, plan.len()),
            |s: int| Launch { slot: s as usize, target: plan[s] },
        )
    }

    /// Whether `outcome` can be the outcome of the probe in `slot`: the scan
    /// goes on, the slot is occupied, and a target reported open is the one
    /// that the slot holds.
    pub open spec fn accepts(self, slot: int, outcome: OutcomeView) -> bool {
        &&& !self.aborted
        &&& 0 <= slot < self.slots.len()
        &&& self.slots[slot].is_some()
        &&& outcome matches OutcomeView::Open(target) ==> self.slots[slot] == Some(target)
    }

    /// Whether the outcome of a probe lets the scan go on and a target is
    /// left for the freed slot.
    pub open spec fn refills(self, outcome: OutcomeView) -> bool {
        !(outcome is Fatal) && self.launched < self.plan.len()
    }

    /// The state after `outcome` is reported for the probe in `slot`.
    ///
    /// An open target is appended to the open targets, the description of a
    /// closed one is offered to the digest, and the slot goes to the next
    /// target of the plan or, if none is left, becomes free. A fatal outcome
    /// frees the slot and ends the scan.
    pub open spec fn after(self, slot: int, outcome: OutcomeView) -> ScanState {
        ScanState {
            plan: self.plan,
            launched: if self.refills(outcome) {
                self.launched + 1
            } else {
                self.launched
            },
            capacity: self.capacity,
            slots: self.slots.update(
                slot,
                if self.refills(outcome) {
                    Some(self.plan[self.launched as int])
                } else {
                    None
                },
            ),
            slot_positions: if self.refills(outcome) {
                self.slot_positions.update(slot, self.launched as int)
            } else {
                self.slot_positions
            },
            open: match outcome {
                OutcomeView::Open(target) => self.open.push(target),
                _ => self.open,
            },
            open_positions: match outcome {
                OutcomeView::Open(_) => self.open_positions.push(self.slot_positions[slot]),
                _ => self.open_positions,
            },
            errors: match outcome {
                OutcomeView::Closed(text) => digest_after(self.errors, self.error_limit, text),
                _ => self.errors,
            },
            error_limit: self.error_limit,
            aborted: self.aborted || outcome is Fatal,
        }
    }

    /// What the caller is told to do when `outcome` is reported for `slot`.
    pub open spec fn action_for(self, slot: int, outcome: OutcomeView) -> ActionView {
        match outcome {
            OutcomeView::Fatal(text) => ActionView::Abort(text),
            _ => if self.launched < self.plan.len() {
                ActionView::Launch(
                    Launch { slot: slot as usize, target: self.plan[self.launched as int] },
                )
            } else {
                ActionView::Wait
            },
        }
    }

    /// The pool never holds more probes than its capacity.
    pub proof fn lemma_in_flight_bounded(self)
        requires
            self.inv(),
        ensures
            self.in_flight() <= self.capacity,
    {
        lemma_busy_count_bounded(self.slots);
    }

    /// A scan starts in a state of which the invariant holds, with as many
    /// probes in flight as were handed out.
    pub proof fn lemma_initial_inv(plan: Seq<SocketTarget>, capacity: nat, error_limit: nat)
        ensures
            Self::initial(plan, capacity, error_limit).inv(),
            Self::initial(plan, capacity, error_limit).in_flight() == smaller(
                capacity,
                plan.len(),
            ),
    {
        let state = Self::initial(plan, capacity, error_limit);
        lemma_busy_count_extremes(state.slots);
    }

    /// Every step keeps the invariant and brings the scan one outcome closer
    /// to its end. It hands out one target more exactly when it tells the
    /// caller to start a probe: the next target of the plan, in the slot that
    /// became free.
    pub proof fn lemma_after_inv(self, slot: int, outcome: OutcomeView)
        requires
            self.inv(),
            self.accepts(slot, outcome),
        ensures
            self.after(slot, outcome).inv(),
            self.after(slot, outcome).outstanding() + 1 == self.outstanding(),
            self.refills(outcome) ==> {
                &&& self.after(slot, outcome).attempted() == self.attempted().push(
                    self.plan[self.launched as int],
                )
                &&& self.action_for(slot, outcome) == ActionView::Launch(
                    Launch { slot: slot as usize, target: self.plan[self.launched as int] },
                )
                &&& self.after(slot, outcome).in_flight() == self.in_flight()
            },
            !self.refills(outcome) ==> {
                &&& self.after(slot, outcome).attempted() == self.attempted()
                &&& !(self.action_for(slot, outcome) is Launch)
                &&& self.after(slot, outcome).in_flight() == self.in_flight() - 1
            },
    {
        let next = self.after(slot, outcome);
        lemma_busy_count_update(self.slots, slot, next.slots[slot]);
        if self.refills(outcome) {
            assert(next.attempted() =~= self.attempted().push(self.plan[self.launched as int]));
        } else {
            assert(next.attempted() =~= self.attempted());
        }
        assert(self.busy(slot));
        assert forall|s: int| #[trigger] next.busy(s) implies 0 <= next.slot_positions[s]
            < next.launched && next.plan[next.slot_positions[s]] == next.slots[s].unwrap() by {
            if s != slot {
                assert(self.busy(s));
            }
        }
        assert forall|j: int| 0 <= j < next.open.len() implies 0
            <= #[trigger] next.open_positions[j] < next.launched
            && next.plan[next.open_positions[j]] == next.open[j] by {
            if j < self.open.len() {
                assert(next.open_positions[j] == self.open_positions[j]);
            }
        }
        assert forall|a: int, b: int|
            #![trigger next.busy(a), next.busy(b)]
            next.busy(a) && next.busy(b) && a != b implies next.slot_positions[a]
            != next.slot_positions[b] by {
            if a != slot {
                assert(self.busy(a));
            }
            if b != slot {
                assert(self.busy(b));
            }
        }
        assert forall|s: int, j: int|
            #![trigger next.busy(s), next.open_positions[j]]
            next.busy(s) && 0 <= j < next.open.len() implies next.slot_positions[s]
            != next.open_positions[j] by {
            if s != slot {
                assert(self.busy(s));
            }
            if j < self.open.len() {
                assert(next.open_positions[j] == self.open_positions[j]);
            }
        }
        assert forall|i: int, j: int|
            0 <= i < j < next.open_positions.len() implies next.open_positions[i]
            != next.open_positions[j] by {
            if j < self.open.len() {
                assert(next.open_positions[i] == self.open_positions[i]);
                assert(next.open_positions[j] == self.open_positions[j]);
            } else {
                assert(next.open_positions[i] == self.open_positions[i]);
            }
        }
        if let OutcomeView::Closed(text) = outcome {
            lemma_digest_after_keeps_order(self.errors, self.error_limit, text);
        }
        if !next.aborted && next.launched < next.plan.len() {
            assert forall|s: int| 0 <= s < next.slots.len() implies (
            #[trigger] next.slots[s]).is_some() by {
                if s != slot {
                    assert(self.slots[s].is_some());
                }
            }
        }
    }

    /// Completeness: when a scan with room for at least one probe has drained
    /// without a fatal error, the targets attempted are the whole plan, each
    /// position of it once and in order.
    pub proof fn lemma_drained_is_complete(self)
        requires
            self.inv(),
            !self.aborted,
            self.capacity > 0,
            self.drained(),
        ensures
            self.attempted() == self.plan,
    {
        lemma_busy_count_extremes(self.slots);
        if self.launched < self.plan.len() {
            // While targets remain the pool is full, and it has a slot.
            assert(self.slots[0].is_some());
            assert(false);
        }
        assert(self.attempted() =~= self.plan);
    }

    /// Every open target is a target of the plan that was attempted.
    pub proof fn lemma_open_was_attempted(self, j: int)
        requires
            self.inv(),
            0 <= j < self.open.len(),
        ensures
            self.attempted().contains(self.open[j]),
            self.plan.contains(self.open[j]),
    {
        let k = self.open_positions[j];
        assert(self.attempted()[k] == self.open[j]);
        assert(self.plan[k] == self.open[j]);
    }

    /// No target is found open more often than the plan holds it: where the
    /// plan repeats no target, neither do the open targets.
    pub proof fn lemma_open_once(self)
        requires
            self.inv(),
            self.plan.no_duplicates(),
        ensures
            self.open.no_duplicates(),
    {
        assert forall|i: int, j: int| 0 <= i < self.open.len() && 0 <= j < self.open.len() && i
            != j implies self.open[i] != self.open[j] by {
            assert(self.plan[self.open_positions[i]] == self.open[i]);
            assert(self.plan[self.open_positions[j]] == self.open[j]);
        }
    }
}

/// The scheduler of one scan.
pub struct Scheduler {
    sockets: SocketIterator,
    capacity: u16,
    slots: Vec<Option<SocketTarget>>,
    slot_positions: Ghost<Seq<int>>,
    busy: usize,
    open: Vec<SocketTarget>,
    open_positions: Ghost<Seq<int>>,
    errors: ErrorDigest,
    aborted: bool,
}

impl View for Scheduler {
    type V = ScanState;

    closed spec fn view(&self) -> ScanState {
        ScanState {
            plan: self.sockets.sequence(),
            launched: self.sockets.position(),
            capacity: self.capacity as nat,
            slots: self.slots@,
            slot_positions: self.slot_positions@,
            open: self.open@,
            open_positions: self.open_positions@,
            errors: self.errors.entries(),
            error_limit: self.errors.limit(),
            aborted: self.aborted,
        }
    }
}

impl Scheduler {
    /// The scheduler is consistent and its state is one that a scan reaches.
    pub closed spec fn wf(&self) -> bool {
        &&& self.sockets.wf()
        &&& self.errors.wf()
        &&& self.busy == busy_count(self.slots@)
        &&& self@.inv()
    }

    /// The addresses of the scan.
    pub closed spec fn ips(&self) -> Seq<IpAddress> {
        self.sockets.ips()
    }

    /// The ports of the scan, in the order in which they are probed.
    pub closed spec fn ports(&self) -> Seq<u16> {
        self.sockets.ports()
    }

    /// What holds of every state that a scan reaches holds of the state of a
    /// consistent scheduler, and no more probes are in flight than the pool has
    /// room for.
    pub proof fn lemma_inv(&self)
        requires
            self.wf(),
        ensures
            self@.inv(),
            self@.in_flight() <= self@.capacity,
    {
        self@.lemma_in_flight_bounded();
    }

    /// The plan of a scheduler is the scan order of its addresses and ports.
    pub proof fn lemma_plan(&self)
        ensures
            self@.plan == socket_sequence(self.ips(), self.ports()),
    {
    }

    /// Starts a scan of `ports` on `ips` with at most `batch_size` probes in
    /// flight, and returns the scheduler with the probes to start first.
    pub fn start(ips: &[IpAddress], ports: &[u16], batch_size: u16) -> (started: (
        Scheduler,
        Vec<Launch>,
    ))
        ensures
            started.0.wf(),
            started.0.ips() == ips@,
            started.0.ports() == ports@,
            started.0@ == ScanState::initial(
                socket_sequence(ips@, ports@),
                batch_size as nat,
                digest_limit(ips@.len()),
            ),
            started.1@ == ScanState::first_launches(
                socket_sequence(ips@, ports@),
                batch_size as nat,
            ),
    {
        let mut sockets = SocketIterator::new(ips, ports);
        let ghost plan = sockets.sequence();
        let mut slots: Vec<Option<SocketTarget>> = Vec::new();
        let mut launches: Vec<Launch> = Vec::new();
        let mut primed: u16 = 0;
        while primed < batch_size && !sockets.is_exhausted()
            invariant
                sockets.wf(),
                sockets.ips() == ips@,
                sockets.ports() == ports@,
                plan == socket_sequence(ips@, ports@),
                primed <= batch_size,
                sockets.position() == primed,
                primed <= plan.len(),
                slots@ == Seq::new(primed as nat, |s: int| Some(plan[s])),
                launches@ == Seq::new(
                    primed as nat,
                    |s: int| Launch { slot: s as usize, target: plan[s] },
                ),
            decreases batch_size - primed,
        {
            let item = sockets.next();
            let target = item.unwrap();
            slots.push(Some(target));
            launches.push(Launch { slot: primed as usize, target });
            primed += 1;
            assert(slots@ =~= Seq::new(primed as nat, |s: int| Some(plan[s])));
            assert(launches@ =~= Seq::new(
                primed as nat,
                |s: int| Launch { slot: s as usize, target: plan[s] },
            ));
        }
        let errors = ErrorDigest::new(ips.len());
        let busy = slots.len();
        let scheduler = Scheduler {
            sockets,
            capacity: batch_size,
            slots,
            slot_positions: Ghost(Seq::new(primed as nat, |s: int| s)),
            busy,
            open: Vec::new(),
            open_positions: Ghost(Seq::empty()),
            errors,
            aborted: false,
        };
        proof {
            let first = ScanState::initial(plan, batch_size as nat, digest_limit(ips@.len()));
            ScanState::lemma_initial_inv(plan, batch_size as nat, digest_limit(ips@.len()));
            assert(scheduler@.slots =~= first.slots);
            assert(scheduler@.slot_positions =~= first.slot_positions);
            assert(scheduler@.open =~= first.open);
            assert(scheduler@ == first);
        }
        (scheduler, launches)
    }

    /// The number of probes in flight.
    pub fn in_flight(&self) -> (n: usize)
        requires
            self.wf(),
        ensures
            n == self@.in_flight(),
            n <= self@.capacity,
    {
        proof {
            self@.lemma_in_flight_bounded();
        }
        self.busy
    }

    /// Whether the pool is empty, so that the scan is over.
    pub fn is_drained(&self) -> (drained: bool)
        requires
            self.wf(),
        ensures
            drained == self@.drained(),
    {
        self.busy == 0
    }

    /// Whether a probe ended with a fatal error.
    pub fn is_aborted(&self) -> (aborted: bool)
        ensures
            aborted == self@.aborted,
    {
        self.aborted
    }

    /// The target of the probe that occupies `slot`, if one does.
    pub fn target_in(&self, slot: usize) -> (target: Option<SocketTarget>)
        ensures
            target == if slot < self@.slots.len() {
                self@.slots[slot as int]
            } else {
                None
            },
    {
        if slot < self.slots.len() {
            self.slots[slot]
        } else {
            None
        }
    }

    /// Whether `outcome` can be reported for `slot` in the present state.
    pub fn accepts(&self, slot: usize, outcome: &ProbeOutcome) -> (ok: bool)
        ensures
            ok == self@.accepts(slot as int, outcome@),
    {
        if self.aborted || slot >= self.slots.len() {
            return false;
        }
        match self.slots[slot] {
            None => false,
            Some(held) => match outcome {
                ProbeOutcome::Open(target) => held == *target,
                _ => true,
            },
        }
    }

    /// Reports the outcome of the probe in `slot`, and returns what to do
    /// next.
    pub fn complete(&mut self, slot: usize, outcome: ProbeOutcome) -> (action: Action)
        requires
            old(self).wf(),
            old(self)@.accepts(slot as int, outcome@),
        ensures
            final(self).wf(),
            final(self).ips() == old(self).ips(),
            final(self).ports() == old(self).ports(),
            final(self)@ == old(self)@.after(slot as int, outcome@),
            action@ == old(self)@.action_for(slot as int, outcome@),
    {
        let ghost before = self@;
        let ghost reported = outcome@;
        proof {
            before.lemma_after_inv(slot as int, reported);
            self.sockets.lemma_position_bounded();
            lemma_busy_count_update(
                self.slots@,
                slot as int,
                before.after(slot as int, reported).slots[slot as int],
            );
        }
        let action = match outcome {
            ProbeOutcome::Fatal(reason) => {
                self.aborted = true;
                self.slots[slot] = None;
                self.busy = self.busy - 1;
                Action::Abort(reason)
            },
            ProbeOutcome::Open(target) => {
                self.open.push(target);
                self.open_positions = Ghost(
                    self.open_positions@.push(self.slot_positions@[slot as int]),
                );
                self.refill(slot)
            },
            ProbeOutcome::Closed(text) => {
                self.errors.insert(text);
                self.refill(slot)
            },
        };
        assert(self@.slots =~= before.after(slot as int, reported).slots);
        assert(self@.slot_positions =~= before.after(slot as int, reported).slot_positions);
        assert(self@ == before.after(slot as int, reported));
        action
    }

    /// Gives `slot` to the next target of the plan, or frees it.
    fn refill(&mut self, slot: usize) -> (action: Action)
        requires
            old(self).sockets.wf(),
            slot < old(self).slots.len(),
            old(self).slots[slot as int].is_some(),
            old(self).busy == busy_count(old(self).slots@),
        ensures
            final(self).sockets.wf(),
            final(self).sockets.ips() == old(self).sockets.ips(),
            final(self).sockets.ports() == old(self).sockets.ports(),
            final(self).capacity == old(self).capacity,
            final(self).open == old(self).open,
            final(self).open_positions == old(self).open_positions,
            final(self).errors == old(self).errors,
            final(self).aborted == old(self).aborted,
            final(self).busy == busy_count(final(self).slots@),
            old(self).sockets.position() < old(self).sockets.sequence().len() ==> {
                &&& final(self).sockets.position() == old(self).sockets.position() + 1
                &&& final(self).slots@ == old(self).slots@.update(
                    slot as int,
                    Some(old(self).sockets.sequence()[old(self).sockets.position() as int]),
                )
                &&& final(self).slot_positions@ == old(self).slot_positions@.update(
                    slot as int,
                    old(self).sockets.position() as int,
                )
                &&& action@ == ActionView::Launch(
                    Launch {
                        slot,
                        target: old(self).sockets.sequence()[old(self).sockets.position() as int],
                    },
                )
            },
            old(self).sockets.position() >= old(self).sockets.sequence().len() ==> {
                &&& final(self).sockets.position() == old(self).sockets.position()
                &&& final(self).slots@ == old(self).slots@.update(slot as int, None)
                &&& final(self).slot_positions == old(self).slot_positions
                &&& action@ == ActionView::Wait
            },
    {
        let ghost position = self.sockets.position() as int;
        let item = self.sockets.next();
        proof {
            lemma_busy_count_update(self.slots@, slot as int, item);
        }
        self.slots[slot] = item;
        match item {
            Some(target) => {
                self.slot_positions = Ghost(self.slot_positions@.update(slot as int, position));
                Action::Launch(Launch { slot, target })
            },
            None => {
                self.busy = self.busy - 1;
                Action::Wait
            },
        }
    }

    /// The targets found open so far, in the order in which their probes
    /// ended.
    pub fn open_sockets(&self) -> (open: &Vec<SocketTarget>)
        ensures
            open@ == self@.open,
    {
        &self.open
    }

    /// Ends the scan and hands over the targets found open.
    pub fn into_open_sockets(self) -> (open: Vec<SocketTarget>)
        ensures
            open@ == self@.open,
    {
        self.open
    }

    /// The error descriptions gathered so far.
    pub fn errors(&self) -> (digest: &ErrorDigest)
        ensures
            digest.entries() == self@.errors,
            digest.limit() == self@.error_limit,
    {
        &self.errors
    }
}

} // verus!
