//! The descriptor budget: how many probes may be in flight, given the
//! process's limit on open files.
//!
//! Every probe in flight holds one descriptor. A batch that the limit cannot
//! carry is lowered before the scan starts.

use vstd::prelude::*;

verus! {

/// A limit above which a batch that has to be lowered is set to
/// [`AVERAGE_BATCH_SIZE`].
pub const DEFAULT_FILE_DESCRIPTORS_LIMIT: u64 = 8000;

/// A batch size that works on most systems.
pub const AVERAGE_BATCH_SIZE: u16 = 3000;

/// The descriptors left to the rest of the process where the batch is set
/// just below the limit.
pub const RESERVED_DESCRIPTORS: u64 = 100;

/// The options of a scan that bear on the descriptor budget, with the two
/// flags that say how notices about it are shown.
#[derive(Clone, Copy, Debug)]
pub struct Opts {
    /// The number of probes in flight that the user asks for.
    pub batch_size: u16,
    /// The limit on open files that the user asks to set, if any.
    pub ulimit: Option<u64>,
    /// Whether only the final summary is printed.
    pub greppable: bool,
    /// Whether output is plain, without colour.
    pub accessible: bool,
}

impl Default for Opts {
    fn default() -> (opts: Opts)
        ensures
            opts.batch_size == 0,
            opts.ulimit.is_none(),
            opts.greppable,
            !opts.accessible,
    {
        Opts { batch_size: 0, ulimit: None, greppable: true, accessible: false }
    }
}

/// The batch size for a process whose soft limit on open files is `soft`,
/// where `requested` was asked for.
///
/// A limit that exceeds the request by two or more leaves it unchanged. Else a
/// limit below [`AVERAGE_BATCH_SIZE`] is halved, a limit above
/// [`DEFAULT_FILE_DESCRIPTORS_LIMIT`] gives [`AVERAGE_BATCH_SIZE`], and one in
/// between gives the limit less [`RESERVED_DESCRIPTORS`].
pub open spec fn inferred_batch(requested: int, soft: int) -> int {
    if soft >= requested + 2 {
        requested
    } else if soft < AVERAGE_BATCH_SIZE {
        soft / 2
    } else if soft > DEFAULT_FILE_DESCRIPTORS_LIMIT {
        AVERAGE_BATCH_SIZE as int
    } else {
        soft - RESERVED_DESCRIPTORS
    }
}

/// The inferred batch never exceeds the request, and fits sixteen bits
/// whenever the request does.
pub proof fn lemma_batch_never_raised(requested: int, soft: int)
    requires
        0 <= requested,
        0 <= soft,
    ensures
        0 <= inferred_batch(requested, soft) <= requested,
{
}

/// A limit that does not exceed the request bounds the inferred batch, and a
/// limit that is not zero leaves at least one descriptor over.
pub proof fn lemma_batch_within_limit(requested: int, soft: int)
    requires
        0 <= requested,
        0 <= soft,
    ensures
        soft <= requested ==> inferred_batch(requested, soft) <= soft,
        soft > 0 ==> inferred_batch(requested, soft) < soft,
{
}

/// The two limits between which the inferred batch drops: the lower one gives
/// its own value less the reserve, the higher one the average batch.
pub open spec fn straddles_ceiling(requested: int, soft_low: int, soft_high: int) -> bool {
    &&& AVERAGE_BATCH_SIZE + RESERVED_DESCRIPTORS < soft_low <= DEFAULT_FILE_DESCRIPTORS_LIMIT
    &&& DEFAULT_FILE_DESCRIPTORS_LIMIT < soft_high < requested + 2
}

/// A higher limit never gives a smaller batch, except across the ceiling:
/// from a limit between 3101 and 8000 to one above 8000 that still cannot
/// carry the request.
pub proof fn lemma_batch_monotone(requested: int, soft_low: int, soft_high: int)
    requires
        0 <= requested,
        0 <= soft_low <= soft_high,
        !straddles_ceiling(requested, soft_low, soft_high),
    ensures
        inferred_batch(requested, soft_low) <= inferred_batch(requested, soft_high),
{
}

/// Across the ceiling the batch does drop.
pub proof fn lemma_batch_drops_across_ceiling(requested: int, soft_low: int, soft_high: int)
    requires
        0 <= requested,
        straddles_ceiling(requested, soft_low, soft_high),
    ensures
        inferred_batch(requested, soft_low) > inferred_batch(requested, soft_high),
{
}

/// The batch size for a scan with `opts` in a process whose soft limit on open
/// files is `ulimit`.
pub fn infer_batch_size(opts: &Opts, ulimit: u64) -> (batch_size: u16)
    ensures
        batch_size == inferred_batch(opts.batch_size as int, ulimit as int),
{
    let requested: u64 = opts.batch_size as u64;
    if ulimit >= requested + 2 {
        opts.batch_size
    } else if ulimit < AVERAGE_BATCH_SIZE as u64 {
        (ulimit / 2) as u16
    } else if ulimit > DEFAULT_FILE_DESCRIPTORS_LIMIT {
        AVERAGE_BATCH_SIZE
    } else {
        (ulimit - RESERVED_DESCRIPTORS) as u16
    }
}

/// What the user is told about the batch size.
#[derive(Clone, Copy, Debug, PartialEq, Eq, Structural)]
pub enum BatchNotice {
    /// Nothing: the request stands, under a limit that the user chose.
    Silent,
    /// The request stands and the limit would carry more: a batch of
    /// `suggested` could speed the scan up.
    CanIncrease { suggested: u64 },
    /// The batch was lowered because the limit is below the request.
    Lowered,
    /// The batch was halved because the limit is very small.
    Halved,
}

/// The notice that goes with [`inferred_batch`].
pub open spec fn notice_for(requested: int, chosen_limit: bool, soft: int) -> BatchNotice {
    if soft >= requested + 2 {
        if chosen_limit {
            BatchNotice::Silent
        } else {
            BatchNotice::CanIncrease {
                suggested: if soft >= RESERVED_DESCRIPTORS {
                    (soft - RESERVED_DESCRIPTORS) as u64
                } else {
                    0
                },
            }
        }
    } else if soft < AVERAGE_BATCH_SIZE {
        BatchNotice::Halved
    } else {
        BatchNotice::Lowered
    }
}

/// What to tell the user about the batch size that [`infer_batch_size`]
/// gives for the same arguments.
pub fn batch_notice(opts: &Opts, ulimit: u64) -> (notice: BatchNotice)
    ensures
        notice == notice_for(opts.batch_size as int, opts.ulimit.is_some(), ulimit as int),
{
    let requested: u64 = opts.batch_size as u64;
    if ulimit >= requested + 2 {
        if opts.ulimit.is_some() {
            BatchNotice::Silent
        } else if ulimit >= RESERVED_DESCRIPTORS {
            BatchNotice::CanIncrease { suggested: ulimit - RESERVED_DESCRIPTORS }
        } else {
            BatchNotice::CanIncrease { suggested: 0 }
        }
    } else if ulimit < AVERAGE_BATCH_SIZE as u64 {
        BatchNotice::Halved
    } else {
        BatchNotice::Lowered
    }
}

/// What became of the request to set the limit on open files.
#[derive(Clone, Copy, Debug, PartialEq, Eq, Structural)]
pub enum RaiseStatus {
    /// No limit was asked for.
    NotRequested,
    /// The limit was set to the value given.
    Raised(u64),
    /// The system refused to set the limit to the value given.
    Failed(u64),
}

/// The limit on open files under which the scan will run.
#[derive(Clone, Copy, Debug, PartialEq, Eq, Structural)]
pub struct LimitReport {
    /// What became of the user's request.
    pub raise: RaiseStatus,
    /// The soft limit now in force.
    pub soft: u64,
}

/// Calls `rlimit::Resource::NOFILE.set`, which asks the system to set the soft
/// and the hard limit on open files, and tells whether the system agreed.
/// Trusted; nothing is claimed of the answer.
#[verifier::external_body]
fn set_descriptor_limit(soft: u64, hard: u64) -> (accepted: bool) {
    rlimit::Resource::NOFILE.set(soft, hard).is_ok()
}

/// Calls `rlimit::Resource::NOFILE.get`, which asks the system for the soft
/// and the hard limit on open files; `None` where the system gave an error.
/// Trusted; nothing is claimed of the answer.
#[verifier::external_body]
fn descriptor_limits() -> (limits: Option<(u64, u64)>) {
    rlimit::Resource::NOFILE.get().ok()
}

/// The status of a request for `requested`, where `accepted` is the system's
/// answer to it.
pub open spec fn raise_status(requested: Option<u64>, accepted: bool) -> RaiseStatus {
    match requested {
        None => RaiseStatus::NotRequested,
        Some(limit) => if accepted {
            RaiseStatus::Raised(limit)
        } else {
            RaiseStatus::Failed(limit)
        },
    }
}

/// The report on a request for `requested` that the system answered with
/// `accepted`, where `limits` are the soft and the hard limit read afterwards.
/// There is no report where the limits could not be read.
pub fn limit_report(requested: Option<u64>, accepted: bool, limits: Option<(u64, u64)>) -> (report:
    Option<LimitReport>)
    ensures
        report == match limits {
            None => None::<LimitReport>,
            Some(pair) => Some(
                LimitReport { raise: raise_status(requested, accepted), soft: pair.0 },
            ),
        },
{
    match limits {
        None => None,
        Some((soft, _)) => {
            let raise = match requested {
                None => RaiseStatus::NotRequested,
                Some(limit) => if accepted {
                    RaiseStatus::Raised(limit)
                } else {
                    RaiseStatus::Failed(limit)
                },
            };
            Some(LimitReport { raise, soft })
        },
    }
}

/// The change that `opts` asks of the system: the soft and the hard limit on
/// open files are both set to `opts.ulimit`, and nothing is changed where no
/// limit is asked for.
pub fn limit_request(opts: &Opts) -> (request: Option<(u64, u64)>)
    ensures
        request == match opts.ulimit {
            Some(limit) => Some((limit, limit)),
            None => None::<(u64, u64)>,
        },
{
    match opts.ulimit {
        Some(limit) => Some((limit, limit)),
        None => None,
    }
}

/// Asks the system for the change that [`limit_request`] names, if it names
/// one, then reads the soft limit in force.
///
/// The system decides both whether the limit is set and what is read. The
/// report names the request and how it fared; it is `None` where the limit
/// could not be read.
pub fn adjust_ulimit_size(opts: &Opts) -> (report: Option<LimitReport>)
    ensures
        report matches Some(r) ==> r.raise == raise_status(opts.ulimit, true) || r.raise
            == raise_status(opts.ulimit, false),
{
    let accepted = match limit_request(opts) {
        Some((soft, hard)) => set_descriptor_limit(soft, hard),
        None => false,
    };
    let limits = descriptor_limits();
    limit_report(opts.ulimit, accepted, limits)
}

} // verus!
