//! The probe of one target: up to `tries` connection attempts and what they
//! add up to.
//!
//! The caller makes the attempts. After each one it reports the result to the
//! probe, which answers with the verdict on the target or asks for one more
//! attempt.

use crate::address::SocketTarget;
use vstd::prelude::*;
use vstd::string::*;

verus! {

/// What one connection attempt came to.
#[derive(Debug)]
pub enum AttemptResult {
    /// The connection was established.
    Connected,
    /// The attempt failed or ran out of time; the text describes the error.
    Failed(String),
}

/// An [`AttemptResult`] with its text as a sequence of characters.
pub enum AttemptView {
    Connected,
    Failed(Seq<char>),
}

impl View for AttemptResult {
    type V = AttemptView;

    open spec fn view(&self) -> AttemptView {
        match self {
            AttemptResult::Connected => AttemptView::Connected,
            AttemptResult::Failed(error) => AttemptView::Failed(error@),
        }
    }
}

/// The verdict of a probe.
#[derive(Debug)]
pub enum ProbeOutcome {
    /// The target accepted a connection.
    Open(SocketTarget),
    /// No attempt connected; the text is the last error followed by a space
    /// and the host.
    Closed(String),
    /// The process ran out of descriptors; the text is the error.
    Fatal(String),
}

/// A [`ProbeOutcome`] with its text as a sequence of characters.
pub enum OutcomeView {
    Open(SocketTarget),
    Closed(Seq<char>),
    Fatal(Seq<char>),
}

impl View for ProbeOutcome {
    type V = OutcomeView;

    open spec fn view(&self) -> OutcomeView {
        match self {
            ProbeOutcome::Open(target) => OutcomeView::Open(*target),
            ProbeOutcome::Closed(text) => OutcomeView::Closed(text@),
            ProbeOutcome::Fatal(text) => OutcomeView::Fatal(text@),
        }
    }
}

/// A probe between two attempts.
#[derive(Clone, Copy, Debug, PartialEq, Eq, Structural)]
pub struct Probe {
    /// The target under probe.
    pub target: SocketTarget,
    /// How many attempts the target is given; zero counts as one.
    pub tries: u8,
    /// How many attempts have failed so far.
    pub failures: u8,
}

/// What a probe asks of its caller after an attempt.
#[derive(Debug)]
pub enum ProbeStep {
    /// Connect once more, then report to the probe given here.
    Retry(Probe),
    /// The probe is over.
    Done(ProbeOutcome),
}

/// A [`ProbeStep`] with its text as a sequence of characters.
pub enum StepView {
    Retry(Probe),
    Done(OutcomeView),
}

impl View for ProbeStep {
    type V = StepView;

    open spec fn view(&self) -> StepView {
        match self {
            ProbeStep::Retry(probe) => StepView::Retry(*probe),
            ProbeStep::Done(outcome) => StepView::Done(outcome@),
        }
    }
}

/// The words by which an error tells that the process has no descriptor left.
pub open spec fn exhaustion_text() -> Seq<char> {
    "too many open files"@
}

/// `pattern` stands in `text` from position `i` on.
pub open spec fn occurs_at(text: Seq<char>, pattern: Seq<char>, i: int) -> bool {
    &&& 0 <= i
    &&& i + pattern.len() <= text.len()
    &&& text.subrange(i, i + pattern.len()) == pattern
}

/// `pattern` stands somewhere in `text`.
pub open spec fn has_substring(text: Seq<char>, pattern: Seq<char>) -> bool {
    exists|i: int| #[trigger] occurs_at(text, pattern, i)
}

/// The lower-case form that the standard library gives a text.
pub uninterp spec fn lowercase_of(text: Seq<char>) -> Seq<char>;

/// An error is fatal when its lower-case form names the exhaustion of
/// descriptors.
pub open spec fn is_fatal_text(error: Seq<char>) -> bool {
    has_substring(lowercase_of(error), exhaustion_text())
}

/// Calls `str::to_lowercase`. Trusted: the result is the standard library's
/// lower-case form of the text, which depends on the text alone.
#[verifier::external_body]
fn lowercase(text: &str) -> (lowered: String)
    ensures
        lowered@ == lowercase_of(text@),
{
    text.to_lowercase()
}

/// Calls `str::contains` with a string pattern. Trusted: the result tells
/// whether the pattern occurs in the text as a run of consecutive characters.
#[verifier::external_body]
fn contains_text(text: &str, pattern: &str) -> (found: bool)
    ensures
        found == has_substring(text@, pattern@),
{
    text.contains(pattern)
}

/// Whether a text that is already in lower case names the exhaustion of
/// descriptors.
pub fn mentions_exhaustion(lowered: &str) -> (found: bool)
    ensures
        found == has_substring(lowered@, exhaustion_text()),
{
    contains_text(lowered, "too many open files")
}

/// Whether a connection error is fatal to the scan, whatever its case.
pub fn is_fatal_error(error: &str) -> (fatal: bool)
    ensures
        fatal == is_fatal_text(error@),
{
    let lowered = lowercase(error);
    mentions_exhaustion(lowered.as_str())
}

/// The number of attempts that a probe with `tries` makes at most.
pub open spec fn effective_tries(tries: u8) -> int {
    if tries == 0 {
        1
    } else {
        tries as int
    }
}

/// What follows an attempt of `probe` that ended in `result`, where `fatal`
/// tells whether a failure is fatal and `host` is the address as text.
///
/// A connection opens the target. A fatal failure ends the probe at once. Any
/// other failure closes the target if it was the last attempt, with the error
/// and the host as the description, and else asks for the next attempt.
pub open spec fn step_after(probe: Probe, result: AttemptView, fatal: bool, host: Seq<char>)
    -> StepView {
    match result {
        AttemptView::Connected => StepView::Done(OutcomeView::Open(probe.target)),
        AttemptView::Failed(error) => {
            if fatal {
                StepView::Done(OutcomeView::Fatal(error))
            } else if probe.failures + 1 >= effective_tries(probe.tries) {
                StepView::Done(OutcomeView::Closed(error + seq![' '] + host))
            } else {
                StepView::Retry(
                    Probe {
                        target: probe.target,
                        tries: probe.tries,
                        failures: (probe.failures + 1) as u8,
                    },
                )
            }
        },
    }
}

/// Whether `result` is a failure whose text is fatal.
pub open spec fn fails_fatally(result: AttemptView) -> bool {
    match result {
        AttemptView::Connected => false,
        AttemptView::Failed(error) => is_fatal_text(error),
    }
}

impl Probe {
    /// A probe of `target` before its first attempt. With `tries` zero the
    /// probe still makes one attempt.
    pub fn new(target: SocketTarget, tries: u8) -> (probe: Probe)
        ensures
            probe.target == target,
            probe.tries == effective_tries(tries),
            probe.failures == 0,
    {
        Probe { target, tries: if tries == 0 { 1 } else { tries }, failures: 0 }
    }

    /// The step after an attempt, for a caller that has judged the error
    /// itself: `fatal` says whether a failure ends the scan.
    pub fn attempt_with(self, result: AttemptResult, fatal: bool, host: &str) -> (step: ProbeStep)
        ensures
            step@ == step_after(self, result@, fatal, host@),
    {
        match result {
            AttemptResult::Connected => ProbeStep::Done(ProbeOutcome::Open(self.target)),
            AttemptResult::Failed(error) => {
                if fatal {
                    ProbeStep::Done(ProbeOutcome::Fatal(error))
                } else if self.tries <= 1 || self.failures >= self.tries - 1 {
                    let ghost text = error@;
                    let mut description = error;
                    description.append(" ");
                    description.append(host);
                    proof {
                        reveal_strlit(" ");
                        assert(" "@ =~= seq![' ']);
                    }
                    ProbeStep::Done(ProbeOutcome::Closed(description))
                } else {
                    ProbeStep::Retry(
                        Probe {
                            target: self.target,
                            tries: self.tries,
                            failures: self.failures + 1,
                        },
                    )
                }
            },
        }
    }

    /// The step after an attempt: a failure is fatal when its text names the
    /// exhaustion of descriptors, in any case of the letters.
    pub fn attempt(self, result: AttemptResult, host: &str) -> (step: ProbeStep)
        ensures
            step@ == step_after(self, result@, fails_fatally(result@), host@),
    {
        let fatal = match &result {
            AttemptResult::Connected => false,
            AttemptResult::Failed(error) => is_fatal_error(error.as_str()),
        };
        self.attempt_with(result, fatal, host)
    }
}

} // verus!
