//! The clock of the CPU time of the process, for the native function
//! `clock`. The readings come from the crate `cpu_time`; what is computed
//! from them is verified.
use vstd::prelude::*;
use core::time::Duration;
use cpu_time::ProcessTime;

verus! {

/// A point on the clock of the CPU time that the process has used.
#[verifier::external_type_specification]
#[verifier::external_body]
pub struct ExProcessTime(ProcessTime);

/// `cpu_time::ProcessTime::try_now`: reads the CPU time that the process
/// has used so far. Nothing is claimed of the reading; `None` stands for
/// the error that the call can return.
#[verifier::external_body]
fn process_time_now() -> (now: Option<ProcessTime>) {
    match ProcessTime::try_now() {
        Ok(now) => Some(now),
        Err(_) => None,
    }
}

/// `cpu_time::ProcessTime::as_duration`: the reading as a duration since
/// the start of the process. Nothing is claimed of it.
pub assume_specification[ ProcessTime::as_duration ](time: &ProcessTime) -> (d: Duration)
;

/// `Duration::as_secs`: the whole seconds of a duration. Nothing is
/// claimed of them.
pub assume_specification[ Duration::as_secs ](d: &Duration) -> (seconds: u64)
;

/// `Duration::subsec_nanos`: the part of a duration below one second, in
/// nanoseconds, which the documentation says is less than a second.
pub assume_specification[ Duration::subsec_nanos ](d: &Duration) -> (nanos: u32)
    ensures
        nanos < 1_000_000_000,
;

/// A span of time: whole seconds, and nanoseconds below one second.
#[derive(Debug, Clone, Copy, PartialEq, Eq, Structural)]
pub struct Span {
    pub seconds: u64,
    pub nanos: u32,
}

impl Span {
    /// The span in nanoseconds.
    pub open spec fn total(self) -> int {
        self.seconds * 1_000_000_000 + self.nanos
    }
}

/// The span of that many nanoseconds.
pub open spec fn span_of(nanos: int) -> Span {
    Span { seconds: (nanos / 1_000_000_000) as u64, nanos: (nanos % 1_000_000_000) as u32 }
}

/// The span from `from` to `to`, or no time at all if `to` is the earlier
/// one.
pub open spec fn between(from: Span, to: Span) -> Span {
    if to.total() >= from.total() {
        span_of(to.total() - from.total())
    } else {
        span_of(0)
    }
}

/// Whether a reading of the clock is in order: if there is one, its part
/// below a second is less than a second.
pub open spec fn readable(reading: Option<Span>) -> bool {
    reading matches Some(r) ==> r.nanos < 1_000_000_000
}

/// What a stopwatch shows: the span from the reading at its start to the
/// reading now, and nothing if either reading failed.
pub open spec fn lapse(start: Option<Span>, now: Option<Span>) -> Option<Span> {
    match (start, now) {
        (Some(from), Some(to)) => Some(between(from, to)),
        _ => None,
    }
}

/// The span from `from` to `to`, or no time at all if `to` is the earlier
/// one.
pub fn span_between(from: Span, to: Span) -> (span: Span)
    requires
        from.nanos < 1_000_000_000,
        to.nanos < 1_000_000_000,
    ensures
        span == between(from, to),
        span.nanos < 1_000_000_000,
        span.total() == if to.total() >= from.total() {
            to.total() - from.total()
        } else {
            0
        },
{
    if to.seconds < from.seconds || (to.seconds == from.seconds && to.nanos < from.nanos) {
        Span { seconds: 0, nanos: 0 }
    } else if to.nanos >= from.nanos {
        Span { seconds: to.seconds - from.seconds, nanos: to.nanos - from.nanos }
    } else {
        Span {
            seconds: to.seconds - from.seconds - 1,
            nanos: to.nanos + 1_000_000_000 - from.nanos,
        }
    }
}

/// What a stopwatch that was started at the reading `start` shows at the
/// reading `now`.
pub fn span_since(start: Option<Span>, now: Option<Span>) -> (span: Option<Span>)
    requires
        readable(start),
        readable(now),
    ensures
        span == lapse(start, now),
        readable(span),
{
    match (start, now) {
        (Some(from), Some(to)) => Some(span_between(from, to)),
        _ => None,
    }
}

/// Reads the clock: the CPU time that the process has used so far, or
/// `None` if the clock cannot be read.
fn read_clock() -> (reading: Option<Span>)
    ensures
        readable(reading),
{
    match process_time_now() {
        Some(now) => {
            let time = now.as_duration();
            Some(Span { seconds: time.as_secs(), nanos: time.subsec_nanos() })
        },
        None => None,
    }
}

/// A stopwatch on the CPU time of the process.
pub struct Stopwatch {
    start: Option<Span>,
}

impl Stopwatch {
    #[verifier::type_invariant]
    spec fn inv(self) -> bool {
        readable(self.start)
    }

    /// The reading of the clock at which the stopwatch was started, or
    /// `None` if the clock could not be read then.
    pub closed spec fn started(&self) -> Option<Span> {
        self.start
    }

    /// A stopwatch that starts now: it holds the reading of the clock at
    /// this moment. If the clock cannot be read, it holds none, and the
    /// stopwatch never shows anything.
    pub fn start() -> (watch: Self)
        ensures
            readable(watch.started()),
    {
        Stopwatch { start: read_clock() }
    }

    /// The CPU time that the process has used since the stopwatch was
    /// started: the span from the reading at the start to a reading that
    /// is taken now. A stopwatch without a reading at its start shows
    /// nothing, and so does one for which the clock cannot be read now.
    pub fn elapsed(&self) -> (span: Option<Span>)
        ensures
            self.started() is None ==> span is None,
            exists|now: Option<Span>|
                readable(now) && span == #[trigger] lapse(self.started(), now),
            readable(span),
    {
        proof {
            use_type_invariant(self);
        }
        let now = read_clock();
        span_since(self.start, now)
    }
}

} // verus!
