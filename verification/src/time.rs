use vstd::prelude::*;
use std::time::{Duration, Instant};

verus! {

#[verifier::external_type_specification]
#[verifier::external_body]
pub struct ExInstant(std::time::Instant);

/// The reading of the monotonic clock now.
#[verifier::external_body]
fn now() -> Instant {
    Instant::now()
}

/// How long ago `start` was, read from the monotonic clock.
#[verifier::external_body]
fn elapsed(start: &Instant) -> Duration {
    start.elapsed()
}

/// What `Duration::from_secs` gives for `secs`.
pub uninterp spec fn secs_duration(secs: u64) -> Duration;

/// `Duration::from_secs`: the duration of `secs` seconds.
#[verifier::external_body]
fn duration_from_secs(secs: u64) -> (d: Duration)
    ensures
        d == secs_duration(secs),
{
    Duration::from_secs(secs)
}

/// What `Duration::from_millis` gives for `ms`.
pub uninterp spec fn millis_duration(ms: u64) -> Duration;

/// `Duration::from_millis`: the duration of `ms` milliseconds.
#[verifier::external_body]
fn duration_from_millis(ms: u64) -> (d: Duration)
    ensures
        d == millis_duration(ms),
{
    Duration::from_millis(ms)
}

/// What `Duration::as_millis` gives for `d`: its whole milliseconds.
pub uninterp spec fn whole_millis(d: Duration) -> u128;

/// `Duration::as_millis`: the whole milliseconds of `d`.
#[verifier::external_body]
fn as_millis(d: Duration) -> (r: u128)
    ensures
        r == whole_millis(d),
{
    d.as_millis()
}

/// What `Instant::checked_sub` gives for `at` and `d`.
pub uninterp spec fn instant_minus(at: Instant, d: Duration) -> Option<Instant>;

/// `Instant::checked_sub`: the instant `d` earlier, if the clock can
/// represent it. Its result is named, as a function of `at` and `d` alone.
#[verifier::external_body]
fn instant_before(at: Instant, d: Duration) -> (r: Option<Instant>)
    ensures
        r == instant_minus(at, d),
{
    at.checked_sub(d)
}

/// What `Instant::checked_add` gives for `at` and `d`.
pub uninterp spec fn instant_plus(at: Instant, d: Duration) -> Option<Instant>;

/// `Instant::checked_add`: the instant `d` later, if the clock can
/// represent it. Its result is named, as a function of `at` and `d` alone.
#[verifier::external_body]
fn instant_after(at: Instant, d: Duration) -> (r: Option<Instant>)
    ensures
        r == instant_plus(at, d),
{
    at.checked_add(d)
}

/// The milliseconds a shift by `offset` moves an instant by: the size of
/// `offset`, taken modulo 2^64 as a millisecond count of `u64` holds it.
pub open spec fn offset_millis(offset: i128) -> u64 {
    ((if offset < 0 { -offset } else { offset as int }) % 0x1_0000_0000_0000_0000) as u64
}

/// The instant `base` moved `offset_millis(offset)` milliseconds back (a
/// positive offset) or forward (a negative one); `base` itself when the
/// offset is zero or the clock cannot represent the moved instant.
pub open spec fn shift_spec(base: Instant, offset: i128) -> Instant {
    if offset > 0 {
        match instant_minus(base, millis_duration(offset_millis(offset))) {
            Some(i) => i,
            None => base,
        }
    } else if offset < 0 {
        match instant_plus(base, millis_duration(offset_millis(offset))) {
            Some(i) => i,
            None => base,
        }
    } else {
        base
    }
}

/// `base` moved back (positive offset) or forward (negative offset) by as
/// many milliseconds as the size of `offset`, as `shift_spec` says.
pub fn shift(base: Instant, offset: i128) -> (r: Instant)
    ensures
        r == shift_spec(base, offset),
{
    let size: u128 = if offset < 0 { ((-(offset + 1)) as u128) + 1 } else { offset as u128 };
    let ms: u64 = size as u64;
    proof {
        assert(size as int == (if offset < 0 { -offset } else { offset as int }));
        assert(ms as int == size as int % 0x1_0000_0000_0000_0000) by (bit_vector)
            requires
                ms == size as u64,
        ;
    }
    if offset > 0 {
        match instant_before(base, duration_from_millis(ms)) {
            Some(i) => i,
            None => base,
        }
    } else if offset < 0 {
        match instant_after(base, duration_from_millis(ms)) {
            Some(i) => i,
            None => base,
        }
    } else {
        base
    }
}

/// Whether a delay is over, and if it is, by how much.
#[derive(PartialEq, Eq, Debug, Clone, Copy)]
pub enum DelayState<T> {
    /// Over, since the given time.
    Done(T),
    Running,
}

/// Measures the time spent between `start` and `stop`.
#[derive(Debug, Clone, Copy)]
pub enum Stopwatch {
    Running { start_time: Instant },
    Paused { paused_since: Instant, runtime: Duration },
}

impl Default for Stopwatch {
    /// A stopwatch that is stopped and reads zero.
    fn default() -> (r: Stopwatch)
        ensures
            r matches Stopwatch::Paused { runtime, .. } && runtime == secs_duration(0),
    {
        Stopwatch::Paused { paused_since: now(), runtime: duration_from_secs(0) }
    }
}

impl Stopwatch {
    /// A stopwatch that is stopped and reads zero.
    pub fn new() -> (r: Stopwatch)
        ensures
            r matches Stopwatch::Paused { runtime, .. } && runtime == secs_duration(0),
    {
        Self::default()
    }

    /// A stopwatch that is running from now on.
    pub fn start_new() -> (r: Stopwatch)
        ensures
            r is Running,
    {
        Stopwatch::Running { start_time: now() }
    }

    pub fn is_running(&self) -> (r: bool)
        ensures
            r == self is Running,
    {
        match self {
            Stopwatch::Running { .. } => true,
            Stopwatch::Paused { .. } => false,
        }
    }

    pub fn is_stopped(&self) -> (r: bool)
        ensures
            r == self is Paused,
    {
        !self.is_running()
    }

    /// Starts again from zero, whether it was running or not.
    pub fn start(&mut self)
        ensures
            *final(self) is Running,
    {
        *self = Stopwatch::start_new();
    }

    /// Stops it, keeping the time it ran; a stopped stopwatch is left as it
    /// is.
    pub fn stop(&mut self)
        ensures
            *final(self) is Paused,
            *old(self) is Paused ==> *final(self) == *old(self),
    {
        let runtime = match self {
            Stopwatch::Running { start_time } => elapsed(start_time),
            Stopwatch::Paused { .. } => {
                return;
            },
        };
        *self = Stopwatch::Paused { paused_since: now(), runtime };
    }

    /// The time it ran: until now if it is running, until it was stopped
    /// otherwise.
    pub fn read(&self) -> (r: Duration)
        ensures
            self matches Stopwatch::Paused { runtime, .. } ==> r == runtime,
    {
        match self {
            Stopwatch::Running { start_time } => elapsed(start_time),
            Stopwatch::Paused { runtime, .. } => *runtime,
        }
    }
}

/// The state of a delay of `timeout` milliseconds, `elapsed` milliseconds
/// after it began.
pub open spec fn delay_state_of(elapsed: u128, timeout: u128) -> DelayState<u128> {
    if elapsed >= timeout {
        DelayState::Done((elapsed - timeout) as u128)
    } else {
        DelayState::Running
    }
}

/// The state of a delay of `timeout` milliseconds, `elapsed` milliseconds
/// after it began.
pub fn delay_state(elapsed: u128, timeout: u128) -> (r: DelayState<u128>)
    ensures
        r == delay_state_of(elapsed, timeout),
{
    if elapsed >= timeout {
        DelayState::Done(elapsed - timeout)
    } else {
        DelayState::Running
    }
}

/// A delay of a number of milliseconds, measured on the monotonic clock.
#[derive(Copy, Debug, Clone, PartialEq, Eq, Hash)]
pub struct SystemTimeDelay {
    instant: Instant,
    timeout: u128,
}

impl SystemTimeDelay {
    /// The length of the delay, in milliseconds.
    pub closed spec fn timeout(&self) -> u128 {
        self.timeout
    }

    /// The instant the delay starts from.
    pub closed spec fn start(&self) -> Instant {
        self.instant
    }

    /// A delay of `timeout` milliseconds, starting now.
    pub fn new(timeout: u128) -> (r: SystemTimeDelay)
        ensures
            r.timeout() == timeout,
    {
        SystemTimeDelay { instant: now(), timeout }
    }

    /// A delay of `timeout` milliseconds that began `offset` milliseconds
    /// ago (a positive offset), or that begins `-offset` milliseconds later
    /// (a negative one): its start is the clock's reading now, moved as
    /// `shift_spec` says; where the clock cannot represent the instant, the
    /// delay begins now.
    pub fn custom_timeline(timeout: u128, offset: i128) -> (r: SystemTimeDelay)
        ensures
            r.timeout() == timeout,
            exists|base: Instant| r.start() == shift_spec(base, offset),
    {
        let base = now();
        let instant = shift(base, offset);
        SystemTimeDelay { instant, timeout }
    }

    /// Starts the same delay again from now.
    pub fn restart(&mut self)
        ensures
            final(self).timeout() == old(self).timeout(),
    {
        *self = Self::new(self.timeout)
    }

    /// Whether the delay is over, and if so since how many milliseconds:
    /// the state of the delay after the milliseconds the clock says have
    /// passed since it began.
    pub fn ended(&self) -> (r: DelayState<u128>)
        ensures
            exists|e: u128| r == delay_state_of(e, self.timeout()),
    {
        let e = as_millis(elapsed(&self.instant));
        let r = delay_state(e, self.timeout);
        assert(r == delay_state_of(e, self.timeout()));
        r
    }
}

/// How a duration is best written: the unit, and the whole numbers in it.
/// Durations under a second are written with their nanoseconds, which the
/// display turns into micro- or milliseconds.
#[derive(Clone, Copy, Debug, PartialEq, Eq, Structural)]
pub enum DurationText {
    Nanos(u32),
    Micros(u32),
    Millis(u32),
    Secs(u64),
    MinutesSeconds(u64, u64),
    HoursMinutes(u64, u64),
    Days(u64),
}

/// How a duration of `secs` seconds and `nanos` nanoseconds is written.
pub open spec fn duration_text_of(secs: u64, nanos: u32) -> DurationText {
    if secs == 0 {
        if nanos < 1_000 {
            DurationText::Nanos(nanos)
        } else if nanos < 1_000_000 {
            DurationText::Micros(nanos)
        } else {
            DurationText::Millis(nanos)
        }
    } else if secs < 60 {
        DurationText::Secs(secs)
    } else if secs < 3_600 {
        DurationText::MinutesSeconds(secs / 60, secs % 60)
    } else if secs < 86_400 {
        DurationText::HoursMinutes(secs / 3_600, (secs % 3_600) / 60)
    } else {
        DurationText::Days(secs / 86_400)
    }
}

/// How a duration of `secs` seconds and `nanos` nanoseconds is written.
pub fn duration_text(secs: u64, nanos: u32) -> (r: DurationText)
    ensures
        r == duration_text_of(secs, nanos),
{
    if secs == 0 {
        if nanos < 1_000 {
            DurationText::Nanos(nanos)
        } else if nanos < 1_000_000 {
            DurationText::Micros(nanos)
        } else {
            DurationText::Millis(nanos)
        }
    } else if secs < 60 {
        DurationText::Secs(secs)
    } else if secs < 3_600 {
        DurationText::MinutesSeconds(secs / 60, secs % 60)
    } else if secs < 86_400 {
        DurationText::HoursMinutes(secs / 3_600, (secs % 3_600) / 60)
    } else {
        DurationText::Days(secs / 86_400)
    }
}

/// Runs `f` and measures how long it took.
pub fn timeit<F: Fn() -> T, T>(f: F) -> (r: (T, Duration))
    requires
        f.requires(()),
    ensures
        f.ensures((), r.0),
{
    let start = now();
    let output = f();
    (output, elapsed(&start))
}

/// Runs `f`, which may change what it captured, and measures how long it
/// took.
pub fn timeit_mut<F: FnMut() -> T, T>(mut f: F) -> (r: (T, Duration))
    requires
        f.requires(()),
    ensures
        f.ensures((), r.0),
{
    let start = now();
    let output = f();
    (output, elapsed(&start))
}

/// Each unit takes the whole durations it is meant for and splits them
/// exactly: under a second the nanoseconds in the unit their size calls
/// for; under a minute the seconds; under an hour whole minutes and the
/// seconds left (fewer than 60); under a day whole hours and the whole
/// minutes left (fewer than 60); beyond, whole days.
pub proof fn lemma_duration_text_units(secs: u64, nanos: u32)
    ensures
        secs == 0 && nanos < 1_000 ==> duration_text_of(secs, nanos) == DurationText::Nanos(nanos),
        secs == 0 && 1_000 <= nanos < 1_000_000 ==> duration_text_of(secs, nanos) == DurationText::Micros(nanos),
        secs == 0 && 1_000_000 <= nanos ==> duration_text_of(secs, nanos) == DurationText::Millis(nanos),
        1 <= secs < 60 ==> duration_text_of(secs, nanos) == DurationText::Secs(secs),
        60 <= secs < 3_600 ==> (duration_text_of(secs, nanos) matches DurationText::MinutesSeconds(m, s) && 1
            <= m < 60 && s < 60 && m * 60 + s == secs),
        3_600 <= secs < 86_400 ==> (duration_text_of(secs, nanos) matches DurationText::HoursMinutes(h, m) && 1
            <= h < 24 && m < 60 && h * 3_600 + m * 60 <= secs < h * 3_600 + m * 60 + 60),
        86_400 <= secs ==> (duration_text_of(secs, nanos) matches DurationText::Days(d) && 1 <= d && d * 86_400
            <= secs < d * 86_400 + 86_400),
{
    if 60 <= secs < 3_600 {
        assert((secs / 60) * 60 + secs % 60 == secs) by (nonlinear_arith)
            requires
                0 <= secs,
        ;
    }
    if 3_600 <= secs < 86_400 {
        let h = secs / 3_600;
        let rest = secs % 3_600;
        assert(h * 3_600 + rest == secs && rest < 3_600) by (nonlinear_arith)
            requires
                h == secs / 3_600,
                rest == secs % 3_600,
        ;
        assert((rest / 60) * 60 <= rest < (rest / 60) * 60 + 60) by (nonlinear_arith)
            requires
                0 <= rest,
        ;
        assert(1 <= h < 24) by (nonlinear_arith)
            requires
                h * 3_600 + rest == secs,
                0 <= rest < 3_600,
                3_600 <= secs < 86_400,
        ;
    }
    if 86_400 <= secs {
        let d = secs / 86_400;
        assert(d * 86_400 <= secs < d * 86_400 + 86_400 && 1 <= d) by (nonlinear_arith)
            requires
                d == secs / 86_400,
                86_400 <= secs,
        ;
    }
}

} // verus!
