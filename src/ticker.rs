//! The decisions of a tick source: its period, the helper thread's loop, and
//! its lifecycle with an idempotent teardown. The platform's timer, signal
//! handler or thread carries them out.
use vstd::prelude::*;

verus! {

/// What can go wrong with a tick source.
#[derive(Copy, Clone, Debug, PartialEq, Eq, Structural)]
pub enum Error {
    /// The tick source could not be installed.
    RegisterError,
    /// The tick source could not be removed cleanly.
    UnregisterError,
}

/// Nanoseconds in a second.
pub const NANOS_PER_SEC: u64 = 1_000_000_000;

/// A timer period split as an interval timer takes it.
#[derive(Copy, Clone, Debug, PartialEq, Eq, Structural)]
pub struct Interval {
    pub secs: i64,
    pub micros: i64,
}

/// The period of a tick at `frequency` Hz in nanoseconds, rounded down. No
/// tick source runs at 0 Hz.
pub fn period_nanos(frequency: u32) -> (r: Result<u64, Error>)
    ensures
        frequency == 0 ==> r == Err::<u64, Error>(Error::RegisterError),
        frequency > 0 ==> r == Ok::<u64, Error>(
            (NANOS_PER_SEC / frequency as u64) as u64,
        ),
{
    if frequency == 0 {
        Err(Error::RegisterError)
    } else {
        Ok(NANOS_PER_SEC / frequency as u64)
    }
}

/// The interval timer's setting for a tick at `frequency` Hz: whole seconds
/// and the microseconds beyond them.
pub fn timer_interval(frequency: u32) -> (r: Result<Interval, Error>)
    ensures
        frequency == 0 ==> r == Err::<Interval, Error>(Error::RegisterError),
        frequency > 0 ==> r == Ok::<Interval, Error>(
            Interval {
                secs: (NANOS_PER_SEC / frequency as u64 / NANOS_PER_SEC) as i64,
                micros: (NANOS_PER_SEC / frequency as u64 % NANOS_PER_SEC / 1000) as i64,
            },
        ),
{
    match period_nanos(frequency) {
        Err(e) => Err(e),
        Ok(p) => Ok(
            Interval {
                secs: (p / NANOS_PER_SEC) as i64,
                micros: (p % NANOS_PER_SEC / 1000) as i64,
            },
        ),
    }
}

/// What the helper thread found on its shutdown channel.
#[derive(Copy, Clone, Debug, PartialEq, Eq, Structural)]
pub enum ChannelPoll {
    Shutdown,
    Disconnected,
    Empty,
}

/// What the helper thread does next.
#[derive(Copy, Clone, Debug, PartialEq, Eq, Structural)]
pub enum TickAction {
    Stop,
    SleepThenTick { nanos: u64 },
}

/// The helper thread's step: it stops on a shutdown message or once the
/// channel is gone, and otherwise sleeps one period and ticks.
pub fn next_tick_action(poll: ChannelPoll, period: u64) -> (r: TickAction)
    ensures
        r == (match poll {
            ChannelPoll::Empty => TickAction::SleepThenTick { nanos: period },
            _ => TickAction::Stop,
        }),
{
    match poll {
        ChannelPoll::Empty => TickAction::SleepThenTick { nanos: period },
        _ => TickAction::Stop,
    }
}

/// Timing metadata for a collected report.
#[derive(Copy, Clone, Debug, PartialEq, Eq, Structural)]
pub struct ReportTiming {
    /// Frequency at which samples were collected.
    pub frequency: u32,
    /// Collection start time, in nanoseconds since the Unix epoch.
    pub start_time_nanos: u128,
    /// Collection duration, in nanoseconds.
    pub duration_nanos: u128,
}

impl Default for ReportTiming {
    fn default() -> (r: ReportTiming)
        ensures
            r == (ReportTiming { frequency: 1, start_time_nanos: 0, duration_nanos: 0 }),
    {
        ReportTiming { frequency: 1, start_time_nanos: 0, duration_nanos: 0 }
    }
}

/// What a teardown returns: nothing to do once the source is gone, else the
/// platform's outcome.
pub open spec fn end_result(running: bool, unregistered: bool) -> Result<(), Error> {
    if !running || unregistered {
        Ok(())
    } else {
        Err(Error::UnregisterError)
    }
}

/// A tick source's record: its frequency, when it started, and whether it is
/// still installed.
pub struct Ticker {
    frequency: u32,
    start_time_nanos: u128,
    running: bool,
}

impl Ticker {
    pub closed spec fn spec_frequency(&self) -> u32 {
        self.frequency
    }

    pub closed spec fn spec_start_time_nanos(&self) -> u128 {
        self.start_time_nanos
    }

    pub closed spec fn spec_running(&self) -> bool {
        self.running
    }

    /// Records a tick source at `frequency` Hz started at `start_time_nanos`;
    /// `registered` tells whether the platform installed it. A source at 0 Hz
    /// or one the platform refused is a `RegisterError`.
    pub fn new(frequency: u32, start_time_nanos: u128, registered: bool) -> (r: Result<
        Ticker,
        Error,
    >)
        ensures
            (frequency > 0 && registered) <==> r is Ok,
            r is Err ==> r == Err::<Ticker, Error>(Error::RegisterError),
            r matches Ok(t) ==> t.spec_frequency() == frequency && t.spec_start_time_nanos()
                == start_time_nanos && t.spec_running(),
    {
        if frequency == 0 || !registered {
            Err(Error::RegisterError)
        } else {
            Ok(Ticker { frequency, start_time_nanos, running: true })
        }
    }

    /// Whether the platform's tick source is still to be removed.
    pub fn is_running(&self) -> (r: bool)
        ensures
            r == self.spec_running(),
    {
        self.running
    }

    /// The timing of a report that has run for `elapsed_nanos`.
    pub fn timing(&self, elapsed_nanos: u128) -> (r: ReportTiming)
        ensures
            r == (ReportTiming {
                frequency: self.spec_frequency(),
                start_time_nanos: self.spec_start_time_nanos(),
                duration_nanos: elapsed_nanos,
            }),
    {
        ReportTiming {
            frequency: self.frequency,
            start_time_nanos: self.start_time_nanos,
            duration_nanos: elapsed_nanos,
        }
    }

    /// Tears the tick source down; `unregistered` tells whether the platform
    /// removed it. Once it is gone, further teardowns succeed and change
    /// nothing.
    pub fn end(&mut self, unregistered: bool) -> (r: Result<(), Error>)
        ensures
            r == end_result(old(self).spec_running(), unregistered),
            !final(self).spec_running(),
            final(self).spec_frequency() == old(self).spec_frequency(),
            final(self).spec_start_time_nanos() == old(self).spec_start_time_nanos(),
    {
        if !self.running {
            return Ok(());
        }
        self.running = false;
        if unregistered {
            Ok(())
        } else {
            Err(Error::UnregisterError)
        }
    }
}

/// A second teardown of a tick source succeeds whatever the first returned,
/// and every teardown returns success or `UnregisterError`.
pub proof fn lemma_end_idempotent(running: bool, first: bool, second: bool)
    ensures
        end_result(false, second) == Ok::<(), Error>(()),
        end_result(running, first) == Ok::<(), Error>(()) || end_result(running, first) == Err::<
            (),
            Error,
        >(Error::UnregisterError),
{
}

} // verus!
