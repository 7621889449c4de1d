use wasmprof::ticker::{
    next_tick_action, period_nanos, timer_interval, ChannelPoll, Error, Interval, TickAction,
};
use wasmprof::{ReportTiming, Ticker};

#[test]
fn end_twice_succeeds_the_second_time() {
    let mut t = Ticker::new(100, 0, true).unwrap();
    assert!(t.is_running());
    assert_eq!(t.end(true), Ok(()));
    assert!(!t.is_running());
    assert_eq!(t.end(false), Ok(()));
}

#[test]
fn failed_teardown_is_an_unregister_error_once() {
    let mut t = Ticker::new(100, 0, true).unwrap();
    assert_eq!(t.end(false), Err(Error::UnregisterError));
    assert_eq!(t.end(false), Ok(()));
}

#[test]
fn refused_or_zero_hz_source_is_a_register_error() {
    assert!(matches!(Ticker::new(100, 0, false), Err(Error::RegisterError)));
    assert!(matches!(Ticker::new(0, 0, true), Err(Error::RegisterError)));
}

#[test]
fn timing_reports_frequency_start_and_duration() {
    let t = Ticker::new(250, 1_000, true).unwrap();
    assert_eq!(
        t.timing(42),
        ReportTiming { frequency: 250, start_time_nanos: 1_000, duration_nanos: 42 }
    );
}

#[test]
fn default_timing() {
    assert_eq!(
        ReportTiming::default(),
        ReportTiming { frequency: 1, start_time_nanos: 0, duration_nanos: 0 }
    );
}

#[test]
fn periods() {
    assert_eq!(period_nanos(1000), Ok(1_000_000));
    assert_eq!(period_nanos(3), Ok(333_333_333));
    assert_eq!(period_nanos(0), Err(Error::RegisterError));
    assert_eq!(timer_interval(1), Ok(Interval { secs: 1, micros: 0 }));
    assert_eq!(timer_interval(100), Ok(Interval { secs: 0, micros: 10_000 }));
    assert_eq!(timer_interval(500_000), Ok(Interval { secs: 0, micros: 2 }));
    assert_eq!(timer_interval(0), Err(Error::RegisterError));
}

#[test]
fn helper_thread_steps() {
    assert_eq!(next_tick_action(ChannelPoll::Empty, 7), TickAction::SleepThenTick { nanos: 7 });
    assert_eq!(next_tick_action(ChannelPoll::Shutdown, 7), TickAction::Stop);
    assert_eq!(next_tick_action(ChannelPoll::Disconnected, 7), TickAction::Stop);
}
