use clock::cli::{Action, Cli, TimeStandard};
use clock::clock::Clock;
use clock::timestamp::CalendarTime;

#[test]
fn cli_getters() {
    let c = Cli::new(Action::SetTime, TimeStandard::Rfc2822, Some("Tue, 1 Jul 2003 10:52:37 +0200".to_string()));
    assert_eq!(*c.get_action(), Action::SetTime);
    assert_eq!(*c.get_std(), TimeStandard::Rfc2822);
    assert_eq!(c.get_datetime(), Some("Tue, 1 Jul 2003 10:52:37 +0200"));
    let d = Cli::new(Action::Get, TimeStandard::Rfc3339, None);
    assert_eq!(*d.get_action(), Action::Get);
    assert_eq!(*d.get_std(), TimeStandard::Rfc3339);
    assert_eq!(d.get_datetime(), None);
}

#[test]
fn clock_reads_current_time() {
    let now = Clock::get().unwrap();
    assert!(now.secs > 1_600_000_000);
    assert!(now.nanos < 1_000_000_000);
}

#[test]
fn clock_elapsed_before_and_after_epoch() {
    assert_eq!(Clock::from_elapsed(true, 5, 250), Some(CalendarTime { secs: 5, nanos: 250 }));
    assert_eq!(Clock::from_elapsed(false, 5, 0), Some(CalendarTime { secs: -5, nanos: 0 }));
    assert_eq!(Clock::from_elapsed(false, 5, 250), Some(CalendarTime { secs: -6, nanos: 999_999_750 }));
    assert_eq!(Clock::from_elapsed(true, 0, 0), Some(CalendarTime { secs: 0, nanos: 0 }));
    assert!(Clock::from_elapsed(true, 10_000_000_000_000, 999_999_999).is_some());
    assert!(Clock::from_elapsed(true, 10_000_000_000_001, 0).is_none());
    assert!(Clock::from_elapsed(false, 10_000_000_000_000, 0).is_some());
    assert!(Clock::from_elapsed(false, 10_000_000_000_000, 1).is_none());
    assert!(Clock::from_elapsed(false, u64::MAX, 0).is_none());
}
