use gol_core::control::{should_terminate, Delay, Pause};
use gol_core::interval::Interval;

fn nanos(i: Interval) -> u128 {
    i.as_secs() as u128 * 1_000_000_000 + i.subsec_nanos() as u128
}

#[test]
fn delay_keys() {
    let mut d = Delay::new(Interval::from_nanos(1_000), Interval::from_nanos(0));
    d.check_user_input('k');
    assert_eq!(nanos(d.duration()), 500);
    d.check_user_input('j');
    assert_eq!(nanos(d.duration()), 1_000);
    d.check_user_input('x');
    assert_eq!(nanos(d.duration()), 1_000);
    d.check_user_input('k');
    d.check_user_input('k');
    d.check_user_input('k');
    assert_eq!(nanos(d.duration()), 125);
    d.check_user_input('k');
    assert_eq!(nanos(d.duration()), 62);
}

#[test]
fn delay_doubles_past_u64_nanoseconds() {
    let mut d = Delay::new(Interval::from_nanos(u64::MAX), Interval::from_nanos(0));
    d.check_user_input('j');
    assert_eq!(nanos(d.duration()), 2 * u64::MAX as u128);
    d.check_user_input('k');
    assert_eq!(nanos(d.duration()), u64::MAX as u128);
}

#[test]
fn delay_waits_until_duration_passes() {
    let mut d = Delay::new(Interval::from_nanos(100), Interval::from_nanos(1_000));
    assert!(d.should_wait(Interval::from_nanos(1_000)));
    assert!(d.should_wait(Interval::from_nanos(1_099)));
    assert!(!d.should_wait(Interval::from_nanos(1_100)));
    d.executed(Interval::from_nanos(2_000));
    assert!(d.should_wait(Interval::from_nanos(2_050)));
    assert!(!d.should_wait(Interval::from_nanos(2_100)));
    // A clock that went back still waits.
    assert!(d.should_wait(Interval::from_nanos(10)));
}

#[test]
fn intervals_like_durations() {
    let i = Interval::new(3, 1_500_000_000);
    assert_eq!((i.as_secs(), i.subsec_nanos()), (4, 500_000_000));
    let h = Interval::new(3, 1).halved();
    assert_eq!((h.as_secs(), h.subsec_nanos()), (1, 500_000_000));
    let d = Interval::new(u64::MAX / 2 + 1, 0).checked_double();
    assert!(d.is_none());
    let d = Interval::new(u64::MAX / 2, 600_000_000).checked_double().unwrap();
    assert_eq!((d.as_secs(), d.subsec_nanos()), (u64::MAX, 200_000_000));
    let d = Interval::new(u64::MAX / 2, 400_000_000).checked_double().unwrap();
    assert_eq!((d.as_secs(), d.subsec_nanos()), (u64::MAX - 1, 800_000_000));
    assert!(Interval::new(1, 0).lt(&Interval::new(1, 1)));
    assert!(!Interval::new(2, 0).lt(&Interval::new(1, 999_999_999)));
    let s = Interval::new(2, 100).saturating_sub(&Interval::new(1, 200));
    assert_eq!((s.as_secs(), s.subsec_nanos()), (0, 999_999_900));
    let z = Interval::new(1, 0).saturating_sub(&Interval::new(2, 0));
    assert_eq!((z.as_secs(), z.subsec_nanos()), (0, 0));
}

#[test]
fn pause_toggles() {
    let mut p = Pause::new(false);
    p.execute_user_input('a');
    assert!(!p.is_paused());
    p.execute_user_input(' ');
    assert!(p.is_paused());
    p.execute_user_input(' ');
    assert!(!p.is_paused());
}

#[test]
fn terminate_key() {
    assert!(should_terminate('q'));
    assert!(!should_terminate('Q'));
    assert!(!should_terminate(' '));
}
