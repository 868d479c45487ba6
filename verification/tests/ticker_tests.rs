use voxel_core::ticker::{Ticker, SECOND};

#[test]
fn tick_rate_gives_the_period() {
    assert_eq!(Ticker::from_tick_rate(0), None);
    assert_eq!(Ticker::from_tick_rate(30), Some(Ticker { period: 33_333_333, behind: 0 }));
    assert_eq!(Ticker::from_tick_rate(1), Some(Ticker { period: SECOND, behind: 0 }));
    assert_eq!(Ticker::from_tick_rate(1_000_000_000), Some(Ticker { period: 1, behind: 0 }));
    assert_eq!(Ticker::from_tick_rate(1_000_000_001), None);
}

#[test]
fn elapsed_time_becomes_ticks() {
    let mut t = Ticker::from_tick_rate(4).unwrap();
    assert_eq!(t.period, 250_000_000);
    assert_eq!(t.advance(100_000_000), 0);
    assert_eq!(t.behind, 100_000_000);
    assert_eq!(t.advance(150_000_000), 1);
    assert_eq!(t.behind, 0);
    assert_eq!(t.advance(249_999_999), 0);
    assert_eq!(t.advance(1), 1);
    assert_eq!(t.advance(1_100_000_000), 4);
    assert_eq!(t.behind, 100_000_000);
    assert_eq!(t.advance(0), 0);
    assert_eq!(t.behind, 100_000_000);
}

#[test]
fn long_pauses_do_not_overflow() {
    let mut t = Ticker { period: 1, behind: 0 };
    assert_eq!(t.advance(u64::MAX), u64::MAX);
    assert_eq!(t.behind, 0);
    let mut u = Ticker { period: u64::MAX, behind: u64::MAX - 1 };
    assert_eq!(u.advance(u64::MAX), 1);
    assert_eq!(u.behind, u64::MAX - 1);
    let mut v = Ticker { period: 3, behind: 2 };
    assert_eq!(v.advance(u64::MAX), 6148914691236517205);
    assert_eq!(v.behind, 2);
    assert_eq!(v.advance(2), 1);
    assert_eq!(v.behind, 1);
}
