use asus_backlight_idle::backlight::{Backlight, Wake, POLL_MAX_TIMEOUT_MS};

const SEC: u64 = 1_000_000_000;

#[test]
fn starting_lit() {
    let b = Backlight::start(Some(2), 5, 30);
    assert_eq!(b, Backlight { active_level: 2, idle: false, deadline: 30_000_000_005 });
}

#[test]
fn starting_dark() {
    let b = Backlight::start(Some(0), 0, 30);
    assert_eq!(b, Backlight { active_level: 1, idle: true, deadline: 30_000_000_000 });
}

#[test]
fn starting_without_a_reading() {
    let b = Backlight::start(None, 0, 1);
    assert_eq!(b, Backlight { active_level: 1, idle: false, deadline: 1_000_000_000 });
}

#[test]
fn waiting() {
    let mut b = Backlight::start(Some(1), 0, 30);
    assert_eq!(b.poll_timeout(0), 30_000);
    assert_eq!(b.poll_timeout(1), 29_999);
    assert_eq!(b.poll_timeout(30 * SEC - 1), 0);
    assert_eq!(b.poll_timeout(40 * SEC), 0);
    b.dim();
    assert_eq!(b.poll_timeout(0), -1);
    let long = Backlight::start(Some(1), 0, u64::MAX);
    assert_eq!(long.poll_timeout(0), POLL_MAX_TIMEOUT_MS);
    assert_eq!(long.deadline, 18_446_744_073_709_551_615_000_000_000);
    assert_eq!(Backlight::start(Some(1), 0, 86_400).poll_timeout(0), 86_400_000);
    assert_eq!(Backlight::start(Some(1), 0, 86_401).poll_timeout(0), 86_400_000);
}

#[test]
fn being_due() {
    let mut b = Backlight::start(Some(1), 0, 1);
    assert!(!b.is_due(SEC - 1));
    assert!(b.is_due(SEC));
    b.dim();
    assert!(!b.is_due(2 * SEC));
    b.touch(2 * SEC, 1);
    assert!(!b.is_due(2 * SEC));
    assert!(b.is_due(3 * SEC));
}

#[test]
fn waking() {
    let mut b = Backlight { active_level: 3, idle: true, deadline: 0 };
    assert_eq!(b.wake(Some(0)), Wake::Relight(3));
    assert_eq!(b.wake(None), Wake::Relight(3));
    assert_eq!(b.wake(Some(2)), Wake::AlreadyLit(2));
    assert_eq!(b.active_level, 2);
    b.adopt(Some(0));
    b.adopt(None);
    assert_eq!(b.active_level, 2);
    b.adopt(Some(1));
    assert_eq!(b.active_level, 1);
}
