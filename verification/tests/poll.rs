use asus_backlight_idle::poll;
use asus_backlight_idle::poll::{
    drain, find_ready, has_report, is_readable, poll_end, poll_set, Drain, HotplugRead, PollEnd,
};

#[test]
fn flags_are_those_of_the_system() {
    assert_eq!(poll::POLLIN, libc::POLLIN);
    assert_eq!(poll::POLLERR, libc::POLLERR);
    assert_eq!(poll::POLLHUP, libc::POLLHUP);
}

#[test]
fn how_polls_end() {
    assert_eq!(poll_end(2, false, false), PollEnd::Ready);
    assert_eq!(poll_end(0, false, true), PollEnd::TimedOut);
    assert_eq!(poll_end(-1, true, true), PollEnd::Shutdown);
    assert_eq!(poll_end(-1, true, false), PollEnd::Retry);
    assert_eq!(poll_end(-1, false, true), PollEnd::Failed);
}

#[test]
fn hotplug_descriptor_comes_first() {
    assert_eq!(poll_set(3, &vec![5, 4]), vec![3, 5, 4]);
    assert_eq!(poll_set(3, &vec![]), vec![3]);
}

#[test]
fn reports() {
    assert!(is_readable(libc::POLLIN | libc::POLLHUP));
    assert!(!is_readable(libc::POLLHUP));
    assert!(has_report(libc::POLLIN));
    assert!(has_report(libc::POLLERR));
    assert!(has_report(libc::POLLHUP));
    assert!(!has_report(libc::POLLNVAL));
    assert!(!has_report(0));
}

#[test]
fn devices_are_found_one_place_after_the_first() {
    assert_eq!(find_ready(&vec![libc::POLLIN, 0, libc::POLLIN, libc::POLLERR, 0, libc::POLLHUP]), vec![1, 2, 4]);
    assert!(find_ready(&vec![libc::POLLIN]).is_empty());
}

#[test]
fn draining_notifications() {
    assert_eq!(drain(HotplugRead::Events(3)), Drain::More);
    assert_eq!(drain(HotplugRead::Events(0)), Drain::Done);
    assert_eq!(drain(HotplugRead::WouldBlock), Drain::Done);
    assert_eq!(drain(HotplugRead::UnexpectedEof), Drain::Done);
    assert_eq!(drain(HotplugRead::Failed), Drain::Failed);
}
