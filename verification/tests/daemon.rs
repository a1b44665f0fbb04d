use asus_backlight_idle::daemon::{Action, Daemon, Event, Note};
use asus_backlight_idle::poll::HotplugRead;
use evdev::InputEvent;

const SEC: u64 = 1_000_000_000;

struct Bench {
    daemon: Daemon<u32>,
    action: Action,
    note: Option<Note<u32>>,
    now: u64,
}

impl Bench {
    fn tell(&mut self, event: Event<u32>) {
        let step = self.daemon.step(event, self.now).expect("the event is an answer");
        self.action = step.action;
        self.note = step.note;
    }

    fn polled(&mut self, revents: &[i16]) {
        let rc = revents.iter().filter(|r| **r != 0).count() as i32;
        self.tell(Event::Polled { rc, interrupted: false, shutdown: false, revents: revents.to_vec() });
    }

    fn interrupted(&mut self, shutdown: bool) {
        let revents = vec![0; self.daemon.watches().len() + 1];
        self.tell(Event::Polled { rc: -1, interrupted: true, shutdown, revents });
    }

    fn listed(&mut self, paths: &[&str]) {
        self.tell(Event::Listed(paths.iter().map(|s| s.to_string()).collect()));
    }

    fn paths(&self) -> Vec<&str> {
        self.daemon.watches().iter().map(|w| w.path.as_str()).collect()
    }
}

fn key() -> Event<u32> {
    Event::Fetched(vec![InputEvent::new(4, 4, 30), InputEvent::new(1, 30, 1), InputEvent::new(0, 0, 0)])
}

fn noise() -> Event<u32> {
    Event::Fetched(vec![InputEvent::new(0, 0, 0), InputEvent::new(0x11, 1, 1)])
}

/// A daemon with the given devices, an idle time of five seconds and the given brightness,
/// started at the moment 0 and waiting for input.
fn started(devices: &[&str], reading: Option<u8>) -> Bench {
    let (daemon, action) = Daemon::new(5);
    let mut bench = Bench { daemon, action, note: None, now: 0 };
    assert!(matches!(bench.action, Action::ListDevices));
    bench.listed(devices);
    for (i, device) in devices.iter().enumerate() {
        assert!(matches!(&bench.action, Action::Open(path) if path == device));
        bench.tell(Event::Opened(i as u32, true));
        assert!(matches!(&bench.note, Some(Note::Attached(path)) if path == device));
    }
    assert!(matches!(bench.action, Action::ReadLed));
    bench.tell(Event::LedRead(reading));
    if let Some(level) = reading {
        assert!(matches!(bench.action, Action::WriteLed(l) if l == level));
        bench.tell(Event::LedWritten(true));
        assert!(bench.note.is_none());
    } else {
        assert!(matches!(bench.note, Some(Note::LedMissing)));
    }
    assert!(matches!(bench.action, Action::ReadLed));
    bench.tell(Event::LedRead(reading));
    let level = reading.unwrap_or(1);
    assert!(matches!(bench.note, Some(Note::Started(n, l)) if n == devices.len() && l == level));
    bench
}

fn dim(bench: &mut Bench, reading: Option<u8>) {
    let quiet = vec![0; bench.daemon.watches().len() + 1];
    bench.polled(&quiet);
    assert!(matches!(bench.action, Action::ReadLed));
    bench.tell(Event::LedRead(reading));
    assert!(matches!(bench.action, Action::WriteLed(0)));
    bench.tell(Event::LedWritten(true));
    assert!(matches!(bench.action, Action::Poll(-1)));
}

#[test]
fn a_lit_backlight_is_dimmed_after_the_idle_time() {
    let mut bench = started(&["a"], Some(2));
    assert!(matches!(bench.action, Action::Poll(5000)));
    bench.now = 5 * SEC - 1;
    bench.polled(&[0, 0]);
    assert!(matches!(bench.action, Action::Poll(0)));
    bench.now = 5 * SEC;
    dim(&mut bench, Some(2));
    assert!(matches!(bench.note, Some(Note::Dimmed(2))));
}

#[test]
fn typing_keeps_it_lit() {
    let mut bench = started(&["a"], Some(2));
    for round in 1..10 {
        bench.now = 4 * round * SEC;
        bench.polled(&[0, 1]);
        assert!(matches!(bench.action, Action::Fetch(0)));
        bench.tell(key());
        assert!(matches!(bench.action, Action::Poll(5000)));
    }
}

#[test]
fn noise_does_not_keep_it_lit() {
    let mut bench = started(&["a"], Some(2));
    bench.now = 4 * SEC;
    bench.polled(&[0, 1]);
    bench.tell(noise());
    assert!(matches!(bench.action, Action::Poll(1000)));
    bench.now = 5 * SEC;
    bench.polled(&[0, 1]);
    bench.tell(noise());
    assert!(matches!(bench.action, Action::ReadLed));
}

#[test]
fn the_chosen_level_comes_back() {
    let mut bench = started(&["a"], Some(1));
    bench.now = 5 * SEC;
    dim(&mut bench, Some(3));
    assert!(matches!(bench.note, Some(Note::Dimmed(3))));
    bench.now = 60 * SEC;
    bench.polled(&[0, 1]);
    bench.tell(noise());
    assert!(matches!(bench.action, Action::Poll(-1)));
    bench.polled(&[0, 1]);
    bench.tell(key());
    assert!(matches!(bench.action, Action::ReadLed));
    bench.tell(Event::LedRead(Some(0)));
    assert!(matches!(bench.action, Action::WriteLed(3)));
    bench.tell(Event::LedWritten(true));
    assert!(matches!(bench.note, Some(Note::Relit(3))));
    assert!(matches!(bench.action, Action::Poll(5000)));
}

#[test]
fn a_manual_relight_is_respected() {
    let mut bench = started(&["a"], Some(1));
    bench.now = 5 * SEC;
    dim(&mut bench, Some(1));
    bench.polled(&[0, 1]);
    bench.tell(key());
    bench.tell(Event::LedRead(Some(2)));
    assert!(matches!(bench.note, Some(Note::AlreadyLit(2))));
    assert!(matches!(bench.action, Action::Poll(5000)));
    bench.now = 10 * SEC;
    dim(&mut bench, None);
    assert!(matches!(bench.note, Some(Note::Dimmed(2))));
}

#[test]
fn a_backlight_that_was_off_is_lit_by_the_first_key() {
    let mut bench = started(&["a"], Some(0));
    assert!(matches!(bench.action, Action::Poll(-1)));
    bench.polled(&[0, 1]);
    bench.tell(key());
    assert!(matches!(bench.action, Action::ReadLed));
    bench.tell(Event::LedRead(Some(0)));
    assert!(matches!(bench.action, Action::WriteLed(1)));
}

#[test]
fn a_backlight_that_cannot_be_read_counts_as_lit() {
    let mut bench = started(&[], None);
    assert!(matches!(bench.action, Action::Poll(5000)));
    bench.now = 6 * SEC;
    dim(&mut bench, None);
    assert!(matches!(bench.note, Some(Note::Dimmed(1))));
}

#[test]
fn failed_writes_change_nothing_else() {
    let mut bench = started(&["a"], Some(2));
    bench.now = 5 * SEC;
    bench.polled(&[0, 0]);
    bench.tell(Event::LedRead(Some(2)));
    bench.tell(Event::LedWritten(false));
    assert!(matches!(bench.note, Some(Note::WriteFailed)));
    assert!(matches!(bench.action, Action::Poll(-1)));
    bench.polled(&[0, 1]);
    bench.tell(key());
    bench.tell(Event::LedRead(None));
    assert!(matches!(bench.action, Action::WriteLed(2)));
    bench.tell(Event::LedWritten(false));
    assert!(matches!(bench.note, Some(Note::WriteFailed)));
    assert!(matches!(bench.action, Action::Poll(5000)));
}

#[test]
fn a_failed_check_is_reported() {
    let (daemon, action) = Daemon::new(5);
    let mut bench = Bench { daemon, action, note: None, now: 0 };
    bench.listed(&[]);
    bench.tell(Event::LedRead(Some(1)));
    bench.tell(Event::LedWritten(false));
    assert!(matches!(bench.note, Some(Note::CheckFailed)));
    assert!(matches!(bench.action, Action::ReadLed));
}

#[test]
fn devices_come_and_go() {
    let mut bench = started(&["a", "b"], Some(1));
    bench.polled(&[1, 0, 0]);
    assert!(matches!(bench.action, Action::ReadHotplug));
    bench.tell(Event::HotplugRead(HotplugRead::Events(2)));
    assert!(matches!(bench.action, Action::ReadHotplug));
    bench.tell(Event::HotplugRead(HotplugRead::WouldBlock));
    assert!(matches!(bench.action, Action::ListDevices));
    bench.listed(&["b", "c", "d", "e"]);
    assert_eq!(bench.paths(), vec!["b"]);
    assert!(matches!(&bench.action, Action::Open(p) if p == "c"));
    bench.tell(Event::OpenFailed);
    assert!(bench.note.is_none());
    assert!(matches!(&bench.action, Action::Open(p) if p == "d"));
    bench.tell(Event::Opened(7, false));
    assert!(bench.note.is_none());
    assert!(matches!(&bench.action, Action::Open(p) if p == "e"));
    bench.tell(Event::Opened(8, true));
    assert!(matches!(&bench.note, Some(Note::Attached(path)) if path == "e"));
    assert_eq!(bench.paths(), vec!["b", "e"]);
    assert!(matches!(bench.action, Action::Poll(5000)));
}

#[test]
fn notifications_without_events_cause_no_rescan() {
    let mut bench = started(&["a"], Some(1));
    bench.polled(&[1, 0]);
    bench.tell(Event::HotplugRead(HotplugRead::Events(0)));
    assert!(matches!(bench.action, Action::Poll(5000)));
}

#[test]
fn broken_devices_are_dropped_and_listed_anew() {
    let mut bench = started(&["a", "b", "c"], Some(1));
    bench.now = SEC;
    bench.polled(&[0, 16, 1, 8]);
    assert!(matches!(bench.action, Action::Fetch(0)));
    bench.tell(Event::FetchFailed);
    assert!(matches!(bench.action, Action::Fetch(1)));
    bench.tell(key());
    assert!(matches!(bench.action, Action::Fetch(2)));
    bench.tell(Event::FetchFailed);
    match &bench.note {
        Some(Note::Removed(watches)) => {
            let paths: Vec<&str> = watches.iter().map(|w| w.path.as_str()).collect();
            assert_eq!(paths, vec!["c", "a"]);
        }
        _ => panic!("the removed devices are reported"),
    }
    assert_eq!(bench.paths(), vec!["b"]);
    assert!(matches!(bench.action, Action::ListDevices));
    bench.listed(&["a", "b"]);
    assert!(matches!(&bench.action, Action::Open(p) if p == "a"));
    bench.tell(Event::Opened(9, true));
    assert_eq!(bench.paths(), vec!["b", "a"]);
    assert!(matches!(bench.action, Action::Poll(5000)));
}

#[test]
fn a_rescan_may_end_in_dimming() {
    let mut bench = started(&["a"], Some(1));
    bench.polled(&[1, 0]);
    bench.tell(Event::HotplugRead(HotplugRead::Events(1)));
    bench.tell(Event::HotplugRead(HotplugRead::UnexpectedEof));
    bench.now = 5 * SEC;
    bench.listed(&["a"]);
    assert!(matches!(bench.action, Action::ReadLed));
}

#[test]
fn signals() {
    let mut bench = started(&["a"], Some(1));
    bench.now = 6 * SEC;
    bench.interrupted(false);
    assert!(matches!(bench.action, Action::Poll(0)));
    bench.interrupted(true);
    assert!(matches!(bench.action, Action::Stop));
}

#[test]
fn failures_end_the_daemon() {
    let mut bench = started(&[], Some(1));
    bench.tell(Event::Polled { rc: -1, interrupted: false, shutdown: false, revents: vec![0] });
    assert!(matches!(bench.action, Action::Fail));
    let mut bench = started(&[], Some(1));
    bench.polled(&[1]);
    bench.tell(Event::HotplugRead(HotplugRead::Failed));
    assert!(matches!(bench.action, Action::Fail));
}

#[test]
fn what_is_no_answer_is_not_taken() {
    let mut bench = started(&["a"], Some(1));
    assert!(bench.daemon.step(Event::LedRead(Some(1)), 0).is_none());
    assert!(bench.daemon.step(Event::OpenFailed, 0).is_none());
    let short = Event::Polled { rc: 1, interrupted: false, shutdown: false, revents: vec![1] };
    assert!(bench.daemon.step(short, 0).is_none());
    bench.polled(&[0, 0]);
    assert!(matches!(bench.action, Action::Poll(5000)));
}

#[test]
fn devices_can_be_reached_to_be_read() {
    let mut bench = started(&["a", "b"], Some(1));
    *bench.daemon.device_mut(1) += 40;
    assert_eq!(bench.daemon.watches()[0].dev, 0);
    assert_eq!(bench.daemon.watches()[1].dev, 41);
    assert_eq!(bench.paths(), vec!["a", "b"]);
}

#[test]
fn which_key_it_was_makes_no_difference() {
    for code in [1u16, 30, 272] {
        for value in [0, 1, 2] {
            let mut bench = started(&["a"], Some(2));
            bench.now = SEC;
            bench.polled(&[0, 1]);
            bench.tell(Event::Fetched(vec![InputEvent::new(1, code, value)]));
            assert!(bench.note.is_none());
            assert!(matches!(bench.action, Action::Poll(5000)));
        }
    }
}

#[test]
fn what_was_typed_leaves_no_trace_over_many_rounds() {
    let typed = [(1u16, 30u16, 1), (1, 48, 0), (2, 0, -3), (3, 53, 700)];
    let mut benches: Vec<Bench> = (0..typed.len()).map(|_| started(&["a"], Some(2))).collect();
    for round in 1..20u64 {
        for (i, bench) in benches.iter_mut().enumerate() {
            let (kind, code, value) = typed[(i + round as usize) % typed.len()];
            bench.now = 3 * round * SEC;
            bench.polled(&[0, 1]);
            bench.tell(Event::Fetched(vec![InputEvent::new(kind, code, value)]));
            assert!(bench.note.is_none());
            assert!(matches!(bench.action, Action::Poll(5000)));
        }
    }
}

#[test]
fn only_devices_told_of_as_interactive_are_watched() {
    let (daemon, action) = Daemon::new(5);
    let mut bench = Bench { daemon, action, note: None, now: 0 };
    bench.listed(&["a", "b", "c", "d"]);
    for (dev, interactive) in [(1, false), (2, true), (3, false), (4, true)] {
        bench.tell(Event::Opened(dev, interactive));
    }
    let watched: Vec<u32> = bench.daemon.watches().iter().map(|w| w.dev).collect();
    assert_eq!(watched, vec![2, 4]);
}

#[test]
fn another_spelling_of_a_path_is_no_new_device() {
    let mut bench = started(&["/d//event0", "/d/event1"], Some(1));
    bench.polled(&[1, 0, 0]);
    bench.tell(Event::HotplugRead(HotplugRead::Events(1)));
    bench.tell(Event::HotplugRead(HotplugRead::WouldBlock));
    bench.listed(&["/d/event0", "/d/./event1"]);
    assert_eq!(bench.paths(), vec!["/d//event0", "/d/event1"]);
    assert!(matches!(bench.action, Action::Poll(5000)));
}

#[test]
fn the_level_is_the_last_one_read() {
    let mut bench = started(&["a"], Some(2));
    bench.now = 5 * SEC;
    dim(&mut bench, None);
    assert!(matches!(bench.note, Some(Note::Dimmed(2))));
    bench.polled(&[0, 1]);
    bench.tell(key());
    bench.tell(Event::LedRead(Some(4)));
    assert!(matches!(bench.note, Some(Note::AlreadyLit(4))));
    bench.now = 10 * SEC;
    dim(&mut bench, Some(0));
    assert!(matches!(bench.note, Some(Note::Dimmed(4))));
    bench.polled(&[0, 1]);
    bench.tell(key());
    bench.tell(Event::LedRead(None));
    assert!(matches!(bench.action, Action::WriteLed(4)));
    bench.tell(Event::LedWritten(true));
    bench.now = 15 * SEC;
    dim(&mut bench, None);
    assert!(matches!(bench.note, Some(Note::Dimmed(4))));
}

#[test]
fn the_reading_of_the_check_is_not_the_level() {
    let (daemon, action) = Daemon::new(5);
    let mut bench = Bench { daemon, action, note: None, now: 0 };
    bench.listed(&[]);
    bench.tell(Event::LedRead(Some(7)));
    assert!(matches!(bench.action, Action::WriteLed(7)));
    bench.tell(Event::LedWritten(true));
    bench.tell(Event::LedRead(None));
    assert!(matches!(bench.note, Some(Note::Started(0, 1))));
    bench.now = 5 * SEC;
    dim(&mut bench, None);
    assert!(matches!(bench.note, Some(Note::Dimmed(1))));
}

#[test]
fn which_device_was_used_makes_no_difference() {
    for (first, second) in [(key(), noise()), (noise(), key()), (key(), key())] {
        let mut bench = started(&["a", "b"], Some(2));
        bench.now = SEC;
        bench.polled(&[0, 1, 1]);
        bench.tell(first);
        assert!(bench.note.is_none());
        assert!(matches!(bench.action, Action::Fetch(1)));
        bench.tell(second);
        assert!(bench.note.is_none());
        assert!(matches!(bench.action, Action::Poll(5000)));
    }
}

#[test]
fn the_state_of_a_device_makes_no_difference() {
    for state in [0, 1, 1000] {
        let mut bench = started(&["a", "b", "c"], Some(2));
        bench.now = SEC;
        bench.polled(&[0, 1, 8, 0]);
        *bench.daemon.device_mut(0) += state;
        bench.tell(key());
        assert!(matches!(bench.action, Action::Fetch(1)));
        *bench.daemon.device_mut(1) += state;
        bench.tell(Event::FetchFailed);
        assert!(matches!(&bench.note, Some(Note::Removed(gone)) if gone.len() == 1 && gone[0].path == "b"));
        assert!(matches!(bench.action, Action::ListDevices));
        bench.listed(&["a", "c"]);
        assert_eq!(bench.paths(), vec!["a", "c"]);
        assert!(matches!(bench.action, Action::Poll(5000)));
    }
}
