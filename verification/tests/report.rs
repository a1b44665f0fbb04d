use asus_backlight_idle::daemon::Note;
use asus_backlight_idle::options::Opts;
use asus_backlight_idle::report::{fatal, open_failure, report, SHUTTING_DOWN};
use asus_backlight_idle::watch::Watch;

fn opts(verbose: bool) -> Opts {
    Opts {
        idle_secs: 15,
        led_dir: "/tmp/led".to_string(),
        input_dir: "/tmp/in".to_string(),
        verbose,
    }
}

fn lines(note: Note<u32>, verbose: bool) -> Vec<String> {
    report(&note, &opts(verbose), "Permission denied (os error 13)", &Some("Some keyboard".to_string()))
}

#[test]
fn warnings_at_the_start() {
    for verbose in [false, true] {
        assert_eq!(
            lines(Note::LedMissing, verbose),
            vec!["WARNING: /tmp/led/brightness not found — is this really an ASUS laptop?"]
        );
        assert_eq!(
            lines(Note::CheckFailed, verbose),
            vec![
                "WARNING: cannot write /tmp/led/brightness: Permission denied (os error 13)",
                "         run as root, or grant write access (see README.md).",
            ]
        );
    }
}

#[test]
fn the_start_is_reported() {
    for verbose in [false, true] {
        assert_eq!(
            lines(Note::Started(12, 3), verbose),
            vec!["asus-backlight-idle: 12 interactive device(s), led /tmp/led, idle 15s, current brightness 3"]
        );
    }
}

#[test]
fn changes_of_the_backlight_are_reported() {
    for verbose in [false, true] {
        assert_eq!(
            lines(Note::AlreadyLit(2), verbose),
            vec!["activity: user already re-lit backlight (level 2)"]
        );
        assert_eq!(lines(Note::Relit(255), verbose), vec!["activity: backlight on (level 255)"]);
        assert_eq!(lines(Note::Dimmed(10), verbose), vec!["idle: backlight off (restore level 10)"]);
        assert_eq!(
            lines(Note::WriteFailed, verbose),
            vec!["failed to write brightness: Permission denied (os error 13)"]
        );
    }
}

#[test]
fn devices_are_reported_to_those_who_ask_for_more() {
    let attached = || Note::Attached::<u32>("/dev/input/event7".to_string());
    assert!(lines(attached(), false).is_empty());
    assert_eq!(lines(attached(), true), vec!["  + /dev/input/event7 (Some keyboard)"]);
    assert_eq!(report(&attached(), &opts(true), "", &None), vec!["  + /dev/input/event7 (<unnamed>)"]);

    let removed = || {
        let gone = [("/dev/input/event9", 9), ("/dev/input/event2", 2)];
        Note::Removed(gone.iter().map(|(path, dev)| Watch { path: path.to_string(), dev: *dev }).collect())
    };
    assert!(lines(removed(), false).is_empty());
    assert_eq!(lines(removed(), true), vec!["  - /dev/input/event9", "  - /dev/input/event2"]);
    assert!(lines(Note::Removed(vec![]), true).is_empty());
}

#[test]
fn failures_and_the_end_are_reported() {
    assert_eq!(open_failure("/dev/input/event1", "busy"), "cannot open /dev/input/event1: busy");
    assert_eq!(fatal("no such directory"), "fatal: no such directory");
    assert_eq!(SHUTTING_DOWN, "shutting down");
}
