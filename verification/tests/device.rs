use asus_backlight_idle::device;
use asus_backlight_idle::device::{has_activity, has_interactive_keys, is_activity, is_activity_type, INTERESTING};
use evdev::{AttributeSet, EventType, InputEvent, KeyCode};

fn interactive(keys: &[KeyCode]) -> bool {
    let set: AttributeSet<KeyCode> = keys.iter().collect();
    has_interactive_keys(Some(&*set))
}

#[test]
fn codes_are_those_of_evdev() {
    assert_eq!(device::BTN_LEFT, KeyCode::BTN_LEFT.0);
    let expected = [
        KeyCode::KEY_ESC,
        KeyCode::KEY_TAB,
        KeyCode::KEY_ENTER,
        KeyCode::KEY_SPACE,
        KeyCode::KEY_LEFTSHIFT,
        KeyCode::KEY_A,
        KeyCode::KEY_Z,
        KeyCode::KEY_0,
        KeyCode::KEY_1,
        KeyCode::KEY_F1,
        KeyCode::KEY_KBDILLUMTOGGLE,
        KeyCode::KEY_KBDILLUMUP,
        KeyCode::KEY_KBDILLUMDOWN,
        KeyCode::KEY_BRIGHTNESSDOWN,
        KeyCode::KEY_BRIGHTNESSUP,
        KeyCode::KEY_TOUCHPAD_TOGGLE,
        KeyCode::KEY_VOLUMEUP,
        KeyCode::KEY_VOLUMEDOWN,
        KeyCode::KEY_MUTE,
        KeyCode::KEY_PLAYPAUSE,
        KeyCode::KEY_PREVIOUSSONG,
        KeyCode::KEY_NEXTSONG,
    ];
    let codes: Vec<u16> = expected.iter().map(|k| k.0).collect();
    assert_eq!(INTERESTING.to_vec(), codes);
    assert_eq!(device::EV_KEY, EventType::KEY.0);
    assert_eq!(device::EV_REL, EventType::RELATIVE.0);
    assert_eq!(device::EV_ABS, EventType::ABSOLUTE.0);
}

#[test]
fn pointers_are_interactive() {
    assert!(interactive(&[KeyCode::BTN_LEFT]));
    assert!(interactive(&[KeyCode::BTN_LEFT, KeyCode::BTN_RIGHT, KeyCode::BTN_MIDDLE]));
}

#[test]
fn each_interesting_key_makes_a_device_interactive() {
    for code in INTERESTING {
        assert!(interactive(&[KeyCode(code)]));
    }
}

#[test]
fn other_devices_are_not_interactive() {
    assert!(!has_interactive_keys(None));
    assert!(!interactive(&[]));
    assert!(!interactive(&[KeyCode::KEY_POWER, KeyCode::KEY_SLEEP, KeyCode::KEY_WAKEUP]));
    assert!(!interactive(&[KeyCode::BTN_RIGHT]));
    assert!(!interactive(&[KeyCode::KEY_B, KeyCode::KEY_2]));
}

#[test]
fn keys_and_motion_are_activity() {
    assert!(is_activity(&InputEvent::new(EventType::KEY.0, KeyCode::KEY_A.0, 1)));
    assert!(is_activity(&InputEvent::new(EventType::KEY.0, KeyCode::KEY_A.0, 0)));
    assert!(is_activity(&InputEvent::new(EventType::KEY.0, KeyCode::KEY_VOLUMEUP.0, 1)));
    assert!(is_activity(&InputEvent::new(EventType::RELATIVE.0, 0, 5)));
    assert!(is_activity(&InputEvent::new(EventType::ABSOLUTE.0, 0, 100)));
}

#[test]
fn everything_else_is_no_activity() {
    for kind in [
        EventType::SYNCHRONIZATION,
        EventType::MISC,
        EventType::SWITCH,
        EventType::LED,
        EventType::SOUND,
        EventType::REPEAT,
        EventType::FORCEFEEDBACK,
        EventType::POWER,
        EventType::FORCEFEEDBACKSTATUS,
        EventType::UINPUT,
    ] {
        assert!(!is_activity(&InputEvent::new(kind.0, 1, 1)));
        assert!(!is_activity_type(kind.0));
    }
}

#[test]
fn one_event_of_many_is_enough() {
    let sync = InputEvent::new(0, 0, 0);
    let scan = InputEvent::new(4, 4, 30);
    let key = InputEvent::new(1, 30, 1);
    assert!(!has_activity(&vec![]));
    assert!(!has_activity(&vec![sync, scan]));
    assert!(has_activity(&vec![scan, key, sync]));
}
