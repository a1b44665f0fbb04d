//! Input devices and events: which devices are watched, and which events count as activity.

use evdev::raw_stream::RawDevice;
use evdev::{AttributeSetRef, InputEvent, KeyCode};
use vstd::prelude::*;

verus! {

/// Type of the events that report keys and buttons.
pub const EV_KEY: u16 = 0x01;

/// Type of the events that report motion relative to the last position.
pub const EV_REL: u16 = 0x02;

/// Type of the events that report an absolute position.
pub const EV_ABS: u16 = 0x03;

/// The button that mice, touchpads and trackpoints carry.
pub const BTN_LEFT: u16 = 0x110;

pub const KEY_ESC: u16 = 1;

pub const KEY_1: u16 = 2;

pub const KEY_0: u16 = 11;

pub const KEY_TAB: u16 = 15;

pub const KEY_ENTER: u16 = 28;

pub const KEY_A: u16 = 30;

pub const KEY_LEFTSHIFT: u16 = 42;

pub const KEY_Z: u16 = 44;

pub const KEY_SPACE: u16 = 57;

pub const KEY_F1: u16 = 59;

pub const KEY_MUTE: u16 = 113;

pub const KEY_VOLUMEDOWN: u16 = 114;

pub const KEY_VOLUMEUP: u16 = 115;

pub const KEY_NEXTSONG: u16 = 163;

pub const KEY_PLAYPAUSE: u16 = 164;

pub const KEY_PREVIOUSSONG: u16 = 165;

pub const KEY_BRIGHTNESSDOWN: u16 = 224;

pub const KEY_BRIGHTNESSUP: u16 = 225;

pub const KEY_KBDILLUMTOGGLE: u16 = 228;

pub const KEY_KBDILLUMDOWN: u16 = 229;

pub const KEY_KBDILLUMUP: u16 = 230;

pub const KEY_TOUCHPAD_TOGGLE: u16 = 0x212;

/// The keys of which a keyboard has at least one, and the hotkeys that are deliberate activity.
pub const INTERESTING: [u16; 22] = [
    KEY_ESC,
    KEY_TAB,
    KEY_ENTER,
    KEY_SPACE,
    KEY_LEFTSHIFT,
    KEY_A,
    KEY_Z,
    KEY_0,
    KEY_1,
    KEY_F1,
    KEY_KBDILLUMTOGGLE,
    KEY_KBDILLUMUP,
    KEY_KBDILLUMDOWN,
    KEY_BRIGHTNESSDOWN,
    KEY_BRIGHTNESSUP,
    KEY_TOUCHPAD_TOGGLE,
    KEY_VOLUMEUP,
    KEY_VOLUMEDOWN,
    KEY_MUTE,
    KEY_PLAYPAUSE,
    KEY_PREVIOUSSONG,
    KEY_NEXTSONG,
];

/// A key or button, as `evdev` numbers them.
#[verifier::external_type_specification]
#[verifier::external_body]
pub struct ExKeyCode(evdev::KeyCode);

/// A set of keys, buttons or other capabilities, as `evdev` holds it.
#[verifier::external_type_specification]
#[verifier::external_body]
#[verifier::reject_recursive_types(T)]
pub struct ExAttributeSetRef<T>(evdev::AttributeSetRef<T>);

/// An open input device.
#[verifier::external_type_specification]
#[verifier::external_body]
pub struct ExRawDevice(evdev::raw_stream::RawDevice);

/// An event that an input device reported.
#[verifier::external_type_specification]
#[verifier::external_body]
pub struct ExInputEvent(evdev::InputEvent);

/// The codes of the keys and buttons that a set holds.
pub uninterp spec fn held_codes(keys: &AttributeSetRef<KeyCode>) -> Set<u16>;

/// The codes of the keys and buttons that a device has, where it has keys at all.
pub uninterp spec fn supported_codes(dev: RawDevice) -> Option<Set<u16>>;

/// The number of an event's type.
pub uninterp spec fn event_type_of(event: InputEvent) -> u16;

/// Calls `AttributeSetRef::contains`, which tells whether the key with the given code is in the
/// set.
#[verifier::external_body]
fn holds_code(keys: &AttributeSetRef<KeyCode>, code: u16) -> (held: bool)
    ensures
        held == held_codes(keys).contains(code),
{
    keys.contains(KeyCode::new(code))
}

/// Calls `RawDevice::supported_keys`, which hands out the set of keys and buttons that the device
/// reported when it was opened, or `None` for a device without any.
#[verifier::external_body]
fn supported_keys(dev: &RawDevice) -> (keys: Option<&AttributeSetRef<KeyCode>>)
    ensures
        supported_codes(*dev) == (match keys {
            Some(set) => Some(held_codes(set)),
            None => None,
        }),
{
    dev.supported_keys()
}

/// Calls `InputEvent::event_type`, which hands out the type that the event carries.
#[verifier::external_body]
fn event_type(event: &InputEvent) -> (kind: u16)
    ensures
        kind == event_type_of(*event),
{
    event.event_type().0
}

/// Whether a device with these keys and buttons is a pointer, a keyboard or a set of hotkeys.
pub open spec fn interactive(codes: Set<u16>) -> bool {
    ||| codes.contains(BTN_LEFT)
    ||| exists|i: int| 0 <= i < INTERESTING@.len() && codes.contains(#[trigger] INTERESTING@[i])
}

/// Whether a device is a pointer, a keyboard or a set of hotkeys, by the keys and buttons that it
/// has.
pub open spec fn selected(dev: RawDevice) -> bool {
    match supported_codes(dev) {
        Some(codes) => interactive(codes),
        None => false,
    }
}

/// Whether events of this type come from the user: keys and buttons, and motion.
pub open spec fn activity_type(kind: u16) -> bool {
    kind == EV_KEY || kind == EV_REL || kind == EV_ABS
}

/// Whether some of the events comes from the user.
pub open spec fn any_activity(events: Seq<InputEvent>) -> bool {
    exists|i: int| 0 <= i < events.len() && activity_type(event_type_of(#[trigger] events[i]))
}

/// Decides whether a device is a keyboard or a pointer, or has useful hotkeys. Everything else,
/// such as power buttons, lid switches and speakers, is left out, so it cannot keep the
/// backlight awake by itself.
pub fn is_interactive(dev: &RawDevice) -> (b: bool)
    ensures
        b == selected(*dev),
        b <==> (supported_codes(*dev) matches Some(codes) && exists|k: int|
            0 <= k < selecting_codes().len() && codes.contains(#[trigger] selecting_codes()[k])),
{
    has_interactive_keys(supported_keys(dev))
}

/// Decides the same from the keys and buttons that a device supports.
pub fn has_interactive_keys(keys: Option<&AttributeSetRef<KeyCode>>) -> (b: bool)
    ensures
        b == (match keys {
            Some(set) => interactive(held_codes(set)),
            None => false,
        }),
        b <==> (keys matches Some(set) && exists|k: int|
            0 <= k < selecting_codes().len() && held_codes(set).contains(
                #[trigger] selecting_codes()[k],
            )),
{
    proof {
        if let Some(set) = keys {
            lemma_selecting(held_codes(set));
        }
    }
    match keys {
        None => false,
        Some(set) => {
            if holds_code(set, BTN_LEFT) {
                return true;
            }
            let mut i: usize = 0;
            while i < INTERESTING.len()
                invariant
                    i <= INTERESTING@.len(),
                    keys == Some(set),
                    !held_codes(set).contains(BTN_LEFT),
                    forall|j: int|
                        0 <= j < i ==> !held_codes(set).contains(#[trigger] INTERESTING@[j]),
                decreases INTERESTING@.len() - i,
            {
                if holds_code(set, INTERESTING[i]) {
                    proof {
                        lemma_selecting(held_codes(set));
                    }
                    return true;
                }
                i += 1;
            }
            false
        },
    }
}

/// Whether an event counts as activity: key presses and releases, mouse and touchpad motion.
/// Everything else (synchronization barriers, scan codes, LED echo) is ignored, so that it
/// cannot cause a false wake-up.
pub fn is_activity(event: &InputEvent) -> (b: bool)
    ensures
        b == activity_type(event_type_of(*event)),
        b <==> 1 <= event_type_of(*event) <= 3,
{
    is_activity_type(event_type(event))
}

/// Whether events of this type count as activity.
pub fn is_activity_type(kind: u16) -> (b: bool)
    ensures
        b == activity_type(kind),
        b <==> 1 <= kind <= 3,
{
    kind == EV_KEY || kind == EV_REL || kind == EV_ABS
}

/// Whether some of the events counts as activity.
pub fn has_activity(events: &Vec<InputEvent>) -> (b: bool)
    ensures
        b == any_activity(events@),
        b <==> exists|i: int|
            0 <= i < events@.len() && 1 <= event_type_of(#[trigger] events@[i]) <= 3,
{
    let mut i: usize = 0;
    while i < events.len()
        invariant
            i <= events.len(),
            forall|j: int|
                0 <= j < i ==> !activity_type(event_type_of(#[trigger] events@[j])),
        decreases events.len() - i,
    {
        if is_activity(&events[i]) {
            return true;
        }
        i += 1;
    }
    false
}

/// The keys and buttons that select a device: the left mouse button; of a keyboard Esc, Tab, Enter,
/// Space, the left Shift, A, Z, 0, 1 and F1; the keys for the keyboard light, the brightness, the
/// touchpad, the volume and the music.
pub open spec fn selecting_codes() -> Seq<u16> {
    seq![
        0x110u16, 1, 15, 28, 57, 42, 30, 44, 11, 2, 59, 228, 229, 230, 224, 225, 0x212, 113, 114,
        115, 163, 164, 165,
    ]
}

/// Having one of these keys is enough, whatever other keys a device has, and no other key counts.
pub proof fn law_one_key_is_enough(codes: Set<u16>)
    ensures
        forall|k: int|
            0 <= k < selecting_codes().len() && codes.contains(#[trigger] selecting_codes()[k])
                ==> interactive(codes),
        (forall|code: u16| #[trigger]
            codes.contains(code) ==> !selecting_codes().contains(code)) ==> !interactive(codes),
{
    let (listed, wanted) = (INTERESTING@, selecting_codes());
    assert(listed == seq![
        1u16, 15, 28, 57, 42, 30, 44, 11, 2, 59, 228, 230, 229, 224, 225, 0x212, 115, 114, 113,
        164, 165, 163,
    ]);
    assert(wanted =~= seq![0x110u16] + seq![
        listed[0], listed[1], listed[2], listed[3], listed[4], listed[5], listed[6], listed[7],
        listed[8], listed[9], listed[10], listed[12], listed[11], listed[13], listed[14],
        listed[15], listed[18], listed[17], listed[16], listed[21], listed[19], listed[20],
    ]);
    assert forall|i: int| 0 <= i < listed.len() implies wanted.contains(#[trigger] listed[i]) by {
        let k: int = if i < 11 || 13 <= i < 16 {
            i + 1
        } else if i < 13 {
            24 - i
        } else if i < 19 {
            35 - i
        } else if i < 21 {
            i + 2
        } else {
            20
        };
        assert(wanted[k] == listed[i]);
    }
    assert(wanted[0] == 0x110);
    assert(wanted.contains(0x110));
}

/// A device that is selected stays so when it has more keys.
pub proof fn law_more_keys_select_too(codes: Set<u16>, more: Set<u16>)
    requires
        codes.subset_of(more),
        interactive(codes),
    ensures
        interactive(more),
{
}

proof fn lemma_selecting(codes: Set<u16>)
    ensures
        interactive(codes) <==> exists|k: int|
            0 <= k < selecting_codes().len() && codes.contains(#[trigger] selecting_codes()[k]),
{
    law_one_key_is_enough(codes);
    if forall|k: int|
        0 <= k < selecting_codes().len() ==> !codes.contains(#[trigger] selecting_codes()[k]) {
        assert forall|code: u16| #[trigger] codes.contains(code) implies !selecting_codes().contains(
            code,
        ) by {
            if selecting_codes().contains(code) {
                let k = selecting_codes().index_of(code);
                assert(codes.contains(selecting_codes()[k]));
            }
        }
    }
}

/// A device without keys is not selected; one with keys is selected by them alone, so that devices
/// with the same keys are treated alike.
pub proof fn law_keys_select_devices(dev: RawDevice, other: RawDevice, codes: Set<u16>)
    ensures
        supported_codes(dev) is None ==> !selected(dev),
        supported_codes(dev) == Some(codes) ==> (selected(dev) <==> exists|k: int|
            0 <= k < selecting_codes().len() && codes.contains(#[trigger] selecting_codes()[k])),
        supported_codes(dev) == supported_codes(other) ==> selected(dev) == selected(other),
{
    lemma_selecting(codes);
}

/// A batch of events is activity as soon as one of them is of a key or button (type 1), of a motion
/// (type 2) or of a position (type 3), whatever the others are; and only then.
pub proof fn law_one_event_is_enough(events: Seq<InputEvent>)
    ensures
        forall|i: int|
            0 <= i < events.len() && 1 <= event_type_of(#[trigger] events[i]) <= 3 ==> any_activity(
                events,
            ),
        (forall|i: int|
            0 <= i < events.len() ==> !(1 <= event_type_of(#[trigger] events[i]) <= 3))
            ==> !any_activity(events),
{
}

/// Events never take activity away: two batches together are activity if and only if one of them
/// is.
pub proof fn law_events_add_up(left: Seq<InputEvent>, right: Seq<InputEvent>)
    ensures
        any_activity(left + right) <==> any_activity(left) || any_activity(right),
{
    let all = left + right;
    if any_activity(left) {
        let i = choose|i: int|
            0 <= i < left.len() && activity_type(event_type_of(#[trigger] left[i]));
        assert(all[i] == left[i]);
    }
    if any_activity(right) {
        let i = choose|i: int|
            0 <= i < right.len() && activity_type(event_type_of(#[trigger] right[i]));
        assert(all[left.len() + i] == right[i]);
    }
    if any_activity(all) {
        let i = choose|i: int| 0 <= i < all.len() && activity_type(event_type_of(#[trigger] all[i]));
        if i < left.len() {
            assert(left[i] == all[i]);
        } else {
            assert(right[i - left.len()] == all[i]);
        }
    }
}

} // verus!
