//! What each step of the daemon does, said of its events and of what follows from them.

use evdev::InputEvent;
use vstd::prelude::*;

#[allow(unused_imports)]
use crate::backlight::Backlight;
#[allow(unused_imports)]
use crate::daemon::{ActionView, DaemonView, EventView, NoteView, Phase, StepView};
#[allow(unused_imports)]
use crate::device::{any_activity, event_type_of, law_one_event_is_enough};
#[allow(unused_imports)]
use crate::poll::{ready_devices, HotplugRead};
#[allow(unused_imports)]
use crate::watch::{at_dead, kept, unopened, without_dead, WatchView};

verus! {

/// Whether the daemon waits for input: without end while the backlight is idle, not at all once
/// the deadline has come, and else for the whole milliseconds that are left, a day at most.
pub open spec fn waits<D>(after: DaemonView<D>, action: ActionView, now: u64) -> bool {
    let left = after.backlight.deadline - now;
    &&& after.phase == Phase::Polling
    &&& action matches ActionView::Poll(timeout) && if after.backlight.idle {
        timeout == -1
    } else if left <= 0 {
        timeout == 0
    } else if left < 86_400_000_000_000 {
        timeout * 1_000_000 <= left < (timeout + 1) * 1_000_000
    } else {
        timeout == 86_400_000
    }
}

/// Whether the daemon ends a round as it should: it turns to dimming an active backlight whose
/// deadline has come, and waits for input else.
pub open spec fn settles<D>(after: DaemonView<D>, action: ActionView, now: u64) -> bool {
    if !after.backlight.idle && now >= after.backlight.deadline {
        after.phase == Phase::Dimming && action == ActionView::ReadLed
    } else {
        waits(after, action, now)
    }
}

/// Whether the daemon goes on as it should once the backlight has been dealt with: where nodes
/// have come or gone, or a device broke, it lists the devices anew, and ends the round else.
pub open spec fn goes_on<D>(
    news: bool,
    after: DaemonView<D>,
    action: ActionView,
    now: u64,
) -> bool {
    &&& !after.rescan_pending
    &&& if news {
        after.phase == Phase::Listing && action == ActionView::ListDevices
    } else {
        settles(after, action, now)
    }
}

/// Whether the daemon goes on with a rescan as it should: it opens the first device that is left
/// to open; once none is left it ends the round, or, before it has started, reads the brightness.
pub open spec fn opens_on<D>(after: DaemonView<D>, action: ActionView, now: u64) -> bool {
    if after.to_open.len() > 0 {
        after.phase == Phase::Opening && action == ActionView::Open(after.to_open[0])
    } else if after.started {
        settles(after, action, now)
    } else {
        after.phase == Phase::Checking && action == ActionView::ReadLed
    }
}

/// Whether the backlight is active from now on, with the idle time ahead of it.
pub open spec fn lit_anew(backlight: Backlight, now: u64, idle_secs: u64) -> bool {
    !backlight.idle && backlight.deadline == now + idle_secs * 1_000_000_000
}

/// At the beginning nothing is known: no device, no brightness, and the devices are to be listed.
pub proof fn law_begins_with_nothing<D>(idle_secs: u64)
    ensures
        ({
            let initial = DaemonView::<D>::initial(idle_secs);
            &&& initial.wf()
            &&& initial.phase == Phase::Listing
            &&& initial.idle_secs == idle_secs
            &&& !initial.started && !initial.rescan_pending && !initial.activity
            &&& initial.watches.len() == 0 && initial.to_open.len() == 0
            &&& initial.ready.len() == 0 && initial.dead.len() == 0
            &&& initial.backlight.active_level == 1 && !initial.backlight.idle
        }),
{
}

/// Once the nodes are listed, the watches on nodes that are gone are dropped, the others stay, and
/// all listed nodes that are not watched are to be opened, beginning with the first; nothing else
/// changes.
pub proof fn law_listing<D>(daemon: DaemonView<D>, paths: Seq<Seq<char>>, now: u64)
    requires
        daemon.phase == Phase::Listing,
    ensures
        daemon.next(EventView::Listed(paths), now) matches Some((after, step)) && {
            &&& after.watches == kept(daemon.watches, paths)
            &&& after.to_open == unopened(after.watches, paths)
            &&& opens_on(after, step.action, now)
            &&& step.note is None
            &&& after == DaemonView {
                watches: after.watches,
                to_open: after.to_open,
                phase: after.phase,
                ..daemon
            }
        },
{
}

/// Once a device is opened it is watched, behind the others, if and only if it is interactive, and
/// the rescan goes on with the next one, whatever became of this one.
pub proof fn law_opening<D>(daemon: DaemonView<D>, dev: D, interactive: bool, now: u64)
    requires
        daemon.phase == Phase::Opening,
        daemon.to_open.len() > 0,
    ensures
        daemon.next(EventView::Opened(dev, interactive), now) matches Some((after, step)) && {
            &&& after.to_open == daemon.to_open.skip(1)
            &&& opens_on(after, step.action, now)
            &&& interactive ==> after.watches == daemon.watches.push(
                WatchView { path: daemon.to_open[0], dev },
            ) && step.note == Some(NoteView::<D>::Attached(daemon.to_open[0]))
            &&& !interactive ==> after.watches == daemon.watches && step.note is None
            &&& after == DaemonView {
                watches: after.watches,
                to_open: after.to_open,
                phase: after.phase,
                ..daemon
            }
        },
        daemon.next(EventView::OpenFailed, now) matches Some((after, step)) && {
            &&& after.to_open == daemon.to_open.skip(1)
            &&& opens_on(after, step.action, now)
            &&& step.note is None
            &&& after == DaemonView { to_open: after.to_open, phase: after.phase, ..daemon }
        },
{
    assert(daemon.to_open.skip(1) == daemon.to_open.drop_first());
}

/// At the start the brightness is read, and what was read is written back to see whether it can
/// be; a failure of either is reported and stops nothing.
pub proof fn law_checking<D>(daemon: DaemonView<D>, reading: Option<u8>, written: bool, now: u64)
    ensures
        daemon.phase == Phase::Checking ==> (daemon.next(
            EventView::LedRead(reading),
            now,
        ) matches Some((after, step)) && {
            &&& reading matches Some(level) ==> after == DaemonView {
                phase: Phase::CheckWriting,
                ..daemon
            } && step.action == ActionView::WriteLed(level) && step.note is None
            &&& reading is None ==> after == DaemonView { phase: Phase::Starting, ..daemon }
                && step.action == ActionView::ReadLed && step.note == Some(
                NoteView::<D>::LedMissing,
            )
        }),
        daemon.phase == Phase::CheckWriting ==> (daemon.next(
            EventView::LedWritten(written),
            now,
        ) matches Some((after, step)) && {
            &&& after == DaemonView { phase: Phase::Starting, ..daemon }
            &&& step.action == ActionView::ReadLed
            &&& written ==> step.note is None
            &&& !written ==> step.note == Some(NoteView::<D>::CheckFailed)
        }),
{
}

/// The daemon starts with the brightness that it reads: idle if and only if that is 0, with the
/// level to go back to that is on, or else 1, with the idle time ahead of it, and waiting; a
/// brightness that cannot be read counts as 1.
pub proof fn law_starting<D>(daemon: DaemonView<D>, reading: Option<u8>, now: u64)
    requires
        daemon.phase == Phase::Starting,
    ensures
        daemon.next(EventView::LedRead(reading), now) matches Some((after, step)) && {
            &&& after.started
            &&& after.backlight.idle <==> reading == Some(0u8)
            &&& reading matches Some(level) ==> (level > 0 ==> after.backlight.active_level
                == level)
            &&& reading is None || reading == Some(0u8) ==> after.backlight.active_level == 1
            &&& after.backlight.deadline == now + daemon.idle_secs * 1_000_000_000
            &&& waits(after, step.action, now)
            &&& step.note matches Some(NoteView::Started(devices, level)) && devices
                == daemon.watches.len() && level == (match reading {
                Some(read) => read,
                None => 1,
            })
            &&& after == DaemonView {
                backlight: after.backlight,
                started: true,
                phase: after.phase,
                ..daemon
            }
        },
{
}

/// Whatever the state of the backlight, a signal that asks for an end ends the daemon, another
/// signal only makes it wait again, and a poll that fails otherwise is a failure.
pub proof fn law_signals<D>(
    daemon: DaemonView<D>,
    rc: i32,
    interrupted: bool,
    shutdown: bool,
    revents: Seq<i16>,
    now: u64,
)
    requires
        daemon.phase == Phase::Polling,
        revents.len() == daemon.watches.len() + 1,
        rc < 0,
    ensures
        daemon.next(
            EventView::Polled { rc, interrupted, shutdown, revents },
            now,
        ) matches Some((after, step)) && {
            &&& step.note is None
            &&& after == DaemonView { phase: after.phase, ..daemon }
            &&& interrupted && shutdown ==> after.phase == Phase::Ended && step.action
                == ActionView::Stop
            &&& interrupted && !shutdown ==> waits(after, step.action, now)
            &&& !interrupted ==> after.phase == Phase::Ended && step.action == ActionView::Fail
        },
{
}

/// A poll that nothing ended but the time leads to the end of the round at once, and changes
/// nothing.
pub proof fn law_timeouts<D>(
    daemon: DaemonView<D>,
    interrupted: bool,
    shutdown: bool,
    revents: Seq<i16>,
    now: u64,
)
    requires
        daemon.phase == Phase::Polling,
        revents.len() == daemon.watches.len() + 1,
    ensures
        daemon.next(
            EventView::Polled { rc: 0, interrupted, shutdown, revents },
            now,
        ) matches Some((after, step)) && {
            &&& settles(after, step.action, now)
            &&& step.note is None
            &&& after == DaemonView { phase: after.phase, ..daemon }
        },
{
}

/// Whether a round in which all devices have been read ends as it should, given the daemon as it
/// was, whether there was activity and which devices could not be read: those are dropped and
/// reported, and are a reason to list the devices anew; activity turns to a dark backlight, and
/// gives a lit one the whole idle time again.
pub open spec fn round_ends<D>(
    daemon: DaemonView<D>,
    activity: bool,
    dead: Seq<usize>,
    after: DaemonView<D>,
    step: StepView<D>,
    now: u64,
) -> bool {
    let news = daemon.rescan_pending || dead.len() > 0;
    &&& after.watches == without_dead(daemon.watches, dead)
    &&& dead.len() > 0 ==> step.note == Some(NoteView::Removed(at_dead(daemon.watches, dead)))
    &&& dead.len() == 0 ==> step.note is None
    &&& after.ready.len() == 0 && after.dead.len() == 0
    &&& after.idle_secs == daemon.idle_secs && after.started == daemon.started && after.to_open
        == daemon.to_open
    &&& after.backlight.active_level == daemon.backlight.active_level
    &&& if !activity {
        &&& after.backlight == daemon.backlight && !after.activity
        &&& goes_on(news, after, step.action, now)
    } else if daemon.backlight.idle {
        &&& after.backlight == daemon.backlight && after.activity
        &&& after.rescan_pending == news
        &&& after.phase == Phase::Waking && step.action == ActionView::ReadLed
    } else {
        &&& lit_anew(after.backlight, now, daemon.idle_secs) && !after.activity
        &&& goes_on(news, after, step.action, now)
    }
}

/// Whether reading the devices begins as it should: with the first one that has something to
/// report, or, where none has, with the end of the round.
pub open spec fn reading_begins<D>(
    daemon: DaemonView<D>,
    after: DaemonView<D>,
    step: StepView<D>,
    now: u64,
) -> bool {
    if daemon.ready.len() > 0 {
        &&& after == DaemonView { phase: Phase::Fetching, ..daemon }
        &&& step.action == ActionView::Fetch(daemon.ready[0])
        &&& step.note is None
    } else {
        round_ends(daemon, daemon.activity, daemon.dead, after, step, now)
    }
}

/// When descriptors have something to report, all devices that do are to be read, and no activity
/// has been seen; notifications of nodes coming and going, where there are any (bit 1 of the first
/// descriptor), are read first.
pub proof fn law_reports<D>(
    daemon: DaemonView<D>,
    rc: i32,
    interrupted: bool,
    shutdown: bool,
    revents: Seq<i16>,
    now: u64,
)
    requires
        daemon.phase == Phase::Polling,
        revents.len() == daemon.watches.len() + 1,
        rc > 0,
    ensures
        daemon.next(
            EventView::Polled { rc, interrupted, shutdown, revents },
            now,
        ) matches Some((after, step)) && {
            let round = DaemonView {
                activity: false,
                ready: ready_devices(revents),
                dead: Seq::empty(),
                ..daemon
            };
            if revents[0] & 1i16 != 0 {
                &&& after == DaemonView { phase: Phase::Draining, ..round }
                &&& step.action == ActionView::ReadHotplug
                &&& step.note is None
            } else {
                reading_begins(round, after, step, now)
            }
        },
{
}

/// Notifications are read until there are no more, and each is a reason to list the devices anew;
/// then the devices are read. Only a failure ends the daemon.
pub proof fn law_notifications<D>(daemon: DaemonView<D>, count: usize, now: u64)
    requires
        daemon.phase == Phase::Draining,
    ensures
        count > 0 ==> (daemon.next(
            EventView::HotplugRead(HotplugRead::Events(count)),
            now,
        ) matches Some((after, step)) && {
            &&& after == DaemonView { rescan_pending: true, ..daemon }
            &&& step.action == ActionView::ReadHotplug
            &&& step.note is None
        }),
        daemon.next(
            EventView::HotplugRead(HotplugRead::Events(0)),
            now,
        ) matches Some((after, step)) && reading_begins(daemon, after, step, now),
        daemon.next(
            EventView::HotplugRead(HotplugRead::WouldBlock),
            now,
        ) matches Some((after, step)) && reading_begins(daemon, after, step, now),
        daemon.next(
            EventView::HotplugRead(HotplugRead::UnexpectedEof),
            now,
        ) matches Some((after, step)) && reading_begins(daemon, after, step, now),
        daemon.next(
            EventView::HotplugRead(HotplugRead::Failed),
            now,
        ) matches Some((after, step)) && {
            &&& after == DaemonView { phase: Phase::Ended, ..daemon }
            &&& step.action == ActionView::Fail
            &&& step.note is None
        },
{
}

/// Whether one of the events is of a key or button, of a motion or of a position.
pub open spec fn user_acts(events: Seq<InputEvent>) -> bool {
    exists|i: int| 0 <= i < events.len() && 1 <= event_type_of(#[trigger] events[i]) <= 3
}

/// Every device that has something to report is read in its turn. An event of the user is activity
/// of the round, a device that cannot be read is dead, and neither keeps the next from being read;
/// with the last one the round ends.
pub proof fn law_reading<D>(daemon: DaemonView<D>, events: Seq<InputEvent>, now: u64)
    requires
        daemon.phase == Phase::Fetching,
        daemon.ready.len() > 0,
    ensures
        daemon.next(EventView::Fetched(events), now) matches Some((after, step)) && {
            let activity = daemon.activity || user_acts(events);
            if daemon.ready.len() > 1 {
                &&& after == DaemonView { activity, ready: daemon.ready.skip(1), ..daemon }
                &&& step.action == ActionView::Fetch(daemon.ready[1])
                &&& step.note is None
            } else {
                round_ends(daemon, activity, daemon.dead, after, step, now)
            }
        },
        daemon.next(EventView::FetchFailed, now) matches Some((after, step)) && {
            let dead = daemon.dead.push(daemon.ready[0]);
            if daemon.ready.len() > 1 {
                &&& after == DaemonView { dead, ready: daemon.ready.skip(1), ..daemon }
                &&& step.action == ActionView::Fetch(daemon.ready[1])
                &&& step.note is None
            } else {
                round_ends(daemon, daemon.activity, dead, after, step, now)
            }
        },
{
    assert(daemon.ready.skip(1) == daemon.ready.drop_first());
    law_one_event_is_enough(events);
    if user_acts(events) {
        let i = choose|i: int|
            0 <= i < events.len() && 1 <= event_type_of(#[trigger] events[i]) <= 3;
        assert(any_activity(events));
    }
}

/// When the user is back, a level that is on already is left alone and becomes the one to go back
/// to; else the level to go back to is written. Either way the backlight is active, with the whole
/// idle time ahead of it, even if it could not be written.
pub proof fn law_waking<D>(daemon: DaemonView<D>, reading: Option<u8>, written: bool, now: u64)
    ensures
        daemon.phase == Phase::Waking ==> (daemon.next(
            EventView::LedRead(reading),
            now,
        ) matches Some((after, step)) && match reading {
            Some(level) if level > 0 => {
                &&& after.backlight.active_level == level
                &&& lit_anew(after.backlight, now, daemon.idle_secs)
                &&& step.note == Some(NoteView::<D>::AlreadyLit(level))
                &&& goes_on(daemon.rescan_pending, after, step.action, now)
                &&& after == DaemonView {
                    backlight: after.backlight,
                    activity: false,
                    rescan_pending: false,
                    phase: after.phase,
                    ..daemon
                }
            },
            _ => {
                &&& after == DaemonView { phase: Phase::Relighting, ..daemon }
                &&& step.action == ActionView::WriteLed(daemon.backlight.active_level)
                &&& step.note is None
            },
        }),
        daemon.phase == Phase::Relighting ==> (daemon.next(
            EventView::LedWritten(written),
            now,
        ) matches Some((after, step)) && {
            &&& after.backlight.active_level == daemon.backlight.active_level
            &&& lit_anew(after.backlight, now, daemon.idle_secs)
            &&& written ==> step.note == Some(
                NoteView::<D>::Relit(daemon.backlight.active_level),
            )
            &&& !written ==> step.note == Some(NoteView::<D>::WriteFailed)
            &&& goes_on(daemon.rescan_pending, after, step.action, now)
            &&& after == DaemonView {
                backlight: after.backlight,
                activity: false,
                rescan_pending: false,
                phase: after.phase,
                ..daemon
            }
        }),
{
}

/// When the idle time has run out, a level that is on becomes the one to go back to, and 0 is
/// written whatever was read; then the backlight is idle and the daemon waits without end, even if
/// it could not be written.
pub proof fn law_dimming<D>(daemon: DaemonView<D>, reading: Option<u8>, written: bool, now: u64)
    ensures
        daemon.phase == Phase::Dimming ==> (daemon.next(
            EventView::LedRead(reading),
            now,
        ) matches Some((after, step)) && {
            &&& reading matches Some(level) ==> (level > 0 ==> after.backlight.active_level
                == level)
            &&& reading is None || reading == Some(0u8) ==> after.backlight.active_level
                == daemon.backlight.active_level
            &&& after.backlight.idle == daemon.backlight.idle
            &&& after.backlight.deadline == daemon.backlight.deadline
            &&& step.action == ActionView::WriteLed(0)
            &&& step.note is None
            &&& after == DaemonView {
                backlight: after.backlight,
                phase: Phase::Darkening,
                ..daemon
            }
        }),
        daemon.phase == Phase::Darkening ==> (daemon.next(
            EventView::LedWritten(written),
            now,
        ) matches Some((after, step)) && {
            &&& after.backlight.idle
            &&& after.backlight.active_level == daemon.backlight.active_level
            &&& after.backlight.deadline == daemon.backlight.deadline
            &&& step.action == ActionView::Poll(-1)
            &&& written ==> step.note == Some(
                NoteView::<D>::Dimmed(daemon.backlight.active_level),
            )
            &&& !written ==> step.note == Some(NoteView::<D>::WriteFailed)
            &&& after == DaemonView {
                backlight: after.backlight,
                phase: Phase::Polling,
                ..daemon
            }
        }),
{
}

} // verus!
