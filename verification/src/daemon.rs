//! The daemon as a machine: it says what to do next, and is told how that went.
//!
//! A round begins with a poll. Notifications of nodes coming and going are read first, then the
//! devices that have something to report, then the broken ones are dropped. If there was
//! activity the backlight is lit again; if nodes have come or gone the devices are listed anew;
//! and at the end of every round the backlight is dimmed if it is due.

use crate::backlight::{Backlight, Wake};
use crate::device::{has_activity, is_interactive};
use crate::poll::{drain, find_ready, is_readable, poll_end, Drain, HotplugRead, PollEnd};
use crate::watch::{attach, remove_dead, start_rescan, Watch};
use evdev::raw_stream::RawDevice;
use evdev::InputEvent;
use vstd::prelude::*;

#[allow(unused_imports)]
use crate::device::{any_activity, selected};
#[allow(unused_imports)]
use crate::poll::{drained, law_ready_devices, poll_ended, readable, ready_devices};
#[allow(unused_imports)]
use crate::text::texts;
#[allow(unused_imports)]
use crate::watch::{
    ascending_below, at_dead, attached, kept, unopened, watch_views, without_dead, WatchView,
};

verus! {

/// Where the daemon stands: what it is waiting for.
#[derive(Clone, Copy, Debug, PartialEq, Eq, Structural)]
pub enum Phase {
    /// For the paths of the device nodes.
    Listing,
    /// For a device to be opened.
    Opening,
    /// For the brightness, to see whether it can be read at all.
    Checking,
    /// For the same brightness to be written back, to see whether it can be written.
    CheckWriting,
    /// For the brightness to start from.
    Starting,
    /// For the poll to end.
    Polling,
    /// For notifications of nodes coming and going.
    Draining,
    /// For the events of a device.
    Fetching,
    /// For the brightness, now that the user is back.
    Waking,
    /// For the brightness to be set to the active level.
    Relighting,
    /// For the brightness, now that the idle time has run out.
    Dimming,
    /// For the brightness to be set to 0.
    Darkening,
    /// For nothing: the daemon has ended.
    Ended,
}

/// What is to be done next.
#[derive(Debug)]
pub enum Action {
    /// List the device nodes.
    ListDevices,
    /// Open the device at this path.
    Open(String),
    /// Read the brightness.
    ReadLed,
    /// Set the brightness.
    WriteLed(u8),
    /// Poll all descriptors, for at most this many milliseconds, or without end if it is -1.
    Poll(i32),
    /// Read notifications of nodes coming and going.
    ReadHotplug,
    /// Read the events of the device at this position.
    Fetch(usize),
    /// End.
    Stop,
    /// End, with the error that came up last.
    Fail,
}

/// What an action holds.
pub enum ActionView {
    ListDevices,
    Open(Seq<char>),
    ReadLed,
    WriteLed(u8),
    Poll(int),
    ReadHotplug,
    Fetch(usize),
    Stop,
    Fail,
}

impl View for Action {
    type V = ActionView;

    open spec fn view(&self) -> ActionView {
        match self {
            Action::ListDevices => ActionView::ListDevices,
            Action::Open(path) => ActionView::Open(path@),
            Action::ReadLed => ActionView::ReadLed,
            Action::WriteLed(level) => ActionView::WriteLed(*level),
            Action::Poll(timeout) => ActionView::Poll(*timeout as int),
            Action::ReadHotplug => ActionView::ReadHotplug,
            Action::Fetch(index) => ActionView::Fetch(*index),
            Action::Stop => ActionView::Stop,
            Action::Fail => ActionView::Fail,
        }
    }
}

/// How the last action went.
pub enum Event<D> {
    /// The paths of the device nodes.
    Listed(Vec<String>),
    /// The device was opened; whether it is interactive.
    Opened(D, bool),
    /// The device could not be opened.
    OpenFailed,
    /// The brightness, where it could be read.
    LedRead(Option<u8>),
    /// Whether the brightness was set.
    LedWritten(bool),
    /// The poll's return value, whether it failed because of a signal, whether an end was asked
    /// for, and what is reported of each descriptor.
    Polled { rc: i32, interrupted: bool, shutdown: bool, revents: Vec<i16> },
    /// How reading the notifications went.
    HotplugRead(HotplugRead),
    /// The events that the device reported.
    Fetched(Vec<InputEvent>),
    /// The device could not be read.
    FetchFailed,
}

/// What an event holds.
pub enum EventView<D> {
    Listed(Seq<Seq<char>>),
    Opened(D, bool),
    OpenFailed,
    LedRead(Option<u8>),
    LedWritten(bool),
    Polled { rc: i32, interrupted: bool, shutdown: bool, revents: Seq<i16> },
    HotplugRead(HotplugRead),
    Fetched(Seq<InputEvent>),
    FetchFailed,
}

impl<D> EventView<D> {
    /// Whether what the event holds is of a size that a machine can hold.
    pub open spec fn fits(self) -> bool {
        self matches EventView::Polled { revents, .. } ==> revents.len() <= usize::MAX
    }
}

impl<D> View for Event<D> {
    type V = EventView<D>;

    open spec fn view(&self) -> EventView<D> {
        match self {
            Event::Listed(paths) => EventView::Listed(texts(paths@)),
            Event::Opened(dev, interactive) => EventView::Opened(*dev, *interactive),
            Event::OpenFailed => EventView::OpenFailed,
            Event::LedRead(reading) => EventView::LedRead(*reading),
            Event::LedWritten(ok) => EventView::LedWritten(*ok),
            Event::Polled { rc, interrupted, shutdown, revents } => EventView::Polled {
                rc: *rc,
                interrupted: *interrupted,
                shutdown: *shutdown,
                revents: revents@,
            },
            Event::HotplugRead(read) => EventView::HotplugRead(*read),
            Event::Fetched(events) => EventView::Fetched(events@),
            Event::FetchFailed => EventView::FetchFailed,
        }
    }
}

/// What there is to report on the way.
pub enum Note<D> {
    /// The brightness could not be read at the start.
    LedMissing,
    /// The brightness could not be written at the start.
    CheckFailed,
    /// The daemon is running, with this many devices and this brightness.
    Started(usize, u8),
    /// The user has already set this level.
    AlreadyLit(u8),
    /// The backlight is on again, at this level.
    Relit(u8),
    /// The backlight is off; this is the level to go back to.
    Dimmed(u8),
    /// The brightness could not be set.
    WriteFailed,
    /// The device that was opened last, at this path, is being watched.
    Attached(String),
    /// These devices are no longer watched.
    Removed(Vec<Watch<D>>),
}

/// What a note holds.
pub enum NoteView<D> {
    LedMissing,
    CheckFailed,
    Started(int, u8),
    AlreadyLit(u8),
    Relit(u8),
    Dimmed(u8),
    WriteFailed,
    Attached(Seq<char>),
    Removed(Seq<WatchView<D>>),
}

impl<D> View for Note<D> {
    type V = NoteView<D>;

    open spec fn view(&self) -> NoteView<D> {
        match self {
            Note::LedMissing => NoteView::LedMissing,
            Note::CheckFailed => NoteView::CheckFailed,
            Note::Started(devices, level) => NoteView::Started(*devices as int, *level),
            Note::AlreadyLit(level) => NoteView::AlreadyLit(*level),
            Note::Relit(level) => NoteView::Relit(*level),
            Note::Dimmed(level) => NoteView::Dimmed(*level),
            Note::WriteFailed => NoteView::WriteFailed,
            Note::Attached(path) => NoteView::Attached(path@),
            Note::Removed(watches) => NoteView::Removed(watch_views(watches@)),
        }
    }
}

/// What follows from an event: something to report, perhaps, and what to do next.
pub struct Step<D> {
    pub note: Option<Note<D>>,
    pub action: Action,
}

/// What a step holds.
pub struct StepView<D> {
    pub note: Option<NoteView<D>>,
    pub action: ActionView,
}

impl<D> View for Step<D> {
    type V = StepView<D>;

    open spec fn view(&self) -> StepView<D> {
        StepView {
            note: match self.note {
                Some(note) => Some(note@),
                None => None,
            },
            action: self.action@,
        }
    }
}

/// The daemon.
pub struct Daemon<D> {
    idle_secs: u64,
    backlight: Backlight,
    started: bool,
    rescan_pending: bool,
    activity: bool,
    watches: Vec<Watch<D>>,
    to_open: Vec<String>,
    ready: Vec<usize>,
    dead: Vec<usize>,
    phase: Phase,
}

/// What the daemon holds.
#[verifier::ext_equal]
pub struct DaemonView<D> {
    /// The idle time in seconds.
    pub idle_secs: u64,
    /// The state of the backlight, from the moment on that the daemon has started.
    pub backlight: Backlight,
    /// Whether the daemon has started.
    pub started: bool,
    /// Whether nodes have come or gone since the devices were last listed.
    pub rescan_pending: bool,
    /// Whether there has been activity in this round that has not been dealt with.
    pub activity: bool,
    /// The devices that are being watched.
    pub watches: Seq<WatchView<D>>,
    /// The paths of the devices that are still to be opened.
    pub to_open: Seq<Seq<char>>,
    /// The positions of the devices that are still to be read in this round.
    pub ready: Seq<usize>,
    /// The positions of the devices that could not be read in this round.
    pub dead: Seq<usize>,
    /// Where the daemon stands.
    pub phase: Phase,
}

impl<D> View for Daemon<D> {
    type V = DaemonView<D>;

    closed spec fn view(&self) -> DaemonView<D> {
        DaemonView {
            idle_secs: self.idle_secs,
            backlight: self.backlight,
            started: self.started,
            rescan_pending: self.rescan_pending,
            activity: self.activity,
            watches: watch_views(self.watches@),
            to_open: texts(self.to_open@),
            ready: self.ready@,
            dead: self.dead@,
            phase: self.phase,
        }
    }
}

/// A state and what there is to do in it.
pub type Move<D> = (DaemonView<D>, StepView<D>);

/// A step without anything to report.
pub open spec fn silent<D>(action: ActionView) -> StepView<D> {
    StepView { note: None, action }
}

/// The same move with something to report.
pub open spec fn noting<D>(note: Option<NoteView<D>>, next: Move<D>) -> Move<D> {
    (next.0, StepView { note, action: next.1.action })
}

impl<D> DaemonView<D> {
    /// The daemon before its first action.
    pub open spec fn initial(idle_secs: u64) -> DaemonView<D> {
        DaemonView {
            idle_secs,
            backlight: Backlight { active_level: 1, idle: false, deadline: 0 },
            started: false,
            rescan_pending: false,
            activity: false,
            watches: Seq::empty(),
            to_open: Seq::empty(),
            ready: Seq::empty(),
            dead: Seq::empty(),
            phase: Phase::Listing,
        }
    }

    /// What holds of the daemon at every moment.
    pub open spec fn wf(self) -> bool {
        &&& self.backlight.wf()
        &&& self.phase == Phase::Opening ==> self.to_open.len() > 0
        &&& self.phase == Phase::Fetching ==> self.ready.len() > 0
        &&& self.in_round() ==> {
            &&& ascending_below(self.ready, self.watches.len() as int)
            &&& ascending_below(self.dead, self.watches.len() as int)
            &&& forall|i: int, j: int|
                0 <= i < self.dead.len() && 0 <= j < self.ready.len() ==> self.dead[i]
                    < self.ready[j]
        }
        &&& !self.started ==> self.before_start() || self.phase == Phase::Ended
        &&& self.phase == Phase::Checking || self.phase == Phase::CheckWriting || self.phase
            == Phase::Starting ==> !self.started
        &&& self.rescan_pending ==> self.in_round() || self.waking() || self.phase == Phase::Ended
        &&& self.activity ==> self.in_round() || self.waking() || self.phase == Phase::Ended
        &&& self.waking() ==> self.backlight.idle && self.activity
        &&& self.dimming() ==> !self.backlight.idle
    }

    /// Whether the daemon is reading what the poll reported.
    pub open spec fn in_round(self) -> bool {
        self.phase == Phase::Draining || self.phase == Phase::Fetching
    }

    /// Whether the daemon is lighting the backlight again.
    pub open spec fn waking(self) -> bool {
        self.phase == Phase::Waking || self.phase == Phase::Relighting
    }

    /// Whether the daemon is dimming the backlight.
    pub open spec fn dimming(self) -> bool {
        self.phase == Phase::Dimming || self.phase == Phase::Darkening
    }

    /// Whether the daemon is in a phase that it may be in before it has started.
    pub open spec fn before_start(self) -> bool {
        ||| self.phase == Phase::Listing
        ||| self.phase == Phase::Opening
        ||| self.phase == Phase::Checking
        ||| self.phase == Phase::CheckWriting
        ||| self.phase == Phase::Starting
    }

    /// The same daemon in another phase.
    pub open spec fn at(self, phase: Phase) -> DaemonView<D> {
        DaemonView { phase, ..self }
    }

    /// The same daemon with the device at a position in another state.
    pub open spec fn with_device(self, index: int, dev: D) -> DaemonView<D> {
        DaemonView {
            watches: self.watches.update(index, WatchView { dev, ..self.watches[index] }),
            ..self
        }
    }

    /// Waits for input.
    pub open spec fn polling(self, now: u64) -> Move<D> {
        (self.at(Phase::Polling), silent(ActionView::Poll(self.backlight.timeout(now))))
    }

    /// Ends a round: dims the backlight if it is due.
    pub open spec fn idle_check(self, now: u64) -> Move<D> {
        if self.backlight.due(now) {
            (self.at(Phase::Dimming), silent(ActionView::ReadLed))
        } else {
            self.polling(now)
        }
    }

    /// Goes on once the backlight has been dealt with: lists the devices anew if nodes have come
    /// or gone.
    pub open spec fn after_activity(self, now: u64) -> Move<D> {
        if self.rescan_pending {
            (
                DaemonView { rescan_pending: false, ..self }.at(Phase::Listing),
                silent(ActionView::ListDevices),
            )
        } else {
            self.idle_check(now)
        }
    }

    /// Deals with activity: the idle time starts anew.
    pub open spec fn touched(self, now: u64) -> DaemonView<D> {
        DaemonView {
            backlight: self.backlight.touched(now, self.idle_secs),
            activity: false,
            ..self
        }
    }

    /// The daemon without the devices that could not be read.
    pub open spec fn without_dead_watches(self) -> DaemonView<D> {
        DaemonView {
            watches: without_dead(self.watches, self.dead),
            rescan_pending: self.rescan_pending || self.dead.len() > 0,
            dead: Seq::empty(),
            ..self
        }
    }

    /// Goes on once all devices have been read.
    pub open spec fn round_read(self, now: u64) -> Move<D> {
        let clean = self.without_dead_watches();
        let note = if self.dead.len() > 0 {
            Some(NoteView::Removed(at_dead(self.watches, self.dead)))
        } else {
            None
        };
        noting(
            note,
            if !self.activity {
                clean.after_activity(now)
            } else if self.backlight.idle {
                (clean.at(Phase::Waking), silent(ActionView::ReadLed))
            } else {
                clean.touched(now).after_activity(now)
            },
        )
    }

    /// Reads the next device that has something to report.
    pub open spec fn next_fetch(self, now: u64) -> Move<D> {
        if self.ready.len() > 0 {
            (self.at(Phase::Fetching), silent(ActionView::Fetch(self.ready[0])))
        } else {
            self.round_read(now)
        }
    }

    /// Opens the next device that is to be opened.
    pub open spec fn next_open(self, now: u64) -> Move<D> {
        if self.to_open.len() > 0 {
            (self.at(Phase::Opening), silent(ActionView::Open(self.to_open[0])))
        } else if self.started {
            self.idle_check(now)
        } else {
            (self.at(Phase::Checking), silent(ActionView::ReadLed))
        }
    }

    /// The device nodes have been listed.
    pub open spec fn on_listed(self, paths: Seq<Seq<char>>, now: u64) -> Move<D> {
        let watches = kept(self.watches, paths);
        DaemonView { watches, to_open: unopened(watches, paths), ..self }.next_open(now)
    }

    /// The next device has been opened, or could not be.
    pub open spec fn on_opened(self, opened: Option<(D, bool)>, now: u64) -> Move<D> {
        let rest = DaemonView { to_open: self.to_open.drop_first(), ..self };
        match opened {
            None => rest.next_open(now),
            Some((dev, interactive)) => noting(
                if interactive {
                    Some(NoteView::Attached(self.to_open[0]))
                } else {
                    None
                },
                DaemonView {
                    watches: attached(self.watches, self.to_open[0], dev, interactive),
                    ..rest
                }.next_open(now),
            ),
        }
    }

    /// The brightness has been read.
    pub open spec fn on_led_read(self, reading: Option<u8>, now: u64) -> Option<Move<D>> {
        let adopting = DaemonView { backlight: self.backlight.adopting(reading), ..self };
        match self.phase {
            Phase::Checking => Some(
                match reading {
                    Some(level) => (
                        self.at(Phase::CheckWriting),
                        silent(ActionView::WriteLed(level)),
                    ),
                    None => noting(
                        Some(NoteView::LedMissing),
                        (self.at(Phase::Starting), silent(ActionView::ReadLed)),
                    ),
                },
            ),
            Phase::Starting => Some(
                noting(
                    Some(
                        NoteView::Started(
                            self.watches.len() as int,
                            match reading {
                                Some(level) => level,
                                None => 1,
                            },
                        ),
                    ),
                    DaemonView {
                        backlight: Backlight::started(reading, now, self.idle_secs),
                        started: true,
                        ..self
                    }.polling(now),
                ),
            ),
            Phase::Waking => Some(
                match self.backlight.wake_for(reading) {
                    Wake::AlreadyLit(level) => noting(
                        Some(NoteView::AlreadyLit(level)),
                        adopting.touched(now).after_activity(now),
                    ),
                    Wake::Relight(level) => (
                        adopting.at(Phase::Relighting),
                        silent(ActionView::WriteLed(level)),
                    ),
                },
            ),
            Phase::Dimming => Some(
                (adopting.at(Phase::Darkening), silent(ActionView::WriteLed(0))),
            ),
            _ => None,
        }
    }

    /// The brightness has been set, or could not be.
    pub open spec fn on_led_written(self, ok: bool, now: u64) -> Option<Move<D>> {
        match self.phase {
            Phase::CheckWriting => Some(
                noting(
                    if ok {
                        None
                    } else {
                        Some(NoteView::CheckFailed)
                    },
                    (self.at(Phase::Starting), silent(ActionView::ReadLed)),
                ),
            ),
            Phase::Relighting => Some(
                noting(
                    Some(
                        if ok {
                            NoteView::Relit(self.backlight.active_level)
                        } else {
                            NoteView::WriteFailed
                        },
                    ),
                    self.touched(now).after_activity(now),
                ),
            ),
            Phase::Darkening => Some(
                noting(
                    Some(
                        if ok {
                            NoteView::Dimmed(self.backlight.active_level)
                        } else {
                            NoteView::WriteFailed
                        },
                    ),
                    DaemonView { backlight: self.backlight.dimmed(), ..self }.polling(now),
                ),
            ),
            _ => None,
        }
    }

    /// The poll has ended.
    pub open spec fn on_polled(self, end: PollEnd, revents: Seq<i16>, now: u64) -> Move<D> {
        match end {
            PollEnd::Failed => (self.at(Phase::Ended), silent(ActionView::Fail)),
            PollEnd::Shutdown => (self.at(Phase::Ended), silent(ActionView::Stop)),
            PollEnd::Retry => self.polling(now),
            PollEnd::TimedOut => self.idle_check(now),
            PollEnd::Ready => {
                let round = DaemonView {
                    activity: false,
                    ready: ready_devices(revents),
                    dead: Seq::empty(),
                    ..self
                };
                if readable(revents[0]) {
                    (round.at(Phase::Draining), silent(ActionView::ReadHotplug))
                } else {
                    round.next_fetch(now)
                }
            },
        }
    }

    /// Notifications of nodes coming and going have been read.
    pub open spec fn on_hotplug_read(self, read: HotplugRead, now: u64) -> Move<D> {
        match drained(read) {
            Drain::More => (
                DaemonView { rescan_pending: true, ..self },
                silent(ActionView::ReadHotplug),
            ),
            Drain::Done => self.next_fetch(now),
            Drain::Failed => (self.at(Phase::Ended), silent(ActionView::Fail)),
        }
    }

    /// The next device has been read, or could not be.
    pub open spec fn on_fetched(self, events: Option<Seq<InputEvent>>, now: u64) -> Move<D> {
        let rest = DaemonView { ready: self.ready.drop_first(), ..self };
        match events {
            Some(events) => DaemonView {
                activity: self.activity || any_activity(events),
                ..rest
            }.next_fetch(now),
            None => DaemonView { dead: self.dead.push(self.ready[0]), ..rest }.next_fetch(now),
        }
    }

    /// What follows from an event, where it is an answer to what was to be done.
    pub open spec fn next(self, event: EventView<D>, now: u64) -> Option<Move<D>> {
        match (self.phase, event) {
            (Phase::Listing, EventView::Listed(paths)) => Some(self.on_listed(paths, now)),
            (Phase::Opening, EventView::Opened(dev, interactive)) => Some(
                self.on_opened(Some((dev, interactive)), now),
            ),
            (Phase::Opening, EventView::OpenFailed) => Some(self.on_opened(None, now)),
            (_, EventView::LedRead(reading)) => self.on_led_read(reading, now),
            (_, EventView::LedWritten(ok)) => self.on_led_written(ok, now),
            (Phase::Polling, EventView::Polled { rc, interrupted, shutdown, revents }) => {
                if revents.len() == self.watches.len() + 1 {
                    Some(self.on_polled(poll_ended(rc, interrupted, shutdown), revents, now))
                } else {
                    None
                }
            },
            (Phase::Draining, EventView::HotplugRead(read)) => Some(
                self.on_hotplug_read(read, now),
            ),
            (Phase::Fetching, EventView::Fetched(events)) => Some(
                self.on_fetched(Some(events), now),
            ),
            (Phase::Fetching, EventView::FetchFailed) => Some(self.on_fetched(None, now)),
            _ => None,
        }
    }
}

/// The event that a device has been opened: it counts as interactive by the keys and buttons
/// that it has.
pub fn device_opened(dev: RawDevice) -> (event: Event<RawDevice>)
    ensures
        event@ == EventView::<RawDevice>::Opened(dev, selected(dev)),
{
    let interactive = is_interactive(&dev);
    Event::Opened(dev, interactive)
}

/// Every step keeps what holds of the daemon at every moment.
pub proof fn law_step_keeps_wf<D>(daemon: DaemonView<D>, event: EventView<D>, now: u64)
    requires
        daemon.wf(),
        event.fits(),
    ensures
        daemon.next(event, now) matches Some(next) ==> next.0.wf(),
{
    if let EventView::Polled { rc, interrupted, shutdown, revents } = event {
        if revents.len() == daemon.watches.len() + 1 {
            law_ready_devices(revents);
        }
    }
}

impl<D> Daemon<D> {
    fn step_to(&mut self, phase: Phase, action: Action) -> (step: Step<D>)
        ensures
            final(self)@ == old(self)@.at(phase),
            step@ == silent::<D>(action@),
    {
        self.phase = phase;
        Step { note: None, action }
    }

    fn polling(&mut self, now: u64) -> (step: Step<D>)
        ensures
            (final(self)@, step@) == old(self)@.polling(now),
    {
        let timeout = self.backlight.poll_timeout(now);
        self.step_to(Phase::Polling, Action::Poll(timeout))
    }

    fn idle_check(&mut self, now: u64) -> (step: Step<D>)
        ensures
            (final(self)@, step@) == old(self)@.idle_check(now),
    {
        if self.backlight.is_due(now) {
            self.step_to(Phase::Dimming, Action::ReadLed)
        } else {
            self.polling(now)
        }
    }

    fn after_activity(&mut self, now: u64) -> (step: Step<D>)
        ensures
            (final(self)@, step@) == old(self)@.after_activity(now),
    {
        if self.rescan_pending {
            self.rescan_pending = false;
            self.step_to(Phase::Listing, Action::ListDevices)
        } else {
            self.idle_check(now)
        }
    }

    fn touch(&mut self, now: u64)
        ensures
            final(self)@ == old(self)@.touched(now),
    {
        let idle_secs = self.idle_secs;
        self.backlight.touch(now, idle_secs);
        self.activity = false;
    }

    fn round_read(&mut self, now: u64) -> (step: Step<D>)
        requires
            ascending_below(old(self)@.dead, old(self)@.watches.len() as int),
        ensures
            (final(self)@, step@) == old(self)@.round_read(now),
    {
        let ghost before = self@;
        let note = if self.dead.len() > 0 {
            let removed = remove_dead(&mut self.watches, &self.dead);
            self.dead.clear();
            self.rescan_pending = true;
            Some(Note::Removed(removed))
        } else {
            None
        };
        assert(self.dead@ == Seq::<usize>::empty());
        assert(self@ == before.without_dead_watches());
        let step = if !self.activity {
            self.after_activity(now)
        } else if self.backlight.idle {
            self.step_to(Phase::Waking, Action::ReadLed)
        } else {
            self.touch(now);
            self.after_activity(now)
        };
        Step { note, action: step.action }
    }

    fn next_fetch(&mut self, now: u64) -> (step: Step<D>)
        requires
            ascending_below(old(self)@.dead, old(self)@.watches.len() as int),
        ensures
            (final(self)@, step@) == old(self)@.next_fetch(now),
    {
        if self.ready.len() > 0 {
            let index = self.ready[0];
            self.step_to(Phase::Fetching, Action::Fetch(index))
        } else {
            self.round_read(now)
        }
    }

    fn next_open(&mut self, now: u64) -> (step: Step<D>)
        ensures
            (final(self)@, step@) == old(self)@.next_open(now),
    {
        if self.to_open.len() > 0 {
            let path = self.to_open[0].clone();
            self.step_to(Phase::Opening, Action::Open(path))
        } else if self.started {
            self.idle_check(now)
        } else {
            self.step_to(Phase::Checking, Action::ReadLed)
        }
    }

    fn on_listed(&mut self, paths: Vec<String>, now: u64) -> (step: Step<D>)
        ensures
            (final(self)@, step@) == old(self)@.on_listed(texts(paths@), now),
    {
        self.to_open = start_rescan(&mut self.watches, &paths);
        self.next_open(now)
    }

    fn on_opened(&mut self, opened: Option<(D, bool)>, now: u64) -> (step: Step<D>)
        requires
            old(self)@.to_open.len() > 0,
        ensures
            (final(self)@, step@) == old(self)@.on_opened(opened, now),
    {
        let ghost before = self@;
        let path = self.to_open.remove(0);
        assert(texts(self.to_open@) == before.to_open.drop_first());
        match opened {
            None => self.next_open(now),
            Some((dev, interactive)) => {
                let note = if interactive {
                    Some(Note::Attached(path.clone()))
                } else {
                    None
                };
                attach(&mut self.watches, path, dev, interactive);
                let step = self.next_open(now);
                Step { note, action: step.action }
            },
        }
    }

    fn on_led_read(&mut self, reading: Option<u8>, now: u64) -> (step: Option<Step<D>>)
        ensures
            match old(self)@.on_led_read(reading, now) {
                Some(next) => step is Some && (final(self)@, step->0@) == next,
                None => step is None && final(self)@ == old(self)@,
            },
    {
        match self.phase {
            Phase::Checking => Some(
                match reading {
                    Some(level) => self.step_to(Phase::CheckWriting, Action::WriteLed(level)),
                    None => {
                        let step = self.step_to(Phase::Starting, Action::ReadLed);
                        Step { note: Some(Note::LedMissing), action: step.action }
                    },
                },
            ),
            Phase::Starting => {
                let level: u8 = match reading {
                    Some(level) => level,
                    None => 1,
                };
                self.backlight = Backlight::start(reading, now, self.idle_secs);
                self.started = true;
                let devices = self.watches.len();
                let step = self.polling(now);
                Some(Step { note: Some(Note::Started(devices, level)), action: step.action })
            },
            Phase::Waking => {
                match self.backlight.wake(reading) {
                    Wake::AlreadyLit(level) => {
                        self.touch(now);
                        let step = self.after_activity(now);
                        Some(Step { note: Some(Note::AlreadyLit(level)), action: step.action })
                    },
                    Wake::Relight(level) => Some(
                        self.step_to(Phase::Relighting, Action::WriteLed(level)),
                    ),
                }
            },
            Phase::Dimming => {
                self.backlight.adopt(reading);
                Some(self.step_to(Phase::Darkening, Action::WriteLed(0)))
            },
            _ => None,
        }
    }

    fn on_led_written(&mut self, ok: bool, now: u64) -> (step: Option<Step<D>>)
        ensures
            match old(self)@.on_led_written(ok, now) {
                Some(next) => step is Some && (final(self)@, step->0@) == next,
                None => step is None && final(self)@ == old(self)@,
            },
    {
        let level = self.backlight.active_level;
        match self.phase {
            Phase::CheckWriting => {
                let step = self.step_to(Phase::Starting, Action::ReadLed);
                Some(
                    Step {
                        note: if ok {
                            None
                        } else {
                            Some(Note::CheckFailed)
                        },
                        action: step.action,
                    },
                )
            },
            Phase::Relighting => {
                self.touch(now);
                let step = self.after_activity(now);
                Some(
                    Step {
                        note: Some(
                            if ok {
                                Note::Relit(level)
                            } else {
                                Note::WriteFailed
                            },
                        ),
                        action: step.action,
                    },
                )
            },
            Phase::Darkening => {
                self.backlight.dim();
                let step = self.polling(now);
                Some(
                    Step {
                        note: Some(
                            if ok {
                                Note::Dimmed(level)
                            } else {
                                Note::WriteFailed
                            },
                        ),
                        action: step.action,
                    },
                )
            },
            _ => None,
        }
    }

    fn on_polled(&mut self, end: PollEnd, revents: &Vec<i16>, now: u64) -> (step: Step<D>)
        requires
            revents@.len() == old(self)@.watches.len() + 1,
        ensures
            (final(self)@, step@) == old(self)@.on_polled(end, revents@, now),
    {
        match end {
            PollEnd::Failed => self.step_to(Phase::Ended, Action::Fail),
            PollEnd::Shutdown => self.step_to(Phase::Ended, Action::Stop),
            PollEnd::Retry => self.polling(now),
            PollEnd::TimedOut => self.idle_check(now),
            PollEnd::Ready => {
                self.activity = false;
                self.ready = find_ready(revents);
                self.dead.clear();
                assert(self.dead@ == Seq::<usize>::empty());
                if is_readable(revents[0]) {
                    self.step_to(Phase::Draining, Action::ReadHotplug)
                } else {
                    self.next_fetch(now)
                }
            },
        }
    }

    fn on_hotplug_read(&mut self, read: HotplugRead, now: u64) -> (step: Step<D>)
        requires
            ascending_below(old(self)@.dead, old(self)@.watches.len() as int),
        ensures
            (final(self)@, step@) == old(self)@.on_hotplug_read(read, now),
    {
        match drain(read) {
            Drain::More => {
                self.rescan_pending = true;
                Step { note: None, action: Action::ReadHotplug }
            },
            Drain::Done => self.next_fetch(now),
            Drain::Failed => self.step_to(Phase::Ended, Action::Fail),
        }
    }

    fn on_fetched(&mut self, events: Option<Vec<InputEvent>>, now: u64) -> (step: Step<D>)
        requires
            old(self)@.wf(),
            old(self)@.phase == Phase::Fetching,
        ensures
            (final(self)@, step@) == old(self)@.on_fetched(
                match events {
                    Some(list) => Some(list@),
                    None => None,
                },
                now,
            ),
    {
        let ghost before = self@;
        let index = self.ready.remove(0);
        assert(self.ready@ == before.ready.drop_first());
        match events {
            Some(list) => {
                if has_activity(&list) {
                    self.activity = true;
                }
            },
            None => self.dead.push(index),
        }
        self.next_fetch(now)
    }

    /// The daemon, with the idle time in seconds, and its first action.
    pub fn new(idle_secs: u64) -> (begun: (Daemon<D>, Action))
        ensures
            begun.0@ == DaemonView::<D>::initial(idle_secs),
            begun.0@.wf(),
            begun.1@ == ActionView::ListDevices,
    {
        let daemon = Daemon {
            idle_secs,
            backlight: Backlight { active_level: 1, idle: false, deadline: 0 },
            started: false,
            rescan_pending: false,
            activity: false,
            watches: Vec::new(),
            to_open: Vec::new(),
            ready: Vec::new(),
            dead: Vec::new(),
            phase: Phase::Listing,
        };
        assert(watch_views(daemon.watches@) == Seq::<WatchView<D>>::empty());
        assert(texts(daemon.to_open@) == Seq::<Seq<char>>::empty());
        (daemon, Action::ListDevices)
    }

    /// The devices that are being watched.
    pub fn watches(&self) -> (watches: &Vec<Watch<D>>)
        ensures
            watch_views(watches@) == self@.watches,
    {
        &self.watches
    }

    /// The device at a position, to be read from.
    pub fn device_mut(&mut self, index: usize) -> (dev: &mut D)
        requires
            index < old(self)@.watches.len(),
        ensures
            *dev == old(self)@.watches[index as int].dev,
            final(self)@ == old(self)@.with_device(index as int, *final(dev)),
            old(self)@.wf() ==> final(self)@.wf(),
    {
        &mut self.watches[index].dev
    }

    /// Tells the daemon how the last action went, and at which moment; returns what follows. An
    /// event that is no answer to the last action changes nothing and has no step.
    pub fn step(&mut self, event: Event<D>, now: u64) -> (step: Option<Step<D>>)
        requires
            old(self)@.wf(),
        ensures
            match old(self)@.next(event@, now) {
                Some(next) => step is Some && (final(self)@, step->0@) == next,
                None => step is None && final(self)@ == old(self)@,
            },
            final(self)@.wf(),
    {
        proof {
            if let Event::Polled { revents, .. } = &event {
                assert(revents.len() <= usize::MAX);
            }
            law_step_keeps_wf(self@, event@, now);
        }
        match (self.phase, event) {
            (Phase::Listing, Event::Listed(paths)) => Some(self.on_listed(paths, now)),
            (Phase::Opening, Event::Opened(dev, interactive)) => Some(
                self.on_opened(Some((dev, interactive)), now),
            ),
            (Phase::Opening, Event::OpenFailed) => Some(self.on_opened(None, now)),
            (_, Event::LedRead(reading)) => self.on_led_read(reading, now),
            (_, Event::LedWritten(ok)) => self.on_led_written(ok, now),
            (Phase::Polling, Event::Polled { rc, interrupted, shutdown, revents }) => {
                if revents.len() > 0 && revents.len() - 1 == self.watches.len() {
                    Some(self.on_polled(poll_end(rc, interrupted, shutdown), &revents, now))
                } else {
                    None
                }
            },
            (Phase::Draining, Event::HotplugRead(read)) => Some(self.on_hotplug_read(read, now)),
            (Phase::Fetching, Event::Fetched(events)) => Some(self.on_fetched(Some(events), now)),
            (Phase::Fetching, Event::FetchFailed) => Some(self.on_fetched(None, now)),
            _ => None,
        }
    }
}

/// What is told, to be done and reported is seen as it is: every path, level, time and position.
pub proof fn law_views_are_faithful<D>(
    path: String,
    level: u8,
    timeout: i32,
    index: usize,
    dev: D,
    flag: bool,
    reading: Option<u8>,
)
    ensures
        Action::Open(path)@ == ActionView::Open(path@),
        Action::WriteLed(level)@ == ActionView::WriteLed(level),
        Action::Poll(timeout)@ == ActionView::Poll(timeout as int),
        Action::Fetch(index)@ == ActionView::Fetch(index),
        Event::Opened(dev, flag)@ == EventView::Opened(dev, flag),
        Event::<D>::LedRead(reading)@ == EventView::<D>::LedRead(reading),
        Event::<D>::LedWritten(flag)@ == EventView::<D>::LedWritten(flag),
        Note::<D>::Started(index, level)@ == NoteView::<D>::Started(index as int, level),
        Note::<D>::AlreadyLit(level)@ == NoteView::<D>::AlreadyLit(level),
        Note::<D>::Relit(level)@ == NoteView::<D>::Relit(level),
        Note::<D>::Dimmed(level)@ == NoteView::<D>::Dimmed(level),
        Note::<D>::Attached(path)@ == NoteView::<D>::Attached(path@),
{
}

} // verus!
