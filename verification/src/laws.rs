//! What the daemon promises as a whole.

use evdev::raw_stream::RawDevice;
use evdev::InputEvent;
use vstd::prelude::*;

#[allow(unused_imports)]
use crate::backlight::{adopted, deadline_after, NANOS_PER_MILLI, POLL_MAX_TIMEOUT_MS};
#[allow(unused_imports)]
use crate::daemon::{
    law_step_keeps_wf, ActionView, DaemonView, EventView, NoteView, Phase, StepView,
};
#[allow(unused_imports)]
use crate::device::{any_activity, selected, supported_codes};
#[allow(unused_imports)]
use crate::options::OptsView;
#[allow(unused_imports)]
use crate::path::{meaning, meanings};
#[allow(unused_imports)]
use crate::poll::{drained, Drain};
#[allow(unused_imports)]
use crate::steps::{law_listing, law_opening, law_reading, round_ends, user_acts};
#[allow(unused_imports)]
use crate::watch::{
    each_once, kept, law_rescan_result, lemma_attach_each_once, lemma_rescan_each_once,
    lemma_rescan_goes_by_paths, lemma_without_dead_elements, lemma_without_dead_goes_by_position,
    lemma_without_dead_nodes, node_present, opened_all, rescanned, unopened, watched_nodes,
    watched_paths, without_dead, WatchView,
};

verus! {

/// What happens to a daemon: it is told of an event at a moment, or one of its devices is read and
/// is then in another state.
pub enum Happening<D> {
    Told(EventView<D>, u64),
    Read(int, D),
}

/// The daemon after something has happened to it, where an event is an answer to what was to be
/// done and a device that is read is one of those watched.
pub open spec fn after_one<D>(daemon: DaemonView<D>, happening: Happening<D>) -> Option<
    DaemonView<D>,
> {
    match happening {
        Happening::Told(event, now) => match daemon.next(event, now) {
            Some((after, _)) => Some(after),
            None => None,
        },
        Happening::Read(index, dev) => if 0 <= index < daemon.watches.len() {
            Some(daemon.with_device(index, dev))
        } else {
            None
        },
    }
}

/// The daemon after all that has happened to it, in a row.
pub open spec fn run<D>(daemon: DaemonView<D>, row: Seq<Happening<D>>) -> Option<DaemonView<D>>
    decreases row.len(),
{
    if row.len() == 0 {
        Some(daemon)
    } else {
        match run(daemon, row.drop_last()) {
            Some(before) => after_one(before, row.last()),
            None => None,
        }
    }
}

/// The daemon after an event that is an answer to what was to be done.
pub open spec fn followed<D>(daemon: DaemonView<D>, event: EventView<D>, now: u64) -> DaemonView<
    D,
> {
    match daemon.next(event, now) {
        Some((after, _)) => after,
        None => daemon,
    }
}

/// Whether the events are of a size that a machine can hold.
pub open spec fn fit<D>(row: Seq<Happening<D>>) -> bool {
    forall|i: int|
        0 <= i < row.len() ==> (#[trigger] row[i] matches Happening::Told(event, _)
            ==> event.fits())
}

/// Whether an event brings news of the user.
pub open spec fn brings_activity<D>(event: EventView<D>) -> bool {
    event matches EventView::Fetched(events) && any_activity(events)
}

/// Whether none of the events brings news of the user.
pub open spec fn quiet<D>(row: Seq<Happening<D>>) -> bool {
    forall|i: int|
        0 <= i < row.len() ==> (#[trigger] row[i] matches Happening::Told(event, _)
            ==> !brings_activity(event))
}

/// Whether the event is an answer to what the daemon waits for.
pub open spec fn answers<D>(daemon: DaemonView<D>, event: EventView<D>) -> bool {
    match event {
        EventView::Listed(_) => daemon.phase == Phase::Listing,
        EventView::Opened(_, _) | EventView::OpenFailed => daemon.phase == Phase::Opening,
        EventView::LedRead(_) => daemon.phase == Phase::Checking || daemon.phase == Phase::Starting
            || daemon.phase == Phase::Waking || daemon.phase == Phase::Dimming,
        EventView::LedWritten(_) => daemon.phase == Phase::CheckWriting || daemon.phase
            == Phase::Relighting || daemon.phase == Phase::Darkening,
        EventView::Polled { revents, .. } => daemon.phase == Phase::Polling && revents.len()
            == daemon.watches.len() + 1,
        EventView::HotplugRead(_) => daemon.phase == Phase::Draining,
        EventView::Fetched(_) | EventView::FetchFailed => daemon.phase == Phase::Fetching,
    }
}

/// Whether the daemon waits for what the action brings.
pub open spec fn awaits<D>(daemon: DaemonView<D>, action: ActionView) -> bool {
    match action {
        ActionView::ListDevices => daemon.phase == Phase::Listing,
        ActionView::Open(path) => daemon.phase == Phase::Opening && path == daemon.to_open[0],
        ActionView::ReadLed => daemon.phase == Phase::Checking || daemon.phase == Phase::Starting
            || daemon.phase == Phase::Waking || daemon.phase == Phase::Dimming,
        ActionView::WriteLed(_) => daemon.phase == Phase::CheckWriting || daemon.phase
            == Phase::Relighting || daemon.phase == Phase::Darkening,
        ActionView::Poll(_) => daemon.phase == Phase::Polling,
        ActionView::ReadHotplug => daemon.phase == Phase::Draining,
        ActionView::Fetch(index) => daemon.phase == Phase::Fetching && index == daemon.ready[0]
            && index < daemon.watches.len(),
        ActionView::Stop | ActionView::Fail => daemon.phase == Phase::Ended,
    }
}

/// A step follows from an event if and only if the event answers what was to be done.
pub proof fn law_answers_are_taken<D>(daemon: DaemonView<D>, event: EventView<D>, now: u64)
    ensures
        daemon.next(event, now) is Some <==> answers(daemon, event),
{
}

/// After every step the daemon waits for what the step's action brings; a device that is to be
/// read is among the watches.
pub proof fn law_actions_are_awaited<D>(daemon: DaemonView<D>, event: EventView<D>, now: u64)
    requires
        daemon.wf(),
        event.fits(),
    ensures
        daemon.next(event, now) matches Some((after, step)) ==> awaits(after, step.action),
{
    law_step_keeps_wf(daemon, event, now);
}

proof fn lemma_after_one<D>(daemon: DaemonView<D>, happening: Happening<D>)
    requires
        daemon.wf(),
        happening matches Happening::Told(event, _) ==> event.fits(),
    ensures
        after_one(daemon, happening) matches Some(after) ==> after.wf() && after.idle_secs
            == daemon.idle_secs && (daemon.started ==> after.started),
{
    if let Happening::Told(event, now) = happening {
        law_step_keeps_wf(daemon, event, now);
    }
}

/// What holds of the daemon at every moment holds after whatever happens to it; the idle time
/// never changes.
pub proof fn law_always_wf<D>(daemon: DaemonView<D>, row: Seq<Happening<D>>)
    requires
        daemon.wf(),
        fit(row),
    ensures
        run(daemon, row) matches Some(after) ==> after.wf() && after.idle_secs
            == daemon.idle_secs && (daemon.started ==> after.started),
    decreases row.len(),
{
    if row.len() > 0 {
        law_always_wf(daemon, row.drop_last());
        assert(row[row.len() - 1] == row.last());
        if let Some(before) = run(daemon, row.drop_last()) {
            lemma_after_one(before, row.last());
        }
    }
}

/// What is ever written: at the start the level that was just read; when the user is back and
/// the backlight is not on, the level to go back to, which is never 0; and 0 when the idle time
/// has run out.
pub proof fn law_what_is_written<D>(
    daemon: DaemonView<D>,
    event: EventView<D>,
    now: u64,
    level: u8,
)
    requires
        daemon.wf(),
        daemon.next(event, now) matches Some((_, step)) && step.action == ActionView::WriteLed(
            level,
        ),
    ensures
        daemon.phase == Phase::Checking || daemon.phase == Phase::Waking || daemon.phase
            == Phase::Dimming,
        daemon.phase == Phase::Checking ==> event == EventView::<D>::LedRead(Some(level)),
        daemon.phase == Phase::Waking ==> level == daemon.backlight.active_level && level > 0 && (
        event == EventView::<D>::LedRead(None) || event == EventView::<D>::LedRead(Some(0u8))),
        daemon.phase == Phase::Dimming ==> level == 0,
{
}

/// A poll waits without end if and only if the backlight is idle; else it ends no later than the
/// deadline, and less than a millisecond before it unless it is the longest poll there is.
pub proof fn law_polls_wait<D>(daemon: DaemonView<D>, event: EventView<D>, now: u64, timeout: int)
    requires
        daemon.next(event, now) matches Some((_, step)) && step.action == ActionView::Poll(
            timeout,
        ),
    ensures
        daemon.next(event, now) matches Some((after, _)) && {
            &&& timeout == -1 <==> after.backlight.idle
            &&& !after.backlight.idle ==> {
                &&& 0 <= timeout <= POLL_MAX_TIMEOUT_MS
                &&& now < after.backlight.deadline ==> now + timeout * NANOS_PER_MILLI
                    <= after.backlight.deadline
                &&& timeout < POLL_MAX_TIMEOUT_MS ==> after.backlight.deadline < now + (timeout
                    + 1) * NANOS_PER_MILLI
            }
        },
{
}

/// Whether there is a reason to list the devices anew: nodes have come or gone, or a device broke.
pub open spec fn unsettled<D>(daemon: DaemonView<D>) -> bool {
    daemon.rescan_pending || (daemon.in_round() && daemon.dead.len() > 0)
}

/// Nodes that have come or gone, and devices that broke, are a reason to list the devices anew;
/// the reason lasts until that is done, and no poll comes before it.
pub proof fn law_rescan_comes_before_poll<D>(
    daemon: DaemonView<D>,
    event: EventView<D>,
    now: u64,
)
    requires
        daemon.wf(),
        event.fits(),
    ensures
        daemon.next(event, now) matches Some((after, step)) ==> {
            &&& step.action is Poll ==> !unsettled(after)
            &&& unsettled(daemon) ==> unsettled(after) || step.action is ListDevices
                || step.action is Fail
            &&& event is FetchFailed ==> unsettled(after) || step.action is ListDevices
            &&& (event matches EventView::HotplugRead(read) && drained(read) == Drain::More)
                ==> unsettled(after)
        },
{
    law_step_keeps_wf(daemon, event, now);
}

/// The backlight is dimmed only when it is active and its deadline has come.
pub proof fn law_no_early_dimming<D>(daemon: DaemonView<D>, event: EventView<D>, now: u64)
    requires
        daemon.wf(),
        !daemon.dimming(),
        daemon.next(event, now) matches Some((after, _)) && after.dimming(),
    ensures
        daemon.next(event, now) matches Some((after, step)) && {
            &&& !after.backlight.idle
            &&& now >= after.backlight.deadline
            &&& step.action == ActionView::ReadLed
        },
{
}

/// The deadline is the moment of the start or of the last activity, and the idle time: it moves
/// only then, and always to the idle time from now.
pub proof fn law_deadline_follows_activity<D>(
    daemon: DaemonView<D>,
    event: EventView<D>,
    now: u64,
)
    requires
        daemon.wf(),
    ensures
        daemon.next(event, now) matches Some((after, _)) ==> {
            ||| after.backlight.deadline == daemon.backlight.deadline
            ||| {
                &&& after.backlight.deadline == deadline_after(now, daemon.idle_secs)
                &&& daemon.phase == Phase::Starting || daemon.activity || brings_activity(event)
            }
        },
{
}

/// Activity in an active backlight's round starts the idle time anew and leaves the brightness
/// alone: once all devices have been read, the daemon neither reads nor writes it.
pub proof fn law_typing_leaves_the_light_alone<D>(
    daemon: DaemonView<D>,
    event: EventView<D>,
    now: u64,
)
    requires
        daemon.wf(),
        daemon.idle_secs > 0,
        !daemon.backlight.idle,
        daemon.phase == Phase::Fetching,
        daemon.activity || brings_activity(event),
        daemon.next(event, now) matches Some((after, _)) && after.phase != Phase::Fetching,
    ensures
        daemon.next(event, now) matches Some((after, step)) && {
            &&& after.backlight.active_level == daemon.backlight.active_level
            &&& !after.backlight.idle
            &&& after.backlight.deadline == deadline_after(now, daemon.idle_secs)
            &&& step.action is Poll || step.action is ListDevices
        },
{
}

/// An active backlight whose deadline has come goes dark: the brightness is read, then 0 is
/// written, whatever was read, and then the daemon waits without end, with the level that the
/// user had set to go back to.
pub proof fn law_due_backlight_goes_dark<D>(
    daemon: DaemonView<D>,
    poll: EventView<D>,
    reading: Option<u8>,
    written: bool,
    now: u64,
    read_at: u64,
    written_at: u64,
)
    requires
        daemon.wf(),
        daemon.phase == Phase::Polling,
        daemon.backlight.due(now),
        poll matches EventView::Polled { rc, revents, .. } && rc == 0 && revents.len()
            == daemon.watches.len() + 1,
    ensures
        daemon.next(poll, now) matches Some((first, read)) && read.action == ActionView::ReadLed && (
        first.next(EventView::LedRead(reading), read_at) matches Some((second, write))
            && write.action == ActionView::WriteLed(0) && (second.next(
            EventView::LedWritten(written),
            written_at,
        ) matches Some((third, wait)) && wait.action == ActionView::Poll(-1)
            && third.backlight.idle && third.phase == Phase::Polling
            && third.backlight.active_level == adopted(daemon.backlight.active_level, reading))),
{
}

/// Without activity nothing brings the light back and nothing puts off the dimming: a daemon that
/// has started keeps its deadline, an idle backlight stays idle, and the daemon never gets to
/// lighting it.
pub proof fn law_quiet_stays_dark<D>(daemon: DaemonView<D>, row: Seq<Happening<D>>)
    requires
        daemon.wf(),
        daemon.started,
        !daemon.activity,
        fit(row),
        quiet(row),
    ensures
        run(daemon, row) matches Some(after) ==> {
            &&& after.backlight.deadline == daemon.backlight.deadline
            &&& daemon.backlight.idle ==> after.backlight.idle
            &&& !after.activity
            &&& !after.waking()
        },
    decreases row.len(),
{
    if row.len() > 0 {
        let front = row.drop_last();
        law_quiet_stays_dark(daemon, front);
        law_always_wf(daemon, front);
        assert(row[row.len() - 1] == row.last());
        if let Some(before) = run(daemon, front) {
            lemma_after_one(before, row.last());
        }
    }
}

/// The daemon never goes back to waiting with an active backlight whose deadline has come, other
/// than after a signal, which leaves the round unfinished.
pub proof fn law_no_wait_past_the_deadline<D>(
    daemon: DaemonView<D>,
    event: EventView<D>,
    now: u64,
)
    requires
        daemon.wf(),
        daemon.idle_secs > 0,
        daemon.next(event, now) matches Some((after, step)) && step.action is Poll
            && !after.backlight.idle,
        event matches EventView::Polled { rc, .. } ==> rc >= 0,
    ensures
        daemon.next(event, now) matches Some((after, _)) && now < after.backlight.deadline,
{
}

/// The backlight goes dark when the idle time has passed since the last input: a daemon waiting
/// with an active backlight, whatever it is told in the meantime, as long as none of it is
/// activity, has 0 written when it next finds nothing to do from the same deadline on.
pub proof fn law_dark_after_the_idle_time<D>(
    daemon: DaemonView<D>,
    row: Seq<Happening<D>>,
    poll: EventView<D>,
    reading: Option<u8>,
    now: u64,
    read_at: u64,
)
    requires
        daemon.wf(),
        daemon.phase == Phase::Polling,
        fit(row),
        quiet(row),
        run(daemon, row) matches Some(waiting) && waiting.phase == Phase::Polling
            && !waiting.backlight.idle && (poll matches EventView::Polled { rc, revents, .. } && rc
            == 0 && revents.len() == waiting.watches.len() + 1),
        now >= daemon.backlight.deadline,
    ensures
        run(daemon, row) matches Some(waiting) && (waiting.next(poll, now) matches Some(
            (first, read),
        ) && read.action == ActionView::ReadLed && (first.next(
            EventView::LedRead(reading),
            read_at,
        ) matches Some((_, write)) && write.action == ActionView::WriteLed(0))),
{
    law_quiet_stays_dark(daemon, row);
    law_always_wf(daemon, row);
}

/// Whether the backlight is idle all along.
pub open spec fn dark_throughout<D>(daemon: DaemonView<D>, row: Seq<Happening<D>>) -> bool {
    forall|n: int|
        0 <= n <= row.len() ==> (#[trigger] run(daemon, row.take(n)) matches Some(after)
            && after.backlight.idle)
}

/// As long as the backlight is idle, the level to go back to stays what it was.
pub proof fn law_level_kept_in_the_dark<D>(daemon: DaemonView<D>, row: Seq<Happening<D>>)
    requires
        daemon.wf(),
        daemon.started,
        fit(row),
        dark_throughout(daemon, row),
    ensures
        run(daemon, row) matches Some(after) && after.backlight.active_level
            == daemon.backlight.active_level,
    decreases row.len(),
{
    assert(row.take(row.len() as int) == row);
    if row.len() > 0 {
        let front = row.drop_last();
        assert forall|n: int| 0 <= n <= front.len() implies (#[trigger] run(
            daemon,
            front.take(n),
        ) matches Some(after) && after.backlight.idle) by {
            assert(front.take(n) == row.take(n));
        }
        law_level_kept_in_the_dark(daemon, front);
        law_always_wf(daemon, front);
        assert(front.take(front.len() as int) == front);
        assert(run(daemon, front.take(front.len() as int)) matches Some(before)
            && before.backlight.idle);
        assert(row[row.len() - 1] == row.last());
        if let Some(before) = run(daemon, front) {
            lemma_after_one(before, row.last());
        }
    }
}

/// The next input brings back the last level that the user chose. When the backlight went dark
/// the brightness was read; whatever comes while it is dark, once the user is back and the
/// brightness is still not on, the level that was read is written, or, where none was read, the
/// one to go back to before.
pub proof fn law_chosen_level_comes_back<D>(
    daemon: DaemonView<D>,
    before: Option<u8>,
    read_at: u64,
    written: bool,
    written_at: u64,
    dark: Seq<Happening<D>>,
    after: Option<u8>,
    now: u64,
)
    requires
        daemon.wf(),
        daemon.started,
        daemon.phase == Phase::Dimming,
        fit(dark),
        dark_throughout(dimmed(daemon, before, read_at, written, written_at), dark),
        run(dimmed(daemon, before, read_at, written, written_at), dark) matches Some(woken)
            && woken.phase == Phase::Waking,
        after == None::<u8> || after == Some(0u8),
    ensures
        run(dimmed(daemon, before, read_at, written, written_at), dark) matches Some(woken) && (
        woken.next(EventView::LedRead(after), now) matches Some((_, step)) && step.action
            == ActionView::WriteLed(adopted(daemon.backlight.active_level, before))),
{
    law_step_keeps_wf(daemon, EventView::LedRead(before), read_at);
    let second = followed(daemon, EventView::LedRead(before), read_at);
    law_step_keeps_wf(second, EventView::LedWritten(written), written_at);
    law_level_kept_in_the_dark(dimmed(daemon, before, read_at, written, written_at), dark);
}

/// The daemon once it has dimmed the backlight, given what it read and whether it could write.
pub open spec fn dimmed<D>(
    daemon: DaemonView<D>,
    reading: Option<u8>,
    read_at: u64,
    written: bool,
    written_at: u64,
) -> DaemonView<D> {
    followed(
        followed(daemon, EventView::LedRead(reading), read_at),
        EventView::LedWritten(written),
        written_at,
    )
}

/// A level that the user sets while the backlight is dark is left alone: it is not written over,
/// and it becomes the level to go back to.
pub proof fn law_manual_relight_is_respected<D>(daemon: DaemonView<D>, level: u8, now: u64)
    requires
        daemon.wf(),
        daemon.phase == Phase::Waking,
        level > 0,
    ensures
        daemon.next(EventView::LedRead(Some(level)), now) matches Some((after, step)) && {
            &&& !(step.action is WriteLed)
            &&& !after.backlight.idle
            &&& after.backlight.active_level == level
            &&& after.backlight.deadline == deadline_after(now, daemon.idle_secs)
        },
{
}

/// If the backlight is off at the start, the first activity turns it on, at level 1.
pub proof fn law_first_light<D>(
    daemon: DaemonView<D>,
    started_at: u64,
    dark: Seq<Happening<D>>,
    after: Option<u8>,
    now: u64,
)
    requires
        daemon.wf(),
        daemon.phase == Phase::Starting,
        fit(dark),
        dark_throughout(
            followed(daemon, EventView::LedRead(Some(0u8)), started_at),
            dark,
        ),
        run(followed(daemon, EventView::LedRead(Some(0u8)), started_at), dark) matches Some(woken)
            && woken.phase == Phase::Waking,
        after == None::<u8> || after == Some(0u8),
    ensures
        run(followed(daemon, EventView::LedRead(Some(0u8)), started_at), dark) matches Some(woken)
            && (woken.next(EventView::LedRead(after), now) matches Some((_, step)) && step.action
            == ActionView::WriteLed(1)),
{
    law_step_keeps_wf(daemon, EventView::LedRead(Some(0u8)), started_at);
    law_level_kept_in_the_dark(
        followed(daemon, EventView::LedRead(Some(0u8)), started_at),
        dark,
    );
}

/// In one step what the user types leaves no trace: of the events that a device reports only this
/// much is kept or acted on, whether some of them is activity.
pub proof fn law_payloads_leave_no_trace<D>(
    daemon: DaemonView<D>,
    left: Seq<InputEvent>,
    right: Seq<InputEvent>,
    now: u64,
)
    requires
        any_activity(left) == any_activity(right),
    ensures
        daemon.next(EventView::Fetched(left), now) == daemon.next(EventView::Fetched(right), now),
{
}

/// Whether there has been activity since the last poll, given whether there had been before the
/// row began.
pub open spec fn seen_activity<D>(start: bool, row: Seq<Happening<D>>) -> bool
    decreases row.len(),
{
    if row.len() == 0 {
        start
    } else {
        match row.last() {
            Happening::Told(EventView::Polled { .. }, _) => false,
            Happening::Told(event, _) => seen_activity(start, row.drop_last()) || brings_activity(
                event,
            ),
            Happening::Read(..) => seen_activity(start, row.drop_last()),
        }
    }
}

/// While a round is being read, the daemon knows whether there has been activity in it.
pub proof fn law_activity_of_the_round<D>(daemon: DaemonView<D>, row: Seq<Happening<D>>)
    ensures
        run(daemon, row) matches Some(after) ==> (after.in_round() ==> after.activity
            == seen_activity(daemon.activity, row)),
    decreases row.len(),
{
    if row.len() > 0 {
        law_activity_of_the_round(daemon, row.drop_last());
    }
}

/// Whether the happening at a position of the row ends a round: it tells of the last device that
/// was to be read.
pub open spec fn ends_round<D>(daemon: DaemonView<D>, row: Seq<Happening<D>>, n: int) -> bool {
    row[n] is Told && (run(daemon, row.take(n)) matches Some(before) && before.phase
        == Phase::Fetching && before.ready.len() == 1)
}

/// Whether the rows agree, at the end of each round, on whether there was activity in it.
pub open spec fn rounds_agree<D>(
    daemon: DaemonView<D>,
    left: Seq<Happening<D>>,
    right: Seq<Happening<D>>,
) -> bool {
    forall|n: int|
        0 <= n < left.len() && #[trigger] ends_round(daemon, left, n) ==> seen_activity(
            daemon.activity,
            left.take(n + 1),
        ) == seen_activity(daemon.activity, right.take(n + 1))
}

proof fn lemma_rounds_agree<D>(
    daemon: DaemonView<D>,
    left: Seq<Happening<D>>,
    right: Seq<Happening<D>>,
)
    requires
        0 < left.len() == right.len(),
        rounds_agree(daemon, left, right),
    ensures
        rounds_agree(daemon, left.drop_last(), right.drop_last()),
        ends_round(daemon, left, left.len() - 1) ==> seen_activity(daemon.activity, left)
            == seen_activity(daemon.activity, right),
{
    let (first, second) = (left.drop_last(), right.drop_last());
    assert forall|n: int| 0 <= n < first.len() && #[trigger] ends_round(
        daemon,
        first,
        n,
    ) implies seen_activity(daemon.activity, first.take(n + 1)) == seen_activity(
        daemon.activity,
        second.take(n + 1),
    ) by {
        assert(first.take(n) == left.take(n));
        assert(ends_round(daemon, left, n));
        assert(first.take(n + 1) == left.take(n + 1));
        assert(second.take(n + 1) == right.take(n + 1));
    }
    assert(left.take(left.len() as int) == left);
    assert(right.take(right.len() as int) == right);
}

/// The step that follows at a position of the row, where there is one.
pub open spec fn step_at<D>(daemon: DaemonView<D>, row: Seq<Happening<D>>, n: int) -> Option<
    StepView<D>,
> {
    match (run(daemon, row.take(n)), row[n]) {
        (Some(before), Happening::Told(event, now)) => match before.next(event, now) {
            Some((_, step)) => Some(step),
            None => None,
        },
        _ => None,
    }
}

/// Whether two happenings differ at most in what the user typed: they are equal, or both bring
/// events of a device at the same moment.
pub open spec fn alike<D>(left: Happening<D>, right: Happening<D>) -> bool {
    ||| left == right
    ||| left matches Happening::Told(EventView::Fetched(_), at) && (
    right matches Happening::Told(EventView::Fetched(_), other) && at == other)
}

/// Whether two daemons are equal, but for what they have seen of a round that is still being read.
pub open spec fn equal_but_for_the_round<D>(left: DaemonView<D>, right: DaemonView<D>) -> bool {
    &&& left == DaemonView { activity: left.activity, ..right }
    &&& left.phase != Phase::Fetching ==> left == right
}

proof fn lemma_typing<D>(
    left: DaemonView<D>,
    right: DaemonView<D>,
    told: EventView<D>,
    reply: EventView<D>,
    now: u64,
)
    requires
        equal_but_for_the_round(left, right),
        told == reply || (told is Fetched && reply is Fetched),
        left.phase == Phase::Fetching && left.ready.len() == 1 && (told is Fetched
            || told is FetchFailed) ==> (left.activity || brings_activity(told)) == (right.activity
            || brings_activity(reply)),
        left.phase == Phase::Fetching ==> left.ready.len() > 0,
    ensures
        match (left.next(told, now), right.next(reply, now)) {
            (Some((first, step)), Some((second, answer))) => equal_but_for_the_round(first, second)
                && step == answer,
            (None, None) => true,
            _ => false,
        },
{
}

/// What the user types leaves no trace over any time: where two rows differ only in it, and agree
/// at the end of each round on whether there was activity in it, all that is done and reported is
/// the same, and so is the daemon, but for what it has seen of a round that is still being read.
pub proof fn law_typing_leaves_no_trace<D>(
    daemon: DaemonView<D>,
    left: Seq<Happening<D>>,
    right: Seq<Happening<D>>,
)
    requires
        daemon.wf(),
        fit(left),
        left.len() == right.len(),
        forall|i: int| 0 <= i < left.len() ==> alike(#[trigger] left[i], right[i]),
        rounds_agree(daemon, left, right),
    ensures
        forall|n: int|
            0 <= n < left.len() ==> #[trigger] step_at(daemon, left, n) == step_at(
                daemon,
                right,
                n,
            ),
        match (run(daemon, left), run(daemon, right)) {
            (Some(first), Some(second)) => equal_but_for_the_round(first, second),
            (None, None) => true,
            _ => false,
        },
    decreases left.len(),
{
    if left.len() > 0 {
        let (first, second) = (left.drop_last(), right.drop_last());
        let last = left.len() - 1;
        assert forall|i: int| 0 <= i < first.len() implies alike(#[trigger] first[i], second[i]) by {
            assert(alike(left[i], right[i]));
        }
        lemma_rounds_agree(daemon, left, right);
        law_typing_leaves_no_trace(daemon, first, second);
        law_activity_of_the_round(daemon, first);
        law_activity_of_the_round(daemon, second);
        law_always_wf(daemon, first);
        assert(alike(left[last], right[last]));
        assert(left.take(last) == first && right.take(last) == second);
        if let (Some(one), Some(two)) = (run(daemon, first), run(daemon, second)) {
            if let (Happening::Told(told, now), Happening::Told(reply, _)) = (
                left[last],
                right[last],
            ) {
                lemma_typing(one, two, told, reply, now);
            }
        }
        assert(step_at(daemon, left, last) == step_at(daemon, right, last));
        assert forall|n: int| 0 <= n < left.len() implies #[trigger] step_at(daemon, left, n)
            == step_at(daemon, right, n) by {
            if n < last {
                assert(first.take(n) == left.take(n) && second.take(n) == right.take(n));
                assert(step_at(daemon, first, n) == step_at(daemon, second, n));
            }
        }
    }
}

/// Whether two daemons are equal, but for the devices of their watches.
pub open spec fn equal_but_for_devices<D>(left: DaemonView<D>, right: DaemonView<D>) -> bool {
    &&& left == DaemonView { watches: left.watches, ..right }
    &&& watched_paths(left.watches) == watched_paths(right.watches)
}

/// Whether two events are equal, but for the device that was opened.
pub open spec fn same_event<D>(left: EventView<D>, right: EventView<D>) -> bool {
    match (left, right) {
        (EventView::Opened(_, first), EventView::Opened(_, second)) => first == second,
        _ => left == right,
    }
}

/// Whether two notes are equal, but for the devices that are no longer watched.
pub open spec fn same_note<D>(left: Option<NoteView<D>>, right: Option<NoteView<D>>) -> bool {
    match (left, right) {
        (Some(NoteView::Removed(first)), Some(NoteView::Removed(second))) => watched_paths(first)
            == watched_paths(second),
        _ => left == right,
    }
}

/// Whether two steps do and report the same, but for the devices that are no longer watched.
pub open spec fn same_step<D>(left: StepView<D>, right: StepView<D>) -> bool {
    left.action == right.action && same_note(left.note, right.note)
}

/// No decision looks into a device: daemons that are equal but for the devices of their watches
/// take the same events, do and report the same, and are again equal but for the devices.
pub proof fn law_devices_decide_nothing<D>(
    left: DaemonView<D>,
    right: DaemonView<D>,
    told: EventView<D>,
    other: EventView<D>,
    now: u64,
)
    requires
        left.wf(),
        equal_but_for_devices(left, right),
        told.fits(),
        same_event(told, other),
    ensures
        match (left.next(told, now), right.next(other, now)) {
            (Some((first, step)), Some((second, reply))) => equal_but_for_devices(first, second)
                && same_step(step, reply),
            (None, None) => true,
            _ => false,
        },
{
    assert(left.watches.len() == watched_paths(left.watches).len());
    assert(right.watches.len() == watched_paths(right.watches).len());
    match told {
        EventView::Listed(paths) => {
            lemma_rescan_goes_by_paths(left.watches, right.watches, paths);
            lemma_rescan_goes_by_paths(
                kept(left.watches, paths),
                kept(right.watches, paths),
                paths,
            );
        },
        EventView::Opened(..) => {
            if left.phase == Phase::Opening {
                let path = left.to_open[0];
                assert forall|dev: D| watched_paths(
                    #[trigger] left.watches.push(WatchView { path, dev }),
                ) == watched_paths(left.watches).push(path) by {}
                assert forall|dev: D| watched_paths(
                    #[trigger] right.watches.push(WatchView { path, dev }),
                ) == watched_paths(right.watches).push(path) by {}
            }
        },
        EventView::FetchFailed => {
            if left.phase == Phase::Fetching {
                let dead = left.dead.push(left.ready[0]);
                lemma_without_dead_goes_by_position(left.watches, right.watches, dead);
            }
        },
        _ => {
            if left.in_round() {
                lemma_without_dead_goes_by_position(left.watches, right.watches, left.dead);
            }
        },
    }
}

/// Whether two happenings differ at most in what the user typed and in the devices: they tell of
/// the same event, or both bring events of a device, at the same moment, or the device at the same
/// position is read.
pub open spec fn alike_but_for_devices<D>(left: Happening<D>, right: Happening<D>) -> bool {
    match (left, right) {
        (Happening::Told(told, at), Happening::Told(reply, moment)) => at == moment && (same_event(
            told,
            reply,
        ) || (told is Fetched && reply is Fetched)),
        (Happening::Read(index, _), Happening::Read(other, _)) => index == other,
        _ => false,
    }
}

/// Whether the steps at a position of two rows are the same, but for devices.
pub open spec fn same_step_at<D>(
    daemon: DaemonView<D>,
    left: Seq<Happening<D>>,
    right: Seq<Happening<D>>,
    n: int,
) -> bool {
    match (step_at(daemon, left, n), step_at(daemon, right, n)) {
        (Some(step), Some(reply)) => same_step(step, reply),
        (None, None) => true,
        _ => false,
    }
}

proof fn lemma_typing_and_devices<D>(
    left: DaemonView<D>,
    right: DaemonView<D>,
    told: EventView<D>,
    reply: EventView<D>,
    now: u64,
)
    requires
        left.wf(),
        told.fits(),
        equal_but_for_devices(left, DaemonView { activity: left.activity, ..right }),
        left.phase != Phase::Fetching ==> left.activity == right.activity,
        same_event(told, reply) || (told is Fetched && reply is Fetched),
        left.phase == Phase::Fetching && left.ready.len() == 1 && (told is Fetched
            || told is FetchFailed) ==> (left.activity || brings_activity(told)) == (right.activity
            || brings_activity(reply)),
    ensures
        match (left.next(told, now), right.next(reply, now)) {
            (Some((first, step)), Some((second, answer))) => {
                &&& equal_but_for_devices(
                    first,
                    DaemonView { activity: first.activity, ..second },
                )
                &&& first.phase != Phase::Fetching ==> first.activity == second.activity
                &&& same_step(step, answer)
            },
            (None, None) => true,
            _ => false,
        },
{
    if left.phase == Phase::Fetching {
        let dead = match told {
            EventView::FetchFailed => left.dead.push(left.ready[0]),
            _ => left.dead,
        };
        lemma_without_dead_goes_by_position(left.watches, right.watches, dead);
    } else if same_event(told, reply) {
        law_devices_decide_nothing(left, right, told, reply, now);
    }
}

/// The same where the devices, once read, are in different states: all that is done is the same,
/// and so is all that is reported but for the devices in it, and so is the daemon but for its
/// devices and what it has seen of a round that is still being read.
pub proof fn law_read_devices_leave_no_trace<D>(
    daemon: DaemonView<D>,
    left: Seq<Happening<D>>,
    right: Seq<Happening<D>>,
)
    requires
        daemon.wf(),
        fit(left),
        left.len() == right.len(),
        forall|i: int|
            0 <= i < left.len() ==> alike_but_for_devices(#[trigger] left[i], right[i]),
        rounds_agree(daemon, left, right),
    ensures
        forall|n: int| 0 <= n < left.len() ==> #[trigger] same_step_at(daemon, left, right, n),
        match (run(daemon, left), run(daemon, right)) {
            (Some(first), Some(second)) => {
                &&& equal_but_for_devices(
                    first,
                    DaemonView { activity: first.activity, ..second },
                )
                &&& first.phase != Phase::Fetching ==> first.activity == second.activity
            },
            (None, None) => true,
            _ => false,
        },
    decreases left.len(),
{
    if left.len() > 0 {
        let (first, second) = (left.drop_last(), right.drop_last());
        let last = left.len() - 1;
        assert forall|i: int| 0 <= i < first.len() implies alike_but_for_devices(
            #[trigger] first[i],
            second[i],
        ) by {
            assert(alike_but_for_devices(left[i], right[i]));
        }
        lemma_rounds_agree(daemon, left, right);
        law_read_devices_leave_no_trace(daemon, first, second);
        law_activity_of_the_round(daemon, first);
        law_activity_of_the_round(daemon, second);
        law_always_wf(daemon, first);
        assert(alike_but_for_devices(left[last], right[last]));
        assert(left.take(last) == first && right.take(last) == second);
        if let (Some(one), Some(two)) = (run(daemon, first), run(daemon, second)) {
            match (left[last], right[last]) {
                (Happening::Told(told, now), Happening::Told(reply, _)) => {
                    lemma_typing_and_devices(one, two, told, reply, now);
                },
                (Happening::Read(index, dev), Happening::Read(_, other)) => {
                    assert(one.watches.len() == watched_paths(one.watches).len());
                    assert(two.watches.len() == watched_paths(two.watches).len());
                    if 0 <= index < one.watches.len() {
                        assert(watched_paths(one.with_device(index, dev).watches)
                            == watched_paths(one.watches));
                        assert(watched_paths(two.with_device(index, other).watches)
                            == watched_paths(two.watches));
                    }
                },
                _ => {},
            }
        }
        assert(same_step_at(daemon, left, right, last));
        assert forall|n: int| 0 <= n < left.len() implies #[trigger] same_step_at(
            daemon,
            left,
            right,
            n,
        ) by {
            if n < last {
                assert(first.take(n) == left.take(n) && second.take(n) == right.take(n));
                assert(same_step_at(daemon, first, second, n));
            }
        }
    }
}

/// What is written to the log tells nothing of the devices that are no longer watched but their
/// paths: notes that are equal but for devices read alike.
pub proof fn law_log_tells_paths_only<D>(
    left: NoteView<D>,
    right: NoteView<D>,
    opts: OptsView,
    cause: Seq<char>,
    device_name: Option<Seq<char>>,
)
    requires
        same_note(Some(left), Some(right)),
    ensures
        left.lines(opts, cause, device_name) == right.lines(opts, cause, device_name),
{
    if let (NoteView::Removed(first), NoteView::Removed(second)) = (left, right) {
        assert(first.len() == watched_paths(first).len());
        assert(second.len() == watched_paths(second).len());
        let (lines, others) = (
            left.wording(opts, cause, device_name),
            right.wording(opts, cause, device_name),
        );
        assert forall|i: int| 0 <= i < lines.len() implies lines[i] == others[i] by {
            assert(watched_paths(first)[i] == watched_paths(second)[i]);
        }
        assert(lines == others);
    }
}

/// What was read of the brightness, in order.
pub open spec fn readings<D>(row: Seq<Happening<D>>) -> Seq<Option<u8>>
    decreases row.len(),
{
    if row.len() == 0 {
        Seq::empty()
    } else {
        match row.last() {
            Happening::Told(EventView::LedRead(reading), _) => readings(row.drop_last()).push(
                reading,
            ),
            _ => readings(row.drop_last()),
        }
    }
}

/// What was read of the brightness after the first reading, which only shows whether the
/// brightness can be read at all.
pub open spec fn readings_after_check<D>(row: Seq<Happening<D>>) -> Seq<Option<u8>> {
    if readings(row).len() == 0 {
        Seq::empty()
    } else {
        readings(row).drop_first()
    }
}

/// The last of the readings that shows a backlight that is on, or 1 if there is none.
pub open spec fn last_lit(levels: Seq<Option<u8>>) -> u8
    decreases levels.len(),
{
    if levels.len() == 0 {
        1
    } else {
        match levels.last() {
            Some(level) if level > 0 => level,
            _ => last_lit(levels.drop_last()),
        }
    }
}

/// How many readings there have been, by where the daemon stands before it has started.
pub open spec fn readings_fit_phase<D>(daemon: DaemonView<D>, count: nat) -> bool {
    &&& !daemon.started ==> {
        &&& daemon.before_start()
        &&& daemon.phase == Phase::CheckWriting || daemon.phase == Phase::Starting <==> count == 1
        &&& count <= 1
    }
    &&& daemon.started ==> count >= 2
}

proof fn lemma_level_and_readings<D>(idle_secs: u64, row: Seq<Happening<D>>)
    requires
        fit(row),
    ensures
        run(DaemonView::<D>::initial(idle_secs), row) matches Some(after)
            ==> after.backlight.active_level == last_lit(readings_after_check(row))
            && readings_fit_phase(after, readings(row).len()),
    decreases row.len(),
{
    let initial = DaemonView::<D>::initial(idle_secs);
    if row.len() > 0 {
        let front = row.drop_last();
        lemma_level_and_readings::<D>(idle_secs, front);
        law_always_wf(initial, front);
        assert(row[row.len() - 1] == row.last());
        if let Some(before) = run(initial, front) {
            lemma_after_one(before, row.last());
            if let Happening::Told(EventView::LedRead(reading), _) = row.last() {
                let all = readings_after_check(row);
                if readings(front).len() == 0 {
                    assert(all == Seq::<Option<u8>>::empty());
                } else {
                    assert(all == readings_after_check(front).push(reading));
                    assert(all.drop_last() == readings_after_check(front));
                }
            }
        }
    }
}

/// From the start on the level to go back to is the last one that was read while the backlight was
/// on, the reading of the check at the start left out, or 1 where there is none.
pub proof fn law_level_is_the_last_one_read<D>(idle_secs: u64, row: Seq<Happening<D>>)
    requires
        fit(row),
    ensures
        run(DaemonView::<D>::initial(idle_secs), row) matches Some(after)
            ==> after.backlight.active_level == last_lit(readings_after_check(row)),
{
    lemma_level_and_readings::<D>(idle_secs, row);
}

/// Whenever the user comes back to a backlight that is off, or that cannot be read, the last level
/// that was read while it was on is written, or 1 where there is none.
pub proof fn law_last_level_comes_back<D>(
    idle_secs: u64,
    row: Seq<Happening<D>>,
    reading: Option<u8>,
    now: u64,
)
    requires
        fit(row),
        run(DaemonView::<D>::initial(idle_secs), row) matches Some(woken) && woken.phase
            == Phase::Waking,
        reading == None::<u8> || reading == Some(0u8),
    ensures
        run(DaemonView::<D>::initial(idle_secs), row) matches Some(woken) && (woken.next(
            EventView::LedRead(reading),
            now,
        ) matches Some((_, step)) && step.action == ActionView::WriteLed(
            last_lit(readings_after_check(row)),
        )),
{
    law_level_is_the_last_one_read::<D>(idle_secs, row);
}

/// Whether every watched device is a pointer, a keyboard or a set of hotkeys.
pub open spec fn all_selected(watches: Seq<WatchView<RawDevice>>) -> bool {
    forall|i: int| 0 <= i < watches.len() ==> selected((#[trigger] watches[i]).dev)
}

/// Whether the event, if it is that a device has been opened, tells rightly whether the device is
/// a pointer, a keyboard or a set of hotkeys.
pub open spec fn tells_rightly(event: EventView<RawDevice>) -> bool {
    event matches EventView::Opened(dev, interactive) ==> interactive == selected(dev)
}

/// Only selected devices are watched: where opened devices are told of rightly, every step keeps
/// it so.
pub proof fn law_step_watches_only_selected_devices(
    daemon: DaemonView<RawDevice>,
    event: EventView<RawDevice>,
    now: u64,
)
    requires
        daemon.wf(),
        event.fits(),
        all_selected(daemon.watches),
        tells_rightly(event),
    ensures
        daemon.next(event, now) matches Some((after, _)) ==> all_selected(after.watches),
{
    let watches = daemon.watches;
    match event {
        EventView::Listed(paths) => {
            let rest = kept(watches, paths);
            assert forall|i: int| 0 <= i < rest.len() implies selected((#[trigger] rest[i]).dev) by {
                assert(rest.contains(rest[i]));
                watches.lemma_filter_contains_rev(node_present(paths), rest[i]);
                let k = watches.index_of(rest[i]);
                assert(watches[k] == rest[i]);
            }
        },
        _ => {
            if daemon.in_round() {
                let dead = match event {
                    EventView::FetchFailed => daemon.dead.push(daemon.ready[0]),
                    _ => daemon.dead,
                };
                if daemon.phase == Phase::Fetching || event is HotplugRead {
                    lemma_without_dead_elements(watches, dead);
                    let rest = without_dead(watches, dead);
                    assert forall|i: int| 0 <= i < rest.len() implies selected(
                        (#[trigger] rest[i]).dev,
                    ) by {
                        assert(rest.contains(rest[i]));
                        let k = watches.index_of(rest[i]);
                        assert(watches[k] == rest[i]);
                    }
                }
            }
        },
    }
}

/// Reading a device, which leaves the keys and buttons that it has as they are, leaves every
/// watched device a selected one.
pub proof fn law_reading_keeps_the_selection(
    watches: Seq<WatchView<RawDevice>>,
    index: int,
    dev: RawDevice,
)
    requires
        all_selected(watches),
        0 <= index < watches.len(),
        supported_codes(dev) == supported_codes(watches[index].dev),
    ensures
        all_selected(watches.update(index, WatchView { dev, ..watches[index] })),
{
    assert(selected(watches[index].dev));
}

/// Whether a device that is read at a position of the row keeps the keys and buttons that it has.
pub open spec fn keys_stay_at(
    daemon: DaemonView<RawDevice>,
    row: Seq<Happening<RawDevice>>,
    n: int,
) -> bool {
    match (run(daemon, row.take(n)), row[n]) {
        (Some(before), Happening::Read(index, dev)) => 0 <= index < before.watches.len()
            ==> supported_codes(dev) == supported_codes(before.watches[index].dev),
        _ => true,
    }
}

/// Whether every device that is read keeps the keys and buttons that it has.
pub open spec fn keys_stay(daemon: DaemonView<RawDevice>, row: Seq<Happening<RawDevice>>) -> bool {
    forall|n: int| 0 <= n < row.len() ==> #[trigger] keys_stay_at(daemon, row, n)
}

/// From the start on only selected devices are watched, whatever comes and goes and is read,
/// where opened devices are told of rightly and reading one leaves its keys and buttons alone.
pub proof fn law_only_selected_devices_are_watched(
    idle_secs: u64,
    row: Seq<Happening<RawDevice>>,
)
    requires
        fit(row),
        forall|i: int|
            0 <= i < row.len() ==> (#[trigger] row[i] matches Happening::Told(event, _)
                ==> tells_rightly(event)),
        keys_stay(DaemonView::initial(idle_secs), row),
    ensures
        run(DaemonView::initial(idle_secs), row) matches Some(after) ==> all_selected(
            after.watches,
        ),
    decreases row.len(),
{
    let initial = DaemonView::<RawDevice>::initial(idle_secs);
    if row.len() > 0 {
        let front = row.drop_last();
        assert(keys_stay(initial, front)) by {
            assert forall|n: int| 0 <= n < front.len() implies #[trigger] keys_stay_at(
                initial,
                front,
                n,
            ) by {
                assert(front.take(n) == row.take(n));
                assert(keys_stay_at(initial, row, n));
            }
        }
        law_only_selected_devices_are_watched(idle_secs, front);
        law_always_wf(initial, front);
        assert(row[row.len() - 1] == row.last());
        assert(row.take(row.len() - 1) == front);
        assert(keys_stay_at(initial, row, row.len() - 1));
        if let Some(before) = run(initial, front) {
            match row.last() {
                Happening::Told(event, now) => {
                    law_step_watches_only_selected_devices(before, event, now);
                },
                Happening::Read(index, dev) => {
                    if 0 <= index < before.watches.len() {
                        law_reading_keeps_the_selection(before.watches, index, dev);
                    }
                },
            }
        }
    }
}

/// Activity always lights a dark backlight: once the devices of the round have been read, the
/// brightness is read to see what to do.
pub proof fn law_activity_wakes<D>(daemon: DaemonView<D>, event: EventView<D>, now: u64)
    requires
        daemon.wf(),
        daemon.backlight.idle,
        daemon.phase == Phase::Fetching,
        daemon.activity || brings_activity(event),
        daemon.next(event, now) matches Some((after, _)) && after.phase != Phase::Fetching,
    ensures
        daemon.next(event, now) matches Some((after, step)) && after.phase == Phase::Waking
            && step.action == ActionView::ReadLed,
{
}

/// Opening devices carries out the rescan that was begun: what remains to be opened and what is
/// watched already lead to the same watches before and after each device.
pub proof fn law_opening_carries_out_the_rescan<D>(
    daemon: DaemonView<D>,
    opened: Seq<Option<(D, bool)>>,
    now: u64,
)
    requires
        daemon.wf(),
        daemon.phase == Phase::Opening,
        opened.len() == daemon.to_open.len(),
    ensures
        ({
            let event = match opened[0] {
                Some((dev, interactive)) => EventView::Opened(dev, interactive),
                None => EventView::OpenFailed,
            };
            daemon.next(event, now) matches Some((after, _)) && {
                &&& opened_all(daemon.watches, daemon.to_open, opened) == opened_all(
                    after.watches,
                    after.to_open,
                    opened.drop_first(),
                )
                &&& after.to_open == daemon.to_open.drop_first()
            }
        }),
{
}

/// Listing the nodes begins the rescan that opening the devices carries out.
pub proof fn law_listing_begins_the_rescan<D>(
    daemon: DaemonView<D>,
    paths: Seq<Seq<char>>,
    opened: Seq<Option<(D, bool)>>,
    now: u64,
)
    requires
        daemon.phase == Phase::Listing,
    ensures
        daemon.next(EventView::Listed(paths), now) matches Some((after, _)) && rescanned(
            daemon.watches,
            paths,
            opened,
        ) == opened_all(after.watches, after.to_open, opened),
{
}

/// No device is ever watched twice, and none that is watched is opened again: where the paths
/// listed all lead to different nodes, every step keeps it so.
pub proof fn law_no_device_twice<D>(daemon: DaemonView<D>, event: EventView<D>, now: u64)
    requires
        daemon.wf(),
        event.fits(),
        watches_distinct(daemon),
        event matches EventView::Listed(paths) ==> meanings(paths).no_duplicates(),
    ensures
        daemon.next(event, now) matches Some((after, _)) ==> watches_distinct(after),
{
    law_step_keeps_wf(daemon, event, now);
    match event {
        EventView::Listed(paths) => {
            lemma_rescan_each_once(daemon.watches, paths);
        },
        EventView::Opened(dev, interactive) => {
            if daemon.phase == Phase::Opening {
                lemma_attach_each_once(daemon.watches, daemon.to_open, dev, interactive);
            }
        },
        EventView::OpenFailed => {
            if daemon.phase == Phase::Opening {
                assert forall|i: int|
                    0 <= i < daemon.to_open.drop_first().len() implies !watched_nodes(
                    daemon.watches,
                ).contains(meaning(#[trigger] daemon.to_open.drop_first()[i])) by {
                    assert(daemon.to_open.drop_first()[i] == daemon.to_open[i + 1]);
                }
                assert(meanings(daemon.to_open.drop_first()) == meanings(
                    daemon.to_open,
                ).drop_first());
            }
        },
        EventView::FetchFailed => {
            if daemon.phase == Phase::Fetching {
                let dead = daemon.dead.push(daemon.ready[0]);
                lemma_without_dead_nodes(daemon.watches, dead);
            }
        },
        _ => {
            if daemon.in_round() {
                lemma_without_dead_nodes(daemon.watches, daemon.dead);
            }
        },
    }
}

/// The same whatever happens: from the start on no device is ever watched twice.
pub proof fn law_never_a_device_twice<D>(idle_secs: u64, row: Seq<Happening<D>>)
    requires
        fit(row),
        forall|i: int|
            0 <= i < row.len() ==> (#[trigger] row[i] matches Happening::Told(
                EventView::Listed(paths),
                _,
            ) ==> meanings(paths).no_duplicates()),
    ensures
        run(DaemonView::<D>::initial(idle_secs), row) matches Some(after) ==> after.wf()
            && watches_distinct(after),
    decreases row.len(),
{
    let initial = DaemonView::<D>::initial(idle_secs);
    law_always_wf(initial, row);
    if row.len() > 0 {
        let front = row.drop_last();
        law_always_wf(initial, front);
        law_never_a_device_twice::<D>(idle_secs, front);
        assert(row[row.len() - 1] == row.last());
        if let Some(before) = run(initial, front) {
            match row.last() {
                Happening::Told(event, now) => {
                    law_no_device_twice(before, event, now);
                },
                Happening::Read(index, dev) => {
                    if 0 <= index < before.watches.len() {
                        assert(watched_nodes(before.with_device(index, dev).watches)
                            == watched_nodes(before.watches));
                    }
                },
            }
        }
    }
}

/// Whether no node is watched twice, and none that is still to be opened is watched.
pub open spec fn watches_distinct<D>(daemon: DaemonView<D>) -> bool {
    &&& watched_nodes(daemon.watches).no_duplicates()
    &&& daemon.phase == Phase::Opening ==> each_once(daemon.watches, daemon.to_open)
}

/// The daemon ends only when a signal asked for it, or when polling or reading notifications
/// fails.
pub proof fn law_ends_only_when_told<D>(daemon: DaemonView<D>, event: EventView<D>, now: u64)
    requires
        daemon.next(event, now) matches Some((after, _)) && after.phase == Phase::Ended,
    ensures
        daemon.next(event, now) matches Some((_, step)) && {
            ||| step.action == ActionView::Stop && (event matches EventView::Polled {
                rc,
                interrupted,
                shutdown,
                ..
            } && rc < 0 && interrupted && shutdown)
            ||| step.action == ActionView::Fail && (event matches EventView::Polled {
                rc,
                interrupted,
                ..
            } && rc < 0 && !interrupted)
            ||| step.action == ActionView::Fail && (event matches EventView::HotplugRead(read)
                && drained(read) == Drain::Failed)
        },
{
}

/// The event that tells how opening a device went.
pub open spec fn opening<D>(outcome: Option<(D, bool)>) -> EventView<D> {
    match outcome {
        Some((dev, interactive)) => EventView::Opened(dev, interactive),
        None => EventView::OpenFailed,
    }
}

/// What happens in a rescan: the nodes are listed, and the devices are opened or cannot be.
pub open spec fn rescan_row<D>(
    paths: Seq<Seq<char>>,
    opened: Seq<Option<(D, bool)>>,
    times: Seq<u64>,
) -> Seq<Happening<D>> {
    seq![Happening::Told(EventView::Listed(paths), times[0])] + Seq::new(
        opened.len(),
        |k: int| Happening::Told(opening(opened[k]), times[k + 1]),
    )
}

proof fn lemma_rescan_progress<D>(
    daemon: DaemonView<D>,
    paths: Seq<Seq<char>>,
    opened: Seq<Option<(D, bool)>>,
    times: Seq<u64>,
    n: int,
)
    requires
        daemon.phase == Phase::Listing,
        opened.len() == unopened(kept(daemon.watches, paths), paths).len(),
        0 <= n <= opened.len(),
    ensures
        ({
            let row = rescan_row(paths, opened, times);
            let to_open = unopened(kept(daemon.watches, paths), paths);
            &&& run(daemon, row.take(n + 1)) matches Some(after) && {
                &&& after.to_open == to_open.skip(n)
                &&& opened_all(after.watches, after.to_open, opened.skip(n)) == rescanned(
                    daemon.watches,
                    paths,
                    opened,
                )
                &&& after.phase == Phase::Opening <==> n < opened.len()
                &&& after.phase != Phase::Listing
            }
            &&& step_at(daemon, row, n) matches Some(step) && {
                &&& n < opened.len() ==> step.action == ActionView::Open(to_open[n])
                &&& n == opened.len() ==> !(step.action is Open)
            }
        }),
    decreases n,
{
    let row = rescan_row(paths, opened, times);
    let to_open = unopened(kept(daemon.watches, paths), paths);
    let now = times[n];
    assert(row.take(n + 1).drop_last() == row.take(n));
    if n == 0 {
        assert(row.take(0) == Seq::<Happening<D>>::empty());
        assert(to_open.skip(0) == to_open);
        assert(opened.skip(0) == opened);
        law_listing(daemon, paths, now);
    } else {
        lemma_rescan_progress(daemon, paths, opened, times, n - 1);
        let before = run(daemon, row.take(n))->0;
        assert(before.to_open == to_open.skip(n - 1));
        assert(to_open.skip(n - 1).skip(1) == to_open.skip(n));
        assert(to_open.skip(n - 1).drop_first() == to_open.skip(n));
        assert(opened.skip(n - 1).drop_first() == opened.skip(n));
        assert(opened.skip(n - 1)[0] == opened[n - 1]);
        match opened[n - 1] {
            Some((dev, interactive)) => {
                law_opening(before, dev, interactive, now);
            },
            None => {
                assert(before.next(EventView::OpenFailed, now) is Some);
            },
        }
    }
}

/// A rescan is carried through: of the nodes that are listed every one that is not watched is asked
/// to be opened, each once and in order, whatever becomes of those before it; then nothing is left
/// to open, and the watches are those that stayed and the interactive ones that could be opened.
pub proof fn law_rescan_is_carried_through<D>(
    daemon: DaemonView<D>,
    paths: Seq<Seq<char>>,
    opened: Seq<Option<(D, bool)>>,
    times: Seq<u64>,
)
    requires
        daemon.phase == Phase::Listing,
        opened.len() == unopened(kept(daemon.watches, paths), paths).len(),
    ensures
        ({
            let row = rescan_row(paths, opened, times);
            let to_open = unopened(kept(daemon.watches, paths), paths);
            &&& forall|n: int|
                0 <= n <= opened.len() ==> (#[trigger] step_at(daemon, row, n) matches Some(step)
                    && if n < opened.len() {
                    step.action == ActionView::Open(to_open[n])
                } else {
                    !(step.action is Open)
                })
            &&& run(daemon, row) matches Some(after) && {
                &&& after.to_open.len() == 0
                &&& forall|path: Seq<char>, dev: D| #[trigger]
                    after.watches.contains(WatchView { path, dev }) <==> {
                        ||| daemon.watches.contains(WatchView { path, dev }) && exists|k: int|
                            0 <= k < paths.len() && meaning(#[trigger] paths[k]) == meaning(path)
                        ||| exists|k: int|
                            0 <= k < opened.len() && #[trigger] to_open[k] == path && opened[k]
                                == Some((dev, true))
                    }
            }
        }),
{
    let row = rescan_row(paths, opened, times);
    let to_open = unopened(kept(daemon.watches, paths), paths);
    let last = opened.len() as int;
    assert forall|n: int| 0 <= n <= opened.len() implies (#[trigger] step_at(
        daemon,
        row,
        n,
    ) matches Some(step) && if n < opened.len() {
        step.action == ActionView::Open(to_open[n])
    } else {
        !(step.action is Open)
    }) by {
        lemma_rescan_progress(daemon, paths, opened, times, n);
    }
    lemma_rescan_progress(daemon, paths, opened, times, last);
    assert(row.take(last + 1) == row);
    let after = run(daemon, row)->0;
    assert(after.watches == rescanned(daemon.watches, paths, opened));
    assert forall|path: Seq<char>, dev: D| #[trigger]
        after.watches.contains(WatchView { path, dev }) <==> {
            ||| daemon.watches.contains(WatchView { path, dev }) && exists|k: int|
                0 <= k < paths.len() && meaning(#[trigger] paths[k]) == meaning(path)
            ||| exists|k: int|
                0 <= k < opened.len() && #[trigger] to_open[k] == path && opened[k] == Some(
                    (dev, true),
                )
        } by {
        law_rescan_result(daemon.watches, paths, opened, path, dev);
        if meanings(paths).contains(meaning(path)) {
            let k = meanings(paths).index_of(meaning(path));
            assert(meaning(paths[k]) == meaning(path));
        }
        if exists|k: int| 0 <= k < paths.len() && meaning(#[trigger] paths[k]) == meaning(path) {
            let k = choose|k: int|
                0 <= k < paths.len() && meaning(#[trigger] paths[k]) == meaning(path);
            assert(meanings(paths)[k] == meaning(path));
        }
    }
}

/// The event that tells how reading a device went.
pub open spec fn fetching<D>(outcome: Option<Seq<InputEvent>>) -> EventView<D> {
    match outcome {
        Some(events) => EventView::Fetched(events),
        None => EventView::FetchFailed,
    }
}

/// What happens when devices are read: each has events, or cannot be read.
pub open spec fn reading_row<D>(
    outcomes: Seq<Option<Seq<InputEvent>>>,
    times: Seq<u64>,
) -> Seq<Happening<D>> {
    Seq::new(outcomes.len(), |k: int| Happening::Told(fetching(outcomes[k]), times[k]))
}

/// Whether one of the first devices brought an event of the user.
pub open spec fn acts_within(outcomes: Seq<Option<Seq<InputEvent>>>, n: int) -> bool {
    exists|k: int|
        0 <= k < n && (#[trigger] outcomes[k] matches Some(events) && user_acts(events))
}

/// The positions of those of the first devices that could not be read.
pub open spec fn broken_within(
    ready: Seq<usize>,
    outcomes: Seq<Option<Seq<InputEvent>>>,
    n: int,
) -> Seq<usize>
    decreases n,
{
    if n <= 0 {
        Seq::empty()
    } else if outcomes[n - 1] is None {
        broken_within(ready, outcomes, n - 1).push(ready[n - 1])
    } else {
        broken_within(ready, outcomes, n - 1)
    }
}

proof fn lemma_acts_within(outcomes: Seq<Option<Seq<InputEvent>>>, n: int)
    requires
        0 <= n < outcomes.len(),
    ensures
        acts_within(outcomes, n + 1) <==> acts_within(outcomes, n) || (
        outcomes[n] matches Some(events) && user_acts(events)),
{
    if acts_within(outcomes, n) {
        let k = choose|k: int|
            0 <= k < n && (#[trigger] outcomes[k] matches Some(events) && user_acts(events));
        assert(outcomes[k] is Some);
    }
}

proof fn lemma_reading_progress<D>(
    daemon: DaemonView<D>,
    outcomes: Seq<Option<Seq<InputEvent>>>,
    times: Seq<u64>,
    n: int,
)
    requires
        daemon.phase == Phase::Fetching,
        daemon.ready.len() == outcomes.len(),
        0 <= n < outcomes.len(),
    ensures
        ({
            let row = reading_row::<D>(outcomes, times);
            &&& run(daemon, row.take(n)) == Some(
                DaemonView {
                    ready: daemon.ready.skip(n),
                    activity: daemon.activity || acts_within(outcomes, n),
                    dead: daemon.dead + broken_within(daemon.ready, outcomes, n),
                    ..daemon
                },
            )
            &&& n > 0 ==> (step_at(daemon, row, n - 1) matches Some(step) && step.action
                == ActionView::Fetch(daemon.ready[n]) && step.note is None)
        }),
    decreases n,
{
    let row = reading_row::<D>(outcomes, times);
    if n == 0 {
        assert(row.take(0) == Seq::<Happening<D>>::empty());
        assert(daemon.ready.skip(0) == daemon.ready);
        assert(daemon.dead + Seq::<usize>::empty() == daemon.dead);
    } else {
        lemma_reading_progress(daemon, outcomes, times, n - 1);
        lemma_acts_within(outcomes, n - 1);
        let before = run(daemon, row.take(n - 1))->0;
        assert(row.take(n).drop_last() == row.take(n - 1));
        assert(row.take(n).last() == row[n - 1]);
        assert(before.ready.skip(1) == daemon.ready.skip(n));
        assert(before.ready[0] == daemon.ready[n - 1] && before.ready[1] == daemon.ready[n]);
        assert(daemon.dead + broken_within(daemon.ready, outcomes, n - 1).push(daemon.ready[n - 1])
            == (daemon.dead + broken_within(daemon.ready, outcomes, n - 1)).push(
            daemon.ready[n - 1],
        ));
        let events = match outcomes[n - 1] {
            Some(events) => events,
            None => Seq::empty(),
        };
        law_reading(before, events, times[n - 1]);
    }
}

/// A round is carried through: every device that has something to report is read, each once and in
/// order, whatever was read of those before it; then the round ends with all that was seen in it,
/// activity of any of the devices, and all of them that could not be read.
pub proof fn law_round_is_carried_through<D>(
    daemon: DaemonView<D>,
    outcomes: Seq<Option<Seq<InputEvent>>>,
    times: Seq<u64>,
)
    requires
        daemon.phase == Phase::Fetching,
        daemon.ready.len() == outcomes.len(),
        outcomes.len() > 0,
    ensures
        ({
            let row = reading_row::<D>(outcomes, times);
            let last = outcomes.len() - 1;
            &&& forall|n: int|
                0 <= n < last ==> (#[trigger] step_at(daemon, row, n) matches Some(step)
                    && step.action == ActionView::Fetch(daemon.ready[n + 1]) && step.note is None)
            &&& run(daemon, row) matches Some(after) && (step_at(daemon, row, last) matches Some(
                step,
            ) && round_ends(
                daemon,
                daemon.activity || acts_within(outcomes, outcomes.len() as int),
                daemon.dead + broken_within(daemon.ready, outcomes, outcomes.len() as int),
                after,
                step,
                times[last],
            ))
        }),
{
    let row = reading_row::<D>(outcomes, times);
    let last = outcomes.len() - 1;
    assert forall|n: int| 0 <= n < last implies (#[trigger] step_at(
        daemon,
        row,
        n,
    ) matches Some(step) && step.action == ActionView::Fetch(daemon.ready[n + 1])
        && step.note is None) by {
        lemma_reading_progress(daemon, outcomes, times, n + 1);
    }
    lemma_reading_progress(daemon, outcomes, times, last);
    lemma_acts_within(outcomes, last);
    let before = run(daemon, row.take(last))->0;
    assert(row.take(last) == row.drop_last());
    assert(row.last() == row[last]);
    assert(daemon.dead + broken_within(daemon.ready, outcomes, last).push(daemon.ready[last])
        == (daemon.dead + broken_within(daemon.ready, outcomes, last)).push(daemon.ready[last]));
    let events = match outcomes[last] {
        Some(events) => events,
        None => Seq::empty(),
    };
    law_reading(before, events, times[last]);
}

} // verus!
