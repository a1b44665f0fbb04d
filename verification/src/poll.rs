//! What `poll(2)` is asked and what it answers. The first descriptor that is polled is the one
//! that reports nodes coming and going; the others are those of the watched devices, in order.

use vstd::prelude::*;

#[allow(unused_imports)]
use crate::watch::ascending_below;

verus! {

/// There is data to read.
pub const POLLIN: i16 = 0x1;

/// The descriptor is in error.
pub const POLLERR: i16 = 0x8;

/// The other end has hung up.
pub const POLLHUP: i16 = 0x10;

/// How a poll ended.
#[derive(Clone, Copy, Debug, PartialEq, Eq, Structural)]
pub enum PollEnd {
    /// Some descriptors have something to report.
    Ready,
    /// The time ran out.
    TimedOut,
    /// A signal arrived, and it asked for an end.
    Shutdown,
    /// A signal arrived that asked for nothing.
    Retry,
    /// The poll failed.
    Failed,
}

/// How a poll ended, given its return value, whether it failed because of a signal, and whether
/// an end was asked for.
pub open spec fn poll_ended(rc: i32, interrupted: bool, shutdown: bool) -> PollEnd {
    if rc > 0 {
        PollEnd::Ready
    } else if rc == 0 {
        PollEnd::TimedOut
    } else if !interrupted {
        PollEnd::Failed
    } else if shutdown {
        PollEnd::Shutdown
    } else {
        PollEnd::Retry
    }
}

/// Tells how a poll ended.
pub fn poll_end(rc: i32, interrupted: bool, shutdown: bool) -> (end: PollEnd)
    ensures
        end == poll_ended(rc, interrupted, shutdown),
        end == PollEnd::Ready <==> rc > 0,
        end == PollEnd::TimedOut <==> rc == 0,
        end == PollEnd::Shutdown <==> rc < 0 && interrupted && shutdown,
        end == PollEnd::Retry <==> rc < 0 && interrupted && !shutdown,
{
    if rc < 0 {
        if interrupted {
            if shutdown {
                return PollEnd::Shutdown;
            }
            return PollEnd::Retry;
        }
        return PollEnd::Failed;
    }
    if rc > 0 {
        PollEnd::Ready
    } else {
        PollEnd::TimedOut
    }
}

/// The descriptors to poll, in order.
pub fn poll_set(hotplug_fd: i32, device_fds: &Vec<i32>) -> (fds: Vec<i32>)
    ensures
        fds@ == seq![hotplug_fd] + device_fds@,
        fds@.len() == device_fds@.len() + 1,
        fds@[0] == hotplug_fd,
        forall|i: int| 0 <= i < device_fds@.len() ==> fds@[i + 1] == #[trigger] device_fds@[i],
{
    let mut fds: Vec<i32> = Vec::new();
    fds.push(hotplug_fd);
    let mut i: usize = 0;
    while i < device_fds.len()
        invariant
            i <= device_fds.len(),
            fds@ == seq![hotplug_fd] + device_fds@.take(i as int),
        decreases device_fds.len() - i,
    {
        fds.push(device_fds[i]);
        i += 1;
    }
    assert(device_fds@.take(i as int) == device_fds@);
    fds
}

/// Whether there is something to read.
pub open spec fn readable(revents: i16) -> bool {
    revents & POLLIN != 0
}

/// Whether a device has something to report: events to read, or that it is broken or gone.
pub open spec fn reports(revents: i16) -> bool {
    revents & POLLIN != 0 || revents & POLLERR != 0 || revents & POLLHUP != 0
}

/// Whether nodes have come or gone, given what is reported of the first descriptor.
pub fn is_readable(revents: i16) -> (b: bool)
    ensures
        b == readable(revents),
        b <==> revents & 1i16 != 0,
{
    revents & POLLIN != 0
}

/// Whether a device is to be read, given what is reported of it.
pub fn has_report(revents: i16) -> (b: bool)
    ensures
        b == reports(revents),
        b <==> revents & 1i16 != 0 || revents & 8i16 != 0 || revents & 16i16 != 0,
{
    assert(revents & (0x1i16 | 0x8i16 | 0x10i16) != 0 <==> revents & 0x1i16 != 0 || revents & 0x8i16
        != 0 || revents & 0x10i16 != 0) by (bit_vector);
    revents & (POLLIN | POLLERR | POLLHUP) != 0
}

/// The positions of the watched devices that have something to report, in ascending order.
pub open spec fn ready_devices(revents: Seq<i16>) -> Seq<usize>
    decreases revents.len(),
{
    if revents.len() <= 1 {
        Seq::empty()
    } else if reports(revents.last()) {
        ready_devices(revents.drop_last()).push((revents.len() - 2) as usize)
    } else {
        ready_devices(revents.drop_last())
    }
}

/// A device is read if and only if its own descriptor, which comes one place later, reports
/// something; the devices are read in ascending order, none twice.
pub proof fn law_ready_devices(revents: Seq<i16>)
    requires
        1 <= revents.len() <= usize::MAX,
    ensures
        ascending_below(ready_devices(revents), revents.len() - 1),
        forall|i: usize|
            i < revents.len() - 1 ==> (#[trigger] ready_devices(revents).contains(i) <==> reports(
                revents[i + 1],
            )),
    decreases revents.len(),
{
    if revents.len() > 1 {
        let front = revents.drop_last();
        let all = ready_devices(revents);
        let some = ready_devices(front);
        let last: usize = (revents.len() - 2) as usize;
        law_ready_devices(front);
        assert forall|i: usize| i < revents.len() - 1 implies (#[trigger] all.contains(i)
            <==> reports(revents[i + 1])) by {
            if i < last {
                assert(front[i + 1] == revents[i + 1]);
                if some.contains(i) {
                    let k = some.index_of(i);
                    assert(all[k] == i);
                }
                if all.contains(i) {
                    let k = all.index_of(i);
                    assert(some[k] == i);
                }
            } else {
                if reports(revents[i + 1]) {
                    assert(all[all.len() - 1] == i);
                } else if all.contains(i) {
                    let k = all.index_of(i);
                    assert(some[k] == i);
                }
            }
        }
    }
}

/// Finds the watched devices that have something to report, given what is reported of each
/// descriptor.
pub fn find_ready(revents: &Vec<i16>) -> (ready: Vec<usize>)
    requires
        revents@.len() >= 1,
    ensures
        ready@ == ready_devices(revents@),
        ascending_below(ready@, revents@.len() - 1),
{
    let mut ready: Vec<usize> = Vec::new();
    let mut i: usize = 1;
    assert(ready_devices(revents@.take(1)) == ready@);
    while i < revents.len()
        invariant
            1 <= i <= revents.len(),
            ready@ == ready_devices(revents@.take(i as int)),
        decreases revents.len() - i,
    {
        assert(revents@.take(i + 1).drop_last() == revents@.take(i as int));
        if has_report(revents[i]) {
            ready.push(i - 1);
        }
        i += 1;
    }
    proof {
        assert(revents@.take(i as int) == revents@);
        law_ready_devices(revents@);
    }
    ready
}

/// How an attempt to read notifications of nodes coming and going ended.
#[derive(Clone, Copy, Debug, PartialEq, Eq, Structural)]
pub enum HotplugRead {
    /// This many notifications were read.
    Events(usize),
    /// There is nothing to read at the moment.
    WouldBlock,
    /// The end was reached.
    UnexpectedEof,
    /// Reading failed in another way.
    Failed,
}

/// What follows from an attempt to read notifications.
#[derive(Clone, Copy, Debug, PartialEq, Eq, Structural)]
pub enum Drain {
    /// There were some: read on.
    More,
    /// There are no more in this round.
    Done,
    /// The daemon cannot go on.
    Failed,
}

/// What follows from an attempt to read notifications: nothing to read and the end both mean
/// that all have been read.
pub open spec fn drained(read: HotplugRead) -> Drain {
    match read {
        HotplugRead::Events(n) => if n == 0 {
            Drain::Done
        } else {
            Drain::More
        },
        HotplugRead::WouldBlock | HotplugRead::UnexpectedEof => Drain::Done,
        HotplugRead::Failed => Drain::Failed,
    }
}

/// Tells what follows from an attempt to read notifications.
pub fn drain(read: HotplugRead) -> (next: Drain)
    ensures
        next == drained(read),
        next == Drain::More <==> (read matches HotplugRead::Events(n) && n > 0),
        next == Drain::Failed <==> read == HotplugRead::Failed,
{
    match read {
        HotplugRead::Events(n) => {
            if n == 0 {
                Drain::Done
            } else {
                Drain::More
            }
        },
        HotplugRead::WouldBlock => Drain::Done,
        HotplugRead::UnexpectedEof => Drain::Done,
        HotplugRead::Failed => Drain::Failed,
    }
}

/// A device is read if and only if its descriptor reports that there is data (1), an error (8) or
/// that the other end has hung up (16), whatever else is reported, of it or of others; each is read
/// once, in the order of the descriptors, the first of which is none of a device.
pub proof fn law_devices_that_report(revents: Seq<i16>)
    requires
        1 <= revents.len() <= usize::MAX,
    ensures
        ({
            let ready = ready_devices(revents);
            &&& forall|i: int, j: int| 0 <= i < j < ready.len() ==> ready[i] < ready[j]
            &&& forall|i: int| 0 <= i < ready.len() ==> #[trigger] ready[i] < revents.len() - 1
            &&& forall|i: usize|
                i < revents.len() - 1 ==> (#[trigger] ready.contains(i) <==> revents[i + 1] & 1i16
                    != 0 || revents[i + 1] & 8i16 != 0 || revents[i + 1] & 16i16 != 0)
        }),
{
    law_ready_devices(revents);
}

} // verus!
