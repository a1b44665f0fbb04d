//! The two states of the backlight, and when it passes from one to the other.
//!
//! *Active*: the user has been using the machine, and the brightness is at the active level.
//! *Idle*: the time without input ran out, the brightness was set to 0 and stays there until
//! the next input.
//!
//! Moments are numbers of nanoseconds on one clock, counted from a moment before the first one
//! that is used.

use vstd::prelude::*;

verus! {

/// The number of nanoseconds in a second.
pub const NANOS_PER_SEC: u128 = 1_000_000_000;

/// The number of nanoseconds in a millisecond.
pub const NANOS_PER_MILLI: u128 = 1_000_000;

/// The longest time, in milliseconds, that a wait for input is given.
pub const POLL_MAX_TIMEOUT_MS: i32 = 86_400_000;

/// The state of the backlight.
#[derive(Clone, Copy, Debug, PartialEq, Eq, Structural)]
pub struct Backlight {
    /// The level to go back to.
    pub active_level: u8,
    /// Whether the backlight is in the state *Idle*.
    pub idle: bool,
    /// The moment from which on an active backlight is due to be dimmed.
    pub deadline: u128,
}

/// What to do about the brightness when the user is back.
#[derive(Clone, Copy, Debug, PartialEq, Eq, Structural)]
pub enum Wake {
    /// Nothing: the user has set this level in the meantime.
    AlreadyLit(u8),
    /// Set this level.
    Relight(u8),
}

/// The moment that lies the idle time after `now`.
pub open spec fn deadline_after(now: u64, idle_secs: u64) -> int {
    now + idle_secs * NANOS_PER_SEC
}

/// The level that a reading leaves to go back to: the one read, where the backlight is on.
pub open spec fn adopted(active_level: u8, reading: Option<u8>) -> u8 {
    match reading {
        Some(level) => if level > 0 {
            level
        } else {
            active_level
        },
        None => active_level,
    }
}

impl Backlight {
    /// There is always a level to go back to, and it is not 0.
    pub open spec fn wf(self) -> bool {
        self.active_level > 0
    }

    /// Whether the time without input has run out.
    pub open spec fn due(self, now: u64) -> bool {
        !self.idle && now >= self.deadline
    }

    /// How long, in milliseconds, to wait for input: without end while idle, else until the
    /// deadline, in whole milliseconds and within the longest wait.
    pub open spec fn timeout(self, now: u64) -> int {
        if self.idle {
            -1
        } else if now >= self.deadline {
            0
        } else if (self.deadline - now) / (NANOS_PER_MILLI as int) <= POLL_MAX_TIMEOUT_MS {
            (self.deadline - now) / (NANOS_PER_MILLI as int)
        } else {
            POLL_MAX_TIMEOUT_MS as int
        }
    }

    /// The state at the start: idle only if the backlight is off. A backlight that cannot be
    /// read counts as being at level 1.
    pub open spec fn started(reading: Option<u8>, now: u64, idle_secs: u64) -> Backlight {
        Backlight {
            active_level: adopted(1, reading),
            idle: reading == Some(0u8),
            deadline: deadline_after(now, idle_secs) as u128,
        }
    }

    /// The state once the user is back.
    pub open spec fn touched(self, now: u64, idle_secs: u64) -> Backlight {
        Backlight { idle: false, deadline: deadline_after(now, idle_secs) as u128, ..self }
    }

    /// The state with the level that a reading leaves to go back to.
    pub open spec fn adopting(self, reading: Option<u8>) -> Backlight {
        Backlight { active_level: adopted(self.active_level, reading), ..self }
    }

    /// The state once the backlight has been dimmed.
    pub open spec fn dimmed(self) -> Backlight {
        Backlight { idle: true, ..self }
    }

    /// What to do about the brightness when the user is back, given what is read then.
    pub open spec fn wake_for(self, reading: Option<u8>) -> Wake {
        match reading {
            Some(level) => if level > 0 {
                Wake::AlreadyLit(level)
            } else {
                Wake::Relight(self.active_level)
            },
            None => Wake::Relight(self.active_level),
        }
    }

    /// The state at the start, given what is read from the brightness file.
    pub fn start(reading: Option<u8>, now: u64, idle_secs: u64) -> (backlight: Backlight)
        ensures
            backlight == Backlight::started(reading, now, idle_secs),
            backlight.deadline == deadline_after(now, idle_secs),
            backlight.wf(),
    {
        let current: u8 = match reading {
            Some(level) => level,
            None => 1,
        };
        Backlight {
            active_level: if current > 0 {
                current
            } else {
                1
            },
            idle: current == 0,
            deadline: now as u128 + idle_secs as u128 * NANOS_PER_SEC,
        }
    }

    /// How long, in milliseconds, to wait for input; -1 stands for a wait without end.
    pub fn poll_timeout(&self, now: u64) -> (timeout: i32)
        ensures
            timeout == self.timeout(now),
    {
        if self.idle {
            return -1;
        }
        if now as u128 >= self.deadline {
            return 0;
        }
        let millis: u128 = (self.deadline - now as u128) / NANOS_PER_MILLI;
        if millis <= POLL_MAX_TIMEOUT_MS as u128 {
            millis as i32
        } else {
            POLL_MAX_TIMEOUT_MS
        }
    }

    /// Whether the backlight is due to be dimmed.
    pub fn is_due(&self, now: u64) -> (due: bool)
        ensures
            due == self.due(now),
    {
        !self.idle && now as u128 >= self.deadline
    }

    /// Takes over the level that the user has set, if the reading shows one.
    pub fn adopt(&mut self, reading: Option<u8>)
        ensures
            *final(self) == old(self).adopting(reading),
            old(self).wf() ==> final(self).wf(),
    {
        match reading {
            Some(level) => {
                if level > 0 {
                    self.active_level = level;
                }
            },
            None => {},
        }
    }

    /// Decides, for an idle backlight, what to do about the brightness now that the user is
    /// back, and takes over the level that the user has set in the meantime.
    pub fn wake(&mut self, reading: Option<u8>) -> (wake: Wake)
        ensures
            wake == old(self).wake_for(reading),
            *final(self) == old(self).adopting(reading),
            old(self).wf() ==> final(self).wf(),
    {
        self.adopt(reading);
        match reading {
            Some(level) => {
                if level > 0 {
                    return Wake::AlreadyLit(level);
                }
            },
            None => {},
        }
        Wake::Relight(self.active_level)
    }

    /// Notes input: the backlight is active, and the idle time starts anew.
    pub fn touch(&mut self, now: u64, idle_secs: u64)
        ensures
            *final(self) == old(self).touched(now, idle_secs),
            final(self).deadline == deadline_after(now, idle_secs),
    {
        self.idle = false;
        self.deadline = now as u128 + idle_secs as u128 * NANOS_PER_SEC;
    }

    /// Notes that the backlight has been dimmed.
    pub fn dim(&mut self)
        ensures
            *final(self) == old(self).dimmed(),
    {
        self.idle = true;
    }
}

} // verus!
