//! Turns a keyboard backlight off after some seconds without input, and back on as soon as the
//! user is back.
//!
//! [`daemon::Daemon`] is the whole as a machine that says what to do next and is told how that
//! went; [`steps`] says what each step does, and [`laws`] what the daemon promises as a whole. It
//! is made of the state of the backlight ([`backlight`]), the list of watched devices ([`watch`]),
//! the decision which devices and events matter ([`device`]) and what `poll(2)` reports
//! ([`poll`]). The command line is read in [`options`], the brightness file in [`led`], and what
//! is written to the log is worded in [`report`].

pub mod backlight;
pub mod daemon;
pub mod decimal;
pub mod device;
pub mod laws;
pub mod led;
pub mod options;
pub mod path;
pub mod poll;
pub mod report;
pub mod steps;
pub mod text;
pub mod watch;
