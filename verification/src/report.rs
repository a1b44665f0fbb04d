//! What is written to the log.

use crate::daemon::Note;
use crate::decimal::render_number;
use crate::options::Opts;
use crate::path::join_path;
use crate::watch::Watch;
use vstd::prelude::*;

#[allow(unused_imports)]
use crate::daemon::NoteView;
#[allow(unused_imports)]
use crate::decimal::decimal;
#[allow(unused_imports)]
use crate::options::OptsView;
#[allow(unused_imports)]
use crate::path::joined;
#[allow(unused_imports)]
use crate::text::texts;
#[allow(unused_imports)]
use crate::watch::WatchView;

verus! {

/// What is said when the daemon ends because it was asked to.
pub const SHUTTING_DOWN: &'static str = "shutting down";

/// What stands for the name of a device without one.
pub const UNNAMED: &'static str = "<unnamed>";

/// The name that is shown of a device.
pub open spec fn shown_name(name: Option<Seq<char>>) -> Seq<char> {
    match name {
        Some(text) => text,
        None => UNNAMED@,
    }
}

/// The line for a device that is no longer watched.
pub open spec fn removed_line(path: Seq<char>) -> Seq<char> {
    "  - "@ + path
}

impl<D> NoteView<D> {
    /// Whether the note is shown only to those who ask for more.
    pub open spec fn is_detail(self) -> bool {
        self is Attached || self is Removed
    }

    /// The lines of a note, given the options, what the system says of the failure, where the
    /// note is of one, and the name of the device, where the note is of one.
    pub open spec fn wording(
        self,
        opts: OptsView,
        cause: Seq<char>,
        device_name: Option<Seq<char>>,
    ) -> Seq<Seq<char>> {
        match self {
            NoteView::LedMissing => seq![
                "WARNING: "@ + joined(opts.led_dir, "brightness"@)
                    + " not found — is this really an ASUS laptop?"@,
            ],
            NoteView::CheckFailed => seq![
                "WARNING: cannot write "@ + joined(opts.led_dir, "brightness"@) + ": "@ + cause,
                "         run as root, or grant write access (see README.md)."@,
            ],
            NoteView::Started(devices, level) => seq![
                "asus-backlight-idle: "@ + decimal(devices) + " interactive device(s), led "@
                    + opts.led_dir + ", idle "@ + decimal(opts.idle_secs as int)
                    + "s, current brightness "@ + decimal(level as int),
            ],
            NoteView::AlreadyLit(level) => seq![
                "activity: user already re-lit backlight (level "@ + decimal(level as int) + ")"@,
            ],
            NoteView::Relit(level) => seq![
                "activity: backlight on (level "@ + decimal(level as int) + ")"@,
            ],
            NoteView::Dimmed(level) => seq![
                "idle: backlight off (restore level "@ + decimal(level as int) + ")"@,
            ],
            NoteView::WriteFailed => seq!["failed to write brightness: "@ + cause],
            NoteView::Attached(path) => seq![
                "  + "@ + path + " ("@ + shown_name(device_name) + ")"@,
            ],
            NoteView::Removed(watches) => Seq::new(
                watches.len(),
                |i: int| removed_line(watches[i].path),
            ),
        }
    }

    /// The lines that are written to the log for a note.
    pub open spec fn lines(
        self,
        opts: OptsView,
        cause: Seq<char>,
        device_name: Option<Seq<char>>,
    ) -> Seq<Seq<char>> {
        if self.is_detail() && !opts.verbose {
            Seq::empty()
        } else {
            self.wording(opts, cause, device_name)
        }
    }
}

/// The line for a device that could not be opened.
pub open spec fn open_failure_text(path: Seq<char>, cause: Seq<char>) -> Seq<char> {
    "cannot open "@ + path + ": "@ + cause
}

/// The line for an error that ends the daemon.
pub open spec fn fatal_text(cause: Seq<char>) -> Seq<char> {
    "fatal: "@ + cause
}

fn single(line: String) -> (lines: Vec<String>)
    ensures
        texts(lines@) == seq![line@],
{
    let mut lines: Vec<String> = Vec::new();
    lines.push(line);
    assert(texts(lines@) == seq![line@]);
    lines
}

fn level_line(opening: &str, level: u8) -> (lines: Vec<String>)
    ensures
        texts(lines@) == seq![opening@ + decimal(level as int) + ")"@],
{
    let mut line = opening.to_owned();
    line.append(render_number(level as u64).as_str());
    line.append(")");
    single(line)
}

fn missing_line(led_dir: &str) -> (lines: Vec<String>)
    ensures
        texts(lines@) == seq![
            "WARNING: "@ + joined(led_dir@, "brightness"@)
                + " not found — is this really an ASUS laptop?"@,
        ],
{
    let mut line = "WARNING: ".to_owned();
    line.append(join_path(led_dir, "brightness").as_str());
    line.append(" not found — is this really an ASUS laptop?");
    single(line)
}

fn unwritable_lines(led_dir: &str, cause: &str) -> (lines: Vec<String>)
    ensures
        texts(lines@) == seq![
            "WARNING: cannot write "@ + joined(led_dir@, "brightness"@) + ": "@ + cause@,
            "         run as root, or grant write access (see README.md)."@,
        ],
{
    let mut line = "WARNING: cannot write ".to_owned();
    line.append(join_path(led_dir, "brightness").as_str());
    line.append(": ");
    line.append(cause);
    let ghost first = line@;
    let mut lines: Vec<String> = Vec::new();
    lines.push(line);
    lines.push("         run as root, or grant write access (see README.md).".to_owned());
    assert(texts(lines@) == seq![first, lines@[1]@]);
    lines
}

fn started_line(devices: usize, led_dir: &str, idle_secs: u64, level: u8) -> (lines: Vec<String>)
    ensures
        texts(lines@) == seq![
            "asus-backlight-idle: "@ + decimal(devices as int) + " interactive device(s), led "@
                + led_dir@ + ", idle "@ + decimal(idle_secs as int) + "s, current brightness "@
                + decimal(level as int),
        ],
{
    let mut line = "asus-backlight-idle: ".to_owned();
    line.append(render_number(devices as u64).as_str());
    line.append(" interactive device(s), led ");
    line.append(led_dir);
    line.append(", idle ");
    line.append(render_number(idle_secs).as_str());
    line.append("s, current brightness ");
    line.append(render_number(level as u64).as_str());
    single(line)
}

fn attached_line(path: &str, device_name: &Option<String>) -> (lines: Vec<String>)
    ensures
        texts(lines@) == seq![
            "  + "@ + path@ + " ("@ + shown_name(
                match device_name {
                    Some(text) => Some(text@),
                    None => None,
                },
            ) + ")"@,
        ],
{
    let mut line = "  + ".to_owned();
    line.append(path);
    line.append(" (");
    match device_name {
        Some(name) => {
            line.append(name.as_str());
        },
        None => {
            line.append(UNNAMED);
        },
    }
    line.append(")");
    single(line)
}

fn removed_lines<D>(watches: &Vec<Watch<D>>) -> (lines: Vec<String>)
    ensures
        texts(lines@) == Seq::new(watches@.len(), |i: int| removed_line(watches@[i].path@)),
{
    let mut lines: Vec<String> = Vec::new();
    let mut i: usize = 0;
    while i < watches.len()
        invariant
            i <= watches.len(),
            texts(lines@) == Seq::new(i as nat, |j: int| removed_line(watches@[j].path@)),
        decreases watches.len() - i,
    {
        let ghost before = texts(lines@);
        let mut line = "  - ".to_owned();
        line.append(watches[i].path.as_str());
        lines.push(line);
        assert(texts(lines@) == before.push(removed_line(watches@[i as int].path@)));
        i += 1;
    }
    lines
}

/// The lines to write to the log for a note, given what the system says of the failure, where
/// the note is of one, and the name of the device, where the note is of one.
pub fn report<D>(
    note: &Note<D>,
    opts: &Opts,
    cause: &str,
    device_name: &Option<String>,
) -> (lines: Vec<String>)
    ensures
        texts(lines@) == note@.lines(
            opts@,
            cause@,
            match device_name {
                Some(text) => Some(text@),
                None => None,
            },
        ),
{
    match note {
        Note::LedMissing => missing_line(opts.led_dir.as_str()),
        Note::CheckFailed => unwritable_lines(opts.led_dir.as_str(), cause),
        Note::Started(devices, level) => started_line(
            *devices,
            opts.led_dir.as_str(),
            opts.idle_secs,
            *level,
        ),
        Note::AlreadyLit(level) => level_line(
            "activity: user already re-lit backlight (level ",
            *level,
        ),
        Note::Relit(level) => level_line("activity: backlight on (level ", *level),
        Note::Dimmed(level) => level_line("idle: backlight off (restore level ", *level),
        Note::WriteFailed => {
            let mut line = "failed to write brightness: ".to_owned();
            line.append(cause);
            single(line)
        },
        Note::Attached(path) => {
            if opts.verbose {
                attached_line(path.as_str(), device_name)
            } else {
                Vec::new()
            }
        },
        Note::Removed(watches) => {
            if opts.verbose {
                removed_lines(watches)
            } else {
                Vec::new()
            }
        },
    }
}

/// The line to write to the log for a device that could not be opened.
pub fn open_failure(path: &str, cause: &str) -> (line: String)
    ensures
        line@ == open_failure_text(path@, cause@),
{
    let mut line = "cannot open ".to_owned();
    line.append(path);
    line.append(": ");
    line.append(cause);
    line
}

/// The line to write to the log for an error that ends the daemon.
pub fn fatal(cause: &str) -> (line: String)
    ensures
        line@ == fatal_text(cause@),
{
    let mut line = "fatal: ".to_owned();
    line.append(cause);
    line
}

/// The log is the same whether or not more is asked for, but for the notes of devices coming and
/// going.
pub proof fn law_verbose_only_adds<D>(
    note: NoteView<D>,
    opts: OptsView,
    cause: Seq<char>,
    device_name: Option<Seq<char>>,
)
    ensures
        ({
            let quiet = note.lines(OptsView { verbose: false, ..opts }, cause, device_name);
            let verbose = note.lines(OptsView { verbose: true, ..opts }, cause, device_name);
            if note.is_detail() {
                quiet.len() == 0
            } else {
                quiet == verbose && quiet.len() > 0
            }
        }),
{
}

/// What is said of the backlight, at whatever level, whether or not more is asked for.
pub proof fn law_levels_in_the_log<D>(
    level: u8,
    opts: OptsView,
    cause: Seq<char>,
    name: Option<Seq<char>>,
)
    ensures
        NoteView::<D>::AlreadyLit(level).lines(opts, cause, name) == seq![
            "activity: user already re-lit backlight (level "@ + decimal(level as int) + ")"@,
        ],
        NoteView::<D>::Relit(level).lines(opts, cause, name) == seq![
            "activity: backlight on (level "@ + decimal(level as int) + ")"@,
        ],
        NoteView::<D>::Dimmed(level).lines(opts, cause, name) == seq![
            "idle: backlight off (restore level "@ + decimal(level as int) + ")"@,
        ],
        NoteView::<D>::WriteFailed.lines(opts, cause, name) == seq![
            "failed to write brightness: "@ + cause,
        ],
{
}

/// What is said at the start, whatever the options: of the brightness file, where it cannot be read
/// or written, and of the devices, the backlight's directory, the idle time and the brightness.
pub proof fn law_start_in_the_log<D>(
    devices: int,
    level: u8,
    opts: OptsView,
    cause: Seq<char>,
    name: Option<Seq<char>>,
)
    ensures
        NoteView::<D>::LedMissing.lines(opts, cause, name) == seq![
            "WARNING: "@ + joined(opts.led_dir, "brightness"@)
                + " not found — is this really an ASUS laptop?"@,
        ],
        NoteView::<D>::CheckFailed.lines(opts, cause, name) == seq![
            "WARNING: cannot write "@ + joined(opts.led_dir, "brightness"@) + ": "@ + cause,
            "         run as root, or grant write access (see README.md)."@,
        ],
        NoteView::<D>::Started(devices, level).lines(opts, cause, name) == seq![
            "asus-backlight-idle: "@ + decimal(devices) + " interactive device(s), led "@
                + opts.led_dir + ", idle "@ + decimal(opts.idle_secs as int)
                + "s, current brightness "@ + decimal(level as int),
        ],
{
}

/// What is said of devices to those who ask for more, and only to them: of a new one its path and
/// name, of those that are gone the path of each, in order.
pub proof fn law_devices_in_the_log<D>(
    path: Seq<char>,
    gone: Seq<WatchView<D>>,
    opts: OptsView,
    cause: Seq<char>,
    name: Seq<char>,
)
    ensures
        ({
            let attached = NoteView::<D>::Attached(path);
            let removed = NoteView::Removed(gone);
            if opts.verbose {
                &&& attached.lines(opts, cause, Some(name)) == seq![
                    "  + "@ + path + " ("@ + name + ")"@,
                ]
                &&& attached.lines(opts, cause, None) == seq![
                    "  + "@ + path + " ("@ + "<unnamed>"@ + ")"@,
                ]
                &&& removed.lines(opts, cause, Some(name)).len() == gone.len()
                &&& forall|i: int|
                    0 <= i < gone.len() ==> #[trigger] removed.lines(opts, cause, Some(name))[i]
                        == "  - "@ + gone[i].path
                &&& removed.lines(opts, cause, None) == removed.lines(opts, cause, Some(name))
            } else {
                &&& attached.lines(opts, cause, Some(name)).len() == 0
                &&& attached.lines(opts, cause, None).len() == 0
                &&& removed.lines(opts, cause, Some(name)).len() == 0
                &&& removed.lines(opts, cause, None).len() == 0
            }
        }),
{
}

/// A device that cannot be opened is named with the cause, and so is what ends the daemon.
pub proof fn law_failures_in_the_log(path: Seq<char>, cause: Seq<char>)
    ensures
        open_failure_text(path, cause) == "cannot open "@ + path + ": "@ + cause,
        fatal_text(cause) == "fatal: "@ + cause,
{
}

} // verus!
