//! The command line.

use crate::decimal::{parse_number, render_number};
use crate::text::{chars_of, same_text};
use vstd::prelude::*;

#[allow(unused_imports)]
use crate::decimal::{decimal, law_numbers_are_in_bounds, number_in};
#[allow(unused_imports)]
use crate::text::texts;

verus! {

/// The idle time if none is given, in seconds.
pub const DEFAULT_IDLE_SECS: u64 = 30;

/// The backlight's directory if none is given.
pub const DEFAULT_LED_DIR: &'static str = "/sys/class/leds/asus::kbd_backlight";

/// The directory of the input devices if none is given.
pub const DEFAULT_INPUT_DIR: &'static str = "/dev/input";

/// What the daemon is asked to do.
#[derive(Debug)]
pub struct Opts {
    /// The time without input, in seconds, after which the backlight is dimmed.
    pub idle_secs: u64,
    /// The backlight's directory.
    pub led_dir: String,
    /// The directory of the input devices.
    pub input_dir: String,
    /// Whether to report more.
    pub verbose: bool,
}

/// What options hold.
pub struct OptsView {
    pub idle_secs: u64,
    pub led_dir: Seq<char>,
    pub input_dir: Seq<char>,
    pub verbose: bool,
}

impl View for Opts {
    type V = OptsView;

    open spec fn view(&self) -> OptsView {
        OptsView {
            idle_secs: self.idle_secs,
            led_dir: self.led_dir@,
            input_dir: self.input_dir@,
            verbose: self.verbose,
        }
    }
}

/// Why the daemon does not run.
#[derive(Debug)]
pub enum Refusal {
    /// The option is the last argument, and it takes a value.
    MissingValue(String),
    /// The idle time is not a number of seconds.
    BadIdle,
    /// There is no such option.
    UnknownOption(String),
    /// Help was asked for.
    Help,
}

/// What a refusal holds.
pub enum RefusalView {
    MissingValue(Seq<char>),
    BadIdle,
    UnknownOption(Seq<char>),
    Help,
}

impl View for Refusal {
    type V = RefusalView;

    open spec fn view(&self) -> RefusalView {
        match self {
            Refusal::MissingValue(option) => RefusalView::MissingValue(option@),
            Refusal::BadIdle => RefusalView::BadIdle,
            Refusal::UnknownOption(option) => RefusalView::UnknownOption(option@),
            Refusal::Help => RefusalView::Help,
        }
    }
}

impl OptsView {
    /// The options that hold when none is given.
    pub open spec fn defaults() -> OptsView {
        OptsView {
            idle_secs: DEFAULT_IDLE_SECS,
            led_dir: DEFAULT_LED_DIR@,
            input_dir: DEFAULT_INPUT_DIR@,
            verbose: false,
        }
    }

    /// The options after one with a value, where it is one that takes a value.
    pub open spec fn with_value(self, option: Seq<char>, value: Seq<char>) -> Result<
        OptsView,
        RefusalView,
    > {
        if option == "--idle"@ {
            match number_in(value, u64::MAX as int) {
                Some(secs) => Ok(OptsView { idle_secs: secs as u64, ..self }),
                None => Err(RefusalView::BadIdle),
            }
        } else if option == "--led-dir"@ {
            Ok(OptsView { led_dir: value, ..self })
        } else {
            Ok(OptsView { input_dir: value, ..self })
        }
    }

    /// The options after the arguments, taken from left to right, the first fault or call for
    /// help ending it.
    pub open spec fn with_args(self, args: Seq<Seq<char>>) -> Result<OptsView, RefusalView>
        decreases args.len(),
    {
        if args.len() == 0 {
            Ok(self)
        } else if takes_value(args[0]) {
            if args.len() == 1 {
                Err(RefusalView::MissingValue(args[0]))
            } else {
                match self.with_value(args[0], args[1]) {
                    Ok(opts) => opts.with_args(args.skip(2)),
                    Err(refusal) => Err(refusal),
                }
            }
        } else if args[0] == "--verbose"@ {
            OptsView { verbose: true, ..self }.with_args(args.skip(1))
        } else if args[0] == "-h"@ || args[0] == "--help"@ {
            Err(RefusalView::Help)
        } else {
            Err(RefusalView::UnknownOption(args[0]))
        }
    }

    /// The options with an idle time of at least a second.
    pub open spec fn settled(self) -> OptsView {
        OptsView {
            idle_secs: if self.idle_secs < 1 {
                1
            } else {
                self.idle_secs
            },
            ..self
        }
    }
}

/// Whether an option is followed by its value.
pub open spec fn takes_value(option: Seq<char>) -> bool {
    option == "--idle"@ || option == "--led-dir"@ || option == "--input-dir"@
}

/// What the arguments ask for.
pub open spec fn parsed_args(args: Seq<Seq<char>>) -> Result<OptsView, RefusalView> {
    match OptsView::defaults().with_args(args) {
        Ok(opts) => Ok(opts.settled()),
        Err(refusal) => Err(refusal),
    }
}

impl Opts {
    fn defaults() -> (opts: Opts)
        ensures
            opts@ == OptsView::defaults(),
    {
        Opts {
            idle_secs: DEFAULT_IDLE_SECS,
            led_dir: DEFAULT_LED_DIR.to_owned(),
            input_dir: DEFAULT_INPUT_DIR.to_owned(),
            verbose: false,
        }
    }

    fn set(&mut self, option: &String, value: &String) -> (done: Result<(), Refusal>)
        ensures
            match old(self)@.with_value(option@, value@) {
                Ok(opts) => done is Ok && final(self)@ == opts,
                Err(refusal) => done is Err && done->Err_0@ == refusal,
            },
    {
        if same_text(option.as_str(), "--idle") {
            match parse_number(&chars_of(value.as_str()), u64::MAX) {
                Some(secs) => {
                    self.idle_secs = secs;
                },
                None => {
                    return Err(Refusal::BadIdle);
                },
            }
        } else if same_text(option.as_str(), "--led-dir") {
            self.led_dir = value.clone();
        } else {
            self.input_dir = value.clone();
        }
        Ok(())
    }
}

fn option_takes_value(option: &String) -> (b: bool)
    ensures
        b == takes_value(option@),
{
    same_text(option.as_str(), "--idle") || same_text(option.as_str(), "--led-dir")
        || same_text(option.as_str(), "--input-dir")
}

/// Reads the arguments, the program's own name left out.
pub fn parse_args(args: &Vec<String>) -> (parsed: Result<Opts, Refusal>)
    ensures
        match parsed_args(texts(args@)) {
            Ok(opts) => parsed is Ok && parsed->Ok_0@ == opts,
            Err(refusal) => parsed is Err && parsed->Err_0@ == refusal,
        },
        parsed matches Ok(opts) ==> opts.idle_secs >= 1,
{
    let ghost all = texts(args@);
    let ghost outcome = OptsView::defaults().with_args(all);
    let mut opts = Opts::defaults();
    let mut i: usize = 0;
    assert(all.skip(0) == all);
    while i < args.len()
        invariant
            i <= args.len(),
            all == texts(args@),
            outcome == OptsView::defaults().with_args(all),
            opts@.with_args(all.skip(i as int)) == outcome,
        decreases args.len() - i,
    {
        let ghost rest = all.skip(i as int);
        assert(rest[0] == args@[i as int]@);
        if option_takes_value(&args[i]) {
            if i + 1 == args.len() {
                return Err(Refusal::MissingValue(args[i].clone()));
            }
            assert(rest[1] == args@[i + 1]@);
            assert(rest.skip(2) == all.skip(i + 2));
            match opts.set(&args[i], &args[i + 1]) {
                Ok(()) => {},
                Err(refusal) => {
                    return Err(refusal);
                },
            }
            i += 2;
        } else if same_text(args[i].as_str(), "--verbose") {
            assert(rest.skip(1) == all.skip(i + 1));
            opts.verbose = true;
            i += 1;
        } else if same_text(args[i].as_str(), "-h") || same_text(args[i].as_str(), "--help") {
            return Err(Refusal::Help);
        } else {
            return Err(Refusal::UnknownOption(args[i].clone()));
        }
    }
    if opts.idle_secs < 1 {
        opts.idle_secs = 1;
    }
    Ok(opts)
}

/// Whether what follows the arguments matters: it does not once they are refused, unless for a
/// missing value.
pub fn reads_on(parsed: &Result<Opts, Refusal>) -> (b: bool)
    ensures
        b == (match *parsed {
            Ok(_) => true,
            Err(refusal) => refusal@ is MissingValue,
        }),
{
    match parsed {
        Ok(_) => true,
        Err(Refusal::MissingValue(_)) => true,
        Err(_) => false,
    }
}

/// What is said about the options.
pub open spec fn usage_text() -> Seq<char> {
    "asus-backlight-idle — dim the ASUS keyboard backlight when the user is idle\n\nUSAGE: asus-backlight-idle [OPTIONS]\n\nOPTIONS:\n    --idle <secs>       idle seconds before dimming (default: "@
        + decimal(DEFAULT_IDLE_SECS as int)
        + ")\n    --led-dir <path>    LED brightness directory (default: "@ + DEFAULT_LED_DIR@
        + ")\n    --input-dir <path>  input device directory (default: "@ + DEFAULT_INPUT_DIR@
        + ")\n    --verbose           log extra detail to stderr\n    -h, --help          show this help"@
}

/// What to say about the options.
pub fn usage() -> (text: String)
    ensures
        text@ == usage_text(),
{
    let mut text =
        "asus-backlight-idle — dim the ASUS keyboard backlight when the user is idle\n\nUSAGE: asus-backlight-idle [OPTIONS]\n\nOPTIONS:\n    --idle <secs>       idle seconds before dimming (default: ".to_owned();
    text.append(render_number(DEFAULT_IDLE_SECS).as_str());
    text.append(")\n    --led-dir <path>    LED brightness directory (default: ");
    text.append(DEFAULT_LED_DIR);
    text.append(")\n    --input-dir <path>  input device directory (default: ");
    text.append(DEFAULT_INPUT_DIR);
    text.append(
        ")\n    --verbose           log extra detail to stderr\n    -h, --help          show this help",
    );
    text
}

impl RefusalView {
    /// What is said about the fault, where there is one.
    pub open spec fn message(self) -> Option<Seq<char>> {
        match self {
            RefusalView::MissingValue(option) => Some("missing value for "@ + option),
            RefusalView::BadIdle => Some("--idle expects a number of seconds"@),
            RefusalView::UnknownOption(option) => Some("unknown option: "@ + option),
            RefusalView::Help => None,
        }
    }

    /// Whether the options are explained.
    pub open spec fn explains(self) -> bool {
        self is UnknownOption || self is Help
    }

    /// The exit status: 2 for a fault.
    pub open spec fn status(self) -> int {
        if self is Help {
            0
        } else {
            2
        }
    }
}

impl Refusal {
    /// What to say about the fault, where there is one.
    pub fn message(&self) -> (message: Option<String>)
        ensures
            match self@.message() {
                Some(text) => message is Some && message->0@ == text,
                None => message is None,
            },
    {
        match self {
            Refusal::MissingValue(option) => {
                let mut text = "missing value for ".to_owned();
                text.append(option.as_str());
                Some(text)
            },
            Refusal::BadIdle => Some("--idle expects a number of seconds".to_owned()),
            Refusal::UnknownOption(option) => {
                let mut text = "unknown option: ".to_owned();
                text.append(option.as_str());
                Some(text)
            },
            Refusal::Help => None,
        }
    }

    /// Whether to explain the options.
    pub fn shows_usage(&self) -> (b: bool)
        ensures
            b == self@.explains(),
    {
        match self {
            Refusal::MissingValue(_) | Refusal::BadIdle => false,
            Refusal::UnknownOption(_) | Refusal::Help => true,
        }
    }

    /// The exit status.
    pub fn exit_status(&self) -> (status: i32)
        ensures
            status == self@.status(),
    {
        match self {
            Refusal::MissingValue(_) | Refusal::BadIdle | Refusal::UnknownOption(_) => 2,
            Refusal::Help => 0,
        }
    }
}

/// Arguments that are accepted can be followed by more: what those ask for is added to what the
/// first ones asked for, and where both speak of one thing the later ones hold.
pub proof fn law_args_in_sequence(opts: OptsView, first: Seq<Seq<char>>, second: Seq<Seq<char>>)
    requires
        opts.with_args(first) is Ok,
    ensures
        opts.with_args(first + second) == opts.with_args(first)->Ok_0.with_args(second),
    decreases first.len(),
{
    let all = first + second;
    if first.len() == 0 {
        assert(all == second);
    } else if takes_value(first[0]) {
        let next = opts.with_value(first[0], first[1])->Ok_0;
        law_args_in_sequence(next, first.skip(2), second);
        assert(all.skip(2) == first.skip(2) + second);
    } else {
        law_args_in_sequence(OptsView { verbose: true, ..opts }, first.skip(1), second);
        assert(all.skip(1) == first.skip(1) + second);
    }
}

/// Arguments that are refused for what they hold stay refused, and for the same reason, whatever
/// follows them. (A missing value is no such reason: what follows may be the value.)
pub proof fn law_refusal_stands(opts: OptsView, first: Seq<Seq<char>>, second: Seq<Seq<char>>)
    requires
        opts.with_args(first) is Err,
        !(opts.with_args(first)->Err_0 is MissingValue),
    ensures
        opts.with_args(first + second) == opts.with_args(first),
    decreases first.len(),
{
    let all = first + second;
    assert(all[0] == first[0]);
    if takes_value(first[0]) {
        assert(all[1] == first[1]);
        if let Ok(next) = opts.with_value(first[0], first[1]) {
            law_refusal_stands(next, first.skip(2), second);
            assert(all.skip(2) == first.skip(2) + second);
        }
    } else if first[0] == "--verbose"@ {
        law_refusal_stands(OptsView { verbose: true, ..opts }, first.skip(1), second);
        assert(all.skip(1) == first.skip(1) + second);
    }
}

/// One thing that can be asked for.
pub enum Setting {
    Idle(Seq<char>),
    LedDir(Seq<char>),
    InputDir(Seq<char>),
    Verbose,
}

/// The arguments that ask for one thing.
pub open spec fn setting_args(setting: Setting) -> Seq<Seq<char>> {
    match setting {
        Setting::Idle(value) => seq!["--idle"@, value],
        Setting::LedDir(value) => seq!["--led-dir"@, value],
        Setting::InputDir(value) => seq!["--input-dir"@, value],
        Setting::Verbose => seq!["--verbose"@],
    }
}

/// The arguments that ask for these things, one after the other.
pub open spec fn settings_args(settings: Seq<Setting>) -> Seq<Seq<char>>
    decreases settings.len(),
{
    if settings.len() == 0 {
        Seq::empty()
    } else {
        settings_args(settings.drop_last()) + setting_args(settings.last())
    }
}

/// The last directory of the backlight that is asked for, if there is one.
pub open spec fn last_led_dir(settings: Seq<Setting>) -> Option<Seq<char>>
    decreases settings.len(),
{
    if settings.len() == 0 {
        None
    } else {
        match settings.last() {
            Setting::LedDir(value) => Some(value),
            _ => last_led_dir(settings.drop_last()),
        }
    }
}

/// The last directory of the input devices that is asked for, if there is one.
pub open spec fn last_input_dir(settings: Seq<Setting>) -> Option<Seq<char>>
    decreases settings.len(),
{
    if settings.len() == 0 {
        None
    } else {
        match settings.last() {
            Setting::InputDir(value) => Some(value),
            _ => last_input_dir(settings.drop_last()),
        }
    }
}

/// The last idle time that is asked for, if there is one.
pub open spec fn last_idle(settings: Seq<Setting>) -> Option<Seq<char>>
    decreases settings.len(),
{
    if settings.len() == 0 {
        None
    } else {
        match settings.last() {
            Setting::Idle(value) => Some(value),
            _ => last_idle(settings.drop_last()),
        }
    }
}

proof fn lemma_option_names()
    ensures
        "--idle"@ != "--led-dir"@,
        "--idle"@ != "--input-dir"@,
        "--idle"@ != "--verbose"@,
        "--idle"@ != "--help"@,
        "--idle"@ != "-h"@,
        "--led-dir"@ != "--input-dir"@,
        "--led-dir"@ != "--verbose"@,
        "--led-dir"@ != "--help"@,
        "--led-dir"@ != "-h"@,
        "--input-dir"@ != "--verbose"@,
        "--input-dir"@ != "--help"@,
        "--input-dir"@ != "-h"@,
        "--verbose"@ != "--help"@,
        "--verbose"@ != "-h"@,
{
    reveal_strlit("--idle");
    reveal_strlit("--led-dir");
    reveal_strlit("--input-dir");
    reveal_strlit("--verbose");
    reveal_strlit("--help");
    reveal_strlit("-h");
    assert("--idle"@.len() == 6 && "--led-dir"@.len() == 9 && "--input-dir"@.len() == 11);
    assert("--verbose"@.len() == 9 && "--help"@.len() == 6 && "-h"@.len() == 2);
    assert("--idle"@[2] == 'i' && "--help"@[2] == 'h');
    assert("--led-dir"@[2] == 'l' && "--verbose"@[2] == 'v');
}

/// Without arguments the idle time is 30 seconds, the directories are those of the ASUS keyboard
/// light and of the input devices, and nothing more is reported.
pub proof fn law_no_args()
    ensures
        parsed_args(Seq::empty()) matches Ok(opts) && {
            &&& opts.idle_secs == 30
            &&& opts.led_dir == "/sys/class/leds/asus::kbd_backlight"@
            &&& opts.input_dir == "/dev/input"@
            &&& !opts.verbose
        },
{
}

/// Each option sets its own field and leaves the others as the arguments before it had them,
/// whatever those are: a directory is taken as it is given, an idle time is one if it is a number
/// of 64 bits, and then at least a second.
pub proof fn law_option_sets_its_own_field(before: Seq<Seq<char>>, value: Seq<char>)
    requires
        parsed_args(before) is Ok,
    ensures
        ({
            let opts = parsed_args(before)->Ok_0;
            &&& parsed_args(before + seq!["--led-dir"@, value]) == Ok::<OptsView, RefusalView>(
                OptsView { led_dir: value, ..opts },
            )
            &&& parsed_args(before + seq!["--input-dir"@, value]) == Ok::<OptsView, RefusalView>(
                OptsView { input_dir: value, ..opts },
            )
            &&& parsed_args(before + seq!["--verbose"@]) == Ok::<OptsView, RefusalView>(
                OptsView { verbose: true, ..opts },
            )
            &&& match number_in(value, 0xffff_ffff_ffff_ffff) {
                Some(secs) => parsed_args(before + seq!["--idle"@, value]) == Ok::<
                    OptsView,
                    RefusalView,
                >(
                    OptsView {
                        idle_secs: if secs == 0 {
                            1
                        } else {
                            secs as u64
                        },
                        ..opts
                    },
                ),
                None => parsed_args(before + seq!["--idle"@, value]) == Err::<
                    OptsView,
                    RefusalView,
                >(RefusalView::BadIdle),
            }
        }),
{
    lemma_option_names();
    law_numbers_are_in_bounds(value, 0xffff_ffff_ffff_ffff);
    let defaults = OptsView::defaults();
    let none = Seq::<Seq<char>>::empty();
    let one = seq!["--verbose"@];
    law_args_in_sequence(defaults, before, seq!["--led-dir"@, value]);
    law_args_in_sequence(defaults, before, seq!["--input-dir"@, value]);
    law_args_in_sequence(defaults, before, one);
    law_args_in_sequence(defaults, before, seq!["--idle"@, value]);
    assert(seq!["--led-dir"@, value].skip(2) == none);
    assert(seq!["--input-dir"@, value].skip(2) == none);
    assert(seq!["--idle"@, value].skip(2) == none);
    assert(one.skip(1) == none);
    reveal_with_fuel(OptsView::with_args, 3);
}

/// Behind accepted arguments a call for help is answered, an option without its value is refused,
/// and so is everything that is no option; nothing that follows changes that, unless it is the
/// missing value.
pub proof fn law_refusals(before: Seq<Seq<char>>, arg: Seq<char>, more: Seq<Seq<char>>)
    requires
        parsed_args(before) is Ok,
    ensures
        parsed_args(before + seq!["-h"@] + more) == Err::<OptsView, RefusalView>(RefusalView::Help),
        parsed_args(before + seq!["--help"@] + more) == Err::<OptsView, RefusalView>(
            RefusalView::Help,
        ),
        arg == "--idle"@ || arg == "--led-dir"@ || arg == "--input-dir"@ ==> parsed_args(
            before + seq![arg],
        ) == Err::<OptsView, RefusalView>(RefusalView::MissingValue(arg)),
        arg != "--idle"@ && arg != "--led-dir"@ && arg != "--input-dir"@ && arg != "--verbose"@
            && arg != "-h"@ && arg != "--help"@ ==> parsed_args(before + seq![arg] + more) == Err::<
            OptsView,
            RefusalView,
        >(RefusalView::UnknownOption(arg)),
        number_in(arg, 0xffff_ffff_ffff_ffff) is None ==> parsed_args(
            before + seq!["--idle"@, arg] + more,
        ) == Err::<OptsView, RefusalView>(RefusalView::BadIdle),
{
    lemma_option_names();
    let defaults = OptsView::defaults();
    let helps = (seq!["-h"@], seq!["--help"@]);
    law_args_in_sequence(defaults, before, helps.0);
    law_args_in_sequence(defaults, before, helps.1);
    law_args_in_sequence(defaults, before, seq![arg]);
    law_args_in_sequence(defaults, before, seq!["--idle"@, arg]);
    law_refusal_stands(defaults, before + helps.0, more);
    law_refusal_stands(defaults, before + helps.1, more);
    if arg != "--idle"@ && arg != "--led-dir"@ && arg != "--input-dir"@ && arg != "--verbose"@ && arg
        != "-h"@ && arg != "--help"@ {
        law_refusal_stands(defaults, before + seq![arg], more);
    }
    if number_in(arg, 0xffff_ffff_ffff_ffff) is None {
        law_refusal_stands(defaults, before + seq!["--idle"@, arg], more);
    }
}

/// Arguments are accepted if and only if they are options with their values, one after the other,
/// in any order, and every idle time is a number of 64 bits. Then each directory is the last one
/// given for it, or else the default, the idle time is the last one given, or else the default, and
/// at least a second, and more is reported if and only if that is asked for.
pub proof fn law_last_values_hold(settings: Seq<Setting>)
    requires
        forall|i: int|
            0 <= i < settings.len() ==> (#[trigger] settings[i] matches Setting::Idle(value)
                ==> number_in(value, 0xffff_ffff_ffff_ffff) is Some),
    ensures
        parsed_args(settings_args(settings)) matches Ok(opts) && {
            &&& opts.led_dir == (match last_led_dir(settings) {
                Some(value) => value,
                None => "/sys/class/leds/asus::kbd_backlight"@,
            })
            &&& opts.input_dir == (match last_input_dir(settings) {
                Some(value) => value,
                None => "/dev/input"@,
            })
            &&& opts.idle_secs == (match last_idle(settings) {
                Some(value) => {
                    let secs = number_in(value, 0xffff_ffff_ffff_ffff)->0;
                    if secs == 0 {
                        1
                    } else {
                        secs
                    }
                },
                None => 30,
            })
            &&& opts.verbose == settings.contains(Setting::Verbose)
        },
    decreases settings.len(),
{
    if settings.len() == 0 {
        law_no_args();
    } else {
        let front = settings.drop_last();
        law_last_values_hold(front);
        let value = match settings.last() {
            Setting::Idle(value) => value,
            Setting::LedDir(value) => value,
            Setting::InputDir(value) => value,
            Setting::Verbose => Seq::empty(),
        };
        law_option_sets_its_own_field(settings_args(front), value);
        law_numbers_are_in_bounds(value, 0xffff_ffff_ffff_ffff);
        assert(settings[settings.len() - 1] == settings.last());
        assert(settings.contains(Setting::Verbose) <==> front.contains(Setting::Verbose)
            || settings.last() == Setting::Verbose) by {
            if settings.contains(Setting::Verbose) {
                let i = settings.index_of(Setting::Verbose);
                if i < front.len() {
                    assert(front[i] == Setting::Verbose);
                }
            }
            if front.contains(Setting::Verbose) {
                let i = front.index_of(Setting::Verbose);
                assert(settings[i] == Setting::Verbose);
            }
        }
    }
}

proof fn lemma_settings_prepend(first: Setting, rest: Seq<Setting>)
    ensures
        settings_args(seq![first] + rest) == setting_args(first) + settings_args(rest),
    decreases rest.len(),
{
    let all = seq![first] + rest;
    if rest.len() == 0 {
        assert(all == seq![first]);
        assert(all.drop_last() == Seq::<Setting>::empty());
        assert(settings_args(all.drop_last()) == Seq::<Seq<char>>::empty());
        assert(settings_args(all) == setting_args(first));
    } else {
        lemma_settings_prepend(first, rest.drop_last());
        assert(all.drop_last() == seq![first] + rest.drop_last());
        assert(settings_args(all) == setting_args(first) + settings_args(rest));
    }
}

proof fn lemma_accepted_args(opts: OptsView, args: Seq<Seq<char>>) -> (settings: Seq<Setting>)
    requires
        opts.with_args(args) is Ok,
    ensures
        args == settings_args(settings),
        forall|i: int|
            0 <= i < settings.len() ==> (#[trigger] settings[i] matches Setting::Idle(value)
                ==> number_in(value, 0xffff_ffff_ffff_ffff) is Some),
    decreases args.len(),
{
    if args.len() == 0 {
        assert(settings_args(Seq::empty()) == args);
        Seq::empty()
    } else {
        let first = if args[0] == "--idle"@ {
            Setting::Idle(args[1])
        } else if args[0] == "--led-dir"@ {
            Setting::LedDir(args[1])
        } else if args[0] == "--input-dir"@ {
            Setting::InputDir(args[1])
        } else {
            Setting::Verbose
        };
        let rest = if takes_value(args[0]) {
            lemma_accepted_args(opts.with_value(args[0], args[1])->Ok_0, args.skip(2))
        } else {
            lemma_accepted_args(OptsView { verbose: true, ..opts }, args.skip(1))
        };
        lemma_settings_prepend(first, rest);
        let settings = seq![first] + rest;
        assert(args == setting_args(first) + settings_args(rest));
        assert forall|i: int| 0 <= i < settings.len() implies (
        #[trigger] settings[i] matches Setting::Idle(value) ==> number_in(
            value,
            0xffff_ffff_ffff_ffff,
        ) is Some) by {
            if i > 0 {
                assert(settings[i] == rest[i - 1]);
            }
        }
        settings
    }
}

/// Nothing else is accepted: accepted arguments are options with their values, one after the other.
pub proof fn law_accepted_args_are_settings(args: Seq<Seq<char>>)
    requires
        parsed_args(args) is Ok,
    ensures
        exists|settings: Seq<Setting>|
            args == #[trigger] settings_args(settings) && forall|i: int|
                0 <= i < settings.len() ==> (#[trigger] settings[i] matches Setting::Idle(value)
                    ==> number_in(value, 0xffff_ffff_ffff_ffff) is Some),
{
    let settings = lemma_accepted_args(OptsView::defaults(), args);
    assert(args == settings_args(settings));
}

/// What follows matters as long as the arguments are accepted, or lack only a value: something
/// could follow that leads to another outcome.
pub proof fn law_more_args_matter(args: Seq<Seq<char>>)
    requires
        parsed_args(args) matches Err(refusal) ==> refusal is MissingValue,
    ensures
        exists|more: Seq<Seq<char>>| #[trigger] parsed_args(args + more) != parsed_args(args),
    decreases args.len(),
{
    if parsed_args(args) is Ok {
        law_refusals(args, Seq::empty(), Seq::empty());
        let more = seq!["--help"@] + Seq::<Seq<char>>::empty();
        assert(args + seq!["--help"@] + Seq::<Seq<char>>::empty() == args + more);
        assert(parsed_args(args + more) != parsed_args(args));
    } else {
        lemma_missing_value(OptsView::defaults(), args, seq!['x']);
        assert(parsed_args(args + seq![seq!['x']]) != parsed_args(args));
    }
}

proof fn lemma_missing_value(opts: OptsView, args: Seq<Seq<char>>, value: Seq<char>)
    requires
        opts.with_args(args) matches Err(refusal) && refusal is MissingValue,
    ensures
        opts.with_args(args + seq![value]) matches Err(refusal) ==> !(refusal is MissingValue),
    decreases args.len(),
{
    let all = args + seq![value];
    assert(all[0] == args[0]);
    if takes_value(args[0]) {
        if args.len() == 1 {
            assert(all[1] == value);
            assert(all.skip(2) == Seq::<Seq<char>>::empty());
            reveal_with_fuel(OptsView::with_args, 2);
        } else {
            assert(all[1] == args[1]);
            assert(all.skip(2) == args.skip(2) + seq![value]);
            if let Ok(next) = opts.with_value(args[0], args[1]) {
                lemma_missing_value(next, args.skip(2), value);
            }
        }
    } else if args[0] == "--verbose"@ {
        assert(all.skip(1) == args.skip(1) + seq![value]);
        lemma_missing_value(OptsView { verbose: true, ..opts }, args.skip(1), value);
    }
}

/// A fault is named, with the argument that is at fault; help is given to those who ask for it and
/// to those who give an option that does not exist; only help is no fault.
pub proof fn law_refusals_are_explained(arg: Seq<char>)
    ensures
        RefusalView::MissingValue(arg).message() == Some("missing value for "@ + arg),
        RefusalView::BadIdle.message() == Some("--idle expects a number of seconds"@),
        RefusalView::UnknownOption(arg).message() == Some("unknown option: "@ + arg),
        RefusalView::Help.message() is None,
        RefusalView::Help.explains() && RefusalView::UnknownOption(arg).explains(),
        !RefusalView::BadIdle.explains() && !RefusalView::MissingValue(arg).explains(),
        RefusalView::Help.status() == 0,
        RefusalView::BadIdle.status() == 2,
        RefusalView::MissingValue(arg).status() == 2,
        RefusalView::UnknownOption(arg).status() == 2,
{
}

} // verus!
