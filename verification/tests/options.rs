use asus_backlight_idle::options::{parse_args, reads_on, usage, Opts, Refusal};

fn args(list: &[&str]) -> Vec<String> {
    list.iter().map(|s| s.to_string()).collect()
}

fn accepted(list: &[&str]) -> Opts {
    match parse_args(&args(list)) {
        Ok(opts) => opts,
        Err(refusal) => panic!("{refusal:?}"),
    }
}

fn refused(list: &[&str]) -> Refusal {
    match parse_args(&args(list)) {
        Ok(opts) => panic!("{opts:?}"),
        Err(refusal) => refusal,
    }
}

#[test]
fn defaults() {
    let opts = accepted(&[]);
    assert_eq!(opts.idle_secs, 30);
    assert_eq!(opts.led_dir, "/sys/class/leds/asus::kbd_backlight");
    assert_eq!(opts.input_dir, "/dev/input");
    assert!(!opts.verbose);
}

#[test]
fn all_options() {
    let opts = accepted(&["--idle", "15", "--led-dir", "/tmp/fakeled", "--verbose", "--input-dir", "/tmp/in"]);
    assert_eq!(opts.idle_secs, 15);
    assert_eq!(opts.led_dir, "/tmp/fakeled");
    assert_eq!(opts.input_dir, "/tmp/in");
    assert!(opts.verbose);
}

#[test]
fn the_last_value_holds() {
    assert_eq!(accepted(&["--idle", "5", "--idle", "7"]).idle_secs, 7);
}

#[test]
fn the_idle_time_is_at_least_a_second() {
    assert_eq!(accepted(&["--idle", "0"]).idle_secs, 1);
    assert_eq!(accepted(&["--idle", "+1"]).idle_secs, 1);
    assert_eq!(accepted(&["--idle", "18446744073709551615"]).idle_secs, u64::MAX);
}

#[test]
fn a_value_may_look_like_an_option() {
    assert_eq!(accepted(&["--led-dir", "--verbose"]).led_dir, "--verbose");
}

#[test]
fn missing_values() {
    for option in ["--idle", "--led-dir", "--input-dir"] {
        let refusal = refused(&["--verbose", option]);
        assert!(matches!(&refusal, Refusal::MissingValue(o) if o == option));
        assert_eq!(refusal.message(), Some(format!("missing value for {option}")));
        assert!(!refusal.shows_usage());
        assert_eq!(refusal.exit_status(), 2);
    }
}

#[test]
fn idle_times_that_are_no_numbers() {
    for value in ["", "abc", "-1", "1.5", " 1", "18446744073709551616"] {
        let refusal = refused(&["--idle", value]);
        assert!(matches!(refusal, Refusal::BadIdle));
        assert_eq!(refusal.message(), Some("--idle expects a number of seconds".to_string()));
        assert!(!refusal.shows_usage());
        assert_eq!(refusal.exit_status(), 2);
    }
}

#[test]
fn unknown_options() {
    let refusal = refused(&["--idle", "3", "--colour", "--help"]);
    assert!(matches!(&refusal, Refusal::UnknownOption(o) if o == "--colour"));
    assert_eq!(refusal.message(), Some("unknown option: --colour".to_string()));
    assert!(refusal.shows_usage());
    assert_eq!(refusal.exit_status(), 2);
}

#[test]
fn help() {
    for option in ["-h", "--help"] {
        let refusal = refused(&[option, "--nonsense"]);
        assert!(matches!(refusal, Refusal::Help));
        assert_eq!(refusal.message(), None);
        assert!(refusal.shows_usage());
        assert_eq!(refusal.exit_status(), 0);
    }
}

#[test]
fn usage_names_the_options_and_defaults() {
    let expected = "asus-backlight-idle — dim the ASUS keyboard backlight when the user is idle\n\n\
         USAGE: asus-backlight-idle [OPTIONS]\n\n\
         OPTIONS:\
         \n    --idle <secs>       idle seconds before dimming (default: 30)\
         \n    --led-dir <path>    LED brightness directory (default: /sys/class/leds/asus::kbd_backlight)\
         \n    --input-dir <path>  input device directory (default: /dev/input)\
         \n    --verbose           log extra detail to stderr\
         \n    -h, --help          show this help";
    assert_eq!(usage(), expected);
}

#[test]
fn more_arguments_matter_until_help_or_a_fault() {
    for list in [&[][..], &["--verbose"], &["--idle", "3"], &["--idle"], &["--verbose", "--led-dir"]] {
        assert!(reads_on(&parse_args(&args(list))), "{list:?}");
    }
    for list in [&["--help"][..], &["-h"], &["--idle", "x"], &["--verbose", "--colour"]] {
        assert!(!reads_on(&parse_args(&args(list))), "{list:?}");
        let first = refused(list);
        for more in ["--help", "--verbose", "--idle", "--nonsense"] {
            let mut longer = list.to_vec();
            longer.push(more);
            let second = refused(&longer);
            assert_eq!(second.message(), first.message());
            assert_eq!(second.exit_status(), first.exit_status());
        }
    }
}
