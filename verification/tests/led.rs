use asus_backlight_idle::led::Led;

fn text(s: &str) -> Option<String> {
    Some(s.to_string())
}

#[test]
fn a_written_level_reads_back() {
    for level in 0..=255u8 {
        assert_eq!(Led::read(&Some(Led::write(level))), Some(level));
    }
}

#[test]
fn a_level_is_written_as_a_line() {
    assert_eq!(Led::write(0), "0\n");
    assert_eq!(Led::write(7), "7\n");
    assert_eq!(Led::write(10), "10\n");
    assert_eq!(Led::write(255), "255\n");
}

#[test]
fn a_level_may_have_white_space_around_it() {
    assert_eq!(Led::read(&text("2\n")), Some(2));
    assert_eq!(Led::read(&text(" \t3\r\n")), Some(3));
    assert_eq!(Led::read(&text("\u{a0}\u{3000}1\u{2028}")), Some(1));
    assert_eq!(Led::read(&text("+003")), Some(3));
}

#[test]
fn what_is_no_level_is_not_read() {
    assert_eq!(Led::read(&None), None);
    assert_eq!(Led::read(&text("")), None);
    assert_eq!(Led::read(&text("\n")), None);
    assert_eq!(Led::read(&text("256")), None);
    assert_eq!(Led::read(&text("-1")), None);
    assert_eq!(Led::read(&text("+")), None);
    assert_eq!(Led::read(&text("++1")), None);
    assert_eq!(Led::read(&text("1 2")), None);
    assert_eq!(Led::read(&text("1x")), None);
    assert_eq!(Led::read(&text("99999999999999999999999999")), None);
    assert_eq!(Led::read(&text("\u{200b}1")), None);
}

#[test]
fn levels_are_read_as_the_standard_library_reads_them() {
    let samples = [
        "0", "00", "1", "+1", "-0", "255", "256", "0255", "1_0", "0x1", " 1", "1\u{85}", "\u{b}4\u{c}", "\u{feff}1", "٣",
        "1e0", "1.0", "+ 1", "\u{1680}9\u{205f}", "\u{180e}5", "\u{200a}6\u{202f}", "\u{2029}8",
    ];
    for sample in samples {
        assert_eq!(Led::read(&text(sample)), sample.trim().parse::<u8>().ok(), "{sample:?}");
    }
}

#[test]
fn the_file_is_in_the_directory() {
    let led = Led { dir: "/sys/class/leds/asus::kbd_backlight".to_string() };
    assert_eq!(led.brightness_path(), "/sys/class/leds/asus::kbd_backlight/brightness");
}
