# asus_backlight_idle

A daemon that turns the keyboard backlight of ASUS laptops off after some seconds without input
and back on, at the level that the user had chosen, as soon as there is input again. Its logic is
a library verified with Verus.

- `src/` is the library. `daemon.rs` is the daemon as a machine: each step takes how the last
  action went and says what to do next. `backlight.rs` holds the two states of the backlight and
  their deadlines, `watch.rs` the watched devices and how they follow hotplugging, `device.rs` the
  choice of devices and events, `poll.rs` what `poll(2)` is asked and reports, `led.rs` the
  content of the brightness file, `options.rs` the command line, `report.rs` the wording of the
  log, and `text.rs`, `decimal.rs` and `path.rs` what these need of text, numbers and paths.
- `src/laws.rs` states what the daemon promises as a whole, over rows of events and of reads of its
  devices: when it dims, what it writes, which level comes back, that only keyboards, pointers and
  hotkeys are watched and none of them twice, that what is typed leaves no trace and no decision
  looks into a device, that a rescan comes before the next poll.
- `app/` is the program: it carries out the actions with `evdev`, `inotify` and `libc`.
- `tests/` runs the library.

What is taken on trust about `evdev` stands in `device.rs`: the keys that a set holds, the set
that a device reports, and the type that an event carries.
