use asus_backlight_idle::watch::{attach, event_device_paths, remove_dead, start_rescan, Watch};

fn names(list: &[&str]) -> Vec<Option<String>> {
    list.iter().map(|s| Some(s.to_string())).collect()
}

fn strings(list: &[&str]) -> Vec<String> {
    list.iter().map(|s| s.to_string()).collect()
}

fn watches(list: &[(&str, u32)]) -> Vec<Watch<u32>> {
    list.iter().map(|(path, dev)| Watch { path: path.to_string(), dev: *dev }).collect()
}

fn held(list: &[Watch<u32>]) -> Vec<(&str, u32)> {
    list.iter().map(|w| (w.path.as_str(), w.dev)).collect()
}

#[test]
fn only_event_nodes_are_listed_in_order() {
    let mut entries = names(&["mouse0", "event3", "event10", "by-path", "event2", "mice", "event"]);
    entries.push(None);
    assert_eq!(
        event_device_paths("/dev/input", &entries),
        strings(&["/dev/input/event", "/dev/input/event10", "/dev/input/event2", "/dev/input/event3"])
    );
    assert!(event_device_paths("/dev/input", &vec![]).is_empty());
}

#[test]
fn a_rescan_keeps_drops_and_opens() {
    let mut list = watches(&[("e3", 30), ("e1", 10), ("e2", 20)]);
    let to_open = start_rescan(&mut list, &strings(&["e0", "e1", "e3", "e4"]));
    assert_eq!(held(&list), vec![("e3", 30), ("e1", 10)]);
    assert_eq!(to_open, strings(&["e0", "e4"]));
    attach(&mut list, "e0".to_string(), 1, false);
    attach(&mut list, "e4".to_string(), 40, true);
    assert_eq!(held(&list), vec![("e3", 30), ("e1", 10), ("e4", 40)]);
    assert_eq!(start_rescan(&mut list, &strings(&["e0", "e1", "e3", "e4"])), strings(&["e0"]));
    assert_eq!(held(&list), vec![("e3", 30), ("e1", 10), ("e4", 40)]);
}

#[test]
fn a_rescan_of_an_empty_directory_drops_everything() {
    let mut list = watches(&[("e1", 10)]);
    assert!(start_rescan(&mut list, &vec![]).is_empty());
    assert!(list.is_empty());
}

#[test]
fn dead_watches_are_swapped_out_from_the_back() {
    let mut list = watches(&[("a", 0), ("b", 1), ("c", 2), ("d", 3), ("e", 4)]);
    let removed = remove_dead(&mut list, &vec![0, 2]);
    assert_eq!(held(&removed), vec![("c", 2), ("a", 0)]);
    assert_eq!(held(&list), vec![("d", 3), ("b", 1), ("e", 4)]);
}

#[test]
fn the_last_watches_may_be_dead() {
    let mut list = watches(&[("a", 0), ("b", 1), ("c", 2)]);
    let removed = remove_dead(&mut list, &vec![1, 2]);
    assert_eq!(held(&removed), vec![("c", 2), ("b", 1)]);
    assert_eq!(held(&list), vec![("a", 0)]);
    assert!(remove_dead(&mut list, &vec![]).is_empty());
    assert_eq!(held(&list), vec![("a", 0)]);
}

#[test]
fn a_broken_device_is_opened_again() {
    let mut list = watches(&[("a", 0), ("b", 1)]);
    remove_dead(&mut list, &vec![0]);
    assert_eq!(start_rescan(&mut list, &strings(&["a", "b"])), strings(&["a"]));
}

#[test]
fn a_rescan_goes_by_what_a_path_means() {
    let mut list = watches(&[("/d//event0", 0), ("/d/event1/", 1), ("./event2", 2), ("/d/event3", 3)]);
    let to_open = start_rescan(
        &mut list,
        &strings(&["/d/event0", "/d/./event1", "event2", "d/event3"]),
    );
    assert_eq!(held(&list), vec![("/d//event0", 0), ("/d/event1/", 1)]);
    assert_eq!(to_open, strings(&["event2", "d/event3"]));
}
