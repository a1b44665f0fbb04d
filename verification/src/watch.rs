//! The devices that are being watched: which nodes are devices at all, and how the list of
//! watches follows the nodes that come and go.

use crate::path::{join_path, same_path};
use crate::text::{sort_texts, starts_with};
use vstd::prelude::*;

#[allow(unused_imports)]
use crate::path::{
    entry_name, joined, law_names_tell_paths_apart, meaning, meanings, PathMeaning,
};
#[allow(unused_imports)]
use crate::text::{lemma_text_order, text_le, text_order, texts};
use vstd::multiset::*;
use vstd::seq_lib::*;

verus! {

/// A device that is being watched, with the path of its node.
pub struct Watch<D> {
    pub path: String,
    pub dev: D,
}

/// What a watch holds.
pub struct WatchView<D> {
    pub path: Seq<char>,
    pub dev: D,
}

impl<D> View for Watch<D> {
    type V = WatchView<D>;

    open spec fn view(&self) -> WatchView<D> {
        WatchView { path: self.path@, dev: self.dev }
    }
}

/// What the watches of a list hold.
pub open spec fn watch_views<D>(watches: Seq<Watch<D>>) -> Seq<WatchView<D>> {
    Seq::new(watches.len(), |i: int| watches[i]@)
}

/// The nodes that the watches of a list are on: what their paths mean.
pub open spec fn watched_nodes<D>(watches: Seq<WatchView<D>>) -> Seq<PathMeaning> {
    Seq::new(watches.len(), |i: int| meaning(watches[i].path))
}

/// The paths of the watches of a list.
pub open spec fn watched_paths<D>(watches: Seq<WatchView<D>>) -> Seq<Seq<char>> {
    Seq::new(watches.len(), |i: int| watches[i].path)
}

/// The name of a directory entry as text, where it is text and starts with `event`.
pub open spec fn event_name() -> spec_fn(Option<String>) -> Option<Seq<char>> {
    |name: Option<String>|
        match name {
            Some(text) => if "event"@.is_prefix_of(text@) {
                Some(text@)
            } else {
                None
            },
            None => None,
        }
}

/// The paths of the device nodes of a directory: the entries whose names start with `event`, in
/// alphabetical order.
pub open spec fn device_paths(input_dir: Seq<char>, names: Seq<Option<String>>) -> Seq<Seq<char>> {
    let sorted = names.filter_map(event_name()).sort_by(text_order());
    Seq::new(sorted.len(), |i: int| joined(input_dir, sorted[i]))
}

/// The paths of the device nodes of a directory, given the names of its entries, `None` standing
/// for a name that is not text.
pub fn event_device_paths(input_dir: &str, names: &Vec<Option<String>>) -> (paths: Vec<String>)
    ensures
        texts(paths@) == device_paths(input_dir@, names@),
{
    let mut found: Vec<String> = Vec::new();
    let mut i: usize = 0;
    assert(names@.take(0).filter_map(event_name()) == texts(found@));
    while i < names.len()
        invariant
            i <= names.len(),
            texts(found@) == names@.take(i as int).filter_map(event_name()),
        decreases names.len() - i,
    {
        proof {
            names@.lemma_filter_map_take_succ(event_name(), i as int);
        }
        match &names[i] {
            Some(name) => {
                if starts_with(name.as_str(), "event") {
                    let ghost before = texts(found@);
                    found.push(name.clone());
                    assert(texts(found@) == before + seq![name@]);
                }
            },
            None => {},
        }
        i += 1;
    }
    assert(names@.take(i as int) == names@);
    let sorted = sort_texts(found);
    let mut paths: Vec<String> = Vec::new();
    let mut k: usize = 0;
    while k < sorted.len()
        invariant
            k <= sorted.len(),
            paths.len() == k,
            forall|j: int|
                0 <= j < k ==> (#[trigger] paths@[j])@ == joined(input_dir@, sorted@[j]@),
        decreases sorted.len() - k,
    {
        paths.push(join_path(input_dir, sorted[k].as_str()));
        k += 1;
    }
    assert(texts(paths@) == device_paths(input_dir@, names@)) by {
        let model = names@.filter_map(event_name()).sort_by(text_order());
        assert(model == texts(sorted@));
    }
    paths
}

fn lists(paths: &Vec<String>, path: &String) -> (b: bool)
    ensures
        b == meanings(texts(paths@)).contains(meaning(path@)),
{
    let mut i: usize = 0;
    while i < paths.len()
        invariant
            i <= paths.len(),
            forall|j: int| 0 <= j < i ==> meaning((#[trigger] paths@[j])@) != meaning(path@),
        decreases paths.len() - i,
    {
        if same_path(paths[i].as_str(), path.as_str()) {
            assert(meanings(texts(paths@))[i as int] == meaning(path@));
            return true;
        }
        i += 1;
    }
    false
}

fn watches_path<D>(watches: &Vec<Watch<D>>, path: &String) -> (b: bool)
    ensures
        b == watched_nodes(watch_views(watches@)).contains(meaning(path@)),
{
    let mut i: usize = 0;
    while i < watches.len()
        invariant
            i <= watches.len(),
            forall|j: int|
                0 <= j < i ==> meaning((#[trigger] watches@[j]).path@) != meaning(path@),
        decreases watches.len() - i,
    {
        if same_path(watches[i].path.as_str(), path.as_str()) {
            assert(watched_nodes(watch_views(watches@))[i as int] == meaning(path@));
            return true;
        }
        i += 1;
    }
    false
}

/// Whether the node of a watch is among those that the paths lead to.
pub open spec fn node_present<D>(paths: Seq<Seq<char>>) -> spec_fn(WatchView<D>) -> bool {
    |watch: WatchView<D>| meanings(paths).contains(meaning(watch.path))
}

/// Whether no watch is on the node that the path leads to.
pub open spec fn not_watched<D>(watches: Seq<WatchView<D>>) -> spec_fn(Seq<char>) -> bool {
    |path: Seq<char>| !watched_nodes(watches).contains(meaning(path))
}

/// The watches whose nodes are still there, in the order they had.
pub open spec fn kept<D>(watches: Seq<WatchView<D>>, paths: Seq<Seq<char>>) -> Seq<WatchView<D>> {
    watches.filter(node_present(paths))
}

/// The paths that have no watch yet, in the order they are listed.
pub open spec fn unopened<D>(watches: Seq<WatchView<D>>, paths: Seq<Seq<char>>) -> Seq<Seq<char>> {
    paths.filter(not_watched(watches))
}

/// Drops the watches whose nodes are gone.
fn drop_vanished<D>(watches: &mut Vec<Watch<D>>, paths: &Vec<String>)
    ensures
        watch_views(final(watches)@) == kept(watch_views(old(watches)@), texts(paths@)),
{
    let ghost all = watch_views(watches@);
    let ghost listed = texts(paths@);
    let ghost mut seen: int = 0;
    let mut i: usize = 0;
    assert(kept(all.take(0), listed) == Seq::<WatchView<D>>::empty()) by {
        reveal(Seq::filter);
    }
    while i < watches.len()
        invariant
            i <= watches.len(),
            listed == texts(paths@),
            0 <= seen <= all.len(),
            watches.len() - i == all.len() - seen,
            watch_views(watches@) == kept(all.take(seen), listed) + all.skip(seen),
            i == kept(all.take(seen), listed).len(),
        decreases watches.len() - i,
    {
        let ghost current = watch_views(watches@);
        let ghost front = kept(all.take(seen), listed);
        assert(current[i as int] == all[seen]);
        proof {
            assert(all.take(seen + 1) == all.take(seen).push(all[seen]));
            all.take(seen).lemma_filter_push(all[seen], node_present(listed));
        }
        if lists(paths, &watches[i].path) {
            assert(kept(all.take(seen + 1), listed) == front.push(all[seen]));
            assert(front + all.skip(seen) == front.push(all[seen]) + all.skip(seen + 1));
            i += 1;
        } else {
            watches.remove(i);
            assert(watch_views(watches@) == current.remove(i as int));
            assert(current.remove(i as int) == front + all.skip(seen + 1));
        }
        proof {
            seen = seen + 1;
        }
    }
    assert(all.take(seen) == all);
    assert(all.skip(seen).len() == 0);
    assert(watch_views(watches@) == kept(all, listed));
}

/// Starts a rescan, given the paths of the nodes that are there now: drops the watches whose
/// nodes are gone, keeps the others as they are, and returns the paths to open.
pub fn start_rescan<D>(watches: &mut Vec<Watch<D>>, paths: &Vec<String>) -> (to_open: Vec<String>)
    ensures
        watch_views(final(watches)@) == kept(watch_views(old(watches)@), texts(paths@)),
        texts(to_open@) == unopened(watch_views(final(watches)@), texts(paths@)),
{
    drop_vanished(watches, paths);
    let ghost listed = texts(paths@);
    let ghost held = watch_views(watches@);
    let mut to_open: Vec<String> = Vec::new();
    let mut i: usize = 0;
    assert(unopened(held, listed.take(0)) == texts(to_open@)) by {
        reveal(Seq::filter);
    }
    while i < paths.len()
        invariant
            i <= paths.len(),
            listed == texts(paths@),
            held == watch_views(watches@),
            texts(to_open@) == unopened(held, listed.take(i as int)),
        decreases paths.len() - i,
    {
        proof {
            assert(listed.take(i + 1) == listed.take(i as int).push(listed[i as int]));
            listed.take(i as int).lemma_filter_push(listed[i as int], not_watched(held));
        }
        if !watches_path(watches, &paths[i]) {
            let ghost before = texts(to_open@);
            to_open.push(paths[i].clone());
            assert(texts(to_open@) == before.push(listed[i as int]));
        }
        i += 1;
    }
    assert(listed.take(i as int) == listed);
    to_open
}

/// The watches after a device was opened: it joins them, at the end, if it is interactive.
pub open spec fn attached<D>(
    watches: Seq<WatchView<D>>,
    path: Seq<char>,
    dev: D,
    interactive: bool,
) -> Seq<WatchView<D>> {
    if interactive {
        watches.push(WatchView { path, dev })
    } else {
        watches
    }
}

/// Adds an opened device to the watches if it is interactive.
pub fn attach<D>(watches: &mut Vec<Watch<D>>, path: String, dev: D, interactive: bool)
    ensures
        watch_views(final(watches)@) == attached(
            watch_views(old(watches)@),
            path@,
            dev,
            interactive,
        ),
{
    let ghost before = watch_views(watches@);
    if interactive {
        let ghost added = WatchView { path: path@, dev };
        watches.push(Watch { path, dev });
        assert(watch_views(watches@) == before.push(added));
    }
}

/// Whether the indices are in ascending order, none twice, and below `len`.
pub open spec fn ascending_below(indices: Seq<usize>, len: int) -> bool {
    &&& forall|i: int, j: int| 0 <= i < j < indices.len() ==> indices[i] < indices[j]
    &&& forall|i: int| 0 <= i < indices.len() ==> #[trigger] indices[i] < len
}

/// A list without its element at `index`, the last one having taken its place.
pub open spec fn swap_removed<A>(list: Seq<A>, index: int) -> Seq<A> {
    list.update(index, list.last()).drop_last()
}

/// A list without its elements at ascending indices, taken out one after the other from the
/// highest index down.
pub open spec fn without_dead<A>(list: Seq<A>, dead: Seq<usize>) -> Seq<A>
    decreases dead.len(),
{
    if dead.len() == 0 {
        list
    } else {
        without_dead(swap_removed(list, dead.last() as int), dead.drop_last())
    }
}

/// The elements of a list at ascending indices, from the highest index down.
pub open spec fn at_dead<A>(list: Seq<A>, dead: Seq<usize>) -> Seq<A> {
    Seq::new(dead.len(), |k: int| list[dead[dead.len() - 1 - k] as int])
}

/// Takes the dead watches out of the list, from the highest index down, and returns them.
pub fn remove_dead<D>(watches: &mut Vec<Watch<D>>, dead: &Vec<usize>) -> (removed: Vec<Watch<D>>)
    requires
        ascending_below(dead@, old(watches)@.len() as int),
    ensures
        watch_views(final(watches)@) == without_dead(watch_views(old(watches)@), dead@),
        watch_views(removed@) == at_dead(watch_views(old(watches)@), dead@),
{
    let ghost all = watch_views(watches@);
    let mut removed: Vec<Watch<D>> = Vec::new();
    let mut left: usize = dead.len();
    assert(dead@.take(left as int) == dead@);
    while left > 0
        invariant
            left <= dead.len(),
            ascending_below(dead@, all.len() as int),
            watches@.len() == all.len() - (dead.len() - left),
            left > 0 ==> dead@[left - 1] < watches@.len(),
            forall|j: int|
                left > 0 && 0 <= j <= dead@[left - 1]
                    ==> (#[trigger] watches@[j])@ == all[j],
            without_dead(watch_views(watches@), dead@.take(left as int)) == without_dead(
                all,
                dead@,
            ),
            removed@.len() == dead.len() - left,
            forall|k: int|
                0 <= k < removed@.len() ==> (#[trigger] removed@[k])@ == at_dead(all, dead@)[k],
        decreases left,
    {
        let ghost current = watch_views(watches@);
        let ghost indices = dead@.take(left as int);
        let index = dead[left - 1];
        let watch = watches.swap_remove(index);
        assert(watch_views(watches@) == swap_removed(current, index as int));
        assert(indices.drop_last() == dead@.take(left - 1));
        removed.push(watch);
        left -= 1;
    }
    assert(dead@.take(0).len() == 0);
    assert(watch_views(removed@) == at_dead(all, dead@));
    removed
}

/// The watches once a list of devices has been opened, one after the other: for each path the
/// device and whether it is interactive, or nothing where it could not be opened.
pub open spec fn opened_all<D>(
    watches: Seq<WatchView<D>>,
    to_open: Seq<Seq<char>>,
    opened: Seq<Option<(D, bool)>>,
) -> Seq<WatchView<D>>
    decreases to_open.len(),
{
    if to_open.len() == 0 {
        watches
    } else {
        let first = match opened[0] {
            Some((dev, interactive)) => attached(watches, to_open[0], dev, interactive),
            None => watches,
        };
        opened_all(first, to_open.drop_first(), opened.drop_first())
    }
}

/// The watches after a rescan.
pub open spec fn rescanned<D>(
    watches: Seq<WatchView<D>>,
    paths: Seq<Seq<char>>,
    opened: Seq<Option<(D, bool)>>,
) -> Seq<WatchView<D>> {
    let rest = kept(watches, paths);
    opened_all(rest, unopened(rest, paths), opened)
}

/// A path is among the device nodes of a directory if and only if it is that of an entry whose
/// name is text that starts with `event`.
pub proof fn law_device_nodes(input_dir: Seq<char>, names: Seq<Option<String>>, path: Seq<char>)
    ensures
        device_paths(input_dir, names).contains(path) <==> exists|i: int|
            0 <= i < names.len() && (#[trigger] names[i] matches Some(name) && "event"@.is_prefix_of(
                name@,
            ) && path == joined(input_dir, name@)),
{
    let found = names.filter_map(event_name());
    let sorted = found.sort_by(text_order());
    let paths = device_paths(input_dir, names);
    lemma_text_order();
    found.lemma_sort_by_ensures(text_order());
    if paths.contains(path) {
        let k = paths.index_of(path);
        assert(sorted.contains(sorted[k]));
        assert(found.contains(sorted[k]));
        names.lemma_filter_map_contains(event_name(), sorted[k]);
        let name = choose|name: Option<String>| #[trigger]
            names.contains(name) && event_name()(name) == Some(sorted[k]);
        let i = names.index_of(name);
        assert(names[i] == name);
    }
    if exists|i: int|
        0 <= i < names.len() && (#[trigger] names[i] matches Some(name) && "event"@.is_prefix_of(
            name@,
        ) && path == joined(input_dir, name@)) {
        let i = choose|i: int|
            0 <= i < names.len() && (#[trigger] names[i] matches Some(name)
                && "event"@.is_prefix_of(name@) && path == joined(input_dir, name@));
        let text = names[i]->0@;
        lemma_filter_map_keeps(names, event_name(), i, text);
        broadcast use group_to_multiset_ensures;

        assert(found.to_multiset().count(text) > 0);
        assert(sorted.to_multiset().count(text) > 0);
        assert(sorted.contains(text));
        let k = sorted.index_of(text);
        assert(paths[k] == path);
    }
}

proof fn lemma_filter_map_keeps<A, B>(list: Seq<A>, f: spec_fn(A) -> Option<B>, i: int, image: B)
    requires
        0 <= i < list.len(),
        f(list[i]) == Some(image),
    ensures
        list.filter_map(f).contains(image),
    decreases list.len(),
{
    let front = list.drop_last();
    let all = list.filter_map(f);
    let some = front.filter_map(f);
    if i == list.len() - 1 {
        assert(all[all.len() - 1] == image);
    } else {
        lemma_filter_map_keeps(front, f, i, image);
        let k = some.index_of(image);
        assert(all[k] == image);
    }
}

/// Whether the names can be those of a directory's entries: they are all different, and none
/// holds a slash.
pub open spec fn entries_of_directory(names: Seq<Option<String>>) -> bool {
    &&& forall|i: int, j: int|
        0 <= i < j < names.len() ==> (#[trigger] names[i] matches Some(left) ==> (
        #[trigger] names[j] matches Some(right) ==> left@ != right@))
    &&& forall|i: int|
        0 <= i < names.len() ==> (#[trigger] names[i] matches Some(name) ==> !name@.contains('/'))
}

proof fn lemma_event_names(names: Seq<Option<String>>)
    requires
        entries_of_directory(names),
    ensures
        names.filter_map(event_name()).no_duplicates(),
        forall|i: int|
            0 <= i < names.filter_map(event_name()).len() ==> entry_name(
                #[trigger] names.filter_map(event_name())[i],
            ),
    decreases names.len(),
{
    if names.len() > 0 {
        let front = names.drop_last();
        let some = front.filter_map(event_name());
        let all = names.filter_map(event_name());
        lemma_event_names(front);
        assert forall|i: int, j: int| 0 <= i < j < all.len() implies all[i] != all[j] by {
            if j == some.len() {
                assert(some.contains(some[i]));
                front.lemma_filter_map_contains(event_name(), some[i]);
                let name = choose|name: Option<String>| #[trigger]
                    front.contains(name) && event_name()(name) == Some(some[i]);
                let k = front.index_of(name);
                assert(names[k] == name);
                assert(names[names.len() - 1]->0@ == all[j]);
            }
        }
        assert forall|i: int| 0 <= i < all.len() implies entry_name(#[trigger] all[i]) by {
            if i < some.len() {
                assert(all[i] == some[i]);
            } else {
                let name = all[i];
                assert(names[names.len() - 1]->0@ == name);
                reveal_strlit("event");
                assert(name.subrange(0, 5)[0] == 'e');
                assert(name[0] == 'e');
            }
        }
    }
}

/// Each device node is listed once.
pub proof fn law_device_nodes_listed_once(input_dir: Seq<char>, names: Seq<Option<String>>)
    requires
        entries_of_directory(names),
    ensures
        meanings(device_paths(input_dir, names)).no_duplicates(),
{
    let found = names.filter_map(event_name());
    let sorted = found.sort_by(text_order());
    let paths = device_paths(input_dir, names);
    let nodes = meanings(paths);
    lemma_event_names(names);
    lemma_text_order();
    found.lemma_sort_by_ensures(text_order());
    found.lemma_multiset_has_no_duplicates();
    sorted.lemma_multiset_has_no_duplicates_conv();
    assert forall|i: int| 0 <= i < sorted.len() implies entry_name(#[trigger] sorted[i]) by {
        assert(sorted.contains(sorted[i]));
        assert(found.contains(sorted[i]));
        let k = found.index_of(sorted[i]);
        assert(found[k] == sorted[i]);
    }
    assert forall|i: int, j: int| 0 <= i < j < nodes.len() implies nodes[i] != nodes[j] by {
        if nodes[i] == nodes[j] {
            assert(meaning(joined(input_dir, sorted[i])) == nodes[i]);
            assert(meaning(joined(input_dir, sorted[j])) == nodes[j]);
            law_names_tell_paths_apart(input_dir, sorted[i], sorted[j]);
        }
    }
}

/// The watches that are taken out and those that stay make up the list: nothing is lost,
/// doubled or changed.
pub proof fn law_dead_leave_the_rest<A>(list: Seq<A>, dead: Seq<usize>)
    requires
        ascending_below(dead, list.len() as int),
    ensures
        without_dead(list, dead).to_multiset().add(at_dead(list, dead).to_multiset())
            == list.to_multiset(),
    decreases dead.len(),
{
    broadcast use group_multiset_axioms;
    broadcast use group_multiset_properties;

    let gone = at_dead(list, dead);
    if dead.len() == 0 {
        assert(gone == Seq::<A>::empty());
        assert(gone.to_multiset() == Multiset::<A>::empty()) by {
            broadcast use group_to_multiset_ensures;

        }
    } else {
        let index = dead.last() as int;
        let rest = swap_removed(list, index);
        let front = dead.drop_last();
        let last = list.last();
        assert(ascending_below(front, rest.len() as int)) by {
            assert forall|i: int| 0 <= i < front.len() implies #[trigger] front[i]
                < rest.len() by {
                assert(dead[i] < dead[dead.len() - 1]);
            }
        }
        law_dead_leave_the_rest(rest, front);
        let tail = at_dead(rest, front);
        assert(gone == seq![list[index]] + tail) by {
            assert forall|k: int| 0 <= k < gone.len() implies gone[k] == (seq![list[index]]
                + tail)[k] by {
                if k > 0 {
                    let j = dead.len() - 1 - k;
                    assert(dead[j] < dead[dead.len() - 1]);
                    assert(rest[dead[j] as int] == list[dead[j] as int]);
                }
            }
        }
        assert(rest.push(list[index]).to_multiset() == list.to_multiset()) by {
            let moved = list.update(index, last);
            assert(moved == rest.push(last));
            to_multiset_update(list, index, last);
            to_multiset_build(rest, last);
            to_multiset_build(rest, list[index]);
            assert(rest.to_multiset().insert(last) == list.to_multiset().insert(last).remove(
                list[index],
            ));
            assert(list.contains(list[index]));
            to_multiset_contains(list, list[index]);
            let (all, some, taken) = (list.to_multiset(), rest.to_multiset(), list[index]);
            assert forall|v: A| some.insert(taken).count(v) == all.count(v) by {
                assert(some.insert(last).count(v) == all.insert(last).remove(taken).count(v));
            }
            assert(some.insert(taken) =~= all);
        }
        to_multiset_build(rest, list[index]);
        lemma_multiset_commutative(seq![list[index]], tail);
        assert(seq![list[index]].to_multiset() == Multiset::<A>::empty().insert(list[index])) by {
            broadcast use group_to_multiset_ensures;

            assert(seq![list[index]] == Seq::<A>::empty().push(list[index]));
            to_multiset_build(Seq::<A>::empty(), list[index]);
            assert(Seq::<A>::empty().to_multiset() =~= Multiset::<A>::empty());
        }
        assert(without_dead(list, dead).to_multiset().add(gone.to_multiset())
            =~= list.to_multiset());
    }
}

/// What is left once dead watches were taken out was there before.
pub proof fn lemma_without_dead_elements<A>(list: Seq<A>, dead: Seq<usize>)
    requires
        ascending_below(dead, list.len() as int),
    ensures
        forall|element: A| #[trigger]
            without_dead(list, dead).contains(element) ==> list.contains(element),
{
    law_dead_leave_the_rest(list, dead);
    let (rest, gone) = (without_dead(list, dead), at_dead(list, dead));
    assert forall|element: A| #[trigger] rest.contains(element) implies list.contains(element) by {
        broadcast use group_multiset_axioms;

        to_multiset_contains(rest, element);
        to_multiset_contains(list, element);
        assert(rest.to_multiset().add(gone.to_multiset()).count(element)
            == list.to_multiset().count(element));
    }
}

/// The watches that the opened devices add: one for each that is interactive, in order.
pub open spec fn newly_watched<D>(
    to_open: Seq<Seq<char>>,
    opened: Seq<Option<(D, bool)>>,
) -> Seq<WatchView<D>> {
    opened_all(Seq::empty(), to_open, opened)
}

proof fn lemma_opened_all_appends<D>(
    watches: Seq<WatchView<D>>,
    to_open: Seq<Seq<char>>,
    opened: Seq<Option<(D, bool)>>,
)
    ensures
        opened_all(watches, to_open, opened) == watches + newly_watched(to_open, opened),
    decreases to_open.len(),
{
    let none = Seq::<WatchView<D>>::empty();
    if to_open.len() == 0 {
        assert(watches + none == watches);
    } else {
        let (rest, outcomes) = (to_open.drop_first(), opened.drop_first());
        let first = match opened[0] {
            Some((dev, interactive)) => attached(watches, to_open[0], dev, interactive),
            None => watches,
        };
        let added = match opened[0] {
            Some((dev, interactive)) => attached(none, to_open[0], dev, interactive),
            None => none,
        };
        lemma_opened_all_appends(first, rest, outcomes);
        lemma_opened_all_appends(added, rest, outcomes);
        assert(first == watches + added);
        assert(opened_all(watches, to_open, opened) == watches + (added + newly_watched(
            rest,
            outcomes,
        )));
    }
}

/// A device joins the watches if and only if it could be opened and is interactive.
proof fn lemma_newly_watched<D>(
    to_open: Seq<Seq<char>>,
    opened: Seq<Option<(D, bool)>>,
    path: Seq<char>,
    dev: D,
)
    requires
        to_open.len() == opened.len(),
    ensures
        newly_watched(to_open, opened).contains(WatchView { path, dev }) <==> exists|k: int|
            0 <= k < to_open.len() && #[trigger] to_open[k] == path && opened[k] == Some(
                (dev, true),
            ),
    decreases to_open.len(),
{
    let none = Seq::<WatchView<D>>::empty();
    let watch = WatchView { path, dev };
    let all = newly_watched(to_open, opened);
    if to_open.len() > 0 {
        let (rest, outcomes) = (to_open.drop_first(), opened.drop_first());
        let tail = newly_watched(rest, outcomes);
        let added = match opened[0] {
            Some((dev, interactive)) => attached(none, to_open[0], dev, interactive),
            None => none,
        };
        lemma_opened_all_appends(added, rest, outcomes);
        lemma_newly_watched(rest, outcomes, path, dev);
        assert(all == added + tail);
        if all.contains(watch) {
            let i = all.index_of(watch);
            if i < added.len() {
                assert(to_open[0] == path && opened[0] == Some((dev, true)));
            } else {
                assert(tail[i - added.len()] == watch);
                let k = choose|k: int|
                    0 <= k < rest.len() && #[trigger] rest[k] == path && outcomes[k] == Some(
                        (dev, true),
                    );
                assert(to_open[k + 1] == path && opened[k + 1] == Some((dev, true)));
            }
        }
        if exists|k: int|
            0 <= k < to_open.len() && #[trigger] to_open[k] == path && opened[k] == Some(
                (dev, true),
            ) {
            let k = choose|k: int|
                0 <= k < to_open.len() && #[trigger] to_open[k] == path && opened[k] == Some(
                    (dev, true),
                );
            if k == 0 {
                assert(all[0] == watch);
            } else {
                assert(rest[k - 1] == path && outcomes[k - 1] == Some((dev, true)));
                let i = tail.index_of(watch);
                assert(all[added.len() + i] == watch);
            }
        }
    }
}

proof fn lemma_newly_watched_nodes<D>(to_open: Seq<Seq<char>>, opened: Seq<Option<(D, bool)>>)
    ensures
        forall|i: int|
            0 <= i < newly_watched(to_open, opened).len() ==> to_open.contains(
                (#[trigger] newly_watched(to_open, opened)[i]).path,
            ),
        meanings(to_open).no_duplicates() ==> watched_nodes(
            newly_watched(to_open, opened),
        ).no_duplicates(),
    decreases to_open.len(),
{
    let none = Seq::<WatchView<D>>::empty();
    let all = newly_watched(to_open, opened);
    if to_open.len() > 0 {
        let (rest, outcomes) = (to_open.drop_first(), opened.drop_first());
        let tail = newly_watched(rest, outcomes);
        let added = match opened[0] {
            Some((dev, interactive)) => attached(none, to_open[0], dev, interactive),
            None => none,
        };
        lemma_opened_all_appends(added, rest, outcomes);
        lemma_newly_watched_nodes(rest, outcomes);
        assert(all == added + tail);
        assert forall|i: int| 0 <= i < all.len() implies to_open.contains(
            (#[trigger] all[i]).path,
        ) by {
            if i < added.len() {
                assert(to_open[0] == all[i].path);
            } else {
                let path = tail[i - added.len()].path;
                assert(all[i].path == path);
                let k = rest.index_of(path);
                assert(to_open[k + 1] == path);
            }
        }
        if meanings(to_open).no_duplicates() {
            let nodes = watched_nodes(all);
            assert(meanings(rest) == meanings(to_open).drop_first());
            assert forall|i: int, j: int| 0 <= i < j < nodes.len() implies nodes[i]
                != nodes[j] by {
                let path = tail[j - added.len()].path;
                assert(nodes[j] == meaning(path));
                if i < added.len() {
                    let k = rest.index_of(path);
                    assert(meanings(to_open)[k + 1] == nodes[j]);
                    assert(meanings(to_open)[0] == nodes[i]);
                } else {
                    assert(watched_nodes(tail)[i - added.len()] == nodes[i]);
                    assert(watched_nodes(tail)[j - added.len()] == nodes[j]);
                }
            }
        }
    }
}

/// A rescan leaves the watches whose nodes are still there as they are and where they are, and
/// puts the new ones behind them.
pub proof fn law_rescan_keeps_watches<D>(
    watches: Seq<WatchView<D>>,
    paths: Seq<Seq<char>>,
    opened: Seq<Option<(D, bool)>>,
)
    ensures
        kept(watches, paths).is_prefix_of(rescanned(watches, paths, opened)),
        forall|watch: WatchView<D>|
            kept(watches, paths).contains(watch) <==> #[trigger] watches.contains(watch)
                && meanings(paths).contains(meaning(watch.path)),
{
    let rest = kept(watches, paths);
    lemma_opened_all_appends(rest, unopened(rest, paths), opened);
    assert(rest == rescanned(watches, paths, opened).subrange(0, rest.len() as int));
    assert forall|watch: WatchView<D>|
        rest.contains(watch) <==> #[trigger] watches.contains(watch) && meanings(paths).contains(
            meaning(watch.path),
        ) by {
        let present = node_present::<D>(paths);
        if rest.contains(watch) {
            watches.lemma_filter_contains_rev(present, watch);
            let i = rest.index_of(watch);
            watches.lemma_filter_pred(present, i);
        }
        if watches.contains(watch) && meanings(paths).contains(meaning(watch.path)) {
            let i = watches.index_of(watch);
            watches.lemma_filter_contains(present, i);
        }
    }
}

/// After a rescan a device is watched if and only if its node is there and either it was watched
/// before, or nothing was watched on its node and it could be opened and is interactive.
pub proof fn law_rescan_result<D>(
    watches: Seq<WatchView<D>>,
    paths: Seq<Seq<char>>,
    opened: Seq<Option<(D, bool)>>,
    path: Seq<char>,
    dev: D,
)
    requires
        opened.len() == unopened(kept(watches, paths), paths).len(),
    ensures
        rescanned(watches, paths, opened).contains(WatchView { path, dev }) <==> {
            ||| watches.contains(WatchView { path, dev }) && meanings(paths).contains(meaning(path))
            ||| exists|k: int|
                0 <= k < opened.len() && #[trigger] unopened(kept(watches, paths), paths)[k]
                    == path && opened[k] == Some((dev, true))
        },
{
    let watch = WatchView { path, dev };
    let rest = kept(watches, paths);
    let to_open = unopened(rest, paths);
    let added = newly_watched(to_open, opened);
    let all = rescanned(watches, paths, opened);
    lemma_opened_all_appends(rest, to_open, opened);
    lemma_newly_watched(to_open, opened, path, dev);
    law_rescan_keeps_watches(watches, paths, opened);
    assert(all == rest + added);
    assert(all.contains(watch) <==> rest.contains(watch) || added.contains(watch)) by {
        if all.contains(watch) {
            let i = all.index_of(watch);
            if i < rest.len() {
                assert(rest[i] == watch);
            } else {
                assert(added[i - rest.len()] == watch);
            }
        }
        if rest.contains(watch) {
            assert(all[rest.index_of(watch)] == watch);
        }
        if added.contains(watch) {
            assert(all[rest.len() + added.index_of(watch)] == watch);
        }
    }
    assert(watches.contains(watch) && meanings(paths).contains(meaning(path)) <==> rest.contains(
        watch,
    ));
}

proof fn lemma_filtered_nodes_differ(paths: Seq<Seq<char>>, pred: spec_fn(Seq<char>) -> bool)
    requires
        meanings(paths).no_duplicates(),
    ensures
        meanings(paths.filter(pred)).no_duplicates(),
    decreases paths.len(),
{
    reveal(Seq::filter);
    if paths.len() > 0 {
        let front = paths.drop_last();
        let some = front.filter(pred);
        let nodes = meanings(paths.filter(pred));
        assert(meanings(front) == meanings(paths).drop_last());
        lemma_filtered_nodes_differ(front, pred);
        assert forall|i: int, j: int| 0 <= i < j < nodes.len() implies nodes[i] != nodes[j] by {
            if j < some.len() {
                assert(meanings(some)[i] == nodes[i]);
                assert(meanings(some)[j] == nodes[j]);
            } else {
                assert(some.contains(some[i]));
                front.lemma_filter_contains_rev(pred, some[i]);
                let k = front.index_of(some[i]);
                assert(meanings(paths)[k] == nodes[i]);
                assert(meanings(paths)[paths.len() - 1] == nodes[j]);
            }
        }
    }
}

proof fn lemma_kept_nodes<D>(watches: Seq<WatchView<D>>, paths: Seq<Seq<char>>)
    requires
        watched_nodes(watches).no_duplicates(),
    ensures
        watched_nodes(kept(watches, paths)).no_duplicates(),
    decreases watches.len(),
{
    reveal(Seq::filter);
    let all = kept(watches, paths);
    if watches.len() > 0 {
        let front = watches.drop_last();
        let some = kept(front, paths);
        assert(watched_nodes(front) == watched_nodes(watches).drop_last());
        lemma_kept_nodes(front, paths);
        let listed = watched_nodes(all);
        assert forall|i: int, j: int| 0 <= i < j < listed.len() implies listed[i] != listed[j] by {
            if j < some.len() {
                assert(watched_nodes(some)[i] == listed[i]);
                assert(watched_nodes(some)[j] == listed[j]);
            } else {
                assert(some.contains(some[i]));
                front.lemma_filter_contains_rev(node_present(paths), some[i]);
                let k = front.index_of(some[i]);
                assert(watched_nodes(watches)[k] == listed[i]);
                assert(watched_nodes(watches)[watches.len() - 1] == listed[j]);
            }
        }
    }
}

/// A rescan watches only nodes that are there, and none of them twice.
pub proof fn law_rescan_watches_each_node_once<D>(
    watches: Seq<WatchView<D>>,
    paths: Seq<Seq<char>>,
    opened: Seq<Option<(D, bool)>>,
)
    requires
        watched_nodes(watches).no_duplicates(),
        meanings(paths).no_duplicates(),
    ensures
        watched_nodes(rescanned(watches, paths, opened)).no_duplicates(),
        forall|i: int|
            0 <= i < rescanned(watches, paths, opened).len() ==> meanings(paths).contains(
                meaning((#[trigger] rescanned(watches, paths, opened)[i]).path),
            ),
{
    let rest = kept(watches, paths);
    let to_open = unopened(rest, paths);
    let added = newly_watched(to_open, opened);
    let all = rescanned(watches, paths, opened);
    let free = not_watched(rest);
    lemma_opened_all_appends(rest, to_open, opened);
    lemma_newly_watched_nodes(to_open, opened);
    lemma_filtered_nodes_differ(paths, free);
    lemma_kept_nodes(watches, paths);
    assert(all == rest + added);
    assert forall|i: int| 0 <= i < all.len() implies meanings(paths).contains(
        meaning((#[trigger] all[i]).path),
    ) by {
        if i < rest.len() {
            watches.lemma_filter_pred(node_present(paths), i);
        } else {
            let path = added[i - rest.len()].path;
            assert(to_open.contains(path));
            paths.lemma_filter_contains_rev(free, path);
            let k = paths.index_of(path);
            assert(meanings(paths)[k] == meaning(path));
        }
    }
    let listed = watched_nodes(all);
    assert forall|i: int, j: int| 0 <= i < j < listed.len() implies listed[i] != listed[j] by {
        if j < rest.len() {
            assert(watched_nodes(rest)[i] == listed[i]);
            assert(watched_nodes(rest)[j] == listed[j]);
        } else if i >= rest.len() {
            assert(watched_nodes(added)[i - rest.len()] == listed[i]);
            assert(watched_nodes(added)[j - rest.len()] == listed[j]);
        } else {
            let path = added[j - rest.len()].path;
            assert(to_open.contains(path));
            let k = to_open.index_of(path);
            paths.lemma_filter_pred(free, k);
            assert(watched_nodes(rest)[i] == listed[i]);
            assert(watched_nodes(rest).contains(listed[i]));
        }
    }
}

/// Taking dead watches out leaves no node watched that was theirs, and none watched twice.
pub proof fn lemma_without_dead_nodes<D>(watches: Seq<WatchView<D>>, dead: Seq<usize>)
    requires
        watched_nodes(watches).no_duplicates(),
        ascending_below(dead, watches.len() as int),
    ensures
        watched_nodes(without_dead(watches, dead)).no_duplicates(),
        forall|k: int|
            0 <= k < dead.len() ==> !watched_nodes(without_dead(watches, dead)).contains(
                meaning(watches[#[trigger] dead[k] as int].path),
            ),
        forall|node: PathMeaning| #[trigger]
            watched_nodes(without_dead(watches, dead)).contains(node) ==> watched_nodes(
                watches,
            ).contains(node),
    decreases dead.len(),
{
    if dead.len() > 0 {
        let index = dead.last() as int;
        let rest = swap_removed(watches, index);
        let front = dead.drop_last();
        let (before, between) = (watched_nodes(watches), watched_nodes(rest));
        let after = watched_nodes(without_dead(watches, dead));
        assert(between == swap_removed(before, index));
        assert(between.no_duplicates()) by {
            assert forall|i: int, j: int| 0 <= i < j < between.len() implies between[i]
                != between[j] by {
                let p = if i == index {
                    before.len() - 1
                } else {
                    i
                };
                let q = if j == index {
                    before.len() - 1
                } else {
                    j
                };
                assert(between[i] == before[p] && between[j] == before[q]);
            }
        }
        assert(!between.contains(before[index])) by {
            if between.contains(before[index]) {
                let i = between.index_of(before[index]);
                let p = if i == index {
                    before.len() - 1
                } else {
                    i
                };
                assert(before[p] == before[index]);
            }
        }
        assert forall|node: PathMeaning| #[trigger] between.contains(node) implies before.contains(
            node,
        ) by {
            let i = between.index_of(node);
            let p = if i == index {
                before.len() - 1
            } else {
                i
            };
            assert(before[p] == node);
        }
        assert(ascending_below(front, rest.len() as int)) by {
            assert forall|i: int| 0 <= i < front.len() implies #[trigger] front[i]
                < rest.len() by {
                assert(dead[i] < dead[dead.len() - 1]);
            }
        }
        lemma_without_dead_nodes(rest, front);
        assert forall|k: int| 0 <= k < dead.len() implies !after.contains(
            meaning(watches[#[trigger] dead[k] as int].path),
        ) by {
            let node = meaning(watches[dead[k] as int].path);
            assert(before[dead[k] as int] == node);
            if k == dead.len() - 1 {
                if after.contains(node) {
                    assert(between.contains(node));
                }
            } else {
                assert(dead[k] < dead[dead.len() - 1]);
                assert(front[k] == dead[k]);
                assert(rest[front[k] as int] == watches[dead[k] as int]);
            }
        }
    }
}

/// A rescan goes by the paths of the watches alone, not by their devices.
pub proof fn lemma_rescan_goes_by_paths<D>(
    left: Seq<WatchView<D>>,
    right: Seq<WatchView<D>>,
    paths: Seq<Seq<char>>,
)
    requires
        watched_paths(left) == watched_paths(right),
    ensures
        watched_paths(kept(left, paths)) == watched_paths(kept(right, paths)),
        unopened(left, paths) == unopened(right, paths),
    decreases left.len(),
{
    reveal(Seq::filter);
    assert(left.len() == watched_paths(left).len() && right.len() == watched_paths(right).len());
    assert(watched_nodes(left) == watched_nodes(right)) by {
        assert forall|i: int| 0 <= i < left.len() implies left[i].path == right[i].path by {
            assert(watched_paths(left)[i] == watched_paths(right)[i]);
        }
    }
    assert(not_watched(left) =~= not_watched(right));
    if left.len() > 0 {
        let (first, second) = (left.drop_last(), right.drop_last());
        assert(watched_paths(first) == watched_paths(left).drop_last());
        assert(watched_paths(second) == watched_paths(right).drop_last());
        lemma_rescan_goes_by_paths(first, second, paths);
        assert(watched_paths(left).last() == watched_paths(right).last());
        if node_present(paths)(left.last()) {
            assert(watched_paths(kept(left, paths)) == watched_paths(kept(first, paths)).push(
                left.last().path,
            ));
            assert(watched_paths(kept(right, paths)) == watched_paths(kept(second, paths)).push(
                right.last().path,
            ));
        }
    }
}

/// Taking dead watches out goes by their positions alone, not by their devices.
pub proof fn lemma_without_dead_goes_by_position<D>(
    left: Seq<WatchView<D>>,
    right: Seq<WatchView<D>>,
    dead: Seq<usize>,
)
    requires
        watched_paths(left) == watched_paths(right),
        ascending_below(dead, left.len() as int),
    ensures
        watched_paths(without_dead(left, dead)) == watched_paths(without_dead(right, dead)),
        watched_paths(at_dead(left, dead)) == watched_paths(at_dead(right, dead)),
    decreases dead.len(),
{
    assert(left.len() == watched_paths(left).len() && right.len() == watched_paths(right).len());
    assert forall|i: int| 0 <= i < left.len() implies left[i].path == right[i].path by {
        assert(watched_paths(left)[i] == watched_paths(right)[i]);
    }
    assert(watched_paths(at_dead(left, dead)) == watched_paths(at_dead(right, dead))) by {
        assert forall|k: int| 0 <= k < dead.len() implies at_dead(left, dead)[k].path == at_dead(
            right,
            dead,
        )[k].path by {
            assert(dead[dead.len() - 1 - k] < left.len());
        }
    }
    if dead.len() > 0 {
        let index = dead.last() as int;
        let (first, second) = (swap_removed(left, index), swap_removed(right, index));
        let front = dead.drop_last();
        assert(watched_paths(first) == watched_paths(second));
        assert(ascending_below(front, first.len() as int)) by {
            assert forall|i: int| 0 <= i < front.len() implies #[trigger] front[i]
                < first.len() by {
                assert(dead[i] < dead[dead.len() - 1]);
            }
        }
        lemma_without_dead_goes_by_position(first, second, front);
    }
}

/// A device that broke is tried again: if its node is listed after it was taken out, it is among
/// those to be opened.
pub proof fn law_broken_device_is_reopened<D>(
    watches: Seq<WatchView<D>>,
    dead: Seq<usize>,
    paths: Seq<Seq<char>>,
    k: int,
)
    requires
        watched_nodes(watches).no_duplicates(),
        ascending_below(dead, watches.len() as int),
        0 <= k < dead.len(),
        meanings(paths).contains(meaning(watches[dead[k] as int].path)),
    ensures
        meanings(unopened(kept(without_dead(watches, dead), paths), paths)).contains(
            meaning(watches[dead[k] as int].path),
        ),
{
    let node = meaning(watches[dead[k] as int].path);
    let alive = without_dead(watches, dead);
    let rest = kept(alive, paths);
    lemma_without_dead_nodes(watches, dead);
    if watched_nodes(rest).contains(node) {
        let i = watched_nodes(rest).index_of(node);
        assert(rest.contains(rest[i]));
        alive.lemma_filter_contains_rev(node_present(paths), rest[i]);
        let j = alive.index_of(rest[i]);
        assert(watched_nodes(alive)[j] == node);
        assert(watched_nodes(alive).contains(node));
    }
    let i = meanings(paths).index_of(node);
    paths.lemma_filter_contains(not_watched(rest), i);
    let to_open = unopened(rest, paths);
    let j = to_open.index_of(paths[i]);
    assert(meanings(to_open)[j] == node);
}

/// Whether no node is watched twice, and none that is still to be opened is watched or to be
/// opened twice.
pub open spec fn each_once<D>(watches: Seq<WatchView<D>>, to_open: Seq<Seq<char>>) -> bool {
    &&& watched_nodes(watches).no_duplicates()
    &&& meanings(to_open).no_duplicates()
    &&& forall|i: int|
        0 <= i < to_open.len() ==> !watched_nodes(watches).contains(meaning(#[trigger] to_open[i]))
}

/// Beginning a rescan leaves each node watched or to be opened at most once.
pub proof fn lemma_rescan_each_once<D>(watches: Seq<WatchView<D>>, paths: Seq<Seq<char>>)
    requires
        watched_nodes(watches).no_duplicates(),
        meanings(paths).no_duplicates(),
    ensures
        each_once(kept(watches, paths), unopened(kept(watches, paths), paths)),
{
    let rest = kept(watches, paths);
    let free = not_watched(rest);
    let to_open = unopened(rest, paths);
    lemma_kept_nodes(watches, paths);
    lemma_filtered_nodes_differ(paths, free);
    assert forall|i: int| 0 <= i < to_open.len() implies !watched_nodes(rest).contains(
        meaning(#[trigger] to_open[i]),
    ) by {
        paths.lemma_filter_pred(free, i);
    }
}

/// Opening a device leaves each node watched or to be opened at most once.
pub proof fn lemma_attach_each_once<D>(
    watches: Seq<WatchView<D>>,
    to_open: Seq<Seq<char>>,
    dev: D,
    interactive: bool,
)
    requires
        each_once(watches, to_open),
        to_open.len() > 0,
    ensures
        each_once(watches, to_open.drop_first()),
        each_once(attached(watches, to_open[0], dev, interactive), to_open.drop_first()),
{
    let rest = to_open.drop_first();
    let path = to_open[0];
    let before = watched_nodes(watches);
    let after = watched_nodes(attached(watches, path, dev, interactive));
    assert(meanings(rest) == meanings(to_open).drop_first());
    assert forall|i: int| 0 <= i < rest.len() implies !before.contains(
        meaning(#[trigger] rest[i]),
    ) by {
        assert(rest[i] == to_open[i + 1]);
    }
    if interactive {
        assert(after == before.push(meaning(path)));
        assert forall|i: int, j: int| 0 <= i < j < after.len() implies after[i] != after[j] by {
            if j == watches.len() {
                assert(before.contains(after[i]));
            }
        }
        assert forall|i: int| 0 <= i < rest.len() implies !after.contains(
            meaning(#[trigger] rest[i]),
        ) by {
            let node = meaning(rest[i]);
            assert(meanings(to_open)[i + 1] == node);
            assert(meanings(to_open)[0] == meaning(path));
            if after.contains(node) {
                let j = after.index_of(node);
                if j < watches.len() {
                    assert(before[j] == node);
                }
            }
        }
    }
}

/// A watch stays in a rescan if and only if one of the listed paths leads to its node, whatever
/// becomes of the others, and those that stay keep their order.
pub proof fn law_kept_one_by_one<D>(
    watches: Seq<WatchView<D>>,
    watch: WatchView<D>,
    paths: Seq<Seq<char>>,
)
    ensures
        kept(Seq::<WatchView<D>>::empty(), paths).len() == 0,
        (exists|k: int| 0 <= k < paths.len() && meaning(#[trigger] paths[k]) == meaning(watch.path))
            ==> kept(watches.push(watch), paths) == kept(watches, paths).push(watch),
        (forall|k: int| 0 <= k < paths.len() ==> meaning(#[trigger] paths[k]) != meaning(watch.path))
            ==> kept(watches.push(watch), paths) == kept(watches, paths),
{
    reveal(Seq::filter);
    watches.lemma_filter_push(watch, node_present(paths));
    if exists|k: int| 0 <= k < paths.len() && meaning(#[trigger] paths[k]) == meaning(watch.path) {
        let k = choose|k: int|
            0 <= k < paths.len() && meaning(#[trigger] paths[k]) == meaning(watch.path);
        assert(meanings(paths)[k] == meaning(watch.path));
    }
}

/// A listed path is to be opened if and only if no watch is on the node that it leads to, whatever
/// becomes of the others, and those to be opened keep their order.
pub proof fn law_unopened_one_by_one<D>(
    watches: Seq<WatchView<D>>,
    paths: Seq<Seq<char>>,
    path: Seq<char>,
)
    ensures
        unopened(watches, Seq::empty()).len() == 0,
        (exists|k: int|
            0 <= k < watches.len() && meaning((#[trigger] watches[k]).path) == meaning(path))
            ==> unopened(watches, paths.push(path)) == unopened(watches, paths),
        (forall|k: int|
            0 <= k < watches.len() ==> meaning((#[trigger] watches[k]).path) != meaning(path))
            ==> unopened(watches, paths.push(path)) == unopened(watches, paths).push(path),
{
    reveal(Seq::filter);
    paths.lemma_filter_push(path, not_watched(watches));
    if exists|k: int|
        0 <= k < watches.len() && meaning((#[trigger] watches[k]).path) == meaning(path) {
        let k = choose|k: int|
            0 <= k < watches.len() && meaning((#[trigger] watches[k]).path) == meaning(path);
        assert(watched_nodes(watches)[k] == meaning(path));
    }
}

/// Dead watches are taken out from the highest position down: the last watch moves to where the
/// dead one was, and all others stay where they are.
pub proof fn law_dead_one_by_one<A>(list: Seq<A>, dead: Seq<usize>, index: usize, rest: Seq<A>)
    requires
        index < list.len(),
        rest.len() == list.len() - 1,
        forall|j: int|
            0 <= j < rest.len() ==> #[trigger] rest[j] == (if j == index {
                list[list.len() - 1]
            } else {
                list[j]
            }),
    ensures
        without_dead(list, Seq::empty()) == list,
        at_dead(list, Seq::empty()).len() == 0,
        without_dead(list, dead.push(index)) == without_dead(rest, dead),
        at_dead(list, dead.push(index)) == seq![list[index as int]] + at_dead(list, dead),
{
    let all = dead.push(index);
    assert(all.drop_last() == dead);
    assert(swap_removed(list, index as int) == rest);
    assert(at_dead(list, all) == seq![list[index as int]] + at_dead(list, dead));
}

/// Whether the paths are those of two entries of a directory in the order of the alphabet.
pub open spec fn in_order(dir: Seq<char>, left: Seq<char>, right: Seq<char>) -> bool {
    exists|a: Seq<char>, b: Seq<char>| #[trigger]
        joined(dir, a) == left && #[trigger] joined(dir, b) == right && text_le(a, b)
}

proof fn lemma_device_count(input_dir: Seq<char>, names: Seq<Option<String>>)
    ensures
        device_paths(input_dir, names).len() == names.filter_map(event_name()).len(),
{
    let found = names.filter_map(event_name());
    let sorted = found.sort_by(text_order());
    lemma_text_order();
    found.lemma_sort_by_ensures(text_order());
    to_multiset_len(found);
    to_multiset_len(sorted);
}

/// The device nodes stand in the order of the alphabet, and there are as many as there are entries
/// whose names start with `event`: one more such entry is one node more, another entry is none.
pub proof fn law_device_nodes_in_order(
    input_dir: Seq<char>,
    names: Seq<Option<String>>,
    entry: Option<String>,
)
    ensures
        forall|i: int, j: int|
            0 <= i < j < device_paths(input_dir, names).len() ==> in_order(
                input_dir,
                #[trigger] device_paths(input_dir, names)[i],
                #[trigger] device_paths(input_dir, names)[j],
            ),
        device_paths(input_dir, Seq::empty()).len() == 0,
        device_paths(input_dir, names.push(entry)).len() == device_paths(input_dir, names).len() + (
        match entry {
            Some(name) if "event"@.is_prefix_of(name@) => 1int,
            _ => 0,
        }),
{
    let found = names.filter_map(event_name());
    let sorted = found.sort_by(text_order());
    let paths = device_paths(input_dir, names);
    let more = names.push(entry);
    lemma_text_order();
    found.lemma_sort_by_ensures(text_order());
    lemma_device_count(input_dir, names);
    lemma_device_count(input_dir, more);
    lemma_device_count(input_dir, Seq::empty());
    assert(more.drop_last() == names);
    assert forall|i: int, j: int| 0 <= i < j < paths.len() implies in_order(
        input_dir,
        #[trigger] paths[i],
        #[trigger] paths[j],
    ) by {
        let order = text_order();
        assert(order(sorted[i], sorted[j]));
        assert(joined(input_dir, sorted[i]) == paths[i]);
        assert(joined(input_dir, sorted[j]) == paths[j]);
    }
}

} // verus!
