//! Paths: those of directory entries, and when two paths are the same.

use crate::text::chars_of;
use vstd::prelude::*;

verus! {

/// The path of an entry of a directory: the directory, one slash unless it is empty or ends in
/// one, and the entry's name.
pub open spec fn joined(dir: Seq<char>, name: Seq<char>) -> Seq<char> {
    if dir.len() == 0 || dir.last() == '/' {
        dir + name
    } else {
        dir.push('/') + name
    }
}

/// Builds the path of an entry of a directory.
pub fn join_path(dir: &str, name: &str) -> (path: String)
    ensures
        path@ == joined(dir@, name@),
{
    let mut path = dir.to_owned();
    let len = dir.unicode_len();
    if len > 0 && dir.get_char(len - 1) != '/' {
        proof {
            reveal_strlit("/");
        }
        path.append("/");
        assert(path@ == dir@.push('/'));
    }
    path.append(name);
    path
}

/// The pieces of a path between its slashes, empty ones included.
pub open spec fn pieces(path: Seq<char>) -> Seq<Seq<char>>
    decreases path.len(),
{
    if path.len() == 0 {
        seq![Seq::empty()]
    } else {
        let front = pieces(path.drop_last());
        if path.last() == '/' {
            front.push(Seq::empty())
        } else {
            front.drop_last().push(front.last().push(path.last()))
        }
    }
}

/// Whether a piece behind a slash leads anywhere: an empty piece and a lone dot do not.
pub open spec fn leads_on() -> spec_fn(Seq<char>) -> bool {
    |piece: Seq<char>| piece.len() > 0 && piece != seq!['.']
}

/// What a path means: whether it starts at the root, and the components that it leads through.
/// Repeated slashes, a slash at the end and lone dots mean nothing, but for a dot that the path
/// starts with.
pub struct PathMeaning {
    pub rooted: bool,
    pub components: Seq<Seq<char>>,
}

/// The components of a path.
pub open spec fn components(path: Seq<char>) -> Seq<Seq<char>> {
    let all = pieces(path);
    let behind = all.drop_first().filter(leads_on());
    if all[0].len() > 0 {
        seq![all[0]] + behind
    } else {
        behind
    }
}

/// What a path means. Paths are the same if they mean the same.
pub open spec fn meaning(path: Seq<char>) -> PathMeaning {
    PathMeaning {
        rooted: path.len() > 0 && path[0] == '/',
        components: components(path),
    }
}

/// What each path of a list means.
pub open spec fn meanings(paths: Seq<Seq<char>>) -> Seq<PathMeaning> {
    Seq::new(paths.len(), |i: int| meaning(paths[i]))
}

/// What the lists of characters hold.
pub open spec fn char_views(list: Seq<Vec<char>>) -> Seq<Seq<char>> {
    Seq::new(list.len(), |i: int| list[i]@)
}

proof fn lemma_pieces_not_empty(path: Seq<char>)
    ensures
        pieces(path).len() > 0,
    decreases path.len(),
{
    if path.len() > 0 {
        lemma_pieces_not_empty(path.drop_last());
    }
}

/// Splits a path at its slashes.
fn split_path(path: &Vec<char>) -> (list: Vec<Vec<char>>)
    ensures
        char_views(list@) == pieces(path@),
{
    let mut list: Vec<Vec<char>> = Vec::new();
    let mut piece: Vec<char> = Vec::new();
    let mut i: usize = 0;
    assert(char_views(list@).push(piece@) == pieces(path@.take(0)));
    while i < path.len()
        invariant
            i <= path.len(),
            char_views(list@).push(piece@) == pieces(path@.take(i as int)),
        decreases path.len() - i,
    {
        let ghost front = pieces(path@.take(i as int));
        let ghost done = char_views(list@);
        assert(path@.take(i + 1).drop_last() == path@.take(i as int));
        assert(front.drop_last() == done);
        assert(front.last() == piece@);
        if path[i] == '/' {
            list.push(piece);
            assert(char_views(list@) == front);
            piece = Vec::new();
            assert(piece@ == Seq::<char>::empty());
        } else {
            piece.push(path[i]);
        }
        i += 1;
    }
    let ghost done = char_views(list@);
    let ghost last = piece@;
    list.push(piece);
    assert(char_views(list@) == done.push(last));
    assert(path@.take(i as int) == path@);
    list
}

/// The components of a path.
fn path_components(path: &Vec<char>) -> (parts: Vec<Vec<char>>)
    ensures
        char_views(parts@) == components(path@),
{
    let mut list = split_path(path);
    let ghost all = char_views(list@);
    proof {
        lemma_pieces_not_empty(path@);
    }
    let first = list.remove(0);
    assert(char_views(list@) == all.drop_first());
    let mut parts: Vec<Vec<char>> = Vec::new();
    let ghost mut start = Seq::<Seq<char>>::empty();
    if first.len() > 0 {
        proof {
            start = seq![all[0]];
        }
        parts.push(first);
    }
    let ghost rest = all.drop_first();
    let ghost mut seen: int = 0;
    assert(rest.take(0).filter(leads_on()) == Seq::<Seq<char>>::empty()) by {
        reveal(Seq::filter);
    }
    assert(rest.skip(0) == rest);
    assert(char_views(parts@) == start + rest.take(0).filter(leads_on()));
    while list.len() > 0
        invariant
            0 <= seen <= rest.len(),
            char_views(list@) == rest.skip(seen),
            char_views(parts@) == start + rest.take(seen).filter(leads_on()),
        decreases list.len(),
    {
        let ghost before = char_views(parts@);
        assert(rest.skip(seen).len() == list@.len());
        let piece = list.remove(0);
        let ghost text = piece@;
        proof {
            assert(text == rest.skip(seen)[0]);
            assert(rest.take(seen + 1) == rest.take(seen).push(text));
            rest.take(seen).lemma_filter_push(text, leads_on());
            assert(char_views(list@) == rest.skip(seen).drop_first());
            assert(rest.skip(seen).drop_first() == rest.skip(seen + 1));
            if text.len() == 1 && text[0] == '.' {
                assert(text == seq!['.']);
            }
        }
        if piece.len() > 0 && !(piece.len() == 1 && piece[0] == '.') {
            parts.push(piece);
            assert(char_views(parts@) == before.push(text));
        }
        proof {
            seen = seen + 1;
        }
    }
    assert(rest.skip(seen).len() == 0);
    assert(rest.take(seen) == rest);
    assert(char_views(parts@) == components(path@));
    parts
}

fn same_chars(left: &Vec<char>, right: &Vec<char>) -> (same: bool)
    ensures
        same == (left@ == right@),
{
    if left.len() != right.len() {
        return false;
    }
    let mut i: usize = 0;
    while i < left.len()
        invariant
            i <= left.len(),
            left.len() == right.len(),
            forall|j: int| 0 <= j < i ==> left@[j] == right@[j],
        decreases left.len() - i,
    {
        if left[i] != right[i] {
            return false;
        }
        i += 1;
    }
    assert(left@ == right@);
    true
}

/// Whether two paths mean the same.
pub fn same_path(left: &str, right: &str) -> (same: bool)
    ensures
        same == (meaning(left@) == meaning(right@)),
{
    let l = chars_of(left);
    let r = chars_of(right);
    if (l.len() > 0 && l[0] == '/') != (r.len() > 0 && r[0] == '/') {
        return false;
    }
    let lparts = path_components(&l);
    let rparts = path_components(&r);
    let ghost lviews = components(left@);
    let ghost rviews = components(right@);
    if lparts.len() != rparts.len() {
        assert(lviews.len() != rviews.len());
        return false;
    }
    let mut i: usize = 0;
    while i < lparts.len()
        invariant
            i <= lparts.len(),
            lparts.len() == rparts.len(),
            char_views(lparts@) == lviews,
            char_views(rparts@) == rviews,
            lviews == components(left@),
            rviews == components(right@),
            forall|j: int| 0 <= j < i ==> lviews[j] == rviews[j],
        decreases lparts.len() - i,
    {
        assert(lviews[i as int] == lparts@[i as int]@);
        assert(rviews[i as int] == rparts@[i as int]@);
        if !same_chars(&lparts[i], &rparts[i]) {
            return false;
        }
        i += 1;
    }
    assert(lviews == rviews);
    true
}

/// Whether a text can be the name of a directory entry other than the directory itself.
pub open spec fn entry_name(name: Seq<char>) -> bool {
    &&& name.len() > 0
    &&& name != seq!['.']
    &&& !name.contains('/')
}

proof fn lemma_pieces_append(dir: Seq<char>, name: Seq<char>)
    requires
        !name.contains('/'),
    ensures
        pieces(dir + name) == pieces(dir).drop_last().push(pieces(dir).last() + name),
    decreases name.len(),
{
    lemma_pieces_not_empty(dir);
    if name.len() == 0 {
        assert(dir + name == dir);
        assert(pieces(dir).last() + name == pieces(dir).last());
        assert(pieces(dir) == pieces(dir).drop_last().push(pieces(dir).last()));
    } else {
        let front = name.drop_last();
        assert forall|i: int| 0 <= i < front.len() implies front[i] != '/' by {
            assert(name.contains(name[i]));
        }
        lemma_pieces_append(dir, front);
        assert((dir + name).drop_last() == dir + front);
        assert(name.contains(name.last()));
        let before = pieces(dir + front);
        assert(before.drop_last() == pieces(dir).drop_last());
        assert(before.last().push(name.last()) == pieces(dir).last() + name);
    }
}

/// The path of an entry leads through what its directory leads through, and then to the entry.
pub proof fn law_entry_of_directory(dir: Seq<char>, name: Seq<char>)
    requires
        entry_name(name),
    ensures
        components(joined(dir, name)) == components(dir).push(name),
        meaning(joined(dir, name)).rooted == meaning(dir).rooted,
{
    let start = if dir.len() == 0 || dir.last() == '/' {
        dir
    } else {
        dir.push('/')
    };
    let all = pieces(start);
    let whole = pieces(start + name);
    let good = leads_on();
    lemma_pieces_not_empty(dir);
    lemma_pieces_not_empty(start);
    lemma_pieces_append(start, name);
    assert(joined(dir, name) == start + name);
    if dir.len() == 0 {
        assert(name[0] != '/') by {
            assert(name.contains(name[0]));
        }
        assert(all[0] + name == name);
        assert(whole == seq![name]);
        assert(whole.drop_first() == Seq::<Seq<char>>::empty());
        assert(all.drop_first() == Seq::<Seq<char>>::empty());
        assert(components(dir) == all.drop_first().filter(good));
        assert(all.drop_first().filter(good).len() == 0) by {
            reveal(Seq::filter);
        }
        assert(components(start + name) == components(dir).push(name));
    } else {
        assert(all.last() == Seq::<char>::empty());
        assert(all.last() + name == name);
        assert(all.len() > 1) by {
            lemma_pieces_not_empty(start.drop_last());
        }
        let middle = all.drop_last().drop_first();
        assert(whole.drop_first() == middle.push(name));
        assert(all.drop_first() == middle.push(Seq::empty()));
        middle.lemma_filter_push(name, good);
        middle.lemma_filter_push(Seq::empty(), good);
        if dir.last() != '/' {
            assert(start.drop_last() == dir);
            assert(pieces(dir) == all.drop_last());
            assert(pieces(dir).drop_first() == middle);
        } else {
            assert(pieces(dir) == all);
        }
        assert(whole[0] == all[0]);
        assert(all[0] == pieces(dir)[0]);
        assert(components(start + name) == components(dir).push(name));
        assert((start + name)[0] == dir[0]);
    }
}

/// Different names lead to different entries.
pub proof fn law_names_tell_paths_apart(dir: Seq<char>, left: Seq<char>, right: Seq<char>)
    requires
        entry_name(left),
        entry_name(right),
        meaning(joined(dir, left)) == meaning(joined(dir, right)),
    ensures
        left == right,
{
    law_entry_of_directory(dir, left);
    law_entry_of_directory(dir, right);
    assert(components(dir).push(left).last() == left);
    assert(components(dir).push(right).last() == right);
}

/// The path of an entry starts with the directory as it is given and ends with the entry's name,
/// with one slash between the two unless the directory ends in one, or is empty, so that there is
/// none to begin with.
pub proof fn law_joined_text(dir: Seq<char>, name: Seq<char>)
    ensures
        ({
            let path = joined(dir, name);
            let gap = path.len() - dir.len() - name.len();
            &&& gap == (if dir.len() > 0 && dir[dir.len() - 1] != '/' {
                1int
            } else {
                0
            })
            &&& path.take(dir.len() as int) == dir
            &&& path.skip(dir.len() + gap) == name
            &&& gap == 1 ==> path[dir.len() as int] == '/'
        }),
{
}

proof fn lemma_pieces_at_slash(left: Seq<char>, right: Seq<char>)
    ensures
        pieces(left + seq!['/'] + right) == pieces(left) + pieces(right),
    decreases right.len(),
{
    let all = left + seq!['/'] + right;
    lemma_pieces_not_empty(left);
    lemma_pieces_not_empty(right);
    if right.len() == 0 {
        assert(all.drop_last() == left);
        assert(pieces(right) == seq![Seq::<char>::empty()]);
        assert(pieces(left).push(Seq::empty()) == pieces(left) + pieces(right));
    } else {
        let front = right.drop_last();
        lemma_pieces_not_empty(front);
        lemma_pieces_at_slash(left, front);
        assert(all.drop_last() == left + seq!['/'] + front);
        let (whole, part) = (pieces(left) + pieces(front), pieces(front));
        assert(whole.last() == part.last());
        assert(whole.drop_last() == pieces(left) + part.drop_last());
        assert(pieces(all) == pieces(left) + pieces(right));
    }
}

proof fn lemma_components_at_slash(left: Seq<char>, right: Seq<char>)
    ensures
        components(left + seq!['/'] + right) == components(left) + pieces(right).filter(leads_on()),
        meaning(left + seq!['/'] + right).rooted == (left.len() == 0 || left[0] == '/'),
{
    let all = left + seq!['/'] + right;
    lemma_pieces_at_slash(left, right);
    lemma_pieces_not_empty(left);
    lemma_pieces_not_empty(right);
    let (first, second) = (pieces(left), pieces(right));
    assert((first + second).drop_first() == first.drop_first() + second);
    Seq::filter_distributes_over_add(first.drop_first(), second, leads_on());
    assert(pieces(all)[0] == first[0]);
    assert(components(all) == components(left) + second.filter(leads_on()));
    if left.len() == 0 {
        assert(all[0] == '/');
    } else {
        assert(all[0] == left[0]);
    }
}

proof fn lemma_one_piece(text: Seq<char>)
    requires
        !text.contains('/'),
    ensures
        pieces(text) == seq![text],
    decreases text.len(),
{
    if text.len() > 0 {
        let front = text.drop_last();
        assert forall|i: int| 0 <= i < front.len() implies front[i] != '/' by {
            assert(text.contains(text[i]));
        }
        lemma_one_piece(front);
        assert(text.contains(text.last()));
        assert(front.push(text.last()) == text);
        assert(pieces(front).drop_last().push(pieces(front).last().push(text.last())) == seq![text]);
    } else {
        assert(text == Seq::<char>::empty());
    }
}

/// Slashes in a row count as one, and so does a dot between slashes; a slash at the end, with or
/// without a dot behind it, counts as nothing.
pub proof fn law_spellings_of_a_path(left: Seq<char>, right: Seq<char>)
    ensures
        meaning(left + seq!['/', '/'] + right) == meaning(left + seq!['/'] + right),
        meaning(left + seq!['/', '.', '/'] + right) == meaning(left + seq!['/'] + right),
        left.len() > 0 ==> meaning(left + seq!['/']) == meaning(left),
        left.len() > 0 ==> meaning(left + seq!['/', '.']) == meaning(left),
{
    let (slash, dot, none) = (seq!['/'], seq!['.'], Seq::<char>::empty());
    let good = leads_on();
    lemma_components_at_slash(left, right);
    lemma_components_at_slash(left, slash + right);
    lemma_components_at_slash(left, dot + slash + right);
    lemma_components_at_slash(left, none);
    lemma_components_at_slash(left, dot);
    assert(left + slash + (slash + right) == left + seq!['/', '/'] + right);
    assert(left + slash + (dot + slash + right) == left + seq!['/', '.', '/'] + right);
    assert(left + slash + none == left + slash);
    assert(left + slash + dot == left + seq!['/', '.']);
    lemma_pieces_at_slash(none, right);
    assert(none + slash + right == slash + right);
    lemma_pieces_at_slash(dot, right);
    assert(!dot.contains('/'));
    lemma_one_piece(dot);
    lemma_one_piece(none);
    Seq::filter_distributes_over_add(seq![none], pieces(right), good);
    Seq::filter_distributes_over_add(seq![dot], pieces(right), good);
    assert(seq![none].filter(good) == Seq::<Seq<char>>::empty()) by {
        reveal(Seq::filter);
        assert(seq![none].drop_last() == Seq::<Seq<char>>::empty());
        assert(seq![none].drop_last().filter(good) == Seq::<Seq<char>>::empty());
    }
    assert(seq![dot].filter(good) == Seq::<Seq<char>>::empty()) by {
        reveal(Seq::filter);
        assert(seq![dot].drop_last() == Seq::<Seq<char>>::empty());
        assert(seq![dot].drop_last().filter(good) == Seq::<Seq<char>>::empty());
    }
    let rest = pieces(right).filter(good);
    assert(Seq::<Seq<char>>::empty() + rest == rest);
    assert(components(left) + Seq::<Seq<char>>::empty() == components(left));
}

/// A text without slashes is one component, also if it is a dot; nothing has no components, and a
/// slash alone has none but starts at the root.
pub proof fn law_simple_paths(name: Seq<char>)
    requires
        !name.contains('/'),
    ensures
        name.len() > 0 ==> meaning(name).components == seq![name] && !meaning(name).rooted,
        meaning(Seq::empty()).components.len() == 0 && !meaning(Seq::empty()).rooted,
        meaning(seq!['/']).components.len() == 0 && meaning(seq!['/']).rooted,
{
    let none = Seq::<char>::empty();
    lemma_one_piece(name);
    lemma_one_piece(none);
    assert(seq![name].drop_first() == Seq::<Seq<char>>::empty());
    assert(seq![none].drop_first() == Seq::<Seq<char>>::empty());
    assert(Seq::<Seq<char>>::empty().filter(leads_on()) == Seq::<Seq<char>>::empty()) by {
        reveal(Seq::filter);
    }
    assert(seq![name] + Seq::<Seq<char>>::empty() == seq![name]);
    if name.len() > 0 {
        assert(name.contains(name[0]));
    }
    lemma_components_at_slash(none, none);
    assert(none + seq!['/'] + none == seq!['/']);
    assert(seq![none].filter(leads_on()) == Seq::<Seq<char>>::empty()) by {
        reveal(Seq::filter);
        assert(seq![none].drop_last() == Seq::<Seq<char>>::empty());
        assert(seq![none].drop_last().filter(leads_on()) == Seq::<Seq<char>>::empty());
    }
}

} // verus!
