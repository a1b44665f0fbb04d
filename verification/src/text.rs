//! Text helpers: reading a string character by character, trimming, prefixes and the
//! alphabetical order of names.

use vstd::prelude::*;
use vstd::relations::*;
use vstd::seq_lib::*;

verus! {

/// The texts that a list of strings holds.
pub open spec fn texts(list: Seq<String>) -> Seq<Seq<char>> {
    Seq::new(list.len(), |i: int| list[i]@)
}

/// The characters of a string.
pub fn chars_of(text: &str) -> (chars: Vec<char>)
    ensures
        chars@ == text@,
{
    let mut chars: Vec<char> = Vec::new();
    let len = text.unicode_len();
    let mut i: usize = 0;
    while i < len
        invariant
            i <= len,
            len == text@.len(),
            chars@ == text@.take(i as int),
        decreases len - i,
    {
        chars.push(text.get_char(i));
        i += 1;
    }
    assert(text@.take(len as int) == text@);
    chars
}

/// Whether two strings hold the same text.
pub fn same_text(left: &str, right: &str) -> (same: bool)
    ensures
        same == (left@ == right@),
{
    left.to_owned() == right.to_owned()
}

/// Whether a string starts with the given prefix.
pub fn starts_with(text: &str, prefix: &str) -> (b: bool)
    ensures
        b == prefix@.is_prefix_of(text@),
{
    let chars = chars_of(text);
    let wanted = chars_of(prefix);
    if wanted.len() > chars.len() {
        return false;
    }
    let mut i: usize = 0;
    while i < wanted.len()
        invariant
            chars@ == text@,
            wanted@ == prefix@,
            i <= wanted.len() <= chars.len(),
            forall|j: int| 0 <= j < i ==> wanted@[j] == chars@[j],
        decreases wanted.len() - i,
    {
        if wanted[i] != chars[i] {
            assert(text@.subrange(0, prefix@.len() as int)[i as int] != prefix@[i as int]);
            return false;
        }
        i += 1;
    }
    assert(prefix@ == text@.subrange(0, prefix@.len() as int));
    true
}

/// Whether the character has the Unicode property White_Space.
pub open spec fn white_space(c: char) -> bool {
    let code = c as int;
    ||| 0x09 <= code <= 0x0D
    ||| code == 0x20
    ||| code == 0x85
    ||| code == 0xA0
    ||| code == 0x1680
    ||| 0x2000 <= code <= 0x200A
    ||| code == 0x2028
    ||| code == 0x2029
    ||| code == 0x202F
    ||| code == 0x205F
    ||| code == 0x3000
}

fn is_white_space(c: char) -> (b: bool)
    ensures
        b == white_space(c),
{
    let code: u32 = c as u32;
    (0x09 <= code && code <= 0x0D) || code == 0x20 || code == 0x85 || code == 0xA0
        || code == 0x1680 || (0x2000 <= code && code <= 0x200A) || code == 0x2028
        || code == 0x2029 || code == 0x202F || code == 0x205F || code == 0x3000
}

/// A text without the white space it starts with.
pub open spec fn trim_front(text: Seq<char>) -> Seq<char>
    decreases text.len(),
{
    if text.len() > 0 && white_space(text[0]) {
        trim_front(text.drop_first())
    } else {
        text
    }
}

/// A text without the white space it ends with.
pub open spec fn trim_back(text: Seq<char>) -> Seq<char>
    decreases text.len(),
{
    if text.len() > 0 && white_space(text.last()) {
        trim_back(text.drop_last())
    } else {
        text
    }
}

/// A text without the white space around it.
pub open spec fn trimmed(text: Seq<char>) -> Seq<char> {
    trim_back(trim_front(text))
}

/// Takes the white space around a text away.
pub fn trim(text: &str) -> (inner: Vec<char>)
    ensures
        inner@ == trimmed(text@),
{
    let mut chars = chars_of(text);
    while chars.len() > 0 && is_white_space(chars[0])
        invariant
            trim_front(chars@) == trim_front(text@),
        ensures
            chars@ == trim_front(text@),
        decreases chars.len(),
    {
        let ghost before = chars@;
        chars.remove(0);
        assert(chars@ == before.drop_first());
    }
    while chars.len() > 0 && is_white_space(chars[chars.len() - 1])
        invariant
            trim_back(chars@) == trimmed(text@),
        ensures
            chars@ == trimmed(text@),
        decreases chars.len(),
    {
        let ghost before = chars@;
        chars.pop();
        assert(chars@ == before.drop_last());
    }
    chars
}

/// The alphabetical order of texts: character by character, a text coming before those that
/// continue it.
pub open spec fn text_le(left: Seq<char>, right: Seq<char>) -> bool
    decreases left.len(),
{
    if left.len() == 0 {
        true
    } else if right.len() == 0 {
        false
    } else if left[0] == right[0] {
        text_le(left.drop_first(), right.drop_first())
    } else {
        (left[0] as int) < (right[0] as int)
    }
}

fn char_lt(left: char, right: char) -> (b: bool)
    ensures
        b == ((left as int) < (right as int)),
{
    (left as u32) < (right as u32)
}

/// Whether a text comes before another one or is equal to it.
pub fn is_text_le(left: &str, right: &str) -> (b: bool)
    ensures
        b == text_le(left@, right@),
{
    let l = chars_of(left);
    let r = chars_of(right);
    let mut i: usize = 0;
    assert(l@.skip(0) == l@ && r@.skip(0) == r@);
    while i < l.len() && i < r.len() && l[i] == r[i]
        invariant
            i <= l.len(),
            i <= r.len(),
            text_le(l@.skip(i as int), r@.skip(i as int)) == text_le(left@, right@),
        decreases l.len() - i,
    {
        assert(l@.skip(i as int).drop_first() == l@.skip(i + 1));
        assert(r@.skip(i as int).drop_first() == r@.skip(i + 1));
        i += 1;
    }
    if i >= l.len() {
        true
    } else if i >= r.len() {
        false
    } else {
        char_lt(l[i], r[i])
    }
}

/// Every text comes before itself.
pub proof fn lemma_text_le_reflexive(a: Seq<char>)
    ensures
        text_le(a, a),
    decreases a.len(),
{
    if a.len() > 0 {
        lemma_text_le_reflexive(a.drop_first());
    }
}

/// Of two texts one comes before the other.
pub proof fn lemma_text_le_total(a: Seq<char>, b: Seq<char>)
    ensures
        text_le(a, b) || text_le(b, a),
    decreases a.len(),
{
    if a.len() > 0 && b.len() > 0 && a[0] == b[0] {
        lemma_text_le_total(a.drop_first(), b.drop_first());
    }
}

/// The order of texts is transitive.
pub proof fn lemma_text_le_transitive(a: Seq<char>, b: Seq<char>, c: Seq<char>)
    requires
        text_le(a, b),
        text_le(b, c),
    ensures
        text_le(a, c),
    decreases a.len(),
{
    if a.len() > 0 && b.len() > 0 && c.len() > 0 && a[0] == b[0] && b[0] == c[0] {
        lemma_text_le_transitive(a.drop_first(), b.drop_first(), c.drop_first());
    }
}

/// Texts that come before each other are equal.
pub proof fn lemma_text_le_antisymmetric(a: Seq<char>, b: Seq<char>)
    requires
        text_le(a, b),
        text_le(b, a),
    ensures
        a == b,
    decreases a.len(),
{
    if a.len() > 0 && b.len() > 0 {
        lemma_text_le_antisymmetric(a.drop_first(), b.drop_first());
        assert(a == seq![a[0]] + a.drop_first());
        assert(b == seq![b[0]] + b.drop_first());
    }
}

/// The alphabetical order, as a relation.
pub open spec fn text_order() -> spec_fn(Seq<char>, Seq<char>) -> bool {
    |left: Seq<char>, right: Seq<char>| text_le(left, right)
}

/// The alphabetical order is a total order.
pub proof fn lemma_text_order()
    ensures
        total_ordering(text_order()),
{
    let order = text_order();
    assert forall|a: Seq<char>| #[trigger] order(a, a) by {
        lemma_text_le_reflexive(a);
    }
    assert forall|a: Seq<char>, b: Seq<char>| #[trigger]
        order(a, b) && #[trigger] order(b, a) implies a == b by {
        lemma_text_le_antisymmetric(a, b);
    }
    assert forall|a: Seq<char>, b: Seq<char>, c: Seq<char>| #[trigger]
        order(a, b) && #[trigger] order(b, c) implies order(a, c) by {
        lemma_text_le_transitive(a, b, c);
    }
    assert forall|a: Seq<char>, b: Seq<char>| #[trigger] order(a, b) || #[trigger] order(b, a) by {
        lemma_text_le_total(a, b);
    }
}

/// Puts a text into a sorted list where it belongs.
fn insert_text(list: &mut Vec<String>, item: String)
    requires
        sorted_by(texts(old(list)@), text_order()),
    ensures
        sorted_by(texts(final(list)@), text_order()),
        texts(final(list)@).to_multiset() == texts(old(list)@).to_multiset().insert(item@),
{
    let ghost before = texts(list@);
    let ghost added = item@;
    let mut i: usize = list.len();
    while i > 0 && !is_text_le(list[i - 1].as_str(), item.as_str())
        invariant
            i <= list.len(),
            before == texts(list@),
            forall|j: int| i <= j < before.len() ==> !text_le(#[trigger] before[j], item@),
        decreases i,
    {
        i -= 1;
    }
    assert(i > 0 ==> text_le(before[i - 1], added));
    list.insert(i, item);
    let ghost after = texts(list@);
    assert(after == before.insert(i as int, added));
    proof {
        let order = text_order();
        lemma_text_order();
        to_multiset_insert(before, i as int, added);
        assert forall|j: int, k: int| 0 <= j < k < after.len() implies #[trigger] order(
            after[j],
            after[k],
        ) by {
            if k < i {
                assert(order(before[j], before[k]));
            } else if k == i {
                if j < i - 1 {
                    assert(order(before[j], before[i - 1]));
                    lemma_text_le_transitive(before[j], before[i - 1], added);
                }
            } else {
                if j > i {
                    assert(order(before[j - 1], before[k - 1]));
                } else if j < i {
                    assert(order(before[j], before[k - 1]));
                } else {
                    lemma_text_le_total(before[k - 1], added);
                }
            }
        }
    }
}

/// Sorts texts alphabetically.
pub fn sort_texts(list: Vec<String>) -> (sorted: Vec<String>)
    ensures
        texts(sorted@) == texts(list@).sort_by(text_order()),
{
    let mut sorted: Vec<String> = Vec::new();
    let ghost all = texts(list@);
    let mut i: usize = 0;
    assert(texts(sorted@) == all.take(0));
    while i < list.len()
        invariant
            i <= list.len(),
            all == texts(list@),
            sorted_by(texts(sorted@), text_order()),
            texts(sorted@).to_multiset() == all.take(i as int).to_multiset(),
        decreases list.len() - i,
    {
        insert_text(&mut sorted, list[i].clone());
        proof {
            assert(all.take(i + 1) == all.take(i as int).push(all[i as int]));
            to_multiset_build(all.take(i as int), all[i as int]);
        }
        i += 1;
    }
    proof {
        assert(all.take(i as int) == all);
        lemma_text_order();
        all.lemma_sort_by_ensures(text_order());
        lemma_sorted_unique(texts(sorted@), all.sort_by(text_order()), text_order());
    }
    sorted
}

/// White space is what Unicode says it is: tabs and line ends, blanks of all widths, and the
/// separators of lines and paragraphs.
pub proof fn law_white_space(c: char)
    ensures
        white_space(c) <==> seq![
            9int, 10, 11, 12, 13, 32, 133, 160, 5760, 8192, 8193, 8194, 8195, 8196, 8197, 8198,
            8199, 8200, 8201, 8202, 8232, 8233, 8239, 8287, 12288,
        ].contains(c as int),
{
    let codes = seq![
        9int, 10, 11, 12, 13, 32, 133, 160, 5760, 8192, 8193, 8194, 8195, 8196, 8197, 8198, 8199,
        8200, 8201, 8202, 8232, 8233, 8239, 8287, 12288,
    ];
    let code = c as int;
    let k: int = if 9 <= code <= 13 {
        code - 9
    } else if code == 32 {
        5
    } else if code == 133 {
        6
    } else if code == 160 {
        7
    } else if code == 5760 {
        8
    } else if 8192 <= code <= 8202 {
        code - 8183
    } else if code == 8232 {
        20
    } else if code == 8233 {
        21
    } else if code == 8239 {
        22
    } else if code == 8287 {
        23
    } else {
        24
    };
    if white_space(c) {
        assert(codes[k] == code);
    }
}

/// Whether a text is white space only.
pub open spec fn all_white(text: Seq<char>) -> bool {
    forall|i: int| 0 <= i < text.len() ==> white_space(#[trigger] text[i])
}

/// Whether a text neither starts nor ends with white space.
pub open spec fn bare(text: Seq<char>) -> bool {
    text.len() > 0 ==> !white_space(text[0]) && !white_space(text.last())
}

proof fn lemma_trim_front(text: Seq<char>) -> (n: int)
    ensures
        0 <= n <= text.len(),
        trim_front(text) == text.skip(n),
        all_white(text.take(n)),
        n < text.len() ==> !white_space(text[n]),
    decreases text.len(),
{
    if text.len() > 0 && white_space(text[0]) {
        let rest = text.drop_first();
        let n = lemma_trim_front(rest);
        assert(rest.skip(n) == text.skip(n + 1));
        assert forall|i: int| 0 <= i < n + 1 implies white_space(#[trigger] text.take(n + 1)[i]) by {
            if i > 0 {
                assert(rest.take(n)[i - 1] == text[i]);
            }
        }
        n + 1
    } else {
        assert(text.skip(0) == text);
        0
    }
}

proof fn lemma_trim_back(text: Seq<char>) -> (n: int)
    ensures
        0 <= n <= text.len(),
        trim_back(text) == text.take(n),
        all_white(text.skip(n)),
        n > 0 ==> !white_space(text[n - 1]),
    decreases text.len(),
{
    if text.len() > 0 && white_space(text.last()) {
        let front = text.drop_last();
        let n = lemma_trim_back(front);
        assert(front.take(n) == text.take(n));
        assert forall|i: int| 0 <= i < text.len() - n implies white_space(
            #[trigger] text.skip(n)[i],
        ) by {
            if n + i < front.len() {
                assert(front.skip(n)[i] == text[n + i]);
            }
        }
        n
    } else {
        assert(text.take(text.len() as int) == text);
        text.len() as int
    }
}

/// Trimming takes away white space at both ends, all of it, and nothing else: what lies between
/// white space, and neither starts nor ends with it, is what is left.
pub proof fn law_trimming(before: Seq<char>, inner: Seq<char>, after: Seq<char>)
    requires
        all_white(before),
        all_white(after),
        bare(inner),
    ensures
        trimmed(before + inner + after) == inner,
{
    let text = before + inner + after;
    let n = lemma_trim_front(text);
    let rest = text.skip(n);
    let m = lemma_trim_back(rest);
    if inner.len() == 0 {
        if n < text.len() {
            if n < before.len() {
                assert(text[n] == before[n]);
            } else {
                assert(text[n] == after[n - before.len()]);
            }
        }
        assert(rest.len() == 0);
        assert(trimmed(text) == inner);
    } else {
        assert(text[before.len() as int] == inner[0]);
        if n < before.len() {
            assert(text[n] == before[n]);
        }
        if n > before.len() {
            assert(text.take(n)[before.len() as int] == inner[0]);
        }
        assert(n == before.len());
        assert(rest == inner + after);
        assert(rest[inner.len() - 1] == inner.last());
        if m < inner.len() {
            assert(rest.skip(m)[inner.len() - 1 - m] == inner.last());
        }
        if m > inner.len() {
            assert(rest[m - 1] == after[m - 1 - inner.len()]);
        }
        assert(rest.take(m) == inner);
    }
}

/// One text comes before another in the alphabet if it is where the other one starts, or if it has
/// the character with the smaller number where the two first differ.
pub proof fn law_alphabet(left: Seq<char>, right: Seq<char>)
    ensures
        text_le(left, right) <==> {
            ||| left.is_prefix_of(right)
            ||| exists|k: int|
                0 <= k < left.len() && k < right.len() && left.take(k) == right.take(k) && (
                #[trigger] left[k]) < right[k]
        },
    decreases left.len(),
{
    if left.len() == 0 {
        assert(left == right.subrange(0, 0));
    } else if right.len() > 0 {
        if left[0] == right[0] {
            let (l, r) = (left.drop_first(), right.drop_first());
            law_alphabet(l, r);
            if l.is_prefix_of(r) {
                assert(left == right.subrange(0, left.len() as int)) by {
                    assert forall|i: int| 0 <= i < left.len() implies left[i] == right[i] by {
                        if i > 0 {
                            assert(l[i - 1] == r.subrange(0, l.len() as int)[i - 1]);
                        }
                    }
                }
            }
            if left.is_prefix_of(right) {
                assert(l == r.subrange(0, l.len() as int)) by {
                    assert forall|i: int| 0 <= i < l.len() implies l[i] == r[i] by {
                        assert(left[i + 1] == right.subrange(0, left.len() as int)[i + 1]);
                    }
                }
            }
            if exists|k: int|
                0 <= k < l.len() && k < r.len() && l.take(k) == r.take(k) && (#[trigger] l[k])
                    < r[k] {
                let k = choose|k: int|
                    0 <= k < l.len() && k < r.len() && l.take(k) == r.take(k) && (#[trigger] l[k])
                        < r[k];
                assert(left.take(k + 1) == seq![left[0]] + l.take(k));
                assert(right.take(k + 1) == seq![right[0]] + r.take(k));
                assert(left[k + 1] < right[k + 1]);
            }
            if exists|k: int|
                0 <= k < left.len() && k < right.len() && left.take(k) == right.take(k) && (
                #[trigger] left[k]) < right[k] {
                let k = choose|k: int|
                    0 <= k < left.len() && k < right.len() && left.take(k) == right.take(k) && (
                    #[trigger] left[k]) < right[k];
                assert(l.take(k - 1) == left.take(k).drop_first());
                assert(r.take(k - 1) == right.take(k).drop_first());
                assert(l[k - 1] < r[k - 1]);
            }
        } else {
            if left.is_prefix_of(right) {
                assert(left[0] == right.subrange(0, left.len() as int)[0]);
            }
            if left[0] < right[0] {
                assert(left.take(0) == right.take(0));
            }
            assert forall|k: int|
                0 <= k < left.len() && k < right.len() && left.take(k) == right.take(k) && (
                #[trigger] left[k]) < right[k] implies k == 0 by {
                if k > 0 {
                    assert(left.take(k)[0] == right.take(k)[0]);
                }
            }
        }
    }
}

} // verus!
