//! Release tags: what counts as one, and the order in which releases follow
//! each other.
//!
//! Tags are ordered by the numbers of their version first, so that `v1.10.0`
//! follows `v1.9.0`, and by their names where those numbers are equal. That
//! makes the order total: among any tags exactly one is the latest.

use crate::text::{chars_of, is_digit, split, split_on};
use crate::version::{version_part, version_triple, VersionBumper};
use vstd::prelude::*;
use vstd::relations::{sorted_by, total_ordering};

verus! {

/// The text of a release tag: the prefix `v`, and at least one decimal digit
/// somewhere after it.
pub open spec fn looks_like_tag(entry: Seq<char>) -> bool {
    &&& entry.len() > 0
    &&& entry[0] == 'v'
    &&& exists|i: int| 1 <= i < entry.len() && is_digit(#[trigger] entry[i])
}

/// Whether `entry` has the text of a release tag.
pub fn is_release_tag(entry: &str) -> (r: bool)
    ensures
        r == looks_like_tag(entry@),
{
    let chars = chars_of(entry);
    let n: usize = chars.len();
    if n == 0 || chars[0] != 'v' {
        return false;
    }
    let mut i: usize = 1;
    while i < n
        invariant
            1 <= i <= n,
            n == chars@.len(),
            chars@ == entry@,
            chars@[0] == 'v',
            forall|j: int| 1 <= j < i ==> !is_digit(#[trigger] chars@[j]),
        decreases n - i,
    {
        if '0' <= chars[i] && chars[i] <= '9' {
            assert(is_digit(entry@[i as int]));
            return true;
        }
        i += 1;
    }
    false
}

/// Major, minor and patch number of a tag.
pub open spec fn tag_key(tag: Seq<char>) -> (u32, u32, u32) {
    version_triple(version_part(tag))
}

/// Strictly smaller, component by component from the left.
pub open spec fn key_lt(a: (u32, u32, u32), b: (u32, u32, u32)) -> bool {
    a.0 < b.0 || (a.0 == b.0 && (a.1 < b.1 || (a.1 == b.1 && a.2 < b.2)))
}

/// Names in dictionary order by code point; a name comes after its prefixes.
pub open spec fn name_le(a: Seq<char>, b: Seq<char>) -> bool
    decreases a.len(),
{
    if a.len() == 0 {
        true
    } else if b.len() == 0 {
        false
    } else if a[0] != b[0] {
        a[0] < b[0]
    } else {
        name_le(a.drop_first(), b.drop_first())
    }
}

/// `a` is the same release as `b` or an earlier one.
pub open spec fn tag_le(a: Seq<char>, b: Seq<char>) -> bool {
    key_lt(tag_key(a), tag_key(b)) || (tag_key(a) == tag_key(b) && name_le(a, b))
}

/// Every name is at most itself.
pub proof fn lemma_name_le_reflexive(a: Seq<char>)
    ensures
        name_le(a, a),
    decreases a.len(),
{
    if a.len() > 0 {
        lemma_name_le_reflexive(a.drop_first());
    }
}

/// Of two names one is at most the other.
pub proof fn lemma_name_le_total(a: Seq<char>, b: Seq<char>)
    ensures
        name_le(a, b) || name_le(b, a),
    decreases a.len(),
{
    if a.len() > 0 && b.len() > 0 && a[0] == b[0] {
        lemma_name_le_total(a.drop_first(), b.drop_first());
    }
}

/// Two names that are each at most the other are the same name.
pub proof fn lemma_name_le_antisymmetric(a: Seq<char>, b: Seq<char>)
    requires
        name_le(a, b),
        name_le(b, a),
    ensures
        a == b,
    decreases a.len(),
{
    if a.len() > 0 && b.len() > 0 {
        lemma_name_le_antisymmetric(a.drop_first(), b.drop_first());
        assert(a == seq![a[0]] + a.drop_first());
        assert(b == seq![b[0]] + b.drop_first());
    } else {
        assert(a == b);
    }
}

/// The dictionary order passes along a chain of names.
pub proof fn lemma_name_le_transitive(a: Seq<char>, b: Seq<char>, c: Seq<char>)
    requires
        name_le(a, b),
        name_le(b, c),
    ensures
        name_le(a, c),
    decreases a.len(),
{
    if a.len() > 0 && b.len() > 0 && c.len() > 0 && a[0] == b[0] && b[0] == c[0] {
        lemma_name_le_transitive(a.drop_first(), b.drop_first(), c.drop_first());
    }
}

/// Every tag is at most itself.
pub proof fn lemma_tag_le_reflexive(a: Seq<char>)
    ensures
        tag_le(a, a),
{
    lemma_name_le_reflexive(a);
}

/// Of two tags one is at most the other.
pub proof fn lemma_tag_le_total(a: Seq<char>, b: Seq<char>)
    ensures
        tag_le(a, b) || tag_le(b, a),
{
    lemma_name_le_total(a, b);
}

/// Two tags that are each at most the other are the same tag.
pub proof fn lemma_tag_le_antisymmetric(a: Seq<char>, b: Seq<char>)
    requires
        tag_le(a, b),
        tag_le(b, a),
    ensures
        a == b,
{
    lemma_name_le_antisymmetric(a, b);
}

/// The order passes along a chain of tags.
pub proof fn lemma_tag_le_transitive(a: Seq<char>, b: Seq<char>, c: Seq<char>)
    requires
        tag_le(a, b),
        tag_le(b, c),
    ensures
        tag_le(a, c),
{
    if tag_key(a) == tag_key(b) && tag_key(b) == tag_key(c) {
        lemma_name_le_transitive(a, b, c);
    }
}

fn name_precedes(a: &Vec<char>, b: &Vec<char>) -> (r: bool)
    ensures
        r == name_le(a@, b@),
{
    let n: usize = a.len();
    let m: usize = b.len();
    let mut i: usize = 0;
    assert(a@.skip(0) == a@ && b@.skip(0) == b@);
    while i < n && i < m && a[i] == b[i]
        invariant
            i <= n,
            i <= m,
            n == a@.len(),
            m == b@.len(),
            name_le(a@, b@) == name_le(a@.skip(i as int), b@.skip(i as int)),
        decreases n - i,
    {
        assert(a@.skip(i as int).drop_first() == a@.skip(i as int + 1));
        assert(b@.skip(i as int).drop_first() == b@.skip(i as int + 1));
        i += 1;
    }
    if i == n {
        true
    } else if i == m {
        false
    } else {
        a[i] < b[i]
    }
}

fn key_of(chars: &Vec<char>, tag: &str) -> (r: (u32, u32, u32))
    requires
        chars@ == tag@,
    ensures
        r == tag_key(tag@),
{
    let n: usize = chars.len();
    if n > 0 && chars[0] == 'v' {
        assert(tag@.drop_first() == tag@.subrange(1, n as int));
        VersionBumper::parse_version(tag.substring_char(1, n))
    } else {
        VersionBumper::parse_version(tag)
    }
}

/// Whether `a` is the same release as `b` or an earlier one.
pub fn tag_precedes(a: &str, b: &str) -> (r: bool)
    ensures
        r == tag_le(a@, b@),
{
    let ca = chars_of(a);
    let cb = chars_of(b);
    let ka = key_of(&ca, a);
    let kb = key_of(&cb, b);
    if ka.0 != kb.0 {
        ka.0 < kb.0
    } else if ka.1 != kb.1 {
        ka.1 < kb.1
    } else if ka.2 != kb.2 {
        ka.2 < kb.2
    } else {
        name_precedes(&ca, &cb)
    }
}

/// Earlier releases stand before later ones.
pub open spec fn ascending(tags: Seq<Seq<char>>) -> bool {
    forall|i: int, j: int| 0 <= i < j < tags.len() ==> tag_le(tags[i], tags[j])
}

/// `t` is one of `tags`, and none of them is a later release.
pub open spec fn is_latest(tags: Seq<Seq<char>>, t: Seq<char>) -> bool {
    tags.contains(t) && forall|i: int| 0 <= i < tags.len() ==> tag_le(#[trigger] tags[i], t)
}

/// The latest release among `tags`, if there is any tag at all.
pub open spec fn latest(tags: Seq<Seq<char>>) -> Option<Seq<char>> {
    if tags.len() == 0 {
        None
    } else {
        Some(choose|t: Seq<char>| is_latest(tags, t))
    }
}

/// Among the same tags there are no two different latest ones.
pub proof fn lemma_latest_unique(tags: Seq<Seq<char>>, x: Seq<char>, y: Seq<char>)
    requires
        is_latest(tags, x),
        is_latest(tags, y),
    ensures
        x == y,
{
    let i = choose|i: int| 0 <= i < tags.len() && tags[i] == x;
    let j = choose|j: int| 0 <= j < tags.len() && tags[j] == y;
    assert(tag_le(tags[i], y));
    assert(tag_le(tags[j], x));
    lemma_tag_le_antisymmetric(x, y);
}

/// Wherever there is a tag, one of the tags is the latest.
pub proof fn lemma_latest_exists(tags: Seq<Seq<char>>)
    requires
        tags.len() > 0,
    ensures
        latest(tags) matches Some(t) && is_latest(tags, t),
    decreases tags.len(),
{
    let last = tags.last();
    let rest = tags.drop_last();
    if rest.len() == 0 {
        lemma_tag_le_reflexive(last);
        assert(tags[0] == last);
        assert(is_latest(tags, last));
    } else {
        lemma_latest_exists(rest);
        let m = latest(rest)->0;
        let im = choose|i: int| 0 <= i < rest.len() && rest[i] == m;
        assert(tags[im] == m);
        lemma_tag_le_total(m, last);
        if tag_le(m, last) {
            assert forall|i: int| 0 <= i < tags.len() implies tag_le(#[trigger] tags[i], last) by {
                if i < rest.len() {
                    assert(tag_le(rest[i], m));
                    lemma_tag_le_transitive(tags[i], m, last);
                } else {
                    lemma_tag_le_reflexive(last);
                }
            }
            assert(tags[tags.len() - 1] == last);
            assert(is_latest(tags, last));
        } else {
            assert forall|i: int| 0 <= i < tags.len() implies tag_le(#[trigger] tags[i], m) by {
                if i < rest.len() {
                    assert(tag_le(rest[i], m));
                }
            }
            assert(is_latest(tags, m));
        }
    }
}

/// The latest release does not depend on the order in which the tags are
/// listed, nor on how often one is listed.
pub proof fn lemma_latest_ignores_order(a: Seq<Seq<char>>, b: Seq<Seq<char>>)
    requires
        forall|t: Seq<char>| a.contains(t) <==> b.contains(t),
    ensures
        latest(a) == latest(b),
{
    if a.len() == 0 {
        if b.len() > 0 {
            assert(b.contains(b[0]));
        }
    } else {
        assert(a.contains(a[0]));
        lemma_latest_exists(a);
        lemma_latest_exists(b);
        let x = latest(a)->0;
        let y = latest(b)->0;
        assert(is_latest(b, x)) by {
            assert forall|i: int| 0 <= i < b.len() implies tag_le(#[trigger] b[i], x) by {
                assert(b.contains(b[i]));
                let k = choose|k: int| 0 <= k < a.len() && a[k] == b[i];
                assert(tag_le(a[k], x));
            }
        }
        lemma_latest_unique(b, x, y);
    }
}

/// In ascending order the latest release stands last.
pub proof fn lemma_latest_of_ascending(tags: Seq<Seq<char>>)
    requires
        ascending(tags),
        tags.len() > 0,
    ensures
        latest(tags) == Some(tags.last()),
{
    let last = tags.last();
    assert(tags[tags.len() - 1] == last);
    assert forall|i: int| 0 <= i < tags.len() implies tag_le(#[trigger] tags[i], last) by {
        if i == tags.len() - 1 {
            lemma_tag_le_reflexive(last);
        }
    }
    lemma_latest_exists(tags);
    lemma_latest_unique(tags, last, latest(tags)->0);
}

/// The latest release among `tags`: the greatest by version, whatever the
/// order of the list.
pub fn latest_tag(tags: &Vec<String>) -> (r: Option<String>)
    ensures
        match r {
            Some(t) => latest(tags.deep_view()) == Some(t@) && is_latest(tags.deep_view(), t@),
            None => tags.len() == 0,
        },
{
    let n: usize = tags.len();
    if n == 0 {
        return None;
    }
    let ghost names = tags.deep_view();
    let mut best: usize = 0;
    let mut i: usize = 1;
    proof {
        lemma_tag_le_reflexive(names[0]);
    }
    while i < n
        invariant
            best < i <= n,
            n == tags.len(),
            names == tags.deep_view(),
            forall|j: int| 0 <= j < i ==> tag_le(#[trigger] names[j], names[best as int]),
        decreases n - i,
    {
        if tag_precedes(tags[best].as_str(), tags[i].as_str()) {
            assert forall|j: int| 0 <= j < i + 1 implies tag_le(
                #[trigger] names[j],
                names[i as int],
            ) by {
                if j < i {
                    lemma_tag_le_transitive(names[j], names[best as int], names[i as int]);
                } else {
                    lemma_tag_le_reflexive(names[i as int]);
                }
            }
            best = i;
        } else {
            proof {
                lemma_tag_le_total(names[best as int], names[i as int]);
            }
        }
        i += 1;
    }
    let found = tags[best].clone();
    proof {
        assert(names[best as int] == found@);
        assert(is_latest(names, found@));
        lemma_latest_exists(names);
        lemma_latest_unique(names, found@, latest(names)->0);
    }
    Some(found)
}

/// The order of releases, as a relation.
pub open spec fn release_order() -> spec_fn(Seq<char>, Seq<char>) -> bool {
    |a: Seq<char>, b: Seq<char>| tag_le(a, b)
}

/// The order of releases is a total order.
pub proof fn lemma_release_order_total()
    ensures
        total_ordering(release_order()),
{
    let leq = release_order();
    assert forall|x: Seq<char>| #[trigger] leq(x, x) by {
        lemma_tag_le_reflexive(x);
    }
    assert forall|x: Seq<char>, y: Seq<char>| #[trigger] leq(x, y) && #[trigger] leq(y, x) implies x
        == y by {
        lemma_tag_le_antisymmetric(x, y);
    }
    assert forall|x: Seq<char>, y: Seq<char>, z: Seq<char>| #[trigger]
        leq(x, y) && #[trigger] leq(y, z) implies leq(x, z) by {
        lemma_tag_le_transitive(x, y, z);
    }
    assert forall|x: Seq<char>, y: Seq<char>| #[trigger] leq(x, y) || #[trigger] leq(y, x) by {
        lemma_tag_le_total(x, y);
    }
}

/// The same tags, each as often as before, in ascending order.
pub open spec fn sorted_tags(tags: Seq<Seq<char>>) -> Seq<Seq<char>> {
    tags.sort_by(release_order())
}

/// Sorting puts the tags in ascending order and neither adds nor drops one.
pub proof fn lemma_sorted_tags(tags: Seq<Seq<char>>)
    ensures
        ascending(sorted_tags(tags)),
        sorted_tags(tags).to_multiset() == tags.to_multiset(),
        sorted_tags(tags).len() == tags.len(),
{
    lemma_release_order_total();
    tags.lemma_sort_by_ensures(release_order());
    let sorted = sorted_tags(tags);
    assert forall|i: int, j: int| 0 <= i < j < sorted.len() implies tag_le(
        sorted[i],
        sorted[j],
    ) by {
        assert(release_order()(sorted[i], sorted[j]));
    }
    vstd::seq_lib::to_multiset_len(sorted);
    vstd::seq_lib::to_multiset_len(tags);
}

/// There is one way only to put given tags in ascending order.
pub proof fn lemma_ascending_unique(a: Seq<Seq<char>>, b: Seq<Seq<char>>)
    requires
        ascending(a),
        ascending(b),
        a.to_multiset() == b.to_multiset(),
    ensures
        a == b,
{
    lemma_release_order_total();
    assert(sorted_by(a, release_order()));
    assert(sorted_by(b, release_order()));
    vstd::seq_lib::lemma_sorted_unique(a, b, release_order());
}

/// The same tags in ascending order.
pub fn sort_tags(tags: &Vec<String>) -> (r: Vec<String>)
    ensures
        r.deep_view() == sorted_tags(tags.deep_view()),
        ascending(r.deep_view()),
        r.deep_view().to_multiset() == tags.deep_view().to_multiset(),
{
    let n: usize = tags.len();
    let ghost names = tags.deep_view();
    let mut out: Vec<String> = Vec::new();
    let mut i: usize = 0;
    assert(names.take(0) == out.deep_view());
    while i < n
        invariant
            i <= n,
            n == tags.len(),
            names == tags.deep_view(),
            ascending(out.deep_view()),
            out.deep_view().to_multiset() == names.take(i as int).to_multiset(),
        decreases n - i,
    {
        let tag = tags[i].clone();
        let ghost before = out.deep_view();
        let mut pos: usize = 0;
        while pos < out.len() && tag_precedes(out[pos].as_str(), tag.as_str())
            invariant
                pos <= out.len(),
                before == out.deep_view(),
                forall|k: int| 0 <= k < pos ==> tag_le(#[trigger] before[k], tag@),
            decreases out.len() - pos,
        {
            pos += 1;
        }
        out.insert(pos, tag);
        let ghost after = out.deep_view();
        assert(after == before.insert(pos as int, tag@));
        assert forall|a: int, b: int| 0 <= a < b < after.len() implies tag_le(
            after[a],
            after[b],
        ) by {
            if b == pos {
                assert(after[a] == before[a]);
            } else if a == pos {
                assert(after[b] == before[b - 1]);
                lemma_tag_le_total(before[pos as int], tag@);
                if b - 1 > pos {
                    lemma_tag_le_transitive(tag@, before[pos as int], before[b - 1]);
                }
            } else {
                let a0 = if a < pos { a } else { a - 1 };
                let b0 = if b < pos { b } else { b - 1 };
                assert(after[a] == before[a0]);
                assert(after[b] == before[b0]);
            }
        }
        assert(names.take(i as int + 1) == names.take(i as int).push(tag@));
        proof {
            vstd::seq_lib::to_multiset_insert(before, pos as int, tag@);
            vstd::seq_lib::to_multiset_build(names.take(i as int), tag@);
        }
        i += 1;
    }
    assert(names.take(n as int) == names);
    proof {
        lemma_sorted_tags(names);
        lemma_ascending_unique(out.deep_view(), sorted_tags(names));
    }
    out
}

/// The names in a listing of tags, one per line: its lines that are not empty.
pub open spec fn source_names(listing: Seq<char>) -> Seq<Seq<char>> {
    split(listing, '\n').filter(|name: Seq<char>| name.len() > 0)
}

/// The source tags that a listing names, in ascending order.
pub fn source_tags(listing: &str) -> (r: Vec<String>)
    ensures
        r.deep_view() == sorted_tags(source_names(listing@)),
        ascending(r.deep_view()),
{
    let pieces = split_on(listing, '\n');
    let n: usize = pieces.len();
    let ghost all = pieces.deep_view();
    let mut names: Vec<String> = Vec::new();
    let mut i: usize = 0;
    proof {
        reveal(Seq::filter);
        assert(all.take(0) == Seq::<Seq<char>>::empty());
    }
    while i < n
        invariant
            i <= n,
            n == pieces.len(),
            all == pieces.deep_view(),
            names.deep_view() == all.take(i as int).filter(|name: Seq<char>| name.len() > 0),
        decreases n - i,
    {
        let piece: &str = pieces[i];
        proof {
            assert(all.take(i as int + 1) == all.take(i as int).push(piece@));
            all.take(i as int).lemma_filter_push(piece@, |name: Seq<char>| name.len() > 0);
        }
        if piece.unicode_len() > 0 {
            let ghost before = names.deep_view();
            names.push(piece.to_owned());
            assert(names.deep_view() == before.push(piece@));
        }
        i += 1;
    }
    assert(all.take(n as int) == all);
    sort_tags(&names)
}

} // verus!
