//! What is already published, as far as the publish branch shows it.

use crate::deploy::Deployer;
use crate::tags::{is_release_tag, looks_like_tag};
use crate::text::{
    char_is_space, chars_of, find_from, first_match, first_match_from, is_digit, is_space,
    lemma_first_match_from, lemma_trim_start, lines, lines_of, occurs_at, trim, trim_start,
    trimmed,
};
use vstd::prelude::*;

verus! {

/// The release tags among the entries of a listing, one entry per line, in
/// the order of the listing.
pub open spec fn listed_tags(listing: Seq<char>) -> Seq<Seq<char>> {
    lines(listing).map_values(|line: Seq<char>| trim(line)).filter(
        |entry: Seq<char>| looks_like_tag(entry),
    )
}

/// The release tags among the top-level entries of the publish branch.
pub fn tags_in_listing(listing: &str) -> (r: Vec<String>)
    ensures
        r.deep_view() == listed_tags(listing@),
{
    let entries = lines_of(listing);
    let n: usize = entries.len();
    let mut out: Vec<String> = Vec::new();
    let mut i: usize = 0;
    let ghost all = entries.deep_view();
    assert(all.take(0).map_values(|line: Seq<char>| trim(line)) == Seq::<Seq<char>>::empty());
    assert(Seq::<Seq<char>>::empty().filter(|entry: Seq<char>| looks_like_tag(entry))
        == Seq::<Seq<char>>::empty()) by {
        reveal(Seq::filter);
    }
    while i < n
        invariant
            i <= n,
            n == entries.len(),
            all == entries.deep_view(),
            out.deep_view() == all.take(i as int).map_values(|line: Seq<char>| trim(line)).filter(
                |entry: Seq<char>| looks_like_tag(entry),
            ),
        decreases n - i,
    {
        let entry: &str = trimmed(entries[i]);
        let ghost before = out.deep_view();
        let ghost seen = all.take(i as int).map_values(|line: Seq<char>| trim(line));
        if is_release_tag(entry) {
            out.push(entry.to_owned());
            assert(out.deep_view() == before.push(entry@));
        }
        proof {
            assert(all.take(i as int + 1) == all.take(i as int).push(all[i as int]));
            assert(all.take(i as int + 1).map_values(|line: Seq<char>| trim(line)) == seen.push(
                entry@,
            ));
            seen.lemma_filter_push(entry@, |entry: Seq<char>| looks_like_tag(entry));
        }
        i += 1;
    }
    assert(all.take(n as int) == all);
    out
}

/// The keys after which the version metadata may name a version, in the order
/// in which a line is searched for them.
pub open spec fn version_keys() -> Seq<Seq<char>> {
    seq!["\"version\":"@, "{\"version\":"@, "\"name\":"@, "\"id\":"@]
}

/// A token that may name a version: it begins with `v` or with a decimal digit.
pub open spec fn version_like(token: Seq<char>) -> bool {
    token.len() > 0 && (token[0] == 'v' || is_digit(token[0]))
}

/// Where the value begins that follows index `from` of `line`: after the
/// white space that stands there and after one double quote that opens the
/// value, if there is one.
pub open spec fn value_start(line: Seq<char>, from: int) -> int {
    let rest = trim_start(line.skip(from));
    let at = line.len() - rest.len();
    if rest.len() > 0 && rest[0] == '"' {
        at + 1
    } else {
        at
    }
}

/// The value that follows the first occurrence of `key` in `line`: what
/// stands between the start of the value and the next double quote, without
/// the white space around it, if that may name a version. The value may be
/// written in double quotes or without an opening one. There is no such
/// token where the line lacks the key or has no double quote after the start
/// of the value.
pub open spec fn token_after(line: Seq<char>, key: Seq<char>) -> Option<Seq<char>> {
    match first_match(line, key) {
        None => None,
        Some(at) => {
            let start = value_start(line, at + key.len());
            match first_match_from(line, seq!['"'], start) {
                None => None,
                Some(end) => {
                    let token = trim(line.subrange(start, end));
                    if version_like(token) {
                        Some(token)
                    } else {
                        None
                    }
                },
            }
        },
    }
}

/// The tokens that one line of metadata gives, one key after the other.
pub open spec fn tokens_in_line(line: Seq<char>) -> Seq<Seq<char>> {
    version_keys().filter_map(|key: Seq<char>| token_after(line, key))
}

/// Everything in the version metadata that may name a version, line by line.
/// The same version may come up more than once.
pub open spec fn scraped_versions(metadata: Seq<char>) -> Seq<Seq<char>> {
    lines(metadata).flat_map(|line: Seq<char>| tokens_in_line(line))
}

/// The value begins after the white space that follows `from`, and after the
/// double quote that stands there, if one does.
pub proof fn lemma_value_start(line: Seq<char>, from: int, k: int)
    requires
        0 <= from <= k <= line.len(),
        forall|i: int| from <= i < k ==> is_space(#[trigger] line[i]),
        k < line.len() ==> !is_space(line[k]),
    ensures
        value_start(line, from) == if k < line.len() && line[k] == '"' {
            k + 1
        } else {
            k
        },
{
    let rest = line.skip(from);
    let a = lemma_trim_start(rest);
    if a < k - from {
        assert(rest[a] == line[from + a]);
    }
    if a > k - from {
        assert(rest[k - from] == line[k]);
    }
    assert(rest.skip(a) == line.skip(k));
    if k < line.len() {
        assert(line.skip(k)[0] == line[k]);
    }
}

/// A value that is written after a key gives the token that it holds: with
/// the key first in `line` at `at`, white space up to `k`, the value from
/// `start`, which is `k` or follows the double quote at `k`, and the next
/// double quote at `end`, the token is what stands between `start` and
/// `end`, trimmed, if it may name a version.
pub proof fn lemma_token_of_value(
    line: Seq<char>,
    key: Seq<char>,
    at: int,
    k: int,
    start: int,
    end: int,
)
    requires
        first_match(line, key) == Some(at),
        at + key.len() <= k < line.len(),
        forall|i: int| at + key.len() <= i < k ==> is_space(#[trigger] line[i]),
        !is_space(line[k]),
        start == if line[k] == '"' {
            k + 1
        } else {
            k
        },
        start <= end < line.len(),
        line[end] == '"',
        forall|i: int| start <= i < end ==> #[trigger] line[i] != '"',
    ensures
        token_after(line, key) == if version_like(trim(line.subrange(start, end))) {
            Some(trim(line.subrange(start, end)))
        } else {
            None
        },
{
    lemma_first_match_from(line, key, 0);
    lemma_value_start(line, at + key.len(), k);
    let quote = seq!['"'];
    lemma_first_match_from(line, quote, start);
    assert(line.subrange(end, end + 1) == quote);
    assert(occurs_at(line, quote, end));
    assert forall|j: int| start <= j < end implies !occurs_at(line, quote, j) by {
        if occurs_at(line, quote, j) {
            assert(line.subrange(j, j + 1)[0] == quote[0]);
        }
    }
    match first_match_from(line, quote, start) {
        Some(found) => {
            assert(line.subrange(found, found + 1)[0] == quote[0]);
        },
        None => {},
    }
}

proof fn lemma_filter_map_membership(
    s: Seq<Seq<char>>,
    f: spec_fn(Seq<char>) -> Option<Seq<char>>,
    x: Seq<char>,
)
    ensures
        s.filter_map(f).contains(x) <==> exists|j: int|
            0 <= j < s.len() && f(#[trigger] s[j]) == Some(x),
    decreases s.len(),
{
    if s.len() > 0 {
        let init = s.drop_last();
        let last = s.last();
        lemma_filter_map_membership(init, f, x);
        let before = init.filter_map(f);
        if before.contains(x) {
            let j = choose|j: int| 0 <= j < init.len() && f(#[trigger] init[j]) == Some(x);
            assert(f(s[j]) == Some(x));
            let i = choose|i: int| 0 <= i < before.len() && before[i] == x;
            match f(last) {
                Some(y) => {
                    assert((before + seq![y])[i] == x);
                },
                None => {},
            }
        }
        if exists|j: int| 0 <= j < s.len() && f(#[trigger] s[j]) == Some(x) {
            let j = choose|j: int| 0 <= j < s.len() && f(#[trigger] s[j]) == Some(x);
            if j < init.len() {
                assert(f(init[j]) == Some(x));
            } else {
                assert((before + seq![x])[before.len() as int] == x);
            }
        }
        if s.filter_map(f).contains(x) && !before.contains(x) {
            let i = choose|i: int| 0 <= i < s.filter_map(f).len() && s.filter_map(f)[i] == x;
            match f(last) {
                Some(y) => {
                    if i < before.len() {
                        assert(before[i] == x);
                    }
                    assert(f(s[s.len() - 1]) == Some(x));
                },
                None => {},
            }
        }
    }
}

proof fn lemma_flat_map_membership(
    s: Seq<Seq<char>>,
    f: spec_fn(Seq<char>) -> Seq<Seq<char>>,
    x: Seq<char>,
)
    ensures
        s.flat_map(f).contains(x) <==> exists|i: int|
            0 <= i < s.len() && f(#[trigger] s[i]).contains(x),
    decreases s.len(),
{
    if s.len() == 0 {
        assert(s.map_values(f) == Seq::<Seq<Seq<char>>>::empty());
    } else {
        let init = s.drop_last();
        let last = s.last();
        lemma_flat_map_membership(init, f, x);
        init.lemma_flat_map_push(f, last);
        assert(init.push(last) == s);
        vstd::seq_lib::lemma_seq_concat_contains_all_elements(init.flat_map(f), f(last), x);
        if init.flat_map(f).contains(x) {
            let i = choose|i: int| 0 <= i < init.len() && f(#[trigger] init[i]).contains(x);
            assert(f(s[i]).contains(x));
        }
        if f(last).contains(x) {
            assert(f(s[s.len() - 1]).contains(x));
        }
        if exists|i: int| 0 <= i < s.len() && f(#[trigger] s[i]).contains(x) {
            let i = choose|i: int| 0 <= i < s.len() && f(#[trigger] s[i]).contains(x);
            if i < init.len() {
                assert(f(init[i]).contains(x));
            }
        }
    }
}

/// The scan gives a version exactly if some line of the metadata gives it as
/// the value of one of the keys.
pub proof fn lemma_scraped_versions(metadata: Seq<char>, tag: Seq<char>)
    ensures
        scraped_versions(metadata).contains(tag) <==> exists|i: int, j: int|
            0 <= i < lines(metadata).len() && 0 <= j < version_keys().len() && token_after(
                #[trigger] lines(metadata)[i],
                #[trigger] version_keys()[j],
            ) == Some(tag),
{
    let all = lines(metadata);
    let keys = version_keys();
    lemma_flat_map_membership(all, |line: Seq<char>| tokens_in_line(line), tag);
    assert forall|i: int| 0 <= i < all.len() implies (tokens_in_line(all[i]).contains(tag)
        <==> exists|j: int|
        0 <= j < keys.len() && token_after(all[i], #[trigger] keys[j]) == Some(tag)) by {
        lemma_filter_map_membership(keys, |key: Seq<char>| token_after(all[i], key), tag);
    }
    if scraped_versions(metadata).contains(tag) {
        let i = choose|i: int|
            0 <= i < all.len() && tokens_in_line(#[trigger] all[i]).contains(tag);
        let j = choose|j: int|
            0 <= j < keys.len() && token_after(all[i], #[trigger] keys[j]) == Some(tag);
        assert(token_after(all[i], keys[j]) == Some(tag));
    }
    if exists|i: int, j: int|
        0 <= i < all.len() && 0 <= j < keys.len() && token_after(
            #[trigger] all[i],
            #[trigger] keys[j],
        ) == Some(tag) {
        let (i, j) = choose|i: int, j: int|
            0 <= i < all.len() && 0 <= j < keys.len() && token_after(
                #[trigger] all[i],
                #[trigger] keys[j],
            ) == Some(tag);
        assert(tokens_in_line(all[i]).contains(tag));
    }
}

fn find_token(line: &str, chars: &Vec<char>, key: &str) -> (r: Option<String>)
    requires
        chars@ == line@,
    ensures
        match r {
            Some(token) => token_after(line@, key@) == Some(token@),
            None => token_after(line@, key@) is None,
        },
{
    let key_chars = chars_of(key);
    let at: usize = match find_from(chars, &key_chars, 0) {
        Some(at) => at,
        None => { return None; },
    };
    proof {
        lemma_first_match_from(line@, key@, 0);
        assert(occurs_at(line@, key@, at as int));
        assert(chars@.len() == chars.len());
    }
    let after: usize = at + key_chars.len();
    let n: usize = chars.len();
    let mut start: usize = after;
    while start < n && char_is_space(chars[start])
        invariant
            after <= start <= n,
            n == chars@.len(),
            chars@ == line@,
            trim_start(line@.skip(after as int)) == trim_start(line@.skip(start as int)),
        decreases n - start,
    {
        assert(line@.skip(start as int).drop_first() == line@.skip(start as int + 1));
        start += 1;
    }
    assert(trim_start(line@.skip(after as int)) == line@.skip(start as int));
    if start < n && chars[start] == '"' {
        start += 1;
    }
    assert(start == value_start(line@, after as int));
    let mut quote: Vec<char> = Vec::new();
    quote.push('"');
    assert(quote@ == seq!['"']);
    let end: usize = match find_from(chars, &quote, start) {
        Some(end) => end,
        None => { return None; },
    };
    proof {
        lemma_first_match_from(line@, seq!['"'], start as int);
    }
    let token: &str = trimmed(line.substring_char(start, end));
    if token.unicode_len() == 0 {
        return None;
    }
    let first: char = token.get_char(0);
    if first == 'v' || ('0' <= first && first <= '9') {
        Some(token.to_owned())
    } else {
        None
    }
}

fn scrape_line(line: &str, out: &mut Vec<String>)
    ensures
        final(out).deep_view() == old(out).deep_view() + tokens_in_line(line@),
{
    let chars = chars_of(line);
    let mut keys: Vec<&str> = Vec::new();
    keys.push("\"version\":");
    keys.push("{\"version\":");
    keys.push("\"name\":");
    keys.push("\"id\":");
    let ghost all = keys.deep_view();
    assert(all == version_keys());
    let ghost start = out.deep_view();
    let mut k: usize = 0;
    assert(all.take(0).filter_map(|key: Seq<char>| token_after(line@, key)) == Seq::<
        Seq<char>,
    >::empty());
    while k < 4
        invariant
            k <= 4,
            keys.len() == 4,
            all == keys.deep_view(),
            chars@ == line@,
            out.deep_view() == start + all.take(k as int).filter_map(
                |key: Seq<char>| token_after(line@, key),
            ),
        decreases 4 - k,
    {
        let ghost before = out.deep_view();
        proof {
            all.lemma_filter_map_take_succ(|key: Seq<char>| token_after(line@, key), k as int);
        }
        match find_token(line, &chars, keys[k]) {
            Some(token) => {
                out.push(token);
                assert(out.deep_view() == before.push(token@));
            },
            None => {},
        }
        k += 1;
    }
    assert(all.take(4) == all);
}

impl Deployer {
    /// What is found published, given the listing of the publish branch's
    /// top-level entries and its version metadata, as far as each could be
    /// had.
    pub fn get_deployed_versions(listing: Option<&str>, metadata: Option<&str>) -> (found: Vec<
        String,
    >)
        ensures
            found.deep_view() == published_from(
                match listing {
                    Some(text) => Some(text@),
                    None => None,
                },
                match metadata {
                    Some(text) => Some(text@),
                    None => None,
                },
            ),
    {
        let listed = match listing {
            Some(text) => tags_in_listing(text),
            None => {
                let none: Vec<String> = Vec::new();
                assert(none.deep_view() == Seq::<Seq<char>>::empty());
                none
            },
        };
        let scraped = Deployer::get_versions_from_json(metadata);
        add_missing(listed, &scraped)
    }

    /// What the version metadata gives, if it could be read.
    pub fn get_versions_from_json(metadata: Option<&str>) -> (versions: Vec<String>)
        ensures
            versions.deep_view() == versions_in_metadata(
                match metadata {
                    Some(text) => Some(text@),
                    None => None,
                },
            ),
    {
        match metadata {
            Some(text) => Deployer::parse_versions_json(text),
            None => {
                let none: Vec<String> = Vec::new();
                assert(none.deep_view() == Seq::<Seq<char>>::empty());
                none
            },
        }
    }

    /// Scans version metadata for what may name a published version. The scan
    /// is lenient: it goes line by line and key by key, takes the value that
    /// follows the key, in double quotes or without an opening one, up to the
    /// next double quote, and keeps it if it begins like a version.
    pub fn parse_versions_json(json_content: &str) -> (versions: Vec<String>)
        ensures
            versions.deep_view() == scraped_versions(json_content@),
    {
        let all_lines = lines_of(json_content);
        let n: usize = all_lines.len();
        let ghost all = all_lines.deep_view();
        let mut versions: Vec<String> = Vec::new();
        let mut i: usize = 0;
        assert(all.take(0).flat_map(|line: Seq<char>| tokens_in_line(line)) == Seq::<
            Seq<char>,
        >::empty());
        while i < n
            invariant
                i <= n,
                n == all_lines.len(),
                all == all_lines.deep_view(),
                versions.deep_view() == all.take(i as int).flat_map(
                    |line: Seq<char>| tokens_in_line(line),
                ),
            decreases n - i,
        {
            proof {
                all.lemma_flat_map_take_append(|line: Seq<char>| tokens_in_line(line), i as int);
            }
            scrape_line(all_lines[i], &mut versions);
            i += 1;
        }
        assert(all.take(n as int) == all);
        versions
    }
}

/// `found`, and after it those of `more` that were not found yet, each once
/// and in the order in which they come.
pub open spec fn with_missing(found: Seq<Seq<char>>, more: Seq<Seq<char>>) -> Seq<Seq<char>>
    decreases more.len(),
{
    if more.len() == 0 {
        found
    } else {
        let before = with_missing(found, more.drop_last());
        if before.contains(more.last()) {
            before
        } else {
            before.push(more.last())
        }
    }
}

/// Adding what was missing gives the union of the two lists, and leaves what
/// was found where it was.
pub proof fn lemma_with_missing_is_union(found: Seq<Seq<char>>, more: Seq<Seq<char>>)
    ensures
        found.is_prefix_of(with_missing(found, more)),
        forall|t: Seq<char>|
            with_missing(found, more).contains(t) <==> found.contains(t) || more.contains(t),
    decreases more.len(),
{
    if more.len() > 0 {
        let init = more.drop_last();
        let before = with_missing(found, init);
        lemma_with_missing_is_union(found, init);
        assert forall|t: Seq<char>|
            with_missing(found, more).contains(t) <==> found.contains(t) || more.contains(
                t,
            ) by {
            if more.contains(t) {
                let i = choose|i: int| 0 <= i < more.len() && more[i] == t;
                if i < init.len() {
                    assert(init[i] == t);
                }
            }
            if init.contains(t) {
                let i = choose|i: int| 0 <= i < init.len() && init[i] == t;
                assert(more[i] == t);
            }
            assert(more[more.len() - 1] == more.last());
            if before.contains(t) {
                let i = choose|i: int| 0 <= i < before.len() && before[i] == t;
                assert(before.push(more.last())[i] == t);
            }
            if !before.contains(more.last()) {
                assert(before.push(more.last())[before.len() as int] == more.last());
            }
        }
    }
}

/// What the version metadata gives, if it could be read.
pub open spec fn versions_in_metadata(metadata: Option<Seq<char>>) -> Seq<Seq<char>> {
    match metadata {
        Some(text) => scraped_versions(text),
        None => Seq::empty(),
    }
}

/// What is found published: the release tags that the listing of the publish
/// branch shows, and after them what the version metadata gives beyond
/// these. A listing or metadata that could not be had gives nothing.
pub open spec fn published_from(listing: Option<Seq<char>>, metadata: Option<Seq<char>>) -> Seq<
    Seq<char>,
> {
    with_missing(
        match listing {
            Some(text) => listed_tags(text),
            None => Seq::empty(),
        },
        versions_in_metadata(metadata),
    )
}

/// A tag is found published exactly if the listing shows it or the metadata
/// gives it.
pub proof fn lemma_published_is_union(
    listing: Option<Seq<char>>,
    metadata: Option<Seq<char>>,
    tag: Seq<char>,
)
    ensures
        published_from(listing, metadata).contains(tag) <==> (listing matches Some(text)
            && listed_tags(text).contains(tag)) || (metadata matches Some(text)
            && scraped_versions(text).contains(tag)),
{
    let listed = match listing {
        Some(text) => listed_tags(text),
        None => Seq::empty(),
    };
    lemma_with_missing_is_union(listed, versions_in_metadata(metadata));
}

/// Whether `tag` is one of `tags`.
pub fn contains_tag(tags: &Vec<String>, tag: &String) -> (r: bool)
    ensures
        r == tags.deep_view().contains(tag@),
{
    let n: usize = tags.len();
    let mut i: usize = 0;
    while i < n
        invariant
            i <= n,
            n == tags.len(),
            forall|j: int| 0 <= j < i ==> tags.deep_view()[j] != tag@,
        decreases n - i,
    {
        if tags[i] == *tag {
            assert(tags.deep_view()[i as int] == tag@);
            return true;
        }
        i += 1;
    }
    false
}

/// Adds to `found` those of `more` that it lacks.
pub fn add_missing(found: Vec<String>, more: &Vec<String>) -> (r: Vec<String>)
    ensures
        r.deep_view() == with_missing(found.deep_view(), more.deep_view()),
{
    let ghost base = found.deep_view();
    let ghost extra = more.deep_view();
    let mut out = found;
    let n: usize = more.len();
    let mut i: usize = 0;
    while i < n
        invariant
            i <= n,
            n == more.len(),
            extra == more.deep_view(),
            out.deep_view() == with_missing(base, extra.take(i as int)),
        decreases n - i,
    {
        assert(extra.take(i as int + 1).drop_last() == extra.take(i as int));
        if !contains_tag(&out, &more[i]) {
            let ghost before = out.deep_view();
            out.push(more[i].clone());
            assert(out.deep_view() == before.push(extra[i as int]));
        }
        i += 1;
    }
    assert(extra.take(n as int) == extra);
    out
}

} // verus!
