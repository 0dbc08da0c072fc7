//! Which releases to deploy and which to skip.

use crate::probe::contains_tag;
use crate::tags::{ascending, tag_le};
use vstd::prelude::*;

verus! {

/// How published releases are treated.
#[derive(Clone, Copy, Debug, PartialEq, Eq, Structural)]
pub enum Mode {
    /// Deploy only what is not published yet.
    Smart,
    /// Deploy everything again, whatever is published.
    Force,
}

/// The source tags split in two: those to deploy and those to skip, each in
/// the order of the source tags.
pub struct DeploymentPlan {
    pub to_deploy: Vec<String>,
    pub to_skip: Vec<String>,
}

/// The source tags that are deployed: all of them in force mode, else those
/// that are not published.
pub open spec fn tags_to_deploy(
    source: Seq<Seq<char>>,
    published: Seq<Seq<char>>,
    mode: Mode,
) -> Seq<Seq<char>> {
    source.filter(|tag: Seq<char>| mode == Mode::Force || !published.contains(tag))
}

/// The source tags that are skipped: none in force mode, else those that are
/// published.
pub open spec fn tags_to_skip(
    source: Seq<Seq<char>>,
    published: Seq<Seq<char>>,
    mode: Mode,
) -> Seq<Seq<char>> {
    source.filter(|tag: Seq<char>| mode != Mode::Force && published.contains(tag))
}

/// Splits the source tags into those to deploy and those to skip.
pub fn plan(source_tags: &Vec<String>, published_tags: &Vec<String>, mode: Mode) -> (p:
    DeploymentPlan)
    ensures
        p.to_deploy.deep_view() == tags_to_deploy(
            source_tags.deep_view(),
            published_tags.deep_view(),
            mode,
        ),
        p.to_skip.deep_view() == tags_to_skip(
            source_tags.deep_view(),
            published_tags.deep_view(),
            mode,
        ),
        p.to_deploy.len() + p.to_skip.len() == source_tags.len(),
        mode == Mode::Force ==> p.to_deploy.deep_view() == source_tags.deep_view()
            && p.to_skip.len() == 0,
{
    let ghost source = source_tags.deep_view();
    let ghost published = published_tags.deep_view();
    let n: usize = source_tags.len();
    let mut to_deploy: Vec<String> = Vec::new();
    let mut to_skip: Vec<String> = Vec::new();
    let mut i: usize = 0;
    proof {
        reveal(Seq::filter);
        assert(source.take(0) == Seq::<Seq<char>>::empty());
    }
    while i < n
        invariant
            i <= n,
            n == source_tags.len(),
            source == source_tags.deep_view(),
            published == published_tags.deep_view(),
            to_deploy.deep_view() == tags_to_deploy(source.take(i as int), published, mode),
            to_skip.deep_view() == tags_to_skip(source.take(i as int), published, mode),
        decreases n - i,
    {
        let tag = source_tags[i].clone();
        let ghost seen = source.take(i as int);
        proof {
            assert(source.take(i as int + 1) == seen.push(tag@));
            seen.lemma_filter_push(
                tag@,
                |tag: Seq<char>| mode == Mode::Force || !published.contains(tag),
            );
            seen.lemma_filter_push(
                tag@,
                |tag: Seq<char>| mode != Mode::Force && published.contains(tag),
            );
        }
        let forced: bool = match mode {
            Mode::Force => true,
            Mode::Smart => false,
        };
        if forced || !contains_tag(published_tags, &tag) {
            let ghost before = to_deploy.deep_view();
            to_deploy.push(tag);
            assert(to_deploy.deep_view() == before.push(source[i as int]));
        } else {
            let ghost before = to_skip.deep_view();
            to_skip.push(tag);
            assert(to_skip.deep_view() == before.push(source[i as int]));
        }
        i += 1;
    }
    assert(source.take(n as int) == source);
    proof {
        lemma_plan_partitions(source, published, mode);
        lemma_force_deploys_all(source, published);
    }
    DeploymentPlan { to_deploy, to_skip }
}

/// A tag is deployed exactly if it is a source tag and, unless the mode is
/// force, not published. A tag is skipped exactly if it is a source tag, it
/// is published and the mode is not force.
pub proof fn lemma_plan_membership(
    source: Seq<Seq<char>>,
    published: Seq<Seq<char>>,
    mode: Mode,
    tag: Seq<char>,
)
    ensures
        tags_to_deploy(source, published, mode).contains(tag) <==> source.contains(tag) && (mode
            == Mode::Force || !published.contains(tag)),
        tags_to_skip(source, published, mode).contains(tag) <==> source.contains(tag) && mode
            != Mode::Force && published.contains(tag),
    decreases source.len(),
{
    reveal(Seq::filter);
    if source.len() > 0 {
        let init = source.drop_last();
        let last = source.last();
        lemma_plan_membership(init, published, mode, tag);
        assert(source == init.push(last));
        vstd::seq_lib::lemma_seq_contains_after_push(init, last, tag);
        vstd::seq_lib::lemma_seq_contains_after_push(
            tags_to_deploy(init, published, mode),
            last,
            tag,
        );
        vstd::seq_lib::lemma_seq_contains_after_push(
            tags_to_skip(init, published, mode),
            last,
            tag,
        );
    }
}

/// Every source tag is either deployed or skipped: the two lists together are
/// as long as the source list.
pub proof fn lemma_plan_partitions(source: Seq<Seq<char>>, published: Seq<Seq<char>>, mode: Mode)
    ensures
        tags_to_deploy(source, published, mode).len() + tags_to_skip(source, published, mode).len()
            == source.len(),
    decreases source.len(),
{
    reveal(Seq::filter);
    if source.len() > 0 {
        lemma_plan_partitions(source.drop_last(), published, mode);
    }
}

/// Both lists keep the order of the source tags: where those ascend, the
/// tags to deploy ascend and so do the tags to skip.
pub proof fn lemma_plan_keeps_order(source: Seq<Seq<char>>, published: Seq<Seq<char>>, mode: Mode)
    requires
        ascending(source),
    ensures
        ascending(tags_to_deploy(source, published, mode)),
        ascending(tags_to_skip(source, published, mode)),
{
    lemma_filter_ascending(
        source,
        |tag: Seq<char>| mode == Mode::Force || !published.contains(tag),
    );
    lemma_filter_ascending(
        source,
        |tag: Seq<char>| mode != Mode::Force && published.contains(tag),
    );
}

proof fn lemma_filter_ascending(tags: Seq<Seq<char>>, keep: spec_fn(Seq<char>) -> bool)
    requires
        ascending(tags),
    ensures
        ascending(tags.filter(keep)),
    decreases tags.len(),
{
    reveal(Seq::filter);
    if tags.len() > 0 {
        let init = tags.drop_last();
        let last = tags.last();
        assert(ascending(init)) by {
            assert forall|i: int, j: int| 0 <= i < j < init.len() implies tag_le(
                init[i],
                init[j],
            ) by {
                assert(tag_le(tags[i], tags[j]));
            }
        }
        lemma_filter_ascending(init, keep);
        let kept = init.filter(keep);
        if keep(last) {
            assert forall|i: int, j: int| 0 <= i < j < kept.push(last).len() implies tag_le(
                kept.push(last)[i],
                kept.push(last)[j],
            ) by {
                if j == kept.len() {
                    init.lemma_filter_contains_rev(keep, kept[i]);
                    let k = choose|k: int| 0 <= k < init.len() && init[k] == kept[i];
                    assert(tag_le(tags[k], tags[tags.len() - 1]));
                } else {
                    assert(tag_le(kept[i], kept[j]));
                }
            }
        }
    }
}

/// In force mode every source tag is deployed, in the order of the source
/// tags, and none is skipped, whatever is published.
pub proof fn lemma_force_deploys_all(source: Seq<Seq<char>>, published: Seq<Seq<char>>)
    ensures
        tags_to_deploy(source, published, Mode::Force) == source,
        tags_to_skip(source, published, Mode::Force) == Seq::<Seq<char>>::empty(),
    decreases source.len(),
{
    reveal(Seq::filter);
    if source.len() > 0 {
        lemma_force_deploys_all(source.drop_last(), published);
        assert(source.drop_last().push(source.last()) == source);
    }
}

/// Without source tags the plan is empty.
pub proof fn lemma_empty_source_empty_plan(published: Seq<Seq<char>>, mode: Mode)
    ensures
        tags_to_deploy(Seq::empty(), published, mode) == Seq::<Seq<char>>::empty(),
        tags_to_skip(Seq::empty(), published, mode) == Seq::<Seq<char>>::empty(),
{
    reveal(Seq::filter);
}

/// Once every source tag is published, smart mode deploys nothing.
pub proof fn lemma_nothing_left(source: Seq<Seq<char>>, published: Seq<Seq<char>>)
    requires
        forall|tag: Seq<char>| source.contains(tag) ==> published.contains(tag),
    ensures
        tags_to_deploy(source, published, Mode::Smart) == Seq::<Seq<char>>::empty(),
        tags_to_skip(source, published, Mode::Smart) == source,
    decreases source.len(),
{
    reveal(Seq::filter);
    if source.len() > 0 {
        let init = source.drop_last();
        assert forall|tag: Seq<char>| init.contains(tag) implies published.contains(tag) by {
            let i = choose|i: int| 0 <= i < init.len() && init[i] == tag;
            assert(source[i] == tag);
        }
        lemma_nothing_left(init, published);
        assert(source[source.len() - 1] == source.last());
        assert(init.push(source.last()) == source);
    }
}

/// A second smart run deploys nothing, if the source tags are the same and
/// the publish branch then shows what it showed before together with all that
/// the first run set out to deploy.
pub proof fn lemma_second_run_deploys_nothing(
    source: Seq<Seq<char>>,
    published_before: Seq<Seq<char>>,
    published_after: Seq<Seq<char>>,
)
    requires
        forall|tag: Seq<char>| published_before.contains(tag) ==> published_after.contains(tag),
        forall|tag: Seq<char>|
            tags_to_deploy(source, published_before, Mode::Smart).contains(tag)
                ==> published_after.contains(tag),
    ensures
        tags_to_deploy(source, published_after, Mode::Smart) == Seq::<Seq<char>>::empty(),
{
    assert forall|tag: Seq<char>| source.contains(tag) implies published_after.contains(tag) by {
        lemma_plan_membership(source, published_before, Mode::Smart, tag);
    }
    lemma_nothing_left(source, published_after);
}

} // verus!
