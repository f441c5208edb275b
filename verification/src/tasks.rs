//! Build-stage decisions: which parsed articles survive, when the
//! render stage aborts, the descending presentation order, whether the
//! index page is regenerated, and what a template or asset change
//! batch requires.

use vstd::prelude::*;
use crate::model::{id_le, lemma_id_le_total, lemma_id_le_trans, Article};
use crate::structure::{ArticleGroup, AssetFile};
use crate::text::flat_token;
use vstd::multiset::Multiset;
use vstd::seq_lib::{to_multiset_build, to_multiset_insert};
use vstd::string::StringExecFns;

verus! {

/// A rendered page: the article it came from and its page text.
pub struct RenderedPage {
    pub article: Article,
    pub html: String,
}

/// The values of the results that succeeded, in order.
pub open spec fn somes_of<T>(s: Seq<Option<T>>) -> Seq<T>
    decreases s.len(),
{
    if s.len() == 0 {
        Seq::empty()
    } else {
        let rest = somes_of(s.drop_last());
        match s.last() {
            Some(v) => rest.push(v),
            None => rest,
        }
    }
}

/// Every result succeeded.
pub open spec fn all_some<T>(s: Seq<Option<T>>) -> bool {
    forall|i: int| 0 <= i < s.len() ==> (#[trigger] s[i]) is Some
}

/// The values of all results, which must all have succeeded.
pub open spec fn unwrap_all<T>(s: Seq<Option<T>>) -> Seq<T> {
    Seq::new(s.len(), |i: int| s[i]->0)
}

/// Keeps the articles whose parse succeeded, in order: a failed parse
/// drops that article only, and the build goes on.
pub fn keep_parsed(results: Vec<Option<Article>>) -> (kept: Vec<Article>)
    ensures
        kept@ == somes_of(results@),
{
    let mut results = results;
    let ghost orig = results@;
    let mut kept: Vec<Article> = Vec::new();
    proof {
        assert(somes_of(orig) + kept@ =~= somes_of(orig));
    }
    while results.len() > 0
        invariant
            somes_of(results@) + kept@ == somes_of(orig),
        decreases results.len(),
    {
        let ghost before = results@;
        let last = results.pop().unwrap();
        proof {
            assert(before.drop_last() == results@);
        }
        match last {
            Some(article) => {
                kept.insert(0, article);
                proof {
                    assert(somes_of(results@) + kept@ =~= somes_of(before) + kept@.skip(1));
                }
            },
            None => {
                proof {
                    assert(somes_of(results@) + kept@ =~= somes_of(before) + kept@);
                }
            },
        }
    }
    proof {
        assert(results@.len() == 0);
        assert(somes_of(results@) + kept@ =~= kept@);
    }
    kept
}

/// Collects the rendered pages, or refuses outright when any render
/// failed: a partial listing is never written.
pub fn collect_rendered(results: Vec<Option<RenderedPage>>) -> (r: Option<Vec<RenderedPage>>)
    ensures
        r is Some <==> all_some(results@),
        r matches Some(pages) ==> pages@ == unwrap_all(results@),
{
    let mut rem = results;
    let ghost orig = rem@;
    let mut pages: Vec<RenderedPage> = Vec::new();
    while rem.len() > 0
        invariant
            orig == results@,
            rem@.len() <= orig.len(),
            rem@ == orig.take(rem@.len() as int),
            pages@ =~= unwrap_all(orig.skip(rem@.len() as int)),
            all_some(orig.skip(rem@.len() as int)),
        decreases rem.len(),
    {
        let ghost before = rem@;
        let last = rem.pop().unwrap();
        proof {
            assert(before.drop_last() == rem@);
            assert(rem@ =~= orig.take(rem@.len() as int));
            assert(last == orig[rem@.len() as int]);
        }
        match last {
            Some(page) => {
                pages.insert(0, page);
                proof {
                    assert(pages@ =~= unwrap_all(orig.skip(rem@.len() as int)));
                    assert forall|i: int|
                        0 <= i < orig.skip(rem@.len() as int).len() implies (#[trigger] orig.skip(
                        rem@.len() as int,
                    )[i]) is Some by {
                        if i == 0 {
                        } else {
                            assert(orig.skip(rem@.len() as int)[i] == orig.skip(
                                rem@.len() as int + 1,
                            )[i - 1]);
                        }
                    }
                }
            },
            None => {
                proof {
                    assert(before.len() <= orig.len());
                    assert(0 <= rem@.len() < orig.len());
                    assert(orig[rem@.len() as int] is None);
                    assert(!all_some(orig));
                }
                return None;
            },
        }
    }
    proof {
        assert(orig.skip(0) =~= orig);
    }
    Some(pages)
}

/// Descending by identifier: newest date first, slug descending on
/// ties.
pub open spec fn pages_sorted_desc(s: Seq<RenderedPage>) -> bool {
    forall|i: int, j: int|
        0 <= i < j < s.len() ==> id_le((#[trigger] s[j]).article.id, (#[trigger] s[i]).article.id)
}

/// Sorts rendered pages by identifier descending, keeping exactly the
/// same pages.
pub fn sort_pages_by_id_desc(pages: &mut Vec<RenderedPage>)
    ensures
        pages_sorted_desc(final(pages)@),
        final(pages)@.to_multiset() == old(pages)@.to_multiset(),
{
    broadcast use vstd::multiset::group_multiset_axioms;
    broadcast use vstd::multiset::lemma_multiset_empty_len;
    broadcast use vstd::seq_lib::to_multiset_len;

    let ghost orig = pages@;
    let mut out: Vec<RenderedPage> = Vec::new();
    proof {
        assert(out@.to_multiset().len() == 0);
        assert(out@.to_multiset() =~= Multiset::<RenderedPage>::empty());
        assert(out@.to_multiset().add(pages@.to_multiset()) =~= pages@.to_multiset());
    }
    while pages.len() > 0
        invariant
            pages_sorted_desc(out@),
            out@.to_multiset().add(pages@.to_multiset()) == orig.to_multiset(),
        decreases pages.len(),
    {
        let ghost before = pages@;
        let x = pages.pop().unwrap();
        proof {
            assert(before.drop_last() == pages@);
            assert(before =~= pages@.push(x));
            to_multiset_build(pages@, x);
        }
        let ghost out_old = out@;
        let mut j: usize = 0;
        while j < out.len() && !out[j].article.id.le(&x.article.id)
            invariant
                0 <= j <= out.len(),
                out@ == out_old,
                forall|k: int| 0 <= k < j ==> !id_le((#[trigger] out@[k]).article.id, x.article.id),
            decreases out.len() - j,
        {
            j = j + 1;
        }
        proof {
            to_multiset_insert(out_old, j as int, x);
            out_old.insert_ensures(j as int, x);
        }
        out.insert(j, x);
        proof {
            assert forall|a: int, b: int| 0 <= a < b < out@.len() implies id_le(
                (#[trigger] out@[b]).article.id,
                (#[trigger] out@[a]).article.id,
            ) by {
                if b < j {
                } else if a < j && b == j {
                    lemma_id_le_total(out_old[a].article.id, x.article.id);
                } else if a < j && b > j {
                    assert(out@[b] == out_old[b - 1]);
                } else if a == j {
                    assert(out@[a] == x);
                    assert(out@[b] == out_old[b - 1]);
                    if b - 1 > j {
                        lemma_id_le_trans(
                            out_old[b - 1].article.id,
                            out_old[j as int].article.id,
                            x.article.id,
                        );
                    }
                } else {
                    assert(out@[a] == out_old[a - 1] && out@[b] == out_old[b - 1]);
                }
            }
            assert(out@.to_multiset().add(pages@.to_multiset()) =~= orig.to_multiset());
        }
    }
    proof {
        assert(pages@.to_multiset().len() == 0);
        assert(pages@.to_multiset() =~= Multiset::<RenderedPage>::empty());
        assert(out@.to_multiset().add(pages@.to_multiset()) =~= out@.to_multiset());
    }
    *pages = out;
}

/// What the render stage of one build must do.
#[derive(Clone, Copy, Debug, PartialEq, Eq, Structural)]
pub enum BuildPlan {
    /// Nothing at all: no I/O, no output.
    Skip,
    /// Parse and render the changed articles; `with_index` adds the
    /// aggregating index page.
    Render { with_index: bool },
}

/// The render stage a build gets: an empty partial batch is a fast
/// no-op; everything else renders, and only a full build regenerates
/// the index.
pub open spec fn spec_plan_build(file_count: nat, full_build: bool) -> BuildPlan {
    if file_count == 0 && !full_build {
        BuildPlan::Skip
    } else {
        BuildPlan::Render { with_index: full_build }
    }
}

/// Decides the render stage for a batch of article files.
pub fn plan_build(file_count: usize, full_build: bool) -> (p: BuildPlan)
    ensures
        p == spec_plan_build(file_count as nat, full_build),
{
    if file_count == 0 && !full_build {
        BuildPlan::Skip
    } else {
        BuildPlan::Render { with_index: full_build }
    }
}

/// A partial build never regenerates the index, whatever the batch
/// holds.
pub proof fn lemma_partial_build_never_regenerates_index(file_count: nat)
    ensures
        spec_plan_build(file_count, false) != (BuildPlan::Render { with_index: true }),
{
}

/// A full build always renders the index, even over zero articles.
pub proof fn lemma_full_build_always_renders_index(file_count: nat)
    ensures
        spec_plan_build(file_count, true) == (BuildPlan::Render { with_index: true }),
{
}

/// One changed file under the template tree, tagged by the renderer's
/// predicate for layout-affecting template sources.
pub struct TemplateChange {
    pub path: Vec<String>,
    pub is_layout: bool,
}

/// Some file of the batch is a layout-affecting template.
pub open spec fn any_layout(s: Seq<TemplateChange>) -> bool {
    exists|i: int| 0 <= i < s.len() && (#[trigger] s[i]).is_layout
}

/// What a template change batch requires.
#[derive(Clone, Copy, Debug, PartialEq, Eq, Structural)]
pub enum TemplatePlan {
    /// Empty batch: nothing at all.
    Nothing,
    /// Copy the changed files; when `full_rebuild_first` a full
    /// rebuild runs before the copies, since a layout change can
    /// affect every page.
    Copy { full_rebuild_first: bool },
}

/// The plan a template batch gets.
pub open spec fn spec_template_plan(files: Seq<TemplateChange>) -> TemplatePlan {
    if files.len() == 0 {
        TemplatePlan::Nothing
    } else {
        TemplatePlan::Copy { full_rebuild_first: any_layout(files) }
    }
}

/// Decides a template change batch.
pub fn template_copy_plan(files: &Vec<TemplateChange>) -> (p: TemplatePlan)
    ensures
        p == spec_template_plan(files@),
{
    if files.len() == 0 {
        return TemplatePlan::Nothing;
    }
    let mut i: usize = 0;
    let mut layout = false;
    while i < files.len()
        invariant
            0 <= i <= files.len(),
            layout == any_layout(files@.take(i as int)),
        decreases files.len() - i,
    {
        proof {
            assert(files@.take(i + 1).drop_last() =~= files@.take(i as int));
            assert forall|k: int|
                0 <= k < i + 1 && (#[trigger] files@.take(i + 1)[k]).is_layout implies any_layout(
                files@.take(i + 1),
            ) by {}
            if any_layout(files@.take(i as int)) {
                let k = choose|k: int|
                    0 <= k < i && (#[trigger] files@.take(i as int)[k]).is_layout;
                assert(files@.take(i + 1)[k].is_layout);
            }
        }
        if files[i].is_layout {
            layout = true;
        }
        proof {
            if layout && !any_layout(files@.take(i as int)) {
                assert(files@.take(i + 1)[i as int].is_layout);
            }
            if !layout {
                assert forall|k: int| 0 <= k < i + 1 implies !(#[trigger] files@.take(
                    i + 1,
                )[k]).is_layout by {
                    if k < i {
                        assert(files@.take(i as int)[k] == files@.take(i + 1)[k]);
                    }
                }
            }
        }
        i = i + 1;
    }
    proof {
        assert(files@.take(files.len() as int) =~= files@);
    }
    TemplatePlan::Copy { full_rebuild_first: layout }
}

/// A batch holding a layout-affecting template always forces the full
/// rebuild before the raw files are copied.
pub proof fn lemma_layout_change_forces_full_rebuild(files: Seq<TemplateChange>)
    requires
        any_layout(files),
    ensures
        spec_template_plan(files) == (TemplatePlan::Copy { full_rebuild_first: true }),
{
    let i = choose|i: int| 0 <= i < files.len() && (#[trigger] files[i]).is_layout;
    assert(files.len() > 0);
}

/// The destination directory of a group's assets: `articles`, the
/// flattened group token, `assets`.
pub fn asset_destination_dir(group: &ArticleGroup) -> (r: Vec<String>)
    ensures
        r@.len() == 3,
        r@[0]@ == "articles"@,
        r@[1]@ == flat_token(group.year as nat, group.month as nat),
        r@[2]@ == "assets"@,
{
    let mut r: Vec<String> = Vec::new();
    r.push(String::from_str("articles"));
    r.push(group.group_dir_flat_path());
    r.push(String::from_str("assets"));
    r
}

/// The full destination components of one changed asset file: the
/// group's asset destination directory, then the file's own path
/// inside its assets directory.
pub fn asset_destination_path(file: &AssetFile) -> (r: Vec<String>)
    requires
        file.0.suffix_components@.len() >= 1,
    ensures
        r@.len() == 2 + file.0.suffix_components@.len(),
        r@[0]@ == "articles"@,
        r@[1]@ == flat_token(file.0.group.year as nat, file.0.group.month as nat),
        r@[2]@ == "assets"@,
        forall|i: int| 3 <= i < r@.len() ==> r@[i] == file.0.suffix_components@[i - 2],
{
    let mut r = asset_destination_dir(&file.0.group);
    let mut i: usize = 1;
    while i < file.0.suffix_components.len()
        invariant
            1 <= i <= file.0.suffix_components@.len(),
            r@.len() == 2 + i,
            r@[0]@ == "articles"@,
            r@[1]@ == flat_token(file.0.group.year as nat, file.0.group.month as nat),
            r@[2]@ == "assets"@,
            forall|k: int| 3 <= k < r@.len() ==> r@[k] == file.0.suffix_components@[k - 2],
        decreases file.0.suffix_components@.len() - i,
    {
        r.push(file.0.suffix_components[i].clone());
        i = i + 1;
    }
    r
}

} // verus!
