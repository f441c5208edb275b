//! The watch loop's decisions: reducing debounced event batches to
//! the changed paths that matter, classifying a batch into entities,
//! and choosing the dispatches one observed event requires.

use vstd::assert_seqs_equal;
use vstd::prelude::*;
use crate::content::{article_files_match, article_nodes};
use crate::structure::{clone_components, group_node_matches, ArticleFile, AssetFile, FsNode,
    FsNodeKind, is_asset_file};
use crate::tasks::{any_layout, template_copy_plan, TemplateChange, TemplatePlan};

verus! {

/// Parameters of watch mode.
pub struct WatchParam {
    pub build_first: bool,
}

/// What one change notification concerned.
pub enum Changed {
    Article(Vec<String>),
    Template,
}

/// A notifier change kind, reduced to what the loop distinguishes.
#[derive(Clone, Copy, Debug, PartialEq, Eq, Structural)]
pub enum FsEventKind {
    Create,
    Modify,
    Remove,
    Other,
}

/// One debounced filesystem event: its kind and the paths it names.
pub struct FsChangeEvent {
    pub kind: FsEventKind,
    pub paths: Vec<Vec<String>>,
}

/// The content of a list of paths.
pub open spec fn paths_view(paths: Seq<Vec<String>>) -> Seq<Seq<String>> {
    Seq::new(paths.len(), |i: int| paths[i]@)
}

/// The paths of the create and modify events, in order: removals and
/// renames contribute nothing, so deleting a source file never
/// touches previously generated output.
pub open spec fn changed_paths(events: Seq<FsChangeEvent>) -> Seq<Seq<String>>
    decreases events.len(),
{
    if events.len() == 0 {
        Seq::empty()
    } else {
        let rest = changed_paths(events.drop_last());
        let e = events.last();
        if e.kind is Create || e.kind is Modify {
            rest + paths_view(e.paths@)
        } else {
            rest
        }
    }
}

/// Keeps the paths of create and modify events only, in order.
pub fn collect_changed_paths(events: &Vec<FsChangeEvent>) -> (r: Vec<Vec<String>>)
    ensures
        paths_view(r@) == changed_paths(events@),
{
    let mut r: Vec<Vec<String>> = Vec::new();
    let mut i: usize = 0;
    proof {
        assert(paths_view(r@) =~= changed_paths(events@.take(0)));
    }
    while i < events.len()
        invariant
            0 <= i <= events.len(),
            paths_view(r@) == changed_paths(events@.take(i as int)),
        decreases events.len() - i,
    {
        proof {
            assert(events@.take(i + 1).drop_last() =~= events@.take(i as int));
            assert(events@.take(i + 1).last() == events@[i as int]);
        }
        let e = &events[i];
        if e.kind == FsEventKind::Create || e.kind == FsEventKind::Modify {
            let ghost base = paths_view(r@);
            let mut k: usize = 0;
            proof {
                assert(paths_view(r@) =~= base + paths_view(e.paths@.take(0)));
            }
            while k < e.paths.len()
                invariant
                    0 <= k <= e.paths.len(),
                    e == &events@[i as int],
                    0 <= i < events@.len(),
                    base == changed_paths(events@.take(i as int)),
                    paths_view(r@) == base + paths_view(e.paths@.take(k as int)),
                decreases e.paths.len() - k,
            {
                let cloned = clone_components(&e.paths[k]);
                proof {
                    assert(cloned@ == e.paths@[k as int]@);
                }
                let ghost r_before = r@;
                r.push(cloned);
                proof {
                    let rhs = base + paths_view(e.paths@.take(k + 1));
                    assert(paths_view(r@).len() == r_before.len() + 1);
                    assert(paths_view(r_before).len() == r_before.len());
                    assert(paths_view(e.paths@.take(k as int)).len() == k);
                    assert(r_before.len() == base.len() + k);
                    assert(rhs.len() == base.len() + k + 1);
                    assert_seqs_equal!(paths_view(r@) == rhs, t => {
                        if t < r_before.len() {
                            assert(r@[t] == r_before[t]);
                            assert(paths_view(r_before)[t] == (base + paths_view(
                                e.paths@.take(k as int),
                            ))[t]);
                            if t >= base.len() {
                                assert(paths_view(e.paths@.take(k as int))[t - base.len()]
                                    == e.paths@.take(k as int)[t - base.len()]@);
                                assert(e.paths@.take(k + 1)[t - base.len()] == e.paths@.take(
                                    k as int,
                                )[t - base.len()]);
                            }
                        } else {
                            assert(r@[t] == cloned);
                            assert(rhs[t] == paths_view(e.paths@.take(k + 1))[t - base.len()]);
                            assert(e.paths@.take(k + 1)[k as int] == e.paths@[k as int]);
                        }
                    });
                }
                k = k + 1;
            }
            proof {
                assert(e.paths@.take(e.paths@.len() as int) =~= e.paths@);
                assert(paths_view(r@) =~= changed_paths(events@.take(i + 1)));
            }
        }
        i = i + 1;
    }
    proof {
        assert(events@.take(events.len() as int) =~= events@);
    }
    r
}

/// A batch of removals and renames yields nothing to act on: deleting
/// a source article changes no previously generated output.
pub proof fn lemma_removals_ignored(events: Seq<FsChangeEvent>)
    requires
        forall|i: int|
            0 <= i < events.len() ==> !((#[trigger] events[i]).kind is Create) && !(events[i].kind
                is Modify),
    ensures
        changed_paths(events).len() == 0,
    decreases events.len(),
{
    if events.len() > 0 {
        lemma_removals_ignored(events.drop_last());
    }
}

/// The nodes of a batch that are files recognized as assets, in order.
pub open spec fn asset_nodes(root: Seq<String>, listing: Seq<FsNode>) -> Seq<FsNode>
    decreases listing.len(),
{
    if listing.len() == 0 {
        Seq::empty()
    } else {
        let rest = asset_nodes(root, listing.drop_last());
        let n = listing.last();
        if n.kind is File && is_asset_file(root, n) {
            rest.push(n)
        } else {
            rest
        }
    }
}

/// `afs` records, element for element, the asset files of `nodes`.
pub open spec fn asset_files_match(
    root: Seq<String>,
    nodes: Seq<FsNode>,
    afs: Seq<AssetFile>,
) -> bool {
    afs.len() == nodes.len() && forall|i: int|
        0 <= i < nodes.len() ==> group_node_matches(root, nodes[i], (#[trigger] afs[i]).0)
}

/// Classifies an article-tree batch: the article files and the asset
/// files among the changed paths. The two kinds are disjoint for any
/// one path, but one batch may hold both across different paths.
pub fn classify_article_batch(files: &Vec<FsNode>, root: &Vec<String>) -> (r: (
    Vec<ArticleFile>,
    Vec<AssetFile>,
))
    requires
        forall|i: int| 0 <= i < files@.len() ==> (#[trigger] files@[i]).kind == FsNodeKind::File,
    ensures
        article_files_match(root@, article_nodes(root@, files@), r.0@),
        asset_files_match(root@, asset_nodes(root@, files@), r.1@),
{
    let mut arts: Vec<ArticleFile> = Vec::new();
    let mut assets: Vec<AssetFile> = Vec::new();
    let mut i: usize = 0;
    while i < files.len()
        invariant
            0 <= i <= files.len(),
            forall|k: int|
                0 <= k < files@.len() ==> (#[trigger] files@[k]).kind == FsNodeKind::File,
            article_files_match(root@, article_nodes(root@, files@.take(i as int)), arts@),
            asset_files_match(root@, asset_nodes(root@, files@.take(i as int)), assets@),
        decreases files.len() - i,
    {
        proof {
            assert(files@.take(i + 1).drop_last() =~= files@.take(i as int));
            assert(files@.take(i + 1).last() == files@[i as int]);
        }
        let node = &files[i];
        match ArticleFile::from_file(node, root) {
            Some(af) => {
                arts.push(af);
                proof {
                    assert(article_nodes(root@, files@.take(i + 1)) =~= article_nodes(
                        root@,
                        files@.take(i as int),
                    ).push(files@[i as int]));
                }
            },
            None => {},
        }
        match AssetFile::from_file(node, root) {
            Some(af) => {
                assets.push(af);
                proof {
                    assert(asset_nodes(root@, files@.take(i + 1)) =~= asset_nodes(
                        root@,
                        files@.take(i as int),
                    ).push(files@[i as int]));
                }
            },
            None => {},
        }
        i = i + 1;
    }
    proof {
        assert(files@.take(files.len() as int) =~= files@);
    }
    (arts, assets)
}

/// The loop's state: watching, or told to exit.
#[derive(Clone, Copy, Debug, PartialEq, Eq, Structural)]
pub enum WatchState {
    Watching,
    Exiting,
}

/// One occurrence the multiplexed wait can observe.
pub enum WatchEvent {
    /// A debounced article-tree batch, reduced to the changed files
    /// that still exist.
    ArticleBatch(Vec<FsNode>),
    /// A debounced template-tree batch, each file tagged by the
    /// renderer's layout predicate.
    TemplateBatch(Vec<TemplateChange>),
    /// The debounce mechanism reported a failure instead of a batch.
    ObservationFailure,
    /// The one-shot interrupt.
    Interrupt,
}

/// One dispatch of the loop. A vector of these runs in order.
pub enum DispatchAction {
    /// Build the given article files; index regeneration suppressed.
    PartialBuild(Vec<ArticleFile>),
    /// Copy the given asset files to their destinations.
    CopyAssets(Vec<AssetFile>),
    /// Copy the changed template files, after a full rebuild when one
    /// of them is layout-affecting.
    CopyTemplates { files: Vec<TemplateChange>, full_rebuild_first: bool },
}

/// One step of the watch loop: from the observed event to the next
/// state and the dispatches to run, in order. Only the interrupt ends
/// the loop; an observation failure drops its batch and watching goes
/// on; dispatch failures are the dispatcher's to report.
pub fn watch_step(state: WatchState, event: WatchEvent, root: &Vec<String>) -> (r: (
    WatchState,
    Vec<DispatchAction>,
))
    requires
        state == WatchState::Watching,
        event matches WatchEvent::ArticleBatch(files) ==> forall|i: int|
            0 <= i < files@.len() ==> (#[trigger] files@[i]).kind == FsNodeKind::File,
    ensures
        event is Interrupt ==> r.0 == WatchState::Exiting && r.1@.len() == 0,
        event is ObservationFailure ==> r.0 == WatchState::Watching && r.1@.len() == 0,
        event matches WatchEvent::ArticleBatch(files) ==> {
            &&& r.0 == WatchState::Watching
            &&& r.1@.len() == 2
            &&& r.1@[0] matches DispatchAction::PartialBuild(arts) && article_files_match(
                root@,
                article_nodes(root@, files@),
                arts@,
            )
            &&& r.1@[1] matches DispatchAction::CopyAssets(assets) && asset_files_match(
                root@,
                asset_nodes(root@, files@),
                assets@,
            )
        },
        event matches WatchEvent::TemplateBatch(files) ==> {
            &&& r.0 == WatchState::Watching
            &&& (files@.len() == 0 ==> r.1@.len() == 0)
            &&& (files@.len() > 0 ==> r.1@.len() == 1 && (r.1@[0]
                matches DispatchAction::CopyTemplates { files: fs, full_rebuild_first: frf }
                && fs@ == files@ && frf == any_layout(files@)))
        },
{
    match event {
        WatchEvent::Interrupt => (WatchState::Exiting, Vec::new()),
        WatchEvent::ObservationFailure => (WatchState::Watching, Vec::new()),
        WatchEvent::ArticleBatch(files) => {
            let (arts, assets) = classify_article_batch(&files, root);
            let mut actions: Vec<DispatchAction> = Vec::new();
            actions.push(DispatchAction::PartialBuild(arts));
            actions.push(DispatchAction::CopyAssets(assets));
            (WatchState::Watching, actions)
        },
        WatchEvent::TemplateBatch(files) => {
            let plan = template_copy_plan(&files);
            let mut actions: Vec<DispatchAction> = Vec::new();
            match plan {
                TemplatePlan::Nothing => {},
                TemplatePlan::Copy { full_rebuild_first } => {
                    actions.push(
                        DispatchAction::CopyTemplates { files, full_rebuild_first },
                    );
                },
            }
            (WatchState::Watching, actions)
        },
    }
}

} // verus!
