use platemaker::model::{Article, ArticleIdentifier, ArticleMetadata};
use platemaker::report::{report_anyway_if_fail, report_error, report_if_fail};
use platemaker::structure::{FsNode, FsNodeKind};
use platemaker::tasks::{asset_destination_dir, collect_rendered, keep_parsed, plan_build,
    sort_pages_by_id_desc, template_copy_plan, BuildPlan, RenderedPage, TemplateChange,
    TemplatePlan};
use platemaker::watch::{collect_changed_paths, watch_step, DispatchAction, FsChangeEvent,
    FsEventKind, WatchEvent, WatchState};
use platemaker::structure::ArticleGroup;

fn s(x: &str) -> String {
    x.to_string()
}

fn path(parts: &[&str]) -> Vec<String> {
    parts.iter().map(|p| p.to_string()).collect()
}

fn ident(group: &str, slug: &str, date: (u32, u8, u8)) -> ArticleIdentifier {
    ArticleIdentifier { group: s(group), slug: s(slug), date }
}

fn article(group: &str, slug: &str, date: (u32, u8, u8)) -> Article {
    Article {
        id: ident(group, slug, date),
        metadata: ArticleMetadata { title: s("t"), brief: s("b") },
        content: s("c"),
    }
}

fn page(group: &str, slug: &str, date: (u32, u8, u8)) -> RenderedPage {
    RenderedPage { article: article(group, slug, date), html: s("<html>") }
}

#[test]
fn identifier_orders_by_date_then_slug() {
    let a = ident("202403", "02_post", (2024, 3, 2));
    let b = ident("202312", "31_other", (2023, 12, 31));
    assert!(b.lt(&a));
    assert!(!a.lt(&b));
    let c = ident("202312", "01_aaa", (2023, 12, 1));
    let d = ident("202312", "01_zzz", (2023, 12, 1));
    assert!(c.lt(&d));
    assert!(!d.lt(&c));
    assert!(c.le(&c));
}

#[test]
fn sort_places_pages_newest_first_slug_breaking_ties() {
    let mut pages = vec![
        page("202312", "01_aaa", (2023, 12, 1)),
        page("202403", "02_post", (2024, 3, 2)),
        page("202312", "01_zzz", (2023, 12, 1)),
        page("202312", "31_other", (2023, 12, 31)),
    ];
    sort_pages_by_id_desc(&mut pages);
    let slugs: Vec<String> = pages.iter().map(|p| p.article.id.slug.clone()).collect();
    assert_eq!(slugs, vec![s("02_post"), s("31_other"), s("01_zzz"), s("01_aaa")]);
}

#[test]
fn keep_parsed_drops_failed_articles_only() {
    let results = vec![
        Some(article("202403", "02_post", (2024, 3, 2))),
        None,
        Some(article("202312", "31_other", (2023, 12, 31))),
    ];
    let kept = keep_parsed(results);
    assert_eq!(kept.len(), 2);
    assert_eq!(kept[0].id.slug, s("02_post"));
    assert_eq!(kept[1].id.slug, s("31_other"));
}

#[test]
fn collect_rendered_aborts_on_any_failure() {
    let ok = collect_rendered(vec![Some(page("202403", "02_post", (2024, 3, 2)))]);
    assert!(ok.is_some());
    let bad = collect_rendered(vec![
        Some(page("202403", "02_post", (2024, 3, 2))),
        None,
    ]);
    assert!(bad.is_none());
}

#[test]
fn collect_rendered_of_nothing_succeeds_with_zero_pages() {
    let pages = collect_rendered(vec![]).unwrap();
    assert_eq!(pages.len(), 0);
}

#[test]
fn full_build_renders_index_even_over_zero_articles() {
    assert_eq!(plan_build(0, true), BuildPlan::Render { with_index: true });
    assert_eq!(plan_build(3, true), BuildPlan::Render { with_index: true });
}

#[test]
fn partial_build_never_renders_index_and_skips_empty_batches() {
    assert_eq!(plan_build(0, false), BuildPlan::Skip);
    assert_eq!(plan_build(3, false), BuildPlan::Render { with_index: false });
}

#[test]
fn template_plan_rebuilds_fully_on_layout_change() {
    let plain = vec![TemplateChange { path: path(&["style.css"]), is_layout: false }];
    assert_eq!(template_copy_plan(&plain), TemplatePlan::Copy { full_rebuild_first: false });
    let layout = vec![
        TemplateChange { path: path(&["style.css"]), is_layout: false },
        TemplateChange { path: path(&["article.html"]), is_layout: true },
    ];
    assert_eq!(template_copy_plan(&layout), TemplatePlan::Copy { full_rebuild_first: true });
    assert_eq!(template_copy_plan(&vec![]), TemplatePlan::Nothing);
}

#[test]
fn asset_destination_uses_flat_token() {
    let g = ArticleGroup { year: 2024, month: 3 };
    let dest = asset_destination_dir(&g);
    assert_eq!(dest, vec![s("articles"), s("202403"), s("assets")]);
}

#[test]
fn changed_paths_keep_creates_and_modifies_only() {
    let events = vec![
        FsChangeEvent { kind: FsEventKind::Create, paths: vec![path(&["a.md"])] },
        FsChangeEvent { kind: FsEventKind::Remove, paths: vec![path(&["b.md"])] },
        FsChangeEvent { kind: FsEventKind::Modify, paths: vec![path(&["c.md"])] },
        FsChangeEvent { kind: FsEventKind::Other, paths: vec![path(&["d.md"])] },
    ];
    let changed = collect_changed_paths(&events);
    assert_eq!(changed, vec![path(&["a.md"]), path(&["c.md"])]);
}

#[test]
fn deleting_a_source_produces_no_work() {
    // Delete and rename events are dropped outright: previously
    // generated output stays untouched.
    let events = vec![
        FsChangeEvent { kind: FsEventKind::Remove, paths: vec![path(&["a.md"])] },
        FsChangeEvent { kind: FsEventKind::Other, paths: vec![path(&["b.md"])] },
    ];
    let changed = collect_changed_paths(&events);
    assert_eq!(changed.len(), 0);
}

#[test]
fn interrupt_exits_without_dispatch() {
    let root = path(&["content"]);
    let (state, actions) = watch_step(WatchState::Watching, WatchEvent::Interrupt, &root);
    assert_eq!(state, WatchState::Exiting);
    assert_eq!(actions.len(), 0);
}

#[test]
fn observation_failure_keeps_watching() {
    let root = path(&["content"]);
    let (state, actions) = watch_step(WatchState::Watching, WatchEvent::ObservationFailure, &root);
    assert_eq!(state, WatchState::Watching);
    assert_eq!(actions.len(), 0);
}

#[test]
fn article_batch_dispatches_partial_build_and_asset_copy() {
    let root = path(&["content"]);
    let batch = vec![
        FsNode { kind: FsNodeKind::File, path: path(&["content", "2024", "3", "02_post.md"]) },
        FsNode {
            kind: FsNodeKind::File,
            path: path(&["content", "2024", "3", "assets", "img.png"]),
        },
        FsNode { kind: FsNodeKind::File, path: path(&["content", "stray.txt"]) },
    ];
    let (state, actions) = watch_step(WatchState::Watching, WatchEvent::ArticleBatch(batch), &root);
    assert_eq!(state, WatchState::Watching);
    assert_eq!(actions.len(), 2);
    match &actions[0] {
        DispatchAction::PartialBuild(arts) => {
            assert_eq!(arts.len(), 1);
            assert_eq!(arts[0].id.slug, s("02_post"));
        },
        _ => panic!("first dispatch must be the partial build"),
    }
    match &actions[1] {
        DispatchAction::CopyAssets(assets) => {
            assert_eq!(assets.len(), 1);
            assert_eq!(assets[0].0.suffix_components, vec![s("assets"), s("img.png")]);
        },
        _ => panic!("second dispatch must be the asset copy"),
    }
}

#[test]
fn template_batch_with_layout_change_rebuilds_first() {
    let root = path(&["content"]);
    let batch = vec![TemplateChange { path: path(&["article.html"]), is_layout: true }];
    let (state, actions) = watch_step(
        WatchState::Watching,
        WatchEvent::TemplateBatch(batch),
        &root,
    );
    assert_eq!(state, WatchState::Watching);
    assert_eq!(actions.len(), 1);
    match &actions[0] {
        DispatchAction::CopyTemplates { files, full_rebuild_first } => {
            assert!(*full_rebuild_first);
            assert_eq!(files.len(), 1);
        },
        _ => panic!("template batch must dispatch a template copy"),
    }
}

#[test]
fn report_if_fail_hands_results_through() {
    let ok: Result<u32, String> = report_if_fail(|| Ok(7));
    assert_eq!(ok, Ok(7));
    let err: Result<u32, String> = report_if_fail(|| Err(s("boom")));
    assert_eq!(err, Err(s("boom")));
}

#[test]
fn report_anyway_if_fail_hands_results_through() {
    let ok: Result<u32, anyhow::Error> = report_anyway_if_fail(|| Ok(7));
    assert_eq!(ok.unwrap(), 7);
    let err: Result<u32, anyhow::Error> = report_anyway_if_fail(|| Err(anyhow::Error::msg("boom")));
    assert!(err.is_err());
}

#[test]
fn report_error_accepts_any_display_value() {
    report_error(&s("just a line"));
}
