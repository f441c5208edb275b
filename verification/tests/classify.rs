use platemaker::content::{sort_dedup_groups, ContentDirectory};
use platemaker::structure::{ArticleFile, ArticleGroup, AssetFile, AssetRootDir, FsNode,
    FsNodeKind};

fn s(x: &str) -> String {
    x.to_string()
}

fn path(parts: &[&str]) -> Vec<String> {
    parts.iter().map(|p| p.to_string()).collect()
}

fn file(parts: &[&str]) -> FsNode {
    FsNode { kind: FsNodeKind::File, path: path(parts) }
}

fn dir(parts: &[&str]) -> FsNode {
    FsNode { kind: FsNodeKind::Directory, path: path(parts) }
}

#[test]
fn group_parses_from_relative_path() {
    let (g, suffix) = ArticleGroup::from_path(&path(&["2024", "3", "02_post.md"])).unwrap();
    assert_eq!(g.year, 2024);
    assert_eq!(g.month, 3);
    assert_eq!(suffix, vec![s("02_post.md")]);
}

#[test]
fn group_parse_accepts_zero_padding() {
    let (g, _) = ArticleGroup::from_path(&path(&["2024", "03"])).unwrap();
    assert_eq!(g.year, 2024);
    assert_eq!(g.month, 3);
}

#[test]
fn group_parse_rejects_bad_components() {
    assert!(ArticleGroup::from_path(&path(&["2024"])).is_none());
    assert!(ArticleGroup::from_path(&path(&["y2024", "3"])).is_none());
    assert!(ArticleGroup::from_path(&path(&["2024", "13x"])).is_none());
    assert!(ArticleGroup::from_path(&path(&["2024", "300"])).is_none());
    assert!(ArticleGroup::from_path(&path(&["", "3"])).is_none());
}

#[test]
fn group_dir_path_is_unpadded() {
    let g = ArticleGroup { year: 2024, month: 3 };
    assert_eq!(g.group_dir_path(), s("2024/3"));
}

#[test]
fn flat_path_is_six_chars_zero_padded() {
    let g = ArticleGroup { year: 2024, month: 3 };
    let token = g.group_dir_flat_path();
    assert_eq!(token, s("202403"));
    assert_eq!(token.chars().count(), 6);
    let g2 = ArticleGroup { year: 7, month: 11 };
    assert_eq!(g2.group_dir_flat_path(), s("000711"));
}

#[test]
fn flat_path_distinguishes_normalized_groups() {
    let tokens = [
        ArticleGroup { year: 2023, month: 12 }.group_dir_flat_path(),
        ArticleGroup { year: 2024, month: 3 }.group_dir_flat_path(),
        ArticleGroup { year: 2024, month: 4 }.group_dir_flat_path(),
        ArticleGroup { year: 202, month: 43 }.group_dir_flat_path(),
    ];
    for (i, a) in tokens.iter().enumerate() {
        for (k, b) in tokens.iter().enumerate() {
            assert_eq!(i == k, a == b);
        }
    }
}

#[test]
fn flat_path_collides_for_padded_and_unpadded_text() {
    // `2024/3` and `2024/03` in raw path text name the same group, so
    // they flatten into one output token: a documented edge case.
    let (a, _) = ArticleGroup::from_path(&path(&["2024", "3"])).unwrap();
    let (b, _) = ArticleGroup::from_path(&path(&["2024", "03"])).unwrap();
    assert_eq!(a, b);
    assert_eq!(a.group_dir_flat_path(), b.group_dir_flat_path());
}

#[test]
fn article_file_recognized_with_date_and_slug() {
    let root = path(&["content"]);
    let node = file(&["content", "2024", "3", "02_post.md"]);
    let af = ArticleFile::from_file(&node, &root).unwrap();
    assert_eq!(af.id.date, (2024, 3, 2));
    assert_eq!(af.id.slug, s("02_post"));
    assert_eq!(af.id.group, s("202403"));
    assert_eq!(af.node.group, ArticleGroup { year: 2024, month: 3 });
    assert_eq!(af.node.suffix_components, vec![s("02_post.md")]);
}

#[test]
fn article_file_without_underscore_still_parses_day() {
    let root = path(&["content"]);
    let node = file(&["content", "2024", "3", "5.md"]);
    let af = ArticleFile::from_file(&node, &root).unwrap();
    assert_eq!(af.id.date, (2024, 3, 5));
    assert_eq!(af.id.slug, s("5"));
}

#[test]
fn article_file_rejects_wrong_shapes() {
    let root = path(&["content"]);
    // wrong extension
    assert!(ArticleFile::from_file(&file(&["content", "2024", "3", "02_post.txt"]), &root).is_none());
    // a second dot in the stem
    assert!(ArticleFile::from_file(&file(&["content", "2024", "3", "02_a.b.md"]), &root).is_none());
    // day does not parse as an 8-bit integer
    assert!(ArticleFile::from_file(&file(&["content", "2024", "3", "300_post.md"]), &root).is_none());
    // no day at all
    assert!(ArticleFile::from_file(&file(&["content", "2024", "3", "_post.md"]), &root).is_none());
    // nested one level too deep
    assert!(ArticleFile::from_file(&file(&["content", "2024", "3", "sub", "02_post.md"]), &root).is_none());
    // outside the root
    assert!(ArticleFile::from_file(&file(&["elsewhere", "2024", "3", "02_post.md"]), &root).is_none());
    // group components do not parse
    assert!(ArticleFile::from_file(&file(&["content", "notayear", "3", "02_post.md"]), &root).is_none());
}

#[test]
fn asset_file_recognized_under_assets() {
    let root = path(&["content"]);
    let af = AssetFile::from_file(&file(&["content", "2024", "3", "assets", "img.png"]), &root)
        .unwrap();
    assert_eq!(af.0.group, ArticleGroup { year: 2024, month: 3 });
    assert_eq!(af.0.suffix_components, vec![s("assets"), s("img.png")]);
    // deeper nesting still matches
    assert!(AssetFile::from_file(
        &file(&["content", "2024", "3", "assets", "sub", "img.png"]),
        &root
    ).is_some());
}

#[test]
fn asset_root_dir_recognized_exactly() {
    let root = path(&["content"]);
    assert!(AssetRootDir::from_dir(&dir(&["content", "2024", "3", "assets"]), &root).is_some());
    assert!(AssetRootDir::from_dir(&dir(&["content", "2024", "3", "other"]), &root).is_none());
    assert!(AssetRootDir::from_dir(&dir(&["content", "2024", "3"]), &root).is_none());
}

#[test]
fn recognizers_are_mutually_exclusive_per_path() {
    let root = path(&["content"]);
    // an article path is no asset and no asset root
    let article = file(&["content", "2024", "3", "02_post.md"]);
    assert!(ArticleFile::from_file(&article, &root).is_some());
    assert!(AssetFile::from_file(&article, &root).is_none());
    // an asset path is no article
    let asset = file(&["content", "2024", "3", "assets", "img.png"]);
    assert!(ArticleFile::from_file(&asset, &root).is_none());
    assert!(AssetFile::from_file(&asset, &root).is_some());
    // the bare assets name at depth one is neither article nor asset file
    let assets_name = file(&["content", "2024", "3", "assets"]);
    assert!(ArticleFile::from_file(&assets_name, &root).is_none());
    assert!(AssetFile::from_file(&assets_name, &root).is_none());
}

#[test]
fn scan_keeps_only_exact_group_directories() {
    let root = path(&["content"]);
    let tree = vec![
        dir(&["content", "2024"]),
        dir(&["content", "2024", "3"]),
        dir(&["content", "2024", "3", "assets"]),
        dir(&["content", "2023", "12"]),
        dir(&["content", "notes"]),
        file(&["content", "2024", "3", "02_post.md"]),
        dir(&["content", "2024", "3"]),
    ];
    let groups = ArticleGroup::scan(&root, &tree);
    assert_eq!(groups, vec![
        ArticleGroup { year: 2024, month: 3 },
        ArticleGroup { year: 2023, month: 12 },
        ArticleGroup { year: 2024, month: 3 },
    ]);
}

#[test]
fn sort_dedup_orders_groups_and_drops_duplicates() {
    let raw = vec![
        ArticleGroup { year: 2024, month: 3 },
        ArticleGroup { year: 2023, month: 12 },
        ArticleGroup { year: 2024, month: 3 },
        ArticleGroup { year: 2023, month: 1 },
    ];
    let sorted = sort_dedup_groups(&raw);
    assert_eq!(sorted, vec![
        ArticleGroup { year: 2023, month: 1 },
        ArticleGroup { year: 2023, month: 12 },
        ArticleGroup { year: 2024, month: 3 },
    ]);
}

#[test]
fn content_directory_collects_per_group_articles() {
    let root = path(&["content"]);
    let groups = vec![
        ArticleGroup { year: 2023, month: 12 },
        ArticleGroup { year: 2024, month: 3 },
    ];
    let listings = vec![
        vec![
            file(&["content", "2023", "12", "31_other.md"]),
            file(&["content", "2023", "12", "notes.txt"]),
            dir(&["content", "2023", "12", "assets"]),
        ],
        vec![file(&["content", "2024", "3", "02_post.md"])],
    ];
    let cd = ContentDirectory::new(&root, groups, &listings);
    assert_eq!(cd.article_group.len(), 2);
    assert_eq!(cd.markdown_files.len(), 2);
    assert_eq!(cd.markdown_files[0].id.slug, s("31_other"));
    assert_eq!(cd.markdown_files[1].id.slug, s("02_post"));
}

#[test]
fn content_directory_with_no_articles_is_empty_not_an_error() {
    let root = path(&["content"]);
    let cd = ContentDirectory::new(&root, vec![], &vec![]);
    assert_eq!(cd.markdown_files.len(), 0);
    assert_eq!(cd.article_group.len(), 0);
}
