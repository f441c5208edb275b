//! Full-tree content discovery: scanning a tree listing for group
//! directories, ordering groups, and collecting each group's article
//! files from its immediate children.

use vstd::prelude::*;
use crate::structure::{article_id_matches, group_node_matches, ArticleFile, ArticleGroup, FsNode,
    FsNodeKind, group_lt, is_article_file, node_classifies, node_group, strip_prefix};

verus! {

/// A directory that is exactly a group directory: classified, with an
/// empty suffix.
pub open spec fn is_group_dir(root: Seq<String>, node: FsNode) -> bool {
    node.kind is Directory && node_classifies(root, node) && node.path@.len() == root.len() + 2
}

/// The groups of the group directories in `tree`, in tree order, with
/// duplicates kept.
pub open spec fn scanned_groups(root: Seq<String>, tree: Seq<FsNode>) -> Seq<ArticleGroup>
    decreases tree.len(),
{
    if tree.len() == 0 {
        Seq::empty()
    } else {
        let rest = scanned_groups(root, tree.drop_last());
        if is_group_dir(root, tree.last()) {
            rest.push(node_group(root, tree.last()))
        } else {
            rest
        }
    }
}

impl ArticleGroup {
    /// Scans a full-tree listing: keeps each directory whose
    /// root-relative path is exactly a year and a month. Duplicates
    /// stay; the caller sorts and dedups.
    pub fn scan(root: &Vec<String>, tree: &Vec<FsNode>) -> (r: Vec<ArticleGroup>)
        ensures
            r@ == scanned_groups(root@, tree@),
    {
        let mut r: Vec<ArticleGroup> = Vec::new();
        let mut i: usize = 0;
        while i < tree.len()
            invariant
                0 <= i <= tree.len(),
                r@ == scanned_groups(root@, tree@.take(i as int)),
            decreases tree.len() - i,
        {
            proof {
                assert(tree@.take(i + 1).drop_last() =~= tree@.take(i as int));
                assert(tree@.take(i + 1).last() == tree@[i as int]);
            }
            let node = &tree[i];
            if node.kind == FsNodeKind::Directory {
                match strip_prefix(&node.path, root) {
                    Some(rel) => {
                        match ArticleGroup::from_path(&rel) {
                            Some((g, suffix)) => {
                                if suffix.len() == 0 {
                                    r.push(g);
                                }
                            },
                            None => {},
                        }
                    },
                    None => {},
                }
            }
            i = i + 1;
        }
        proof {
            assert(tree@.take(tree.len() as int) =~= tree@);
        }
        r
    }
}

/// Strictly ascending: sorted with no duplicate pair.
pub open spec fn groups_strictly_sorted(s: Seq<ArticleGroup>) -> bool {
    forall|i: int, j: int| 0 <= i < j < s.len() ==> group_lt(#[trigger] s[i], #[trigger] s[j])
}

/// Inserting keeps exactly the old elements plus the new one.
proof fn lemma_insert_contains(s: Seq<ArticleGroup>, j: int, x: ArticleGroup, g: ArticleGroup)
    requires
        0 <= j <= s.len(),
    ensures
        s.insert(j, x).contains(g) <==> (s.contains(g) || g == x),
{
    s.insert_ensures(j, x);
    let t = s.insert(j, x);
    if t.contains(g) {
        let k = choose|k: int| 0 <= k < t.len() && t[k] == g;
        if k < j {
            assert(s[k] == g);
        } else if k > j {
            assert(s[k - 1] == g);
        }
    }
    if s.contains(g) {
        let k = choose|k: int| 0 <= k < s.len() && s[k] == g;
        if k < j {
            assert(t[k] == g);
        } else {
            assert(t[k + 1] == g);
        }
    }
    if g == x {
        assert(t[j] == g);
    }
}

/// Sorts groups ascending and drops duplicates: the result holds
/// exactly the given groups, each once, in order.
pub fn sort_dedup_groups(groups: &Vec<ArticleGroup>) -> (r: Vec<ArticleGroup>)
    ensures
        groups_strictly_sorted(r@),
        forall|g: ArticleGroup| r@.contains(g) <==> groups@.contains(g),
{
    let mut r: Vec<ArticleGroup> = Vec::new();
    let mut i: usize = 0;
    while i < groups.len()
        invariant
            0 <= i <= groups.len(),
            groups_strictly_sorted(r@),
            forall|g: ArticleGroup| r@.contains(g) <==> groups@.take(i as int).contains(g),
        decreases groups.len() - i,
    {
        let x = groups[i];
        let ghost r_old = r@;
        let mut j: usize = 0;
        while j < r.len() && r[j].lt(&x)
            invariant
                0 <= j <= r.len(),
                r@ == r_old,
                forall|k: int| 0 <= k < j ==> group_lt(#[trigger] r@[k], x),
            decreases r.len() - j,
        {
            j = j + 1;
        }
        if j == r.len() {
            r.push(x);
            proof {
                assert forall|g: ArticleGroup| r@.contains(g) <==> (r_old.contains(g) || g
                    == x) by {
                    if r@.contains(g) {
                        let k = choose|k: int| 0 <= k < r@.len() && r@[k] == g;
                        if k < r_old.len() {
                            assert(r_old[k] == g);
                        }
                    }
                    if r_old.contains(g) {
                        let k = choose|k: int| 0 <= k < r_old.len() && #[trigger] r_old[k] == g;
                        assert(r@[k] == g);
                    }
                    if g == x {
                        assert(r@[r@.len() - 1] == g);
                    }
                }
            }
        } else if r[j] == x {
            proof {
                assert forall|g: ArticleGroup| r@.contains(g) <==> (r_old.contains(g) || g
                    == x) by {
                    if g == x {
                        assert(r@[j as int] == g);
                    }
                }
            }
        } else {
            proof {
                r_old.insert_ensures(j as int, x);
                assert(!group_lt(r_old[j as int], x));
            }
            r.insert(j, x);
            proof {
                assert forall|g: ArticleGroup| r@.contains(g) <==> (r_old.contains(g) || g
                    == x) by {
                    lemma_insert_contains(r_old, j as int, x, g);
                }
                assert forall|a: int, b: int| 0 <= a < b < r@.len() implies group_lt(
                    #[trigger] r@[a],
                    #[trigger] r@[b],
                ) by {
                    if b < j {
                    } else if a < j && b == j {
                        assert(r@[b] == x);
                    } else if a < j && b > j {
                        assert(r@[b] == r_old[b - 1]);
                    } else if a == j {
                        assert(r@[a] == x);
                        assert(r@[b] == r_old[b - 1]);
                        assert(b - 1 >= j);
                    } else {
                        assert(r@[a] == r_old[a - 1] && r@[b] == r_old[b - 1]);
                    }
                }
            }
        }
        proof {
            assert(groups@.take(i + 1).drop_last() =~= groups@.take(i as int));
            assert(groups@.take(i + 1).last() == x);
            assert forall|g: ArticleGroup| groups@.take(i + 1).contains(g) <==> (groups@.take(
                i as int,
            ).contains(g) || g == x) by {
                if groups@.take(i + 1).contains(g) {
                    let k = choose|k: int|
                        0 <= k < i + 1 && #[trigger] groups@.take(i + 1)[k] == g;
                    if k < i {
                        assert(groups@.take(i as int)[k] == g);
                    }
                }
                if groups@.take(i as int).contains(g) {
                    let k = choose|k: int| 0 <= k < i && #[trigger] groups@.take(i as int)[k] == g;
                    assert(groups@.take(i + 1)[k] == g);
                }
                if g == x {
                    assert(groups@.take(i + 1)[i as int] == g);
                }
            }
            assert forall|g: ArticleGroup| r@.contains(g) <==> groups@.take(i + 1).contains(
                g,
            ) by {
                assert(r@.contains(g) <==> (r_old.contains(g) || g == x));
                assert(r_old.contains(g) <==> groups@.take(i as int).contains(g));
                assert(groups@.take(i + 1).contains(g) <==> (groups@.take(i as int).contains(g)
                    || g == x));
            }
        }
        i = i + 1;
    }
    proof {
        assert(groups@.take(groups.len() as int) =~= groups@);
    }
    r
}

/// The nodes of `listing` that are files recognized as articles, in
/// listing order.
pub open spec fn article_nodes(root: Seq<String>, listing: Seq<FsNode>) -> Seq<FsNode>
    decreases listing.len(),
{
    if listing.len() == 0 {
        Seq::empty()
    } else {
        let rest = article_nodes(root, listing.drop_last());
        let n = listing.last();
        if n.kind is File && is_article_file(root, n) {
            rest.push(n)
        } else {
            rest
        }
    }
}

/// The article nodes of consecutive listings, concatenated.
pub open spec fn all_article_nodes(root: Seq<String>, listings: Seq<Vec<FsNode>>) -> Seq<FsNode>
    decreases listings.len(),
{
    if listings.len() == 0 {
        Seq::empty()
    } else {
        all_article_nodes(root, listings.drop_last()) + article_nodes(root, listings.last()@)
    }
}

/// `files` records, element for element, the article files of `nodes`.
pub open spec fn article_files_match(
    root: Seq<String>,
    nodes: Seq<FsNode>,
    files: Seq<ArticleFile>,
) -> bool {
    files.len() == nodes.len() && forall|i: int|
        0 <= i < nodes.len() ==> group_node_matches(root, nodes[i], (#[trigger] files[i]).node)
            && article_id_matches(root, nodes[i], files[i].id)
}

/// The deduplicated, sorted groups under a content root, with the
/// article files found among each group's immediate children.
pub struct ContentDirectory {
    pub markdown_files: Vec<ArticleFile>,
    pub article_group: Vec<ArticleGroup>,
}

impl ContentDirectory {
    /// Assembles the content directory from the sorted groups and one
    /// immediate-children listing per group: every file recognized as
    /// an article is kept, in listing order; everything else is
    /// dropped silently.
    pub fn new(root: &Vec<String>, groups: Vec<ArticleGroup>, listings: &Vec<Vec<FsNode>>) -> (r:
        ContentDirectory)
        ensures
            r.article_group == groups,
            article_files_match(
                root@,
                all_article_nodes(root@, listings@),
                r.markdown_files@,
            ),
    {
        let mut files: Vec<ArticleFile> = Vec::new();
        let mut i: usize = 0;
        while i < listings.len()
            invariant
                0 <= i <= listings.len(),
                article_files_match(
                    root@,
                    all_article_nodes(root@, listings@.take(i as int)),
                    files@,
                ),
            decreases listings.len() - i,
        {
            let listing = &listings[i];
            let ghost done = all_article_nodes(root@, listings@.take(i as int));
            let mut k: usize = 0;
            while k < listing.len()
                invariant
                    0 <= k <= listing.len(),
                    listing == &listings[i as int],
                    0 <= i < listings.len(),
                    done == all_article_nodes(root@, listings@.take(i as int)),
                    article_files_match(
                        root@,
                        done + article_nodes(root@, listing@.take(k as int)),
                        files@,
                    ),
                decreases listing.len() - k,
            {
                proof {
                    assert(listing@.take(k + 1).drop_last() =~= listing@.take(k as int));
                    assert(listing@.take(k + 1).last() == listing@[k as int]);
                }
                let node = &listing[k];
                if node.kind == FsNodeKind::File {
                    match ArticleFile::from_file(node, root) {
                        Some(af) => {
                            files.push(af);
                            proof {
                                let nodes = done + article_nodes(root@, listing@.take(k + 1));
                                assert(nodes =~= (done + article_nodes(
                                    root@,
                                    listing@.take(k as int),
                                )).push(listing@[k as int]));
                            }
                        },
                        None => {},
                    }
                }
                proof {
                    assert(done + article_nodes(root@, listing@.take(k + 1))
                        =~= done + article_nodes(root@, listing@.take(k + 1)));
                }
                k = k + 1;
            }
            proof {
                assert(listing@.take(listing@.len() as int) =~= listing@);
                assert(listings@.take(i + 1).drop_last() =~= listings@.take(i as int));
                assert(listings@.take(i + 1).last() == listings@[i as int]);
            }
            i = i + 1;
        }
        proof {
            assert(listings@.take(listings.len() as int) =~= listings@);
        }
        ContentDirectory { article_group: groups, markdown_files: files }
    }
}

} // verus!
