//! Path classification and entity recognition: article groups parsed
//! from the first two path components, and the three entity kinds
//! recognized from the remaining suffix components.

use vstd::prelude::*;
use crate::model::ArticleIdentifier;
use crate::text::{dec_rep, dec_value, flat_token, group_dir_rep, lemma_dec_rep_len,
    lemma_dec_rep_props, lemma_dec_value_concat, lemma_zero_pad_props, parse_dec_u32,
    parse_dec_u8, parses_as_dec, pow10, u32_to_dec, u32_to_dec_padded, zero_pad};
use vstd::string::StrSliceExecFns;
use vstd::string::StringExecFns;

verus! {

/// What kind of filesystem node a path names.
#[derive(Clone, Copy, PartialEq, Eq, Structural)]
pub enum FsNodeKind {
    File,
    Directory,
}

/// A filesystem node: its kind and its absolute path as components.
pub struct FsNode {
    pub kind: FsNodeKind,
    pub path: Vec<String>,
}

/// Copies a component list; the copy reads the same.
pub fn clone_components(v: &Vec<String>) -> (r: Vec<String>)
    ensures
        r@ == v@,
{
    let mut r: Vec<String> = Vec::new();
    let mut i: usize = 0;
    while i < v.len()
        invariant
            0 <= i <= v.len(),
            r@ =~= v@.subrange(0, i as int),
        decreases v.len() - i,
    {
        r.push(v[i].clone());
        i = i + 1;
    }
    proof {
        assert(r@ =~= v@);
    }
    r
}

/// Same node: same kind, same path content.
pub open spec fn node_eq(a: FsNode, b: FsNode) -> bool {
    a.kind == b.kind && a.path@ == b.path@
}

impl FsNode {
    /// A copy of this node.
    pub fn duplicate(&self) -> (r: FsNode)
        ensures
            node_eq(r, *self),
    {
        FsNode { kind: self.kind, path: clone_components(&self.path) }
    }
}

/// `root` is a component-wise prefix of `path` (compared by content).
pub open spec fn is_path_prefix(root: Seq<String>, path: Seq<String>) -> bool {
    root.len() <= path.len() && forall|i: int| 0 <= i < root.len() ==> path[i]@ == #[trigger] root[i]@
}

/// The components of `path` after the prefix `root`.
pub open spec fn rel_of(root: Seq<String>, path: Seq<String>) -> Seq<String> {
    path.skip(root.len() as int)
}

/// Strips `root` from the front of `path`, content-wise, or refuses.
pub fn strip_prefix(path: &Vec<String>, root: &Vec<String>) -> (r: Option<Vec<String>>)
    ensures
        r is Some <==> is_path_prefix(root@, path@),
        r matches Some(rel) ==> rel@ == rel_of(root@, path@),
{
    if root.len() > path.len() {
        return None;
    }
    let mut i: usize = 0;
    while i < root.len()
        invariant
            0 <= i <= root.len(),
            root.len() <= path.len(),
            forall|j: int| 0 <= j < i ==> path@[j]@ == #[trigger] root@[j]@,
        decreases root.len() - i,
    {
        if !path[i].eq(&root[i]) {
            return None;
        }
        i = i + 1;
    }
    let mut rel: Vec<String> = Vec::new();
    let mut k: usize = root.len();
    while k < path.len()
        invariant
            root.len() <= k <= path.len(),
            rel@ =~= path@.subrange(root.len() as int, k as int),
        decreases path.len() - k,
    {
        rel.push(path[k].clone());
        k = k + 1;
    }
    proof {
        assert(rel@ =~= rel_of(root@, path@));
    }
    Some(rel)
}

/// A year-month bucket of articles.
#[derive(Clone, Copy, Debug, PartialEq, Eq, Structural)]
pub struct ArticleGroup {
    pub year: u32,
    pub month: u8,
}

/// The first two components of `rel` parse as a year and a month.
pub open spec fn group_parses(rel: Seq<String>) -> bool {
    rel.len() >= 2 && parses_as_dec(rel[0]@, u32::MAX as nat) && parses_as_dec(
        rel[1]@,
        u8::MAX as nat,
    )
}

/// The group the first two components of `rel` name.
pub open spec fn spec_group_of(rel: Seq<String>) -> ArticleGroup {
    ArticleGroup { year: dec_value(rel[0]@) as u32, month: dec_value(rel[1]@) as u8 }
}

/// Strict group order: by year, then month.
pub open spec fn group_lt(a: ArticleGroup, b: ArticleGroup) -> bool {
    a.year < b.year || (a.year == b.year && a.month < b.month)
}

impl ArticleGroup {
    /// Splits a root-relative path into its group and the suffix
    /// components, or refuses when the first two components are not
    /// a year and a month.
    pub fn from_path(rel: &Vec<String>) -> (r: Option<(ArticleGroup, Vec<String>)>)
        ensures
            r is Some <==> group_parses(rel@),
            r matches Some(p) ==> p.0 == spec_group_of(rel@) && p.1@ == rel@.skip(2),
    {
        if rel.len() < 2 {
            return None;
        }
        let year = match parse_dec_u32(rel[0].as_str()) {
            Some(y) => y,
            None => { return None },
        };
        let month = match parse_dec_u8(rel[1].as_str()) {
            Some(m) => m,
            None => { return None },
        };
        let mut suffix: Vec<String> = Vec::new();
        let mut i: usize = 2;
        while i < rel.len()
            invariant
                2 <= i <= rel.len(),
                suffix@ =~= rel@.subrange(2, i as int),
            decreases rel.len() - i,
        {
            suffix.push(rel[i].clone());
            i = i + 1;
        }
        proof {
            assert(suffix@ =~= rel@.skip(2));
        }
        Some((ArticleGroup { year, month }, suffix))
    }

    /// The group's on-disk directory path, unpadded `year/month`.
    pub fn group_dir_path(&self) -> (r: String)
        ensures
            r@ == group_dir_rep(self.year as nat, self.month as nat),
    {
        let mut s = u32_to_dec(self.year);
        s.append("/");
        let m = u32_to_dec(self.month as u32);
        s.append(m.as_str());
        proof {
            reveal_strlit("/");
            assert(s@ =~= group_dir_rep(self.year as nat, self.month as nat));
        }
        s
    }

    /// The group's flattened output token, zero-padded `YYYYMM`.
    pub fn group_dir_flat_path(&self) -> (r: String)
        ensures
            r@ == flat_token(self.year as nat, self.month as nat),
    {
        let mut s = u32_to_dec_padded(self.year, 4);
        let m = u32_to_dec_padded(self.month as u32, 2);
        s.append(m.as_str());
        s
    }

    /// Whether `self` orders strictly before `other`.
    pub fn lt(&self, other: &Self) -> (r: bool)
        ensures
            r == group_lt(*self, *other),
    {
        self.year < other.year || (self.year == other.year && self.month < other.month)
    }
}

/// The flattened token is always six characters for the years and
/// months that fit the padded widths.
pub proof fn lemma_flat_token_six_chars(year: nat, month: nat)
    requires
        year < 10000,
        month < 100,
    ensures
        flat_token(year, month).len() == 6,
{
    reveal_with_fuel(pow10, 5);
    lemma_dec_rep_props(year);
    lemma_dec_rep_props(month);
    lemma_dec_rep_len(year, 4);
    lemma_dec_rep_len(month, 2);
    lemma_zero_pad_props(dec_rep(year), 4);
    lemma_zero_pad_props(dec_rep(month), 2);
}

/// The flattened token reads back as `year * 100 + month`.
pub proof fn lemma_flat_token_value(year: nat, month: nat)
    requires
        month < 100,
    ensures
        dec_value(flat_token(year, month)) == year * 100 + month,
{
    reveal_with_fuel(pow10, 3);
    lemma_dec_rep_props(year);
    lemma_dec_rep_props(month);
    lemma_dec_rep_len(month, 2);
    lemma_zero_pad_props(dec_rep(year), 4);
    lemma_zero_pad_props(dec_rep(month), 2);
    lemma_dec_value_concat(zero_pad(dec_rep(year), 4), zero_pad(dec_rep(month), 2));
}

/// Distinct normalized groups get distinct flattened tokens: the
/// token determines year and month whenever the month is in range.
pub proof fn lemma_flat_token_injective(a: ArticleGroup, b: ArticleGroup)
    requires
        a.month < 100,
        b.month < 100,
        flat_token(a.year as nat, a.month as nat) == flat_token(b.year as nat, b.month as nat),
    ensures
        a.year == b.year,
        a.month == b.month,
{
    lemma_flat_token_value(a.year as nat, a.month as nat);
    lemma_flat_token_value(b.year as nat, b.month as nat);
}

/// `s` ends in the literal `.md` extension.
pub open spec fn has_md_ext(s: Seq<char>) -> bool {
    s.len() >= 3 && s[s.len() - 3] == '.' && s[s.len() - 2] == 'm' && s[s.len() - 1] == 'd'
}

/// `s` without its three-character extension.
pub open spec fn md_stem(s: Seq<char>) -> Seq<char> {
    s.take(s.len() - 3)
}

/// `s` holds no dot.
pub open spec fn no_dot(s: Seq<char>) -> bool {
    forall|i: int| 0 <= i < s.len() ==> (#[trigger] s[i]) != '.'
}

/// The characters of `s` before its first underscore (all of `s` when
/// there is none).
pub open spec fn day_prefix(s: Seq<char>) -> Seq<char>
    decreases s.len(),
{
    if s.len() == 0 {
        Seq::empty()
    } else if s[0] == '_' {
        Seq::empty()
    } else {
        seq![s[0]] + day_prefix(s.skip(1))
    }
}

/// An article file component: a `.md` name with a single dot whose
/// leading day part parses as an 8-bit integer.
pub open spec fn is_article_component(s: Seq<char>) -> bool {
    has_md_ext(s) && no_dot(md_stem(s)) && parses_as_dec(day_prefix(md_stem(s)), u8::MAX as nat)
}

/// The day an article component names.
pub open spec fn article_day(s: Seq<char>) -> nat {
    dec_value(day_prefix(md_stem(s)))
}

/// The day prefix is the run of characters before the first underscore.
pub proof fn lemma_day_prefix_take(s: Seq<char>, k: int)
    requires
        0 <= k <= s.len(),
        forall|i: int| 0 <= i < k ==> (#[trigger] s[i]) != '_',
        k < s.len() ==> s[k] == '_',
    ensures
        day_prefix(s) == s.take(k),
    decreases s.len(),
{
    if k == 0 {
        assert(day_prefix(s) =~= s.take(0));
    } else {
        assert(s[0] != '_');
        lemma_day_prefix_take(s.skip(1), k - 1);
        assert(day_prefix(s) == seq![s[0]] + s.skip(1).take(k - 1));
        assert(seq![s[0]] + s.skip(1).take(k - 1) =~= s.take(k));
    }
}

/// `node` sits under `root` and its first two relative components
/// name a group.
pub open spec fn node_classifies(root: Seq<String>, node: FsNode) -> bool {
    is_path_prefix(root, node.path@) && group_parses(rel_of(root, node.path@))
}

/// The group a classified node belongs to.
pub open spec fn node_group(root: Seq<String>, node: FsNode) -> ArticleGroup {
    spec_group_of(rel_of(root, node.path@))
}

/// The suffix components of a classified node.
pub open spec fn node_suffix(root: Seq<String>, node: FsNode) -> Seq<String> {
    node.path@.skip(root.len() as int + 2)
}

/// A node together with its classification: group, root-relative path,
/// and suffix components.
pub struct ArticleGroupNode {
    pub group: ArticleGroup,
    pub node: FsNode,
    pub relative_path: Vec<String>,
    pub suffix_components: Vec<String>,
}

/// `n` faithfully records the classification of `node` against `root`.
pub open spec fn group_node_matches(root: Seq<String>, node: FsNode, n: ArticleGroupNode) -> bool {
    &&& node_eq(n.node, node)
    &&& n.group == node_group(root, node)
    &&& n.relative_path@ == rel_of(root, node.path@)
    &&& n.suffix_components@ == node_suffix(root, node)
}

impl ArticleGroupNode {
    /// Classifies a node against the content root, or refuses when it
    /// lies outside the root or its first two relative components are
    /// not a year and a month.
    pub fn from_node(node: FsNode, root: &Vec<String>) -> (r: Option<ArticleGroupNode>)
        ensures
            r is Some <==> node_classifies(root@, node),
            r matches Some(n) ==> group_node_matches(root@, node, n),
    {
        let rel = match strip_prefix(&node.path, root) {
            Some(r) => r,
            None => { return None },
        };
        match ArticleGroup::from_path(&rel) {
            Some((group, suffix)) => {
                proof {
                    assert(suffix@ =~= node_suffix(root@, node));
                }
                Some(ArticleGroupNode { group, node, relative_path: rel, suffix_components: suffix })
            },
            None => None,
        }
    }
}

/// The string `assets`.
fn assets_string() -> (s: String)
    ensures
        s@ == "assets"@,
{
    String::from_str("assets")
}

/// Parses one suffix component as an article file name, yielding the
/// slug (the full stem) and the day.
fn parse_article_component(c: &str) -> (r: Option<(String, u8)>)
    ensures
        r is Some <==> is_article_component(c@),
        r matches Some(p) ==> p.0@ == md_stem(c@) && p.1 as nat == article_day(c@),
{
    let n = c.unicode_len();
    if n < 3 {
        return None;
    }
    if c.get_char(n - 3) != '.' || c.get_char(n - 2) != 'm' || c.get_char(n - 1) != 'd' {
        return None;
    }
    let stem_len = n - 3;
    let mut i: usize = 0;
    let mut day_end: usize = stem_len;
    while i < stem_len
        invariant
            0 <= i <= stem_len,
            n == c@.len(),
            n >= 3,
            stem_len == n - 3,
            forall|j: int| 0 <= j < i ==> (#[trigger] c@[j]) != '.',
            day_end <= stem_len,
            day_end == stem_len ==> forall|j: int| 0 <= j < i ==> (#[trigger] c@[j]) != '_',
            day_end < stem_len ==> day_end < i && c@[day_end as int] == '_' && forall|j: int|
                0 <= j < day_end ==> (#[trigger] c@[j]) != '_',
        decreases stem_len - i,
    {
        let ch = c.get_char(i);
        if ch == '.' {
            proof {
                assert(md_stem(c@)[i as int] == '.');
            }
            return None;
        }
        if ch == '_' && day_end == stem_len {
            day_end = i;
        }
        i = i + 1;
    }
    proof {
        assert forall|j: int| 0 <= j < md_stem(c@).len() implies (#[trigger] md_stem(c@)[j])
            != '.' by {
            assert(md_stem(c@)[j] == c@[j]);
        }
        assert forall|j: int| 0 <= j < day_end implies (#[trigger] md_stem(c@)[j]) != '_' by {
            assert(md_stem(c@)[j] == c@[j]);
        }
        lemma_day_prefix_take(md_stem(c@), day_end as int);
        assert(md_stem(c@).take(day_end as int) =~= c@.subrange(0, day_end as int));
    }
    let day_str = c.substring_char(0, day_end);
    match parse_dec_u8(day_str) {
        None => None,
        Some(day) => {
            let stem = c.substring_char(0, stem_len);
            proof {
                assert(stem@ == md_stem(c@));
            }
            Some((stem.to_owned(), day))
        },
    }
}

/// The suffix shape of an article file: exactly one component, of
/// article shape.
pub open spec fn is_article_suffix(sfx: Seq<String>) -> bool {
    sfx.len() == 1 && is_article_component(sfx[0]@)
}

/// `node` is recognized as an article file under `root`.
pub open spec fn is_article_file(root: Seq<String>, node: FsNode) -> bool {
    node_classifies(root, node) && is_article_suffix(node_suffix(root, node))
}

/// The suffix shape of an asset file: `assets` and at least one
/// further component.
pub open spec fn is_asset_suffix(sfx: Seq<String>) -> bool {
    sfx.len() >= 2 && sfx[0]@ == "assets"@
}

/// `node` is recognized as an asset file under `root`.
pub open spec fn is_asset_file(root: Seq<String>, node: FsNode) -> bool {
    node_classifies(root, node) && is_asset_suffix(node_suffix(root, node))
}

/// The suffix shape of an asset-root directory: exactly `assets`.
pub open spec fn is_asset_root_suffix(sfx: Seq<String>) -> bool {
    sfx.len() == 1 && sfx[0]@ == "assets"@
}

/// `node` is recognized as an asset-root directory under `root`.
pub open spec fn is_asset_root_dir(root: Seq<String>, node: FsNode) -> bool {
    node_classifies(root, node) && is_asset_root_suffix(node_suffix(root, node))
}

/// `id` is the identifier an article node gets: flattened group token,
/// full-stem slug, and the (year, month, day) date.
pub open spec fn article_id_matches(root: Seq<String>, node: FsNode, id: ArticleIdentifier) -> bool {
    let g = node_group(root, node);
    let c = node_suffix(root, node)[0]@;
    &&& id.group@ == flat_token(g.year as nat, g.month as nat)
    &&& id.slug@ == md_stem(c)
    &&& id.date.0 == g.year
    &&& id.date.1 == g.month
    &&& id.date.2 as nat == article_day(c)
}

/// An article file: its classified node and its identifier.
pub struct ArticleFile {
    pub node: ArticleGroupNode,
    pub id: ArticleIdentifier,
}

impl ArticleFile {
    /// Recognizes a file as an article, or refuses any other shape.
    pub fn from_file(file: &FsNode, root: &Vec<String>) -> (r: Option<ArticleFile>)
        requires
            file.kind == FsNodeKind::File,
        ensures
            r is Some <==> is_article_file(root@, *file),
            r matches Some(af) ==> group_node_matches(root@, *file, af.node) && article_id_matches(
                root@,
                *file,
                af.id,
            ),
    {
        let node = match ArticleGroupNode::from_node(file.duplicate(), root) {
            Some(n) => n,
            None => { return None },
        };
        if node.suffix_components.len() != 1 {
            return None;
        }
        match parse_article_component(node.suffix_components[0].as_str()) {
            None => None,
            Some((slug, day)) => {
                let token = node.group.group_dir_flat_path();
                let date = (node.group.year, node.group.month, day);
                let id = ArticleIdentifier { group: token, slug, date };
                Some(ArticleFile { node, id })
            },
        }
    }

    /// The recognized file node.
    pub fn file(&self) -> (r: &FsNode)
        ensures
            r == &self.node.node,
    {
        &self.node.node
    }
}

/// An asset file: a file nested inside a group's assets directory.
pub struct AssetFile(pub ArticleGroupNode);

impl AssetFile {
    /// Recognizes a file as an asset, or refuses any other shape.
    pub fn from_file(file: &FsNode, root: &Vec<String>) -> (r: Option<AssetFile>)
        requires
            file.kind == FsNodeKind::File,
        ensures
            r is Some <==> is_asset_file(root@, *file),
            r matches Some(af) ==> group_node_matches(root@, *file, af.0),
    {
        let node = match ArticleGroupNode::from_node(file.duplicate(), root) {
            Some(n) => n,
            None => { return None },
        };
        if node.suffix_components.len() >= 2 && node.suffix_components[0].eq(&assets_string()) {
            Some(AssetFile(node))
        } else {
            None
        }
    }

    /// The recognized file node.
    pub fn file(&self) -> (r: &FsNode)
        ensures
            r == &self.0.node,
    {
        &self.0.node
    }
}

/// A group's asset-root directory.
pub struct AssetRootDir(pub ArticleGroupNode);

impl AssetRootDir {
    /// Recognizes a directory as a group's asset root, or refuses any
    /// other shape.
    pub fn from_dir(dir: &FsNode, root: &Vec<String>) -> (r: Option<AssetRootDir>)
        requires
            dir.kind == FsNodeKind::Directory,
        ensures
            r is Some <==> is_asset_root_dir(root@, *dir),
            r matches Some(ad) ==> group_node_matches(root@, *dir, ad.0),
    {
        let node = match ArticleGroupNode::from_node(dir.duplicate(), root) {
            Some(n) => n,
            None => { return None },
        };
        if node.suffix_components.len() == 1 && node.suffix_components[0].eq(&assets_string()) {
            Some(AssetRootDir(node))
        } else {
            None
        }
    }

    /// The recognized directory node.
    pub fn directory(&self) -> (r: &FsNode)
        ensures
            r == &self.0.node,
    {
        &self.0.node
    }
}

/// The three recognizers accept pairwise disjoint suffix shapes: no
/// path is two kinds of entity at once.
pub proof fn lemma_recognizers_mutually_exclusive(root: Seq<String>, node: FsNode)
    ensures
        !(is_article_file(root, node) && is_asset_file(root, node)),
        !(is_article_file(root, node) && is_asset_root_dir(root, node)),
        !(is_asset_file(root, node) && is_asset_root_dir(root, node)),
{
    reveal_strlit("assets");
    if is_article_file(root, node) && is_asset_root_dir(root, node) {
        let c = node_suffix(root, node)[0]@;
        assert(c == "assets"@);
        assert(c.len() == 6);
        assert(c[3] == 'e');
        assert(has_md_ext(c));
        assert(false);
    }
}

/// For a path `root/Y/M/D_slug.md` whose year and month parse as
/// non-negative integers and whose day parses as an 8-bit integer,
/// classification yields an article file whose identifier carries the
/// date `(Y, M, D)` and the full stem `D_slug` as slug.
pub proof fn lemma_article_path_classification(root: Seq<String>, node: FsNode)
    requires
        is_path_prefix(root, node.path@),
        node.path@.len() == root.len() as int + 3,
        parses_as_dec(node.path@[root.len() as int]@, u32::MAX as nat),
        parses_as_dec(node.path@[root.len() as int + 1]@, u8::MAX as nat),
        is_article_component(node.path@[root.len() as int + 2]@),
    ensures
        is_article_file(root, node),
        !is_asset_file(root, node),
        !is_asset_root_dir(root, node),
        forall|id: ArticleIdentifier|
            article_id_matches(root, node, id) ==> id.date.0 as nat == dec_value(
                node.path@[root.len() as int]@,
            ) && id.date.1 as nat == dec_value(node.path@[root.len() as int + 1]@) && id.date.2 as nat
                == article_day(node.path@[root.len() as int + 2]@) && id.slug@ == md_stem(
                node.path@[root.len() as int + 2]@,
            ),
{
    let rel = rel_of(root, node.path@);
    assert(rel[0] == node.path@[root.len() as int]);
    assert(rel[1] == node.path@[root.len() as int + 1]);
    assert(node_suffix(root, node) =~= rel.skip(2));
    assert(node_suffix(root, node)[0] == node.path@[root.len() as int + 2]);
    lemma_recognizers_mutually_exclusive(root, node);
}

/// For a path `root/Y/M/assets/...` with at least one component after
/// `assets`, classification yields an asset file; for exactly
/// `root/Y/M/assets`, an asset-root directory.
pub proof fn lemma_asset_path_classification(root: Seq<String>, node: FsNode)
    requires
        is_path_prefix(root, node.path@),
        node.path@.len() >= root.len() as int + 3,
        parses_as_dec(node.path@[root.len() as int]@, u32::MAX as nat),
        parses_as_dec(node.path@[root.len() as int + 1]@, u8::MAX as nat),
        node.path@[root.len() as int + 2]@ == "assets"@,
    ensures
        node.path@.len() >= root.len() as int + 4 ==> is_asset_file(root, node) && !is_article_file(
            root,
            node,
        ) && !is_asset_root_dir(root, node),
        node.path@.len() == root.len() as int + 3 ==> is_asset_root_dir(root, node) && !is_article_file(
            root,
            node,
        ) && !is_asset_file(root, node),
{
    let rel = rel_of(root, node.path@);
    assert(rel[0] == node.path@[root.len() as int]);
    assert(rel[1] == node.path@[root.len() as int + 1]);
    assert(node_suffix(root, node)[0] == node.path@[root.len() as int + 2]);
    lemma_recognizers_mutually_exclusive(root, node);
}

} // verus!
