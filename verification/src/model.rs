//! Core value model: the generation context, article identifiers and
//! their total order, and parsed article content.

use vstd::prelude::*;
use crate::text::{chars_lt, lemma_chars_lt_asymmetric, lemma_chars_lt_connex,
    lemma_chars_lt_transitive, str_lt};

verus! {

/// Configuration value threaded through page generation.
#[derive(Clone, Copy)]
pub struct GenerationContext {
    pub release: bool,
}

/// Identifies one article: the flattened token of its group, its slug,
/// and its date as (year, month, day).
pub struct ArticleIdentifier {
    pub group: String,
    pub slug: String,
    pub date: (u32, u8, u8),
}

/// Date order: year, then month, then day.
pub open spec fn date_lt(a: (u32, u8, u8), b: (u32, u8, u8)) -> bool {
    ||| a.0 < b.0
    ||| (a.0 == b.0 && a.1 < b.1)
    ||| (a.0 == b.0 && a.1 == b.1 && a.2 < b.2)
}

/// Strict identifier order: by date, ties broken by slug.
pub open spec fn id_lt(a: ArticleIdentifier, b: ArticleIdentifier) -> bool {
    ||| date_lt(a.date, b.date)
    ||| (a.date == b.date && chars_lt(a.slug@, b.slug@))
}

/// Identifier equivalence under the order: same date and same slug.
pub open spec fn id_eqv(a: ArticleIdentifier, b: ArticleIdentifier) -> bool {
    a.date == b.date && a.slug@ == b.slug@
}

/// Non-strict identifier order.
pub open spec fn id_le(a: ArticleIdentifier, b: ArticleIdentifier) -> bool {
    id_lt(a, b) || id_eqv(a, b)
}

/// Any two identifiers are comparable.
pub proof fn lemma_id_le_total(a: ArticleIdentifier, b: ArticleIdentifier)
    ensures
        id_le(a, b) || id_le(b, a),
{
    lemma_chars_lt_connex(a.slug@, b.slug@);
}

/// The non-strict identifier order is transitive.
pub proof fn lemma_id_le_trans(a: ArticleIdentifier, b: ArticleIdentifier, c: ArticleIdentifier)
    requires
        id_le(a, b),
        id_le(b, c),
    ensures
        id_le(a, c),
{
    if a.date == b.date && b.date == c.date {
        if chars_lt(a.slug@, b.slug@) && chars_lt(b.slug@, c.slug@) {
            lemma_chars_lt_transitive(a.slug@, b.slug@, c.slug@);
        }
    }
}

impl ArticleIdentifier {
    /// Whether `self` orders strictly before `other`.
    pub fn lt(&self, other: &Self) -> (r: bool)
        ensures
            r == id_lt(*self, *other),
    {
        if self.date.0 != other.date.0 {
            self.date.0 < other.date.0
        } else if self.date.1 != other.date.1 {
            self.date.1 < other.date.1
        } else if self.date.2 != other.date.2 {
            self.date.2 < other.date.2
        } else {
            proof {
                lemma_chars_lt_asymmetric(self.slug@, other.slug@);
            }
            str_lt(self.slug.as_str(), other.slug.as_str())
        }
    }

    /// Whether `self` orders no later than `other`.
    pub fn le(&self, other: &Self) -> (r: bool)
        ensures
            r == id_le(*self, *other),
    {
        proof {
            lemma_id_le_total(*self, *other);
            lemma_chars_lt_asymmetric(self.slug@, other.slug@);
        }
        let r = other.lt(self);
        !r
    }
}

/// The title and brief of one article.
pub struct ArticleMetadata {
    pub title: String,
    pub brief: String,
}

/// A parsed article: identifier, metadata, and body content.
pub struct Article {
    pub id: ArticleIdentifier,
    pub metadata: ArticleMetadata,
    pub content: String,
}

} // verus!
