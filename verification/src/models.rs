//! The values the store holds and hands out: stored rows, quotes, memo
//! versions and assets, and what is given to insert new ones.

use vstd::prelude::*;
use crate::tags::stored_tags;
use crate::time::{stored_time, UtcTime};

verus! {

/// The characters of an optional string.
pub open spec fn opt_view(o: Option<String>) -> Option<Seq<char>> {
    match o {
        Some(s) => Some(s@),
        None => None,
    }
}

/// A copy of an optional string.
pub fn clone_opt(o: &Option<String>) -> (res: Option<String>)
    ensures
        opt_view(res) == opt_view(*o),
{
    match o {
        Some(s) => Some(s.clone()),
        None => None,
    }
}

/// A copy of a list of strings.
pub fn clone_strings(v: &Vec<String>) -> (res: Vec<String>)
    ensures
        res.deep_view() == v.deep_view(),
{
    let mut res: Vec<String> = Vec::new();
    let mut i: usize = 0;
    while i < v.len()
        invariant
            i <= v@.len(),
            res@.len() == i,
            forall|k: int| 0 <= k < i ==> #[trigger] res@[k]@ == v@[k]@,
        decreases v@.len() - i,
    {
        let c = v[i].clone();
        res.push(c);
        i = i + 1;
    }
    assert(res.deep_view() =~= v.deep_view());
    res
}

// ── Stored rows ─────────────────────────────────────────────────────────────

/// A row of the `quotes` table, as stored.
#[derive(Debug)]
pub struct QuoteRow {
    pub id: String,
    pub quote: String,
    pub source_title: Option<String>,
    pub source_author: Option<String>,
    pub source_url: Option<String>,
    /// The tags, as a JSON array of strings.
    pub tags_json: String,
    /// The embedding, as little-endian words (see `blob`).
    pub embedding: Option<Vec<u8>>,
    /// The creation time, as RFC 3339 text.
    pub created_at: String,
}

pub struct QuoteRecord {
    pub id: Seq<char>,
    pub quote: Seq<char>,
    pub source_title: Option<Seq<char>>,
    pub source_author: Option<Seq<char>>,
    pub source_url: Option<Seq<char>>,
    pub tags_json: Seq<char>,
    pub embedding: Option<Seq<u8>>,
    pub created_at: Seq<char>,
}

impl View for QuoteRow {
    type V = QuoteRecord;

    open spec fn view(&self) -> QuoteRecord {
        QuoteRecord {
            id: self.id@,
            quote: self.quote@,
            source_title: opt_view(self.source_title),
            source_author: opt_view(self.source_author),
            source_url: opt_view(self.source_url),
            tags_json: self.tags_json@,
            embedding: match self.embedding {
                Some(b) => Some(b@),
                None => None,
            },
            created_at: self.created_at@,
        }
    }
}

/// A row of the `memo_versions` table, as stored.
#[derive(Debug)]
pub struct MemoRow {
    pub id: i64,
    pub quote_id: String,
    pub version: i64,
    pub memo: String,
    /// The creation time, as RFC 3339 text.
    pub created_at: String,
}

pub struct MemoRecord {
    pub id: i64,
    pub quote_id: Seq<char>,
    pub version: i64,
    pub memo: Seq<char>,
    pub created_at: Seq<char>,
}

impl View for MemoRow {
    type V = MemoRecord;

    open spec fn view(&self) -> MemoRecord {
        MemoRecord {
            id: self.id,
            quote_id: self.quote_id@,
            version: self.version,
            memo: self.memo@,
            created_at: self.created_at@,
        }
    }
}

/// A row of the `assets` table, as stored.
#[derive(Debug)]
pub struct AssetRow {
    pub hash: String,
    pub ext: String,
    pub note: Option<String>,
    /// The creation time, as RFC 3339 text.
    pub created_at: String,
}

pub struct AssetRecord {
    pub hash: Seq<char>,
    pub ext: Seq<char>,
    pub note: Option<Seq<char>>,
    pub created_at: Seq<char>,
}

impl View for AssetRow {
    type V = AssetRecord;

    open spec fn view(&self) -> AssetRecord {
        AssetRecord {
            hash: self.hash@,
            ext: self.ext@,
            note: opt_view(self.note),
            created_at: self.created_at@,
        }
    }
}

// ── What the store hands out ────────────────────────────────────────────────

/// A quote with its source and tags.
#[derive(Debug)]
pub struct Quote {
    pub id: String,
    pub quote: String,
    pub source_title: Option<String>,
    pub source_author: Option<String>,
    pub source_url: Option<String>,
    pub tags: Vec<String>,
    pub created_at: UtcTime,
}

pub struct QuoteView {
    pub id: Seq<char>,
    pub quote: Seq<char>,
    pub source_title: Option<Seq<char>>,
    pub source_author: Option<Seq<char>>,
    pub source_url: Option<Seq<char>>,
    pub tags: Seq<Seq<char>>,
    pub created_at: (i64, u32),
}

impl View for Quote {
    type V = QuoteView;

    open spec fn view(&self) -> QuoteView {
        QuoteView {
            id: self.id@,
            quote: self.quote@,
            source_title: opt_view(self.source_title),
            source_author: opt_view(self.source_author),
            source_url: opt_view(self.source_url),
            tags: self.tags.deep_view(),
            created_at: self.created_at@,
        }
    }
}

/// The quote that a stored row denotes: tags that are not a JSON array of
/// strings read as no tags, a time that does not parse reads as the epoch.
pub open spec fn quote_of(r: QuoteRecord) -> QuoteView {
    QuoteView {
        id: r.id,
        quote: r.quote,
        source_title: r.source_title,
        source_author: r.source_author,
        source_url: r.source_url,
        tags: stored_tags(r.tags_json),
        created_at: stored_time(r.created_at),
    }
}

/// One version of the memo of a quote.
#[derive(Debug)]
pub struct MemoVersion {
    pub id: i64,
    pub quote_id: String,
    pub version: i64,
    /// The memo text; it may hold `{{img:hash}}` / `{{vid:hash}}` markers.
    pub memo: String,
    pub created_at: UtcTime,
}

pub struct MemoVersionView {
    pub id: i64,
    pub quote_id: Seq<char>,
    pub version: i64,
    pub memo: Seq<char>,
    pub created_at: (i64, u32),
}

impl View for MemoVersion {
    type V = MemoVersionView;

    open spec fn view(&self) -> MemoVersionView {
        MemoVersionView {
            id: self.id,
            quote_id: self.quote_id@,
            version: self.version,
            memo: self.memo@,
            created_at: self.created_at@,
        }
    }
}

/// The memo version that a stored row denotes.
pub open spec fn memo_of(r: MemoRecord) -> MemoVersionView {
    MemoVersionView {
        id: r.id,
        quote_id: r.quote_id,
        version: r.version,
        memo: r.memo,
        created_at: stored_time(r.created_at),
    }
}

/// A media file kept beside the store, named by its hash.
#[derive(Debug)]
pub struct Asset {
    pub hash: String,
    pub ext: String,
    pub note: Option<String>,
    pub created_at: UtcTime,
}

pub struct AssetView {
    pub hash: Seq<char>,
    pub ext: Seq<char>,
    pub note: Option<Seq<char>>,
    pub created_at: (i64, u32),
}

impl View for Asset {
    type V = AssetView;

    open spec fn view(&self) -> AssetView {
        AssetView {
            hash: self.hash@,
            ext: self.ext@,
            note: opt_view(self.note),
            created_at: self.created_at@,
        }
    }
}

/// The asset that a stored row denotes.
pub open spec fn asset_of(r: AssetRecord) -> AssetView {
    AssetView { hash: r.hash, ext: r.ext, note: r.note, created_at: stored_time(r.created_at) }
}

// ── What is given to insert ─────────────────────────────────────────────────

/// A new quote, with the first version of its memo.
#[derive(Debug)]
pub struct QuoteInsert {
    pub quote: String,
    pub source_title: Option<String>,
    pub source_author: Option<String>,
    pub source_url: Option<String>,
    pub tags: Vec<String>,
    pub memo: Option<String>,
}

pub struct QuoteInsertView {
    pub quote: Seq<char>,
    pub source_title: Option<Seq<char>>,
    pub source_author: Option<Seq<char>>,
    pub source_url: Option<Seq<char>>,
    pub tags: Seq<Seq<char>>,
    pub memo: Option<Seq<char>>,
}

impl View for QuoteInsert {
    type V = QuoteInsertView;

    open spec fn view(&self) -> QuoteInsertView {
        QuoteInsertView {
            quote: self.quote@,
            source_title: opt_view(self.source_title),
            source_author: opt_view(self.source_author),
            source_url: opt_view(self.source_url),
            tags: self.tags.deep_view(),
            memo: opt_view(self.memo),
        }
    }
}

/// A new asset.
#[derive(Debug)]
pub struct AssetInsert {
    pub hash: String,
    pub ext: String,
    pub note: Option<String>,
}

pub struct AssetInsertView {
    pub hash: Seq<char>,
    pub ext: Seq<char>,
    pub note: Option<Seq<char>>,
}

impl View for AssetInsert {
    type V = AssetInsertView;

    open spec fn view(&self) -> AssetInsertView {
        AssetInsertView { hash: self.hash@, ext: self.ext@, note: opt_view(self.note) }
    }
}

} // verus!
