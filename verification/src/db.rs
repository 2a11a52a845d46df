//! The store: the `quotes`, `memo_versions` and `assets` tables, and the
//! queries and updates the application makes on them.
//!
//! Rows are kept in the order in which they were written. Reading a quote,
//! a memo or an asset back gives what was written; memo versions are only
//! ever appended, each numbered one past the greatest number its quote had.

use vstd::prelude::*;
use crate::blob::{blob_of, blob_to_embedding, embedding_to_blob, words_of};
use crate::error::DbError;
use crate::models::{
    asset_of, clone_opt, memo_of, quote_of, Asset, AssetInsert,
    AssetRecord, AssetRow, AssetView, MemoRecord, MemoRow, MemoVersion, MemoVersionView, Quote,
    QuoteInsert, QuoteInsertView, AssetInsertView, QuoteRecord, QuoteRow, QuoteView,
};
use crate::sort::{key_view, order_int_asc, order_text_desc};
use crate::tags::{json_of_strings, stored_tags, tags_from_json, tags_to_json};
use crate::text::{chars_of, str_eq, text_le};
use crate::time::{now_rfc3339, utc_parse, UtcTime};

verus! {

/// The contents of the store.
pub struct DbState {
    pub quotes: Seq<QuoteRecord>,
    pub memos: Seq<MemoRecord>,
    pub assets: Seq<AssetRecord>,
    /// The greatest memo row id ever handed out (0 when none was).
    pub last_memo_id: i64,
}

/// No two quote rows share an id.
pub open spec fn quote_ids_distinct(q: Seq<QuoteRecord>) -> bool {
    forall|i: int, j: int|
        #![trigger q[i], q[j]]
        0 <= i < q.len() && 0 <= j < q.len() && i != j ==> q[i].id != q[j].id
}

/// No two memo rows share an id.
pub open spec fn memo_ids_distinct(m: Seq<MemoRecord>) -> bool {
    forall|i: int, j: int|
        #![trigger m[i], m[j]]
        0 <= i < m.len() && 0 <= j < m.len() && i != j ==> m[i].id != m[j].id
}

/// No two asset rows share a hash.
pub open spec fn asset_hashes_distinct(a: Seq<AssetRecord>) -> bool {
    forall|i: int, j: int|
        #![trigger a[i], a[j]]
        0 <= i < a.len() && 0 <= j < a.len() && i != j ==> a[i].hash != a[j].hash
}

/// The keys of the tables are distinct, and no memo row id exceeds the last
/// one handed out. (A memo row may name a quote that is not stored: a store
/// written with foreign keys off can hold such rows, and they are kept.)
pub open spec fn wf_state(s: DbState) -> bool {
    &&& quote_ids_distinct(s.quotes)
    &&& memo_ids_distinct(s.memos)
    &&& asset_hashes_distinct(s.assets)
    &&& forall|i: int| 0 <= i < s.memos.len() ==> #[trigger] s.memos[i].id <= s.last_memo_id
    &&& 0 <= s.last_memo_id
}

/// Some row of `quotes` has id `id`.
pub open spec fn id_in(quotes: Seq<QuoteRecord>, id: Seq<char>) -> bool {
    exists|j: int| 0 <= j < quotes.len() && #[trigger] quotes[j].id == id
}

/// The last memo row id handed out, given the rows and the counter kept
/// beside them: the greatest of the two, and of 0.
pub open spec fn last_memo_id_of(memos: Seq<MemoRecord>, counter: i64) -> i64
    decreases memos.len(),
{
    if memos.len() == 0 {
        if counter > 0 { counter } else { 0 }
    } else {
        let prev = last_memo_id_of(memos.drop_last(), counter);
        if memos.last().id > prev { memos.last().id } else { prev }
    }
}

/// Appending a quote row whose id no row has keeps the ids distinct.
proof fn lemma_push_quote_keeps_ids(q: Seq<QuoteRecord>, r: QuoteRecord)
    requires
        quote_ids_distinct(q),
        forall|k: int| 0 <= k < q.len() ==> (#[trigger] q[k]).id != r.id,
    ensures
        quote_ids_distinct(q.push(r)),
{
    let n = q.push(r);
    assert forall|i: int, j: int|
        #![trigger n[i], n[j]]
        0 <= i < n.len() && 0 <= j < n.len() && i != j implies n[i].id != n[j].id by {
        if i < q.len() {
            assert(n[i] == q[i]);
        }
        if j < q.len() {
            assert(n[j] == q[j]);
        }
    }
}

/// Appending a memo row whose id no row has keeps the ids distinct.
proof fn lemma_push_memo_keeps_ids(m: Seq<MemoRecord>, r: MemoRecord)
    requires
        memo_ids_distinct(m),
        forall|k: int| 0 <= k < m.len() ==> (#[trigger] m[k]).id != r.id,
    ensures
        memo_ids_distinct(m.push(r)),
{
    let n = m.push(r);
    assert forall|i: int, j: int|
        #![trigger n[i], n[j]]
        0 <= i < n.len() && 0 <= j < n.len() && i != j implies n[i].id != n[j].id by {
        if i < m.len() {
            assert(n[i] == m[i]);
        }
        if j < m.len() {
            assert(n[j] == m[j]);
        }
    }
}

/// Appending a memo row numbered one past the last id handed out keeps the
/// ids distinct, and none above the new last one.
proof fn lemma_push_memo_after_last(m: Seq<MemoRecord>, last: i64, r: MemoRecord)
    requires
        memo_ids_distinct(m),
        forall|k: int| 0 <= k < m.len() ==> #[trigger] m[k].id <= last,
        r.id == last + 1,
    ensures
        memo_ids_distinct(m.push(r)),
        forall|k: int| 0 <= k < m.len() + 1 ==> #[trigger] m.push(r)[k].id <= r.id,
{
    lemma_push_memo_keeps_ids(m, r);
    let n = m.push(r);
    assert forall|k: int| 0 <= k < m.len() + 1 implies #[trigger] n[k].id <= r.id by {
        if k < m.len() {
            assert(n[k] == m[k]);
        }
    }
}

/// Appending an asset row whose hash no row has keeps the hashes distinct.
proof fn lemma_push_asset_keeps_hashes(a: Seq<AssetRecord>, r: AssetRecord)
    requires
        asset_hashes_distinct(a),
        forall|k: int| 0 <= k < a.len() ==> (#[trigger] a[k]).hash != r.hash,
    ensures
        asset_hashes_distinct(a.push(r)),
{
    let n = a.push(r);
    assert forall|i: int, j: int|
        #![trigger n[i], n[j]]
        0 <= i < n.len() && 0 <= j < n.len() && i != j implies n[i].hash != n[j].hash by {
        if i < a.len() {
            assert(n[i] == a[i]);
        }
        if j < a.len() {
            assert(n[j] == a[j]);
        }
    }
}

/// Appending position `i` exactly when it is kept turns a record of the kept
/// positions below `i` into one of those below `i + 1`.
proof fn lemma_kept_positions_step(old_src: Seq<usize>, src: Seq<usize>, i: usize, keep: bool, kept: spec_fn(int) -> bool)
    requires
        forall|a: int| 0 <= a < old_src.len() ==> #[trigger] old_src[a] < i,
        forall|k: int| 0 <= k < i ==> (kept(k) <==> #[trigger] old_src.contains(k as usize)),
        src == if keep { old_src.push(i) } else { old_src },
        kept(i as int) == keep,
    ensures
        forall|k: int| 0 <= k < i + 1 ==> (kept(k) <==> #[trigger] src.contains(k as usize)),
{
    assert forall|k: int| 0 <= k < i + 1 implies (kept(k) <==> #[trigger] src.contains(k as usize)) by {
        if k < i {
            if old_src.contains(k as usize) {
                let w = choose|w: int| 0 <= w < old_src.len() && old_src[w] == k as usize;
                assert(src[w] == k as usize);
            }
            if src.contains(k as usize) {
                let w = choose|w: int| 0 <= w < src.len() && src[w] == k as usize;
                if w < old_src.len() {
                    assert(old_src[w] == k as usize);
                }
            }
        } else {
            if keep {
                assert(src[src.len() - 1] == i);
            } else if src.contains(k as usize) {
                let w = choose|w: int| 0 <= w < src.len() && src[w] == k as usize;
                assert(src[w] < i);
            }
        }
    }
}

// ── Queries on the contents ─────────────────────────────────────────────────

pub open spec fn has_quote(s: DbState, id: Seq<char>) -> bool {
    id_in(s.quotes, id)
}

/// The quote with this id, if there is one.
pub open spec fn lookup_quote(s: DbState, id: Seq<char>) -> Option<QuoteView> {
    if has_quote(s, id) {
        Some(quote_of(s.quotes[choose|i: int| 0 <= i < s.quotes.len() && #[trigger] s.quotes[i].id == id]))
    } else {
        None
    }
}

/// In a well-formed store, the quote found under the id of row `i` is the
/// quote of that row.
pub proof fn lemma_lookup_quote_in(s: DbState, i: int)
    requires
        wf_state(s),
        0 <= i < s.quotes.len(),
    ensures
        lookup_quote(s, s.quotes[i].id) == Some(quote_of(s.quotes[i])),
{
    let id = s.quotes[i].id;
    assert(has_quote(s, id));
    let j = choose|j: int| 0 <= j < s.quotes.len() && #[trigger] s.quotes[j].id == id;
    if j != i {
        assert(s.quotes[i].id != s.quotes[j].id);
    }
}

pub open spec fn has_asset(s: DbState, hash: Seq<char>) -> bool {
    exists|i: int| 0 <= i < s.assets.len() && #[trigger] s.assets[i].hash == hash
}

/// The asset with this hash, if there is one.
pub open spec fn lookup_asset(s: DbState, hash: Seq<char>) -> Option<AssetView> {
    if has_asset(s, hash) {
        Some(asset_of(s.assets[choose|i: int| 0 <= i < s.assets.len() && #[trigger] s.assets[i].hash == hash]))
    } else {
        None
    }
}

/// The greatest version number among the memo rows of quote `qid`, if any.
pub open spec fn max_version(memos: Seq<MemoRecord>, qid: Seq<char>) -> Option<i64>
    decreases memos.len(),
{
    if memos.len() == 0 {
        None
    } else {
        let prev = max_version(memos.drop_last(), qid);
        let m = memos.last();
        if m.quote_id == qid {
            match prev {
                Some(v) => Some(if v >= m.version { v } else { m.version }),
                None => Some(m.version),
            }
        } else {
            prev
        }
    }
}

/// The number the next memo version of quote `qid` gets: one past the
/// greatest it has, or 1 when it has none.
pub open spec fn next_version(s: DbState, qid: Seq<char>) -> int {
    match max_version(s.memos, qid) {
        Some(v) => v + 1,
        None => 1,
    }
}

/// Whether the stored row carries `tag`: one of the tags its JSON text
/// denotes is `tag` itself.
pub open spec fn tagged(tag: Seq<char>, r: QuoteRecord) -> bool {
    stored_tags(r.tags_json).contains(tag)
}

/// Whether a listing under `tag` (every row when `None`) takes the row.
pub open spec fn listed(tag: Option<Seq<char>>, r: QuoteRecord) -> bool {
    match tag {
        Some(t) => tagged(t, r),
        None => true,
    }
}

/// `res` holds the quotes of exactly the rows listed under `tag` (all rows
/// when `None`), each once, from the latest creation time to the earliest
/// (compared as text).
pub open spec fn lists_quotes(res: Seq<QuoteView>, rows: Seq<QuoteRecord>, tag: Option<Seq<char>>) -> bool {
    exists|idx: Seq<int>| #[trigger] quote_listing(res, rows, tag, idx)
}

/// `res` lists the rows at positions `idx` (see `lists_quotes`).
pub open spec fn quote_listing(
    res: Seq<QuoteView>,
    rows: Seq<QuoteRecord>,
    tag: Option<Seq<char>>,
    idx: Seq<int>,
) -> bool {
    &&& idx.len() == res.len()
    &&& idx.no_duplicates()
    &&& forall|i: int|
        0 <= i < idx.len() ==> {
            &&& 0 <= #[trigger] idx[i] < rows.len()
            &&& listed(tag, rows[idx[i]])
            &&& res[i] == quote_of(rows[idx[i]])
        }
    &&& forall|k: int| 0 <= k < rows.len() && listed(tag, #[trigger] rows[k]) ==> idx.contains(k)
    &&& forall|a: int, b: int|
        0 <= a < b < idx.len() ==> text_le(
            rows[#[trigger] idx[b]].created_at,
            rows[#[trigger] idx[a]].created_at,
        )
}

/// `res` holds the memo versions of exactly the rows of quote `qid`, each
/// once, from the lowest version number to the highest.
pub open spec fn lists_memos(res: Seq<MemoVersionView>, rows: Seq<MemoRecord>, qid: Seq<char>) -> bool {
    exists|idx: Seq<int>| #[trigger] memo_listing(res, rows, qid, idx)
}

/// `res` lists the rows at positions `idx` (see `lists_memos`).
pub open spec fn memo_listing(res: Seq<MemoVersionView>, rows: Seq<MemoRecord>, qid: Seq<char>, idx: Seq<int>) -> bool {
    &&& idx.len() == res.len()
    &&& idx.no_duplicates()
    &&& forall|i: int|
        0 <= i < idx.len() ==> {
            &&& 0 <= #[trigger] idx[i] < rows.len()
            &&& rows[idx[i]].quote_id == qid
            &&& res[i] == memo_of(rows[idx[i]])
        }
    &&& forall|k: int| 0 <= k < rows.len() && (#[trigger] rows[k]).quote_id == qid ==> idx.contains(k)
    &&& forall|a: int, b: int|
        0 <= a < b < idx.len() ==> rows[#[trigger] idx[a]].version <= rows[#[trigger] idx[b]].version
}

/// The stored embeddings, as (quote id, components) pairs in table order.
pub open spec fn embeddings_of(rows: Seq<QuoteRecord>) -> Seq<(Seq<char>, Seq<u32>)> {
    rows.filter_map(
        |r: QuoteRecord|
            match r.embedding {
                Some(b) => Some((r.id, words_of(b))),
                None => None,
            },
    )
}

pub open spec fn quote_views(v: Seq<Quote>) -> Seq<QuoteView> {
    v.map_values(|q: Quote| q@)
}

pub open spec fn memo_views(v: Seq<MemoVersion>) -> Seq<MemoVersionView> {
    v.map_values(|m: MemoVersion| m@)
}

pub open spec fn embedding_views(v: Seq<(String, Vec<u32>)>) -> Seq<(Seq<char>, Seq<u32>)> {
    v.map_values(|p: (String, Vec<u32>)| (p.0@, p.1@))
}

/// The text of the first memo version: the memo given, or empty text.
pub open spec fn memo_text(m: Option<Seq<char>>) -> Seq<char> {
    match m {
        Some(t) => t,
        None => Seq::empty(),
    }
}

/// The row that inserting `input` with id `id` at time `now` writes to
/// `quotes`.
pub open spec fn new_quote_record(
    id: Seq<char>,
    now: Seq<char>,
    input: QuoteInsertView,
    embedding: Option<Seq<u32>>,
) -> QuoteRecord {
    QuoteRecord {
        id,
        quote: input.quote,
        source_title: input.source_title,
        source_author: input.source_author,
        source_url: input.source_url,
        tags_json: json_of_strings(input.tags),
        embedding: match embedding {
            Some(e) => Some(blob_of(e)),
            None => None,
        },
        created_at: now,
    }
}

/// The outcome of inserting `input` (and, as its first memo version, its
/// memo) under id `id` at time `now`: `res` is what the insertion returned
/// and `new` the contents after it.
pub open spec fn quote_inserted(
    old: DbState,
    new: DbState,
    id: Seq<char>,
    now: Seq<char>,
    input: QuoteInsertView,
    embedding: Option<Seq<u32>>,
    res: Result<Seq<char>, DbError>,
) -> bool {
    let row = new_quote_record(id, now, input, embedding);
    let memo = MemoRecord {
        id: (old.last_memo_id + 1) as i64,
        quote_id: id,
        version: 1,
        memo: memo_text(input.memo),
        created_at: now,
    };
    match res {
        Ok(r) => {
            &&& r == id
            &&& !has_quote(old, id)
            &&& old.last_memo_id < i64::MAX
            &&& stored_tags(json_of_strings(input.tags)) == input.tags
            &&& new.quotes == old.quotes.push(row)
            &&& new.memos == old.memos.push(memo)
            &&& new.assets == old.assets
            &&& new.last_memo_id == old.last_memo_id + 1
        },
        Err(DbError::DuplicateQuoteId) => has_quote(old, id) && new == old,
        Err(DbError::MemoIdOverflow) => {
            &&& !has_quote(old, id)
            &&& old.last_memo_id == i64::MAX
            &&& new.quotes == old.quotes.push(row)
            &&& new.memos == old.memos
            &&& new.assets == old.assets
            &&& new.last_memo_id == old.last_memo_id
        },
        Err(_) => false,
    }
}

/// The outcome of adding `memo` as a new version of the memo of quote
/// `qid` at time `now`.
pub open spec fn memo_added(
    old: DbState,
    new: DbState,
    qid: Seq<char>,
    memo: Seq<char>,
    now: Seq<char>,
    res: Result<i64, DbError>,
) -> bool {
    match res {
        Ok(v) => {
            &&& v == next_version(old, qid)
            &&& has_quote(old, qid)
            &&& old.last_memo_id < i64::MAX
            &&& new.memos == old.memos.push(
                MemoRecord {
                    id: (old.last_memo_id + 1) as i64,
                    quote_id: qid,
                    version: v,
                    memo,
                    created_at: now,
                },
            )
            &&& new.quotes == old.quotes
            &&& new.assets == old.assets
            &&& new.last_memo_id == old.last_memo_id + 1
        },
        Err(DbError::VersionOverflow) => max_version(old.memos, qid) == Some(i64::MAX) && new
            == old,
        Err(DbError::UnknownQuote) => max_version(old.memos, qid) != Some(i64::MAX) && !has_quote(
            old,
            qid,
        ) && new == old,
        Err(DbError::MemoIdOverflow) => {
            &&& max_version(old.memos, qid) != Some(i64::MAX)
            &&& has_quote(old, qid)
            &&& old.last_memo_id == i64::MAX
            &&& new == old
        },
        Err(_) => false,
    }
}

/// The outcome of inserting the asset `input` at time `now`: a hash that is
/// already stored leaves everything as it was.
pub open spec fn asset_inserted(old: DbState, new: DbState, input: AssetInsertView, now: Seq<char>) -> bool {
    if has_asset(old, input.hash) {
        new == old
    } else {
        &&& new.assets == old.assets.push(
            AssetRecord { hash: input.hash, ext: input.ext, note: input.note, created_at: now },
        )
        &&& new.quotes == old.quotes
        &&& new.memos == old.memos
        &&& new.last_memo_id == old.last_memo_id
    }
}

pub open spec fn result_view(res: Result<String, DbError>) -> Result<Seq<char>, DbError> {
    match res {
        Ok(s) => Ok(s@),
        Err(e) => Err(e),
    }
}

pub open spec fn embedding_view(e: Option<Vec<u32>>) -> Option<Seq<u32>> {
    match e {
        Some(v) => Some(v@),
        None => None,
    }
}

/// The text form of a UUID: 36 characters, lowercase hexadecimal digits in
/// groups of 8, 4, 4, 4 and 12, separated by hyphens.
pub open spec fn uuid_text(s: Seq<char>) -> bool {
    &&& s.len() == 36
    &&& forall|i: int|
        0 <= i < 36 ==> if i == 8 || i == 13 || i == 18 || i == 23 {
            #[trigger] s[i] == '-'
        } else {
            (0x30 <= (s[i] as u32) <= 0x39) || (0x61 <= (s[i] as u32) <= 0x66)
        }
}

/// A fresh quote id: uuid's `Uuid::new_v4().to_string()`. The id is random;
/// its text is a hyphenated lowercase UUID (uuid's `Display` writes the
/// hyphenated lowercase form).
#[verifier::external_body]
fn new_quote_id() -> (res: String)
    ensures
        uuid_text(res@),
{
    uuid::Uuid::new_v4().to_string()
}

// ── The store ───────────────────────────────────────────────────────────────

/// The store's tables, held in memory.
pub struct Db {
    quotes: Vec<QuoteRow>,
    memos: Vec<MemoRow>,
    assets: Vec<AssetRow>,
    last_memo_id: i64,
}

impl View for Db {
    type V = DbState;

    closed spec fn view(&self) -> DbState {
        DbState {
            quotes: self.quotes@.map_values(|r: QuoteRow| r@),
            memos: self.memos@.map_values(|r: MemoRow| r@),
            assets: self.assets@.map_values(|r: AssetRow| r@),
            last_memo_id: self.last_memo_id,
        }
    }
}

/// Whether the tags that the stored JSON text denotes include `tag`.
fn carries_tag(tags_json: &str, tag: &str) -> (res: bool)
    ensures
        res == stored_tags(tags_json@).contains(tag@),
{
    let tags = tags_from_json(tags_json);
    let ghost tv = tags.deep_view();
    let mut i: usize = 0;
    while i < tags.len()
        invariant
            i <= tags@.len(),
            tv == tags.deep_view(),
            tv == stored_tags(tags_json@),
            forall|k: int| 0 <= k < i ==> tv[k] != tag@,
        decreases tags@.len() - i,
    {
        assert(tv[i as int] == tags@[i as int]@);
        if str_eq(tags[i].as_str(), tag) {
            assert(tv[i as int] == tag@);
            return true;
        }
        i = i + 1;
    }
    assert(!tv.contains(tag@)) by {
        if tv.contains(tag@) {
            let k = choose|k: int| 0 <= k < tv.len() && tv[k] == tag@;
        }
    }
    false
}

fn row_to_quote(r: &QuoteRow) -> (res: Quote)
    ensures
        res@ == quote_of(r@),
{
    Quote {
        id: r.id.clone(),
        quote: r.quote.clone(),
        source_title: clone_opt(&r.source_title),
        source_author: clone_opt(&r.source_author),
        source_url: clone_opt(&r.source_url),
        tags: tags_from_json(&r.tags_json),
        created_at: UtcTime::parse_or_epoch(&r.created_at),
    }
}

fn row_to_memo(r: &MemoRow) -> (res: MemoVersion)
    ensures
        res@ == memo_of(r@),
{
    MemoVersion {
        id: r.id,
        quote_id: r.quote_id.clone(),
        version: r.version,
        memo: r.memo.clone(),
        created_at: UtcTime::parse_or_epoch(&r.created_at),
    }
}

fn row_to_asset(r: &AssetRow) -> (res: Asset)
    ensures
        res@ == asset_of(r@),
{
    Asset {
        hash: r.hash.clone(),
        ext: r.ext.clone(),
        note: clone_opt(&r.note),
        created_at: UtcTime::parse_or_epoch(&r.created_at),
    }
}

impl Db {
    /// The store is well formed.
    pub open spec fn wf(&self) -> bool {
        wf_state(self@)
    }

    /// An empty store.
    pub fn new() -> (res: Db)
        ensures
            res.wf(),
            res@.quotes.len() == 0,
            res@.memos.len() == 0,
            res@.assets.len() == 0,
            res@.last_memo_id == 0,
    {
        let res = Db { quotes: Vec::new(), memos: Vec::new(), assets: Vec::new(), last_memo_id: 0 };
        res
    }

    fn find_quote(&self, id: &str) -> (res: Option<usize>)
        requires
            self.wf(),
        ensures
            match res {
                Some(i) => i < self@.quotes.len() && self@.quotes[i as int].id == id@,
                None => !has_quote(self@, id@),
            },
    {
        let mut i: usize = 0;
        while i < self.quotes.len()
            invariant
                i <= self.quotes@.len(),
                forall|k: int| 0 <= k < i ==> (#[trigger] self.quotes@[k]).id@ != id@,
            decreases self.quotes@.len() - i,
        {
            if str_eq(self.quotes[i].id.as_str(), id) {
                return Some(i);
            }
            i = i + 1;
        }
        assert(!has_quote(self@, id@)) by {
            if has_quote(self@, id@) {
                let k = choose|k: int| 0 <= k < self@.quotes.len() && #[trigger] self@.quotes[k].id == id@;
                assert(self.quotes@[k]@ == self@.quotes[k]);
            }
        }
        None
    }

    /// The quote with id `id`, if one is stored.
    pub fn get_quote(&self, id: &str) -> (res: Option<Quote>)
        requires
            self.wf(),
        ensures
            match res {
                Some(q) => lookup_quote(self@, id@) == Some(q@),
                None => lookup_quote(self@, id@) is None,
            },
    {
        match self.find_quote(id) {
            Some(i) => {
                proof {
                    lemma_lookup_quote_in(self@, i as int);
                }
                Some(row_to_quote(&self.quotes[i]))
            },
            None => None,
        }
    }

    fn find_asset(&self, hash: &str) -> (res: Option<usize>)
        requires
            self.wf(),
        ensures
            match res {
                Some(i) => i < self@.assets.len() && self@.assets[i as int].hash == hash@,
                None => !has_asset(self@, hash@),
            },
    {
        let mut i: usize = 0;
        while i < self.assets.len()
            invariant
                i <= self.assets@.len(),
                forall|k: int| 0 <= k < i ==> (#[trigger] self.assets@[k]).hash@ != hash@,
            decreases self.assets@.len() - i,
        {
            if str_eq(self.assets[i].hash.as_str(), hash) {
                return Some(i);
            }
            i = i + 1;
        }
        assert(!has_asset(self@, hash@)) by {
            if has_asset(self@, hash@) {
                let k = choose|k: int| 0 <= k < self@.assets.len() && #[trigger] self@.assets[k].hash == hash@;
                assert(self.assets@[k]@ == self@.assets[k]);
            }
        }
        None
    }

    proof fn lemma_lookup_asset_at(&self, i: int)
        requires
            self.wf(),
            0 <= i < self@.assets.len(),
        ensures
            lookup_asset(self@, self@.assets[i].hash) == Some(asset_of(self@.assets[i])),
    {
        let s = self@;
        let h = s.assets[i].hash;
        assert(has_asset(s, h));
        let j = choose|j: int| 0 <= j < s.assets.len() && #[trigger] s.assets[j].hash == h;
        if j != i {
            assert(s.assets[i].hash != s.assets[j].hash);
        }
    }

    /// The asset with hash `hash`, if one is stored.
    pub fn get_asset(&self, hash: &str) -> (res: Option<Asset>)
        requires
            self.wf(),
        ensures
            match res {
                Some(a) => lookup_asset(self@, hash@) == Some(a@),
                None => lookup_asset(self@, hash@) is None,
            },
    {
        match self.find_asset(hash) {
            Some(i) => {
                proof {
                    self.lemma_lookup_asset_at(i as int);
                }
                Some(row_to_asset(&self.assets[i]))
            },
            None => None,
        }
    }

    fn quotes_where(&self, tag: Option<&str>) -> (res: Vec<Quote>)
        requires
            self.wf(),
        ensures
            lists_quotes(
                quote_views(res@),
                self@.quotes,
                match tag {
                    Some(t) => Some(t@),
                    None => None,
                },
            ),
    {
        let ghost tv: Option<Seq<char>> = match tag {
            Some(t) => Some(t@),
            None => None,
        };
        let n = self.quotes.len();
        let mut keys: Vec<Vec<char>> = Vec::new();
        let mut src: Vec<usize> = Vec::new();
        let mut i: usize = 0;
        while i < n
            invariant
                i <= n,
                n == self@.quotes.len(),
                self.wf(),
                keys@.len() == i,
                forall|k: int| 0 <= k < i ==> #[trigger] key_view(keys@)[k] == self@.quotes[k].created_at,
                match tag {
                    Some(t) => tv == Some(t@),
                    None => tv is None,
                },
                forall|a: int, b: int| 0 <= a < b < src@.len() ==> #[trigger] src@[a] < #[trigger] src@[b],
                forall|a: int| 0 <= a < src@.len() ==> #[trigger] src@[a] < i,
                forall|k: int| 0 <= k < i ==> (listed(tv, #[trigger] self@.quotes[k]) <==> src@.contains(k as usize)),
            decreases n - i,
        {
            let ghost old_keys = keys@;
            keys.push(chars_of(self.quotes[i].created_at.as_str()));
            proof {
                assert forall|k: int| 0 <= k < i + 1 implies #[trigger] key_view(keys@)[k] == self@.quotes[k].created_at by {
                    assert(self@.quotes[k] == self.quotes@[k]@);
                    if k < i {
                        assert(keys@[k] == old_keys[k]);
                        assert(key_view(old_keys)[k] == old_keys[k]@);
                    }
                }
            }
            let keep = match tag {
                None => true,
                Some(t) => carries_tag(self.quotes[i].tags_json.as_str(), t),
            };
            let ghost old_src = src@;
            if keep {
                src.push(i);
            }
            proof {
                assert(self@.quotes[i as int] == self.quotes@[i as int]@);
                let rows = self@.quotes;
                lemma_kept_positions_step(old_src, src@, i, keep, |k: int| listed(tv, rows[k]));
            }
            i = i + 1;
        }
        proof {
            assert(src@.no_duplicates()) by {
                assert forall|a: int, b: int| 0 <= a < src@.len() && 0 <= b < src@.len() && a != b implies src@[a] != src@[b] by {
                    if a < b {
                        assert(src@[a] < src@[b]);
                    } else {
                        assert(src@[b] < src@[a]);
                    }
                }
            }
        }
        let order = order_text_desc(&keys, &src);
        let mut res: Vec<Quote> = Vec::new();
        let mut j: usize = 0;
        while j < order.len()
            invariant
                j <= order@.len(),
                n == self@.quotes.len(),
                keys@.len() == n,
                forall|a: int| 0 <= a < order@.len() ==> #[trigger] order@[a] < keys@.len(),
                res@.len() == j,
                forall|a: int| 0 <= a < j ==> #[trigger] res@[a]@ == quote_of(self@.quotes[order@[a] as int]),
            decreases order@.len() - j,
        {
            let q = row_to_quote(&self.quotes[order[j]]);
            proof {
                assert(self@.quotes[order@[j as int] as int] == self.quotes@[order@[j as int] as int]@);
            }
            res.push(q);
            j = j + 1;
        }
        proof {
            let ord = order@;
            let idx = ord.map_values(|u: usize| u as int);
            let rows = self@.quotes;
            let rv = quote_views(res@);
            assert forall|a: int, b: int| 0 <= a < idx.len() && 0 <= b < idx.len() && a != b implies idx[a] != idx[b] by {
                assert(ord[a] != ord[b]);
            }
            assert forall|a: int| 0 <= a < idx.len() implies {
                &&& 0 <= #[trigger] idx[a] < rows.len()
                &&& listed(tv, rows[idx[a]])
                &&& rv[a] == quote_of(rows[idx[a]])
            } by {
                assert(ord.contains(ord[a]));
                assert(src@.contains(ord[a]));
            }
            assert forall|k: int| 0 <= k < rows.len() && listed(tv, #[trigger] rows[k]) implies idx.contains(k) by {
                assert(src@.contains(k as usize));
                assert(ord.contains(k as usize));
                let p = choose|p: int| 0 <= p < ord.len() && ord[p] == k as usize;
                assert(idx[p] == k);
            }
            assert forall|a: int, b: int| 0 <= a < b < idx.len() implies text_le(
                rows[#[trigger] idx[b]].created_at,
                rows[#[trigger] idx[a]].created_at,
            ) by {
                assert(text_le(key_view(keys@)[ord[b] as int], key_view(keys@)[ord[a] as int]));
            }
            assert(quote_listing(rv, rows, tv, idx));
        }
        res
    }

    /// Every quote, from the latest created to the earliest (creation times
    /// compared as stored text).
    pub fn list_quotes(&self) -> (res: Vec<Quote>)
        requires
            self.wf(),
        ensures
            lists_quotes(quote_views(res@), self@.quotes, None),
    {
        self.quotes_where(None)
    }

    /// The quotes that carry `tag` (one of their stored tags is `tag`
    /// itself), from the latest created to the earliest.
    pub fn list_quotes_by_tag(&self, tag: &str) -> (res: Vec<Quote>)
        requires
            self.wf(),
        ensures
            lists_quotes(quote_views(res@), self@.quotes, Some(tag@)),
    {
        self.quotes_where(Some(tag))
    }

    /// The position of the first memo row of quote `qid` that has the
    /// greatest version number, if it has any.
    fn latest_index(&self, qid: &str) -> (res: Option<usize>)
        requires
            self.wf(),
        ensures
            match res {
                Some(k) => {
                    &&& k < self@.memos.len()
                    &&& self@.memos[k as int].quote_id == qid@
                    &&& max_version(self@.memos, qid@) == Some(self@.memos[k as int].version)
                },
                None => max_version(self@.memos, qid@) is None,
            },
    {
        let ghost ms = self@.memos;
        let mut best: Option<usize> = None;
        let mut i: usize = 0;
        while i < self.memos.len()
            invariant
                i <= self.memos@.len(),
                ms == self@.memos,
                match best {
                    Some(k) => {
                        &&& k < i
                        &&& ms[k as int].quote_id == qid@
                        &&& max_version(ms.take(i as int), qid@) == Some(ms[k as int].version)
                    },
                    None => max_version(ms.take(i as int), qid@) is None,
                },
            decreases self.memos@.len() - i,
        {
            proof {
                assert(ms.take(i + 1).drop_last() =~= ms.take(i as int));
                assert(ms.take(i + 1).last() == ms[i as int]);
                assert(ms[i as int] == self.memos@[i as int]@);
            }
            if str_eq(self.memos[i].quote_id.as_str(), qid) {
                match best {
                    Some(k) => {
                        if self.memos[i].version > self.memos[k].version {
                            best = Some(i);
                        }
                        proof {
                            assert(ms[k as int] == self.memos@[k as int]@);
                        }
                    },
                    None => {
                        best = Some(i);
                    },
                }
            }
            i = i + 1;
        }
        assert(ms.take(ms.len() as int) =~= ms);
        best
    }

    /// The version of the memo of quote `quote_id` with the greatest number,
    /// if it has any.
    pub fn latest_memo(&self, quote_id: &str) -> (res: Option<MemoVersion>)
        requires
            self.wf(),
        ensures
            match res {
                Some(m) => {
                    &&& exists|k: int|
                        0 <= k < self@.memos.len() && #[trigger] self@.memos[k].quote_id == quote_id@
                            && m@ == memo_of(self@.memos[k])
                    &&& max_version(self@.memos, quote_id@) == Some(m@.version)
                },
                None => max_version(self@.memos, quote_id@) is None,
            },
    {
        match self.latest_index(quote_id) {
            Some(k) => {
                let m = row_to_memo(&self.memos[k]);
                proof {
                    assert(self@.memos[k as int] == self.memos@[k as int]@);
                }
                Some(m)
            },
            None => None,
        }
    }

    /// Every version of the memo of quote `quote_id`, from the lowest
    /// number to the highest.
    pub fn get_memo_versions(&self, quote_id: &str) -> (res: Vec<MemoVersion>)
        requires
            self.wf(),
        ensures
            lists_memos(memo_views(res@), self@.memos, quote_id@),
    {
        let n = self.memos.len();
        let mut keys: Vec<i64> = Vec::new();
        let mut src: Vec<usize> = Vec::new();
        let mut i: usize = 0;
        while i < n
            invariant
                i <= n,
                n == self@.memos.len(),
                keys@.len() == i,
                forall|k: int| 0 <= k < i ==> #[trigger] keys@[k] == self@.memos[k].version,
                forall|a: int, b: int| 0 <= a < b < src@.len() ==> #[trigger] src@[a] < #[trigger] src@[b],
                forall|a: int| 0 <= a < src@.len() ==> #[trigger] src@[a] < i,
                forall|k: int| 0 <= k < i ==> ((#[trigger] self@.memos[k]).quote_id == quote_id@ <==> src@.contains(k as usize)),
            decreases n - i,
        {
            proof {
                assert(self@.memos[i as int] == self.memos@[i as int]@);
            }
            keys.push(self.memos[i].version);
            let keep = str_eq(self.memos[i].quote_id.as_str(), quote_id);
            let ghost old_src = src@;
            if keep {
                src.push(i);
            }
            proof {
                assert(self@.memos[i as int] == self.memos@[i as int]@);
                let rows = self@.memos;
                lemma_kept_positions_step(old_src, src@, i, keep, |k: int| rows[k].quote_id == quote_id@);
            }
            i = i + 1;
        }
        proof {
            assert(src@.no_duplicates()) by {
                assert forall|a: int, b: int| 0 <= a < src@.len() && 0 <= b < src@.len() && a != b implies src@[a] != src@[b] by {
                    if a < b {
                        assert(src@[a] < src@[b]);
                    } else {
                        assert(src@[b] < src@[a]);
                    }
                }
            }
        }
        let order = order_int_asc(&keys, &src);
        let mut res: Vec<MemoVersion> = Vec::new();
        let mut j: usize = 0;
        while j < order.len()
            invariant
                j <= order@.len(),
                n == self@.memos.len(),
                keys@.len() == n,
                forall|a: int| 0 <= a < order@.len() ==> #[trigger] order@[a] < keys@.len(),
                res@.len() == j,
                forall|a: int| 0 <= a < j ==> #[trigger] res@[a]@ == memo_of(self@.memos[order@[a] as int]),
            decreases order@.len() - j,
        {
            let m = row_to_memo(&self.memos[order[j]]);
            proof {
                assert(self@.memos[order@[j as int] as int] == self.memos@[order@[j as int] as int]@);
            }
            res.push(m);
            j = j + 1;
        }
        proof {
            let ord = order@;
            let idx = ord.map_values(|u: usize| u as int);
            let rows = self@.memos;
            let rv = memo_views(res@);
            assert forall|a: int, b: int| 0 <= a < idx.len() && 0 <= b < idx.len() && a != b implies idx[a] != idx[b] by {
                assert(ord[a] != ord[b]);
            }
            assert forall|a: int| 0 <= a < idx.len() implies {
                &&& 0 <= #[trigger] idx[a] < rows.len()
                &&& rows[idx[a]].quote_id == quote_id@
                &&& rv[a] == memo_of(rows[idx[a]])
            } by {
                assert(ord.contains(ord[a]));
                assert(src@.contains(ord[a]));
            }
            assert forall|k: int| 0 <= k < rows.len() && (#[trigger] rows[k]).quote_id == quote_id@ implies idx.contains(k) by {
                assert(src@.contains(k as usize));
                assert(ord.contains(k as usize));
                let p = choose|p: int| 0 <= p < ord.len() && ord[p] == k as usize;
                assert(idx[p] == k);
            }
            assert forall|a: int, b: int| 0 <= a < b < idx.len() implies rows[#[trigger] idx[a]].version <= rows[#[trigger] idx[b]].version by {
                assert(keys@[ord[a] as int] <= keys@[ord[b] as int]);
            }
            assert(memo_listing(rv, rows, quote_id@, idx));
        }
        res
    }

    /// The stored embeddings with the ids of their quotes, in table order;
    /// quotes stored without one are skipped.
    pub fn all_embeddings(&self) -> (res: Vec<(String, Vec<u32>)>)
        requires
            self.wf(),
        ensures
            embedding_views(res@) == embeddings_of(self@.quotes),
    {
        let ghost rows = self@.quotes;
        let mut res: Vec<(String, Vec<u32>)> = Vec::new();
        let mut i: usize = 0;
        while i < self.quotes.len()
            invariant
                i <= self.quotes@.len(),
                rows == self@.quotes,
                embedding_views(res@) == embeddings_of(rows.take(i as int)),
            decreases self.quotes@.len() - i,
        {
            let ghost old_res = res@;
            proof {
                assert(rows[i as int] == self.quotes@[i as int]@);
                rows.lemma_filter_map_take_succ(
                    |r: QuoteRecord|
                        match r.embedding {
                            Some(b) => Some((r.id, words_of(b))),
                            None => None,
                        },
                    i as int,
                );
            }
            match &self.quotes[i].embedding {
                Some(b) => {
                    let words = blob_to_embedding(b.as_slice());
                    res.push((self.quotes[i].id.clone(), words));
                    assert(embedding_views(res@) =~= embedding_views(old_res).push((rows[i as int].id, words_of(b@))));
                },
                None => {},
            }
            i = i + 1;
        }
        assert(rows.take(rows.len() as int) =~= rows);
        res
    }

    /// Inserts `input` under id `id` with creation time `now`, and its memo
    /// (or empty text) as version 1 of its memo.
    pub fn insert_quote_at(
        &mut self,
        id: String,
        now: String,
        input: &QuoteInsert,
        embedding: Option<Vec<u32>>,
    ) -> (res: Result<String, DbError>)
        requires
            old(self).wf(),
            embedding matches Some(e) ==> 4 * e@.len() <= usize::MAX,
        ensures
            final(self).wf(),
            quote_inserted(
                old(self)@,
                final(self)@,
                id@,
                now@,
                input@,
                embedding_view(embedding),
                result_view(res),
            ),
    {
        let ghost emb = embedding_view(embedding);
        let tags_json = tags_to_json(&input.tags);
        if self.find_quote(id.as_str()).is_some() {
            return Err(DbError::DuplicateQuoteId);
        }
        let blob = match embedding {
            Some(e) => Some(embedding_to_blob(e)),
            None => None,
        };
        let row = QuoteRow {
            id: id.clone(),
            quote: input.quote.clone(),
            source_title: clone_opt(&input.source_title),
            source_author: clone_opt(&input.source_author),
            source_url: clone_opt(&input.source_url),
            tags_json,
            embedding: blob,
            created_at: now.clone(),
        };
        let ghost s0 = self@;
        assert(row@ == new_quote_record(id@, now@, input@, emb));
        self.quotes.push(row);
        proof {
            assert(self@.quotes =~= s0.quotes.push(new_quote_record(id@, now@, input@, emb)));
            assert(self@.memos =~= s0.memos);
            assert(self@.assets =~= s0.assets);
            assert forall|k: int| 0 <= k < s0.quotes.len() implies (#[trigger] s0.quotes[k]).id != id@ by {
                if s0.quotes[k].id == id@ {
                    assert(has_quote(s0, id@));
                }
            }
            lemma_push_quote_keeps_ids(s0.quotes, new_quote_record(id@, now@, input@, emb));
        }
        if self.last_memo_id == i64::MAX {
            return Err(DbError::MemoIdOverflow);
        }
        let memo_id = self.last_memo_id + 1;
        let memo = match &input.memo {
            Some(m) => m.clone(),
            None => String::new(),
        };
        let mrow = MemoRow { id: memo_id, quote_id: id.clone(), version: 1, memo, created_at: now };
        let ghost s1 = self@;
        self.memos.push(mrow);
        self.last_memo_id = memo_id;
        proof {
            assert(self@.memos =~= s1.memos.push(mrow@));
            assert(self@.quotes =~= s1.quotes);
            assert(self@.assets =~= s1.assets);
            lemma_push_memo_after_last(s1.memos, s1.last_memo_id, mrow@);
        }
        Ok(id)
    }

    /// Inserts `input` under a fresh random id with the current time, and
    /// its memo (or empty text) as version 1 of its memo.
    pub fn insert_quote(&mut self, input: &QuoteInsert, embedding: Option<Vec<u32>>) -> (res: Result<
        String,
        DbError,
    >)
        requires
            old(self).wf(),
            embedding matches Some(e) ==> 4 * e@.len() <= usize::MAX,
        ensures
            final(self).wf(),
            exists|id: Seq<char>, now: Seq<char>|
                {
                    &&& uuid_text(id)
                    &&& utc_parse(now) is Some
                    &&& quote_inserted(
                        old(self)@,
                        final(self)@,
                        id,
                        now,
                        input@,
                        embedding_view(embedding),
                        result_view(res),
                    )
                },
    {
        let id = new_quote_id();
        let now = now_rfc3339();
        let ghost idv = id@;
        let ghost nowv = now@;
        let res = self.insert_quote_at(id, now, input, embedding);
        assert(quote_inserted(old(self)@, self@, idv, nowv, input@, embedding_view(embedding), result_view(res)));
        res
    }

    /// Adds `memo` as the next version of the memo of quote `quote_id`,
    /// written at time `now`, and returns its version number.
    pub fn add_memo_version_at(&mut self, quote_id: &str, memo: &str, now: String) -> (res: Result<i64, DbError>)
        requires
            old(self).wf(),
        ensures
            final(self).wf(),
            memo_added(old(self)@, final(self)@, quote_id@, memo@, now@, res),
    {
        let next: i64 = match self.latest_index(quote_id) {
            Some(k) => {
                proof {
                    assert(self@.memos[k as int] == self.memos@[k as int]@);
                }
                if self.memos[k].version == i64::MAX {
                    return Err(DbError::VersionOverflow);
                }
                self.memos[k].version + 1
            },
            None => 1,
        };
        if self.find_quote(quote_id).is_none() {
            return Err(DbError::UnknownQuote);
        }
        if self.last_memo_id == i64::MAX {
            return Err(DbError::MemoIdOverflow);
        }
        let memo_id = self.last_memo_id + 1;
        let mrow = MemoRow { id: memo_id, quote_id: quote_id.to_string(), version: next, memo: memo.to_string(), created_at: now };
        let ghost s1 = self@;
        self.memos.push(mrow);
        self.last_memo_id = memo_id;
        proof {
            assert(self@.memos =~= s1.memos.push(mrow@));
            assert(self@.quotes =~= s1.quotes);
            assert(self@.assets =~= s1.assets);
            lemma_push_memo_after_last(s1.memos, s1.last_memo_id, mrow@);
        }
        Ok(next)
    }

    /// Adds `memo` as the next version of the memo of quote `quote_id`,
    /// written now, and returns its version number: one past the greatest
    /// number the quote has, or 1 when it has none.
    pub fn add_memo_version(&mut self, quote_id: &str, memo: &str) -> (res: Result<i64, DbError>)
        requires
            old(self).wf(),
        ensures
            final(self).wf(),
            exists|now: Seq<char>|
                utc_parse(now) is Some && memo_added(old(self)@, final(self)@, quote_id@, memo@, now, res),
    {
        let now = now_rfc3339();
        let ghost nowv = now@;
        let res = self.add_memo_version_at(quote_id, memo, now);
        assert(memo_added(old(self)@, self@, quote_id@, memo@, nowv, res));
        res
    }

    /// Stores the asset `input` with creation time `now`, unless an asset
    /// with its hash is stored already.
    pub fn insert_asset_at(&mut self, input: &AssetInsert, now: String)
        requires
            old(self).wf(),
        ensures
            final(self).wf(),
            asset_inserted(old(self)@, final(self)@, input@, now@),
    {
        if self.find_asset(input.hash.as_str()).is_some() {
            return;
        }
        let row = AssetRow {
            hash: input.hash.clone(),
            ext: input.ext.clone(),
            note: clone_opt(&input.note),
            created_at: now,
        };
        let ghost s1 = self@;
        self.assets.push(row);
        proof {
            assert(self@.assets =~= s1.assets.push(row@));
            assert(self@.quotes =~= s1.quotes);
            assert(self@.memos =~= s1.memos);
            assert forall|k: int| 0 <= k < s1.assets.len() implies (#[trigger] s1.assets[k]).hash != row@.hash by {
                if s1.assets[k].hash == row@.hash {
                    assert(has_asset(s1, input@.hash));
                }
            }
            lemma_push_asset_keeps_hashes(s1.assets, row@);
        }
    }

    /// Stores the asset `input` with the current time, unless an asset with
    /// its hash is stored already.
    pub fn insert_asset(&mut self, input: &AssetInsert)
        requires
            old(self).wf(),
        ensures
            final(self).wf(),
            exists|now: Seq<char>| utc_parse(now) is Some && asset_inserted(old(self)@, final(self)@, input@, now),
    {
        let now = now_rfc3339();
        let ghost nowv = now@;
        self.insert_asset_at(input, now);
        assert(asset_inserted(old(self)@, self@, input@, nowv));
    }

    /// A store holding the rows given, in the order given; `memo_counter`
    /// is the greatest memo id handed out before (SQLite's
    /// `sqlite_sequence` entry for `memo_versions`, or 0). Rows that break a
    /// key of their table are refused; memo rows whose quote is not stored
    /// are kept.
    pub fn from_tables(
        quotes: Vec<QuoteRow>,
        memos: Vec<MemoRow>,
        assets: Vec<AssetRow>,
        memo_counter: i64,
    ) -> (res: Result<Db, DbError>)
        ensures
            match res {
                Ok(db) => {
                    &&& db.wf()
                    &&& db@.quotes == quotes@.map_values(|r: QuoteRow| r@)
                    &&& db@.memos == memos@.map_values(|r: MemoRow| r@)
                    &&& db@.assets == assets@.map_values(|r: AssetRow| r@)
                    &&& db@.last_memo_id == last_memo_id_of(
                        memos@.map_values(|r: MemoRow| r@),
                        memo_counter,
                    )
                },
                Err(DbError::DuplicateQuoteId) => !quote_ids_distinct(
                    quotes@.map_values(|r: QuoteRow| r@),
                ),
                Err(DbError::DuplicateMemoId) => quote_ids_distinct(
                    quotes@.map_values(|r: QuoteRow| r@),
                ) && !memo_ids_distinct(memos@.map_values(|r: MemoRow| r@)),
                Err(DbError::DuplicateAssetHash) => quote_ids_distinct(
                    quotes@.map_values(|r: QuoteRow| r@),
                ) && memo_ids_distinct(memos@.map_values(|r: MemoRow| r@))
                    && !asset_hashes_distinct(assets@.map_values(|r: AssetRow| r@)),
                Err(_) => false,
            },
    {
        let ghost qv = quotes@.map_values(|r: QuoteRow| r@);
        let ghost mv = memos@.map_values(|r: MemoRow| r@);
        let ghost av = assets@.map_values(|r: AssetRow| r@);
        let mut i: usize = 0;
        while i < quotes.len()
            invariant
                i <= quotes@.len(),
                qv == quotes@.map_values(|r: QuoteRow| r@),
                quote_ids_distinct(qv.take(i as int)),
            decreases quotes@.len() - i,
        {
            let mut j: usize = 0;
            while j < i
                invariant
                    j <= i < quotes@.len(),
                    qv == quotes@.map_values(|r: QuoteRow| r@),
                    forall|k: int| 0 <= k < j ==> (#[trigger] qv[k]).id != qv[i as int].id,
                decreases i - j,
            {
                if quotes[i].id == quotes[j].id {
                    proof {
                        assert(qv[i as int].id == qv[j as int].id);
                        assert(!quote_ids_distinct(qv)) by {
                            assert(qv[i as int] == qv[i as int] && qv[j as int] == qv[j as int]);
                        }
                    }
                    return Err(DbError::DuplicateQuoteId);
                }
                j = j + 1;
            }
            proof {
                assert(qv.take(i + 1) =~= qv.take(i as int).push(qv[i as int]));
                lemma_push_quote_keeps_ids(qv.take(i as int), qv[i as int]);
            }
            i = i + 1;
        }
        assert(qv.take(qv.len() as int) =~= qv);
        let mut i: usize = 0;
        while i < memos.len()
            invariant
                i <= memos@.len(),
                mv == memos@.map_values(|r: MemoRow| r@),
                qv == quotes@.map_values(|r: QuoteRow| r@),
                quote_ids_distinct(qv),
                memo_ids_distinct(mv.take(i as int)),
            decreases memos@.len() - i,
        {
            let mut j: usize = 0;
            while j < i
                invariant
                    j <= i < memos@.len(),
                    mv == memos@.map_values(|r: MemoRow| r@),
                    qv == quotes@.map_values(|r: QuoteRow| r@),
                    quote_ids_distinct(qv),
                    forall|k: int| 0 <= k < j ==> (#[trigger] mv[k]).id != mv[i as int].id,
                decreases i - j,
            {
                if memos[i].id == memos[j].id {
                    proof {
                        assert(mv[i as int].id == mv[j as int].id);
                        assert(!memo_ids_distinct(mv)) by {
                            assert(mv[i as int] == mv[i as int] && mv[j as int] == mv[j as int]);
                        }
                    }
                    return Err(DbError::DuplicateMemoId);
                }
                j = j + 1;
            }
            proof {
                assert(mv.take(i + 1) =~= mv.take(i as int).push(mv[i as int]));
                lemma_push_memo_keeps_ids(mv.take(i as int), mv[i as int]);
            }
            i = i + 1;
        }
        assert(mv.take(mv.len() as int) =~= mv);
        let mut i: usize = 0;
        while i < assets.len()
            invariant
                i <= assets@.len(),
                av == assets@.map_values(|r: AssetRow| r@),
                mv == memos@.map_values(|r: MemoRow| r@),
                qv == quotes@.map_values(|r: QuoteRow| r@),
                quote_ids_distinct(qv),
                memo_ids_distinct(mv),
                asset_hashes_distinct(av.take(i as int)),
            decreases assets@.len() - i,
        {
            let mut j: usize = 0;
            while j < i
                invariant
                    j <= i < assets@.len(),
                    av == assets@.map_values(|r: AssetRow| r@),
                    mv == memos@.map_values(|r: MemoRow| r@),
                    qv == quotes@.map_values(|r: QuoteRow| r@),
                    quote_ids_distinct(qv),
                    memo_ids_distinct(mv),
                    forall|k: int| 0 <= k < j ==> (#[trigger] av[k]).hash != av[i as int].hash,
                decreases i - j,
            {
                if assets[i].hash == assets[j].hash {
                    proof {
                        assert(av[i as int].hash == av[j as int].hash);
                        assert(!asset_hashes_distinct(av)) by {
                            assert(av[i as int] == av[i as int] && av[j as int] == av[j as int]);
                        }
                    }
                    return Err(DbError::DuplicateAssetHash);
                }
                j = j + 1;
            }
            proof {
                assert(av.take(i + 1) =~= av.take(i as int).push(av[i as int]));
                lemma_push_asset_keeps_hashes(av.take(i as int), av[i as int]);
            }
            i = i + 1;
        }
        assert(av.take(av.len() as int) =~= av);
        let mut last: i64 = if memo_counter > 0 { memo_counter } else { 0 };
        let mut i: usize = 0;
        while i < memos.len()
            invariant
                i <= memos@.len(),
                mv == memos@.map_values(|r: MemoRow| r@),
                last == last_memo_id_of(mv.take(i as int), memo_counter),
                0 <= last,
                forall|k: int| 0 <= k < i ==> #[trigger] mv[k].id <= last,
            decreases memos@.len() - i,
        {
            proof {
                assert(mv.take(i + 1).drop_last() =~= mv.take(i as int));
            }
            if memos[i].id > last {
                last = memos[i].id;
            }
            i = i + 1;
        }
        let db = Db { quotes, memos, assets, last_memo_id: last };
        proof {
            assert(db@.quotes =~= qv);
            assert(db@.memos =~= mv);
            assert(db@.assets =~= av);
        }
        Ok(db)
    }

    /// The rows of `quotes`, in the order they were written.
    pub fn quote_rows(&self) -> (res: &Vec<QuoteRow>)
        ensures
            res@.map_values(|r: QuoteRow| r@) == self@.quotes,
    {
        &self.quotes
    }

    /// The rows of `memo_versions`, in the order they were written.
    pub fn memo_rows(&self) -> (res: &Vec<MemoRow>)
        ensures
            res@.map_values(|r: MemoRow| r@) == self@.memos,
    {
        &self.memos
    }

    /// The rows of `assets`, in the order they were written.
    pub fn asset_rows(&self) -> (res: &Vec<AssetRow>)
        ensures
            res@.map_values(|r: AssetRow| r@) == self@.assets,
    {
        &self.assets
    }
}

} // verus!
