//! What holds of the store across its operations.

use vstd::prelude::*;
use crate::blob::{law_blob_round_trip, words_of};
use crate::db::{
    asset_inserted, embeddings_of, has_asset, lists_memos, lookup_asset, lookup_quote, max_version,
    memo_added, memo_listing, memo_text, new_quote_record, next_version, quote_inserted, quote_listing,
    wf_state, DbState, has_quote, lists_quotes, tagged, listed as listed_under,
};
use crate::models::{memo_of, quote_of, AssetInsertView, MemoRecord, MemoVersionView, QuoteInsertView, QuoteRecord, QuoteView};
use crate::search::hits_of;
use crate::text::{is_white_space, text_le, trim_back, trim_front, trimmed};
use crate::cli::{split_commas, tag_list};
use crate::time::stored_time;

verus! {

/// `max_version` is the greatest version number among the memo rows of the
/// quote, and there is none exactly when the quote has no memo rows.
pub proof fn lemma_max_version(memos: Seq<MemoRecord>, qid: Seq<char>)
    ensures
        max_version(memos, qid) is None <==> forall|k: int|
            0 <= k < memos.len() ==> (#[trigger] memos[k]).quote_id != qid,
        max_version(memos, qid) matches Some(v) ==> {
            &&& exists|k: int|
                0 <= k < memos.len() && (#[trigger] memos[k]).quote_id == qid && memos[k].version
                    == v
            &&& forall|k: int|
                0 <= k < memos.len() && (#[trigger] memos[k]).quote_id == qid ==> memos[k].version
                    <= v
        },
    decreases memos.len(),
{
    if memos.len() > 0 {
        let prev = memos.drop_last();
        lemma_max_version(prev, qid);
        assert forall|k: int| 0 <= k < prev.len() implies prev[k] == memos[k] by {}
        if max_version(memos, qid) is None {
            assert forall|k: int| 0 <= k < memos.len() implies (#[trigger] memos[k]).quote_id != qid by {
                if k < prev.len() {
                    assert(prev[k] == memos[k]);
                }
            }
        }
        if let Some(v) = max_version(memos, qid) {
            if let Some(pv) = max_version(prev, qid) {
                let k0 = choose|k: int| 0 <= k < prev.len() && (#[trigger] prev[k]).quote_id == qid && prev[k].version == pv;
                if memos.last().quote_id == qid && memos.last().version > pv {
                    assert(memos[memos.len() - 1] == memos.last());
                } else {
                    assert(memos[k0] == prev[k0]);
                }
            } else {
                assert(memos[memos.len() - 1] == memos.last());
            }
            assert forall|k: int| 0 <= k < memos.len() && (#[trigger] memos[k]).quote_id == qid implies memos[k].version <= v by {
                if k < prev.len() {
                    assert(prev[k] == memos[k]);
                }
            }
        }
    }
}

/// The rows written before stay as they were, and come first.
pub open spec fn extends(old: DbState, new: DbState) -> bool {
    &&& old.quotes.len() <= new.quotes.len()
    &&& new.quotes.take(old.quotes.len() as int) == old.quotes
    &&& old.memos.len() <= new.memos.len()
    &&& new.memos.take(old.memos.len() as int) == old.memos
    &&& old.assets.len() <= new.assets.len()
    &&& new.assets.take(old.assets.len() as int) == old.assets
}

/// Nothing is ever deleted or changed: inserting a quote only appends rows.
pub proof fn law_insert_quote_only_appends(
    old: DbState,
    new: DbState,
    id: Seq<char>,
    now: Seq<char>,
    input: QuoteInsertView,
    embedding: Option<Seq<u32>>,
    res: Result<Seq<char>, crate::error::DbError>,
)
    requires
        quote_inserted(old, new, id, now, input, embedding, res),
    ensures
        extends(old, new),
{
    assert(old.quotes.push(new_quote_record(id, now, input, embedding)).take(old.quotes.len() as int) =~= old.quotes);
    assert(new.quotes.take(old.quotes.len() as int) =~= old.quotes);
    assert(new.memos.take(old.memos.len() as int) =~= old.memos);
    assert(new.assets.take(old.assets.len() as int) =~= old.assets);
}

/// Nothing is ever deleted or changed: a new memo version is appended and
/// the earlier versions stay as they were.
pub proof fn law_add_memo_only_appends(
    old: DbState,
    new: DbState,
    qid: Seq<char>,
    memo: Seq<char>,
    now: Seq<char>,
    res: Result<i64, crate::error::DbError>,
)
    requires
        memo_added(old, new, qid, memo, now, res),
    ensures
        extends(old, new),
{
    assert(new.quotes.take(old.quotes.len() as int) =~= old.quotes);
    assert(new.memos.take(old.memos.len() as int) =~= old.memos);
    assert(new.assets.take(old.assets.len() as int) =~= old.assets);
}

/// Nothing is ever deleted or changed: storing an asset only appends rows.
pub proof fn law_insert_asset_only_appends(
    old: DbState,
    new: DbState,
    input: AssetInsertView,
    now: Seq<char>,
)
    requires
        asset_inserted(old, new, input, now),
    ensures
        extends(old, new),
{
    assert(new.quotes.take(old.quotes.len() as int) =~= old.quotes);
    assert(new.memos.take(old.memos.len() as int) =~= old.memos);
    assert(new.assets.take(old.assets.len() as int) =~= old.assets);
}

/// Inserting a quote appends its embedding, when it has one, to the stored
/// embeddings, under its id.
pub proof fn law_insert_appends_embedding(
    old: DbState,
    new: DbState,
    id: Seq<char>,
    now: Seq<char>,
    input: QuoteInsertView,
    embedding: Option<Seq<u32>>,
)
    requires
        quote_inserted(old, new, id, now, input, embedding, Ok(id)),
    ensures
        embeddings_of(new.quotes) == embeddings_of(old.quotes) + match embedding {
            Some(e) => seq![(id, e)],
            None => Seq::empty(),
        },
{
    let f = |r: QuoteRecord|
        match r.embedding {
            Some(b) => Some((r.id, words_of(b))),
            None => None,
        };
    assert(new.quotes.drop_last() =~= old.quotes);
    if let Some(e) = embedding {
        law_blob_round_trip(e);
    }
}

/// After a successful insertion the quote is found under its id, holding
/// the text, source fields and tags given and the time of the insertion.
pub proof fn law_inserted_quote_found(
    old: DbState,
    new: DbState,
    id: Seq<char>,
    now: Seq<char>,
    input: QuoteInsertView,
    embedding: Option<Seq<u32>>,
)
    requires
        wf_state(new),
        quote_inserted(old, new, id, now, input, embedding, Ok(id)),
    ensures
        lookup_quote(new, id) == Some(
            QuoteView {
                id,
                quote: input.quote,
                source_title: input.source_title,
                source_author: input.source_author,
                source_url: input.source_url,
                tags: input.tags,
                created_at: stored_time(now),
            },
        ),
{
    let n = old.quotes.len();
    assert(new.quotes[n as int] == new_quote_record(id, now, input, embedding));
    crate::db::lemma_lookup_quote_in(new, n as int);
}

/// The first memo version that inserting `input` under `id` at time `now`
/// writes, as it reads back.
pub open spec fn first_memo(old: DbState, id: Seq<char>, now: Seq<char>, input: QuoteInsertView) -> MemoVersionView {
    MemoVersionView {
        id: (old.last_memo_id + 1) as i64,
        quote_id: id,
        version: 1,
        memo: memo_text(input.memo),
        created_at: stored_time(now),
    }
}

/// A quote that was inserted reads back as it was given: its text, source,
/// tags and creation time; its memo history, however it is read, is the one
/// version 1 holding the memo given (or empty text), which is then its only
/// memo row; its embedding is listed with its id. (The id must not have memo
/// rows already: a store loaded with rows left from a deleted quote of that
/// id would list them too.)
pub proof fn law_inserted_quote_reads_back(
    old: DbState,
    new: DbState,
    id: Seq<char>,
    now: Seq<char>,
    input: QuoteInsertView,
    embedding: Option<Seq<u32>>,
)
    requires
        wf_state(old),
        wf_state(new),
        max_version(old.memos, id) is None,
        quote_inserted(old, new, id, now, input, embedding, Ok(id)),
    ensures
        lookup_quote(new, id) == Some(
            QuoteView {
                id,
                quote: input.quote,
                source_title: input.source_title,
                source_author: input.source_author,
                source_url: input.source_url,
                tags: input.tags,
                created_at: stored_time(now),
            },
        ),
        max_version(new.memos, id) == Some(1i64),
        forall|ms: Seq<MemoVersionView>|
            #[trigger] lists_memos(ms, new.memos, id) <==> ms == seq![first_memo(old, id, now, input)],
        forall|k: int|
            0 <= k < new.memos.len() && (#[trigger] new.memos[k]).quote_id == id ==> memo_of(new.memos[k])
                == first_memo(old, id, now, input),
        embeddings_of(new.quotes) == embeddings_of(old.quotes) + match embedding {
            Some(e) => seq![(id, e)],
            None => Seq::empty(),
        },
{
    let n = old.quotes.len();
    let row = new_quote_record(id, now, input, embedding);
    assert(new.quotes[n as int] == row);
    crate::db::lemma_lookup_quote_in(new, n as int);
    // memo rows of `id`: only the new one
    let m = old.memos.len() as int;
    lemma_max_version(old.memos, id);
    assert(new.memos.drop_last() =~= old.memos);
    assert(new.memos[m] == new.memos.last());
    let v = first_memo(old, id, now, input);
    assert forall|k: int| 0 <= k < new.memos.len() && (#[trigger] new.memos[k]).quote_id == id implies k == m by {
        if k < m {
            assert(new.memos[k] == old.memos[k]);
        }
    }
    assert forall|ms: Seq<MemoVersionView>| #[trigger] lists_memos(ms, new.memos, id) <==> ms == seq![v] by {
        if lists_memos(ms, new.memos, id) {
            let idx = choose|idx: Seq<int>| memo_listing(ms, new.memos, id, idx);
            assert(idx.contains(m));
            let p = choose|p: int| 0 <= p < idx.len() && idx[p] == m;
            if idx.len() > 1 {
                let w = if p == 0 { 1int } else { 0int };
                assert(idx[w] != idx[p]);
                assert(new.memos[idx[w]].quote_id == id);
            }
            assert(ms =~= seq![v]);
        }
        if ms == seq![v] {
            let idx: Seq<int> = seq![m];
            assert(ms[0] == memo_of(new.memos[idx[0]]));
            assert forall|k: int| 0 <= k < new.memos.len() && (#[trigger] new.memos[k]).quote_id == id implies idx.contains(k) by {
                assert(idx[0] == k);
            }
            assert(idx.no_duplicates());
            assert(memo_listing(ms, new.memos, id, idx));
        }
    }
    law_insert_appends_embedding(old, new, id, now, input, embedding);
}

/// A new memo version gets the next number of its quote, becomes the
/// greatest number the quote has, and is the only row with that number: it
/// is what `latest_memo` gives afterwards.
pub proof fn law_added_memo_is_latest(
    old: DbState,
    new: DbState,
    qid: Seq<char>,
    memo: Seq<char>,
    now: Seq<char>,
    v: i64,
)
    requires
        memo_added(old, new, qid, memo, now, Ok(v)),
    ensures
        v == next_version(old, qid),
        max_version(new.memos, qid) == Some(v),
        forall|k: int|
            0 <= k < new.memos.len() - 1 && (#[trigger] new.memos[k]).quote_id == qid
                ==> new.memos[k].version < v,
        new.memos.last().quote_id == qid && new.memos.last().version == v,
        memo_of(new.memos.last()).memo == memo,
{
    lemma_max_version(old.memos, qid);
    assert(new.memos.drop_last() =~= old.memos);
    assert forall|k: int| 0 <= k < new.memos.len() - 1 && (#[trigger] new.memos[k]).quote_id == qid implies new.memos[k].version < v by {
        assert(new.memos[k] == old.memos[k]);
    }
}

/// Storing an asset whose hash is stored already changes nothing; after
/// storing, the hash is always found, and the asset found is the first one
/// stored under it.
pub proof fn law_asset_insert_or_ignore(old: DbState, new: DbState, input: AssetInsertView, now: Seq<char>)
    requires
        wf_state(old),
        wf_state(new),
        asset_inserted(old, new, input, now),
    ensures
        has_asset(old, input.hash) ==> new == old,
        has_asset(old, input.hash) ==> lookup_asset(new, input.hash) == lookup_asset(old, input.hash),
        !has_asset(old, input.hash) ==> lookup_asset(new, input.hash) == Some(
            crate::models::asset_of(
                crate::models::AssetRecord {
                    hash: input.hash,
                    ext: input.ext,
                    note: input.note,
                    created_at: now,
                },
            ),
        ),
        has_asset(new, input.hash),
{
    if !has_asset(old, input.hash) {
        let n = old.assets.len();
        assert(new.assets[n as int].hash == input.hash);
        let j = choose|j: int| 0 <= j < new.assets.len() && #[trigger] new.assets[j].hash == input.hash;
        if j != n {
            assert(new.assets[j] == old.assets[j]);
            assert(has_asset(old, input.hash));
        }
    }
}

/// The last entry of a quote's memo history carries the greatest version
/// number it has (what `latest_memo` reports), and the history is empty
/// exactly when the quote has no memo version.
pub proof fn law_history_ends_with_latest(res: Seq<MemoVersionView>, memos: Seq<MemoRecord>, qid: Seq<char>)
    requires
        lists_memos(res, memos, qid),
    ensures
        res.len() == 0 <==> max_version(memos, qid) is None,
        res.len() > 0 ==> max_version(memos, qid) == Some(res.last().version),
{
    lemma_max_version(memos, qid);
    let idx = choose|idx: Seq<int>|
        {
            &&& idx.len() == res.len()
            &&& idx.no_duplicates()
            &&& forall|i: int|
                0 <= i < idx.len() ==> {
                    &&& 0 <= #[trigger] idx[i] < memos.len()
                    &&& memos[idx[i]].quote_id == qid
                    &&& res[i] == memo_of(memos[idx[i]])
                }
            &&& forall|k: int| 0 <= k < memos.len() && (#[trigger] memos[k]).quote_id == qid ==> idx.contains(k)
            &&& forall|a: int, b: int|
                0 <= a < b < idx.len() ==> memos[#[trigger] idx[a]].version <= memos[#[trigger] idx[b]].version
        };
    if res.len() == 0 {
        assert forall|k: int| 0 <= k < memos.len() implies (#[trigger] memos[k]).quote_id != qid by {
            if memos[k].quote_id == qid {
                assert(idx.contains(k));
            }
        }
    } else {
        let l = res.len() - 1;
        assert(0 <= idx[l] < memos.len());
        assert(memos[idx[l]].quote_id == qid);
        let v = max_version(memos, qid)->Some_0;
        let k0 = choose|k: int| 0 <= k < memos.len() && (#[trigger] memos[k]).quote_id == qid && memos[k].version == v;
        assert(idx.contains(k0));
        let p = choose|p: int| 0 <= p < idx.len() && idx[p] == k0;
        if p < l {
            assert(memos[idx[p]].version <= memos[idx[l]].version);
        }
        assert(res.last() == memo_of(memos[idx[l]]));
    }
}

// ── Version numbering ───────────────────────────────────────────────────────

/// How many of the first `i` memo rows belong to quote `qid`.
pub open spec fn count_before(memos: Seq<MemoRecord>, qid: Seq<char>, i: int) -> int
    decreases i,
{
    if i <= 0 {
        0
    } else {
        count_before(memos, qid, i - 1) + if memos[i - 1].quote_id == qid {
            1int
        } else {
            0int
        }
    }
}

/// The memo rows of quote `qid`, in the order they were written, are
/// numbered 1, 2, 3, ... (whatever the rows of other quotes hold).
pub open spec fn numbered_from_one(memos: Seq<MemoRecord>, qid: Seq<char>) -> bool {
    forall|i: int|
        0 <= i < memos.len() && (#[trigger] memos[i]).quote_id == qid ==> memos[i].version == 1
            + count_before(memos, qid, i)
}

/// No two memo rows of quote `qid` carry the same version number.
pub open spec fn no_version_ties(memos: Seq<MemoRecord>, qid: Seq<char>) -> bool {
    forall|a: int, b: int|
        0 <= a < b < memos.len() && (#[trigger] memos[a]).quote_id == qid && (#[trigger] memos[b]).quote_id
            == qid ==> memos[a].version != memos[b].version
}

proof fn lemma_count_prefix(a: Seq<MemoRecord>, b: Seq<MemoRecord>, qid: Seq<char>, i: int)
    requires
        0 <= i <= a.len(),
        i <= b.len(),
        forall|k: int| 0 <= k < i ==> a[k] == b[k],
    ensures
        count_before(a, qid, i) == count_before(b, qid, i),
    decreases i,
{
    if i > 0 {
        lemma_count_prefix(a, b, qid, i - 1);
    }
}

proof fn lemma_count_bounds(memos: Seq<MemoRecord>, qid: Seq<char>, i: int)
    requires
        0 <= i <= memos.len(),
    ensures
        0 <= count_before(memos, qid, i) <= i,
        count_before(memos, qid, i) == 0 <==> forall|k: int|
            0 <= k < i ==> (#[trigger] memos[k]).quote_id != qid,
    decreases i,
{
    if i > 0 {
        lemma_count_bounds(memos, qid, i - 1);
    }
}

/// With consecutive numbering, the greatest number of a quote is how many
/// memo rows it has.
proof fn lemma_consecutive_max(memos: Seq<MemoRecord>, qid: Seq<char>, n: int)
    requires
        numbered_from_one(memos, qid),
        0 <= n <= memos.len(),
    ensures
        match max_version(memos.take(n), qid) {
            None => count_before(memos, qid, n) == 0,
            Some(v) => count_before(memos, qid, n) == v && v > 0,
        },
    decreases n,
{
    if n > 0 {
        lemma_consecutive_max(memos, qid, n - 1);
        assert(memos.take(n).drop_last() =~= memos.take(n - 1));
        assert(memos.take(n).last() == memos[n - 1]);
        lemma_count_bounds(memos, qid, n - 1);
        if memos[n - 1].quote_id == qid {
            assert(memos[n - 1].version == 1 + count_before(memos, qid, n - 1));
        }
    }
}

/// The next number a quote's memo gets is one past the number of versions
/// it has, when its versions are numbered 1, 2, 3, ...
pub proof fn law_next_version_counts(s: DbState, qid: Seq<char>)
    requires
        numbered_from_one(s.memos, qid),
    ensures
        next_version(s, qid) == count_before(s.memos, qid, s.memos.len() as int) + 1,
{
    lemma_consecutive_max(s.memos, qid, s.memos.len() as int);
    assert(s.memos.take(s.memos.len() as int) =~= s.memos);
}

/// Adding a memo version to any quote keeps the versions of quote `q`
/// numbered 1, 2, 3, ... when they were.
pub proof fn law_add_memo_keeps_numbering(
    old: DbState,
    new: DbState,
    qid: Seq<char>,
    memo: Seq<char>,
    now: Seq<char>,
    res: Result<i64, crate::error::DbError>,
    q: Seq<char>,
)
    requires
        numbered_from_one(old.memos, q),
        memo_added(old, new, qid, memo, now, res),
    ensures
        numbered_from_one(new.memos, q),
{
    if res is Ok {
        let n = old.memos.len() as int;
        if q == qid {
            law_next_version_counts(old, qid);
        }
        assert forall|i: int| 0 <= i < new.memos.len() && (#[trigger] new.memos[i]).quote_id == q implies new.memos[i].version == 1 + count_before(new.memos, q, i) by {
            lemma_count_prefix(old.memos, new.memos, q, if i < n { i } else { n });
            if i < n {
                assert(new.memos[i] == old.memos[i]);
            }
        }
    }
}

/// Inserting a quote keeps the versions of quote `q` numbered 1, 2, 3, ...
/// when they were; the inserted quote's own memo becomes version 1 of a
/// history so numbered, when its id had no memo rows yet.
pub proof fn law_insert_quote_keeps_numbering(
    old: DbState,
    new: DbState,
    id: Seq<char>,
    now: Seq<char>,
    input: QuoteInsertView,
    embedding: Option<Seq<u32>>,
    res: Result<Seq<char>, crate::error::DbError>,
    q: Seq<char>,
)
    requires
        q != id ==> numbered_from_one(old.memos, q),
        q == id ==> max_version(old.memos, id) is None,
        quote_inserted(old, new, id, now, input, embedding, res),
    ensures
        numbered_from_one(new.memos, q),
{
    let n = old.memos.len() as int;
    if q == id {
        lemma_max_version(old.memos, id);
        lemma_count_bounds(old.memos, id, n);
    }
    if new.memos != old.memos {
        assert forall|i: int| 0 <= i < new.memos.len() && (#[trigger] new.memos[i]).quote_id == q implies new.memos[i].version == 1 + count_before(new.memos, q, i) by {
            lemma_count_prefix(old.memos, new.memos, q, if i < n { i } else { n });
            if i < n {
                assert(new.memos[i] == old.memos[i]);
            }
        }
    } else if q == id {
        assert forall|i: int| 0 <= i < new.memos.len() && (#[trigger] new.memos[i]).quote_id == q implies new.memos[i].version == 1 + count_before(new.memos, q, i) by {
            assert(new.memos[i] == old.memos[i]);
        }
    }
}

// ── Memo histories as they are read ─────────────────────────────────────────

proof fn lemma_count_mono(memos: Seq<MemoRecord>, qid: Seq<char>, i: int, j: int)
    requires
        0 <= i <= j <= memos.len(),
    ensures
        count_before(memos, qid, i) <= count_before(memos, qid, j),
    decreases j - i,
{
    if i < j {
        lemma_count_mono(memos, qid, i, j - 1);
    }
}

/// When a quote's versions are numbered 1, 2, 3, ..., two different memo
/// rows of it have different numbers, the earlier row the lower; every
/// number lies in `1..=n`, `n` being how many rows the quote has.
proof fn lemma_versions_ordered(memos: Seq<MemoRecord>, qid: Seq<char>)
    requires
        numbered_from_one(memos, qid),
    ensures
        forall|a: int, b: int|
            0 <= a < b < memos.len() && (#[trigger] memos[a]).quote_id == qid && (#[trigger] memos[b]).quote_id
                == qid ==> memos[a].version < memos[b].version,
        forall|a: int|
            0 <= a < memos.len() && (#[trigger] memos[a]).quote_id == qid ==> 1 <= memos[a].version
                <= count_before(memos, qid, memos.len() as int),
{
    assert forall|a: int, b: int|
        0 <= a < b < memos.len() && (#[trigger] memos[a]).quote_id == qid && (#[trigger] memos[b]).quote_id
            == qid implies memos[a].version < memos[b].version by {
        lemma_count_mono(memos, qid, a + 1, b);
    }
    assert forall|a: int|
        0 <= a < memos.len() && (#[trigger] memos[a]).quote_id == qid implies 1 <= memos[a].version
            <= count_before(memos, qid, memos.len() as int) by {
        lemma_count_mono(memos, qid, a + 1, memos.len() as int);
        lemma_count_bounds(memos, qid, a);
    }
}

/// Every count below the count of the first `i` rows is reached at a row of
/// the quote among them.
proof fn lemma_count_reached(memos: Seq<MemoRecord>, qid: Seq<char>, i: int, c: int)
    requires
        0 <= i <= memos.len(),
        0 <= c < count_before(memos, qid, i),
    ensures
        exists|k: int| 0 <= k < i && (#[trigger] memos[k]).quote_id == qid && count_before(memos, qid, k) == c,
    decreases i,
{
    lemma_count_bounds(memos, qid, i);
    if c < count_before(memos, qid, i - 1) {
        lemma_count_reached(memos, qid, i - 1, c);
    } else {
        assert(memos[i - 1].quote_id == qid);
    }
}

proof fn lemma_strict_ge(v: Seq<int>, i: int)
    requires
        forall|a: int, b: int| 0 <= a < b < v.len() ==> #[trigger] v[a] < #[trigger] v[b],
        forall|a: int| 0 <= a < v.len() ==> 1 <= #[trigger] v[a],
        0 <= i < v.len(),
    ensures
        v[i] >= i + 1,
    decreases i,
{
    if i > 0 {
        lemma_strict_ge(v, i - 1);
        assert(v[i - 1] < v[i]);
    }
}

proof fn lemma_strict_exact(v: Seq<int>, n: int, i: int)
    requires
        forall|a: int, b: int| 0 <= a < b < v.len() ==> #[trigger] v[a] < #[trigger] v[b],
        forall|a: int| 0 <= a < v.len() ==> 1 <= #[trigger] v[a] <= n,
        forall|c: int| 1 <= c <= n ==> #[trigger] v.contains(c),
        0 <= i < v.len(),
    ensures
        forall|j: int| 0 <= j <= i ==> #[trigger] v[j] == j + 1,
    decreases i,
{
    if i > 0 {
        lemma_strict_exact(v, n, i - 1);
    }
    lemma_strict_ge(v, i);
    assert(v.contains(i + 1));
    let p = choose|p: int| 0 <= p < v.len() && v[p] == i + 1;
    if p < i {
        assert(v[p] == p + 1);
    } else if p > i {
        assert(v[i] < v[p]);
    }
}

/// A strictly increasing sequence of numbers in `1..=n` that holds each of
/// them is `1, 2, ..., n`.
proof fn lemma_strict_range(v: Seq<int>, n: int)
    requires
        0 <= n,
        forall|a: int, b: int| 0 <= a < b < v.len() ==> #[trigger] v[a] < #[trigger] v[b],
        forall|a: int| 0 <= a < v.len() ==> 1 <= #[trigger] v[a] <= n,
        forall|c: int| 1 <= c <= n ==> #[trigger] v.contains(c),
    ensures
        v.len() == n,
        forall|j: int| 0 <= j < v.len() ==> #[trigger] v[j] == j + 1,
{
    if v.len() > 0 {
        lemma_strict_exact(v, n, v.len() - 1);
        assert(v[v.len() - 1] == v.len());
        assert(v.contains(n));
        let p = choose|p: int| 0 <= p < v.len() && v[p] == n;
        assert(v[p] == p + 1);
    } else if n > 0 {
        assert(v.contains(1));
    }
}

/// When a quote's versions are numbered 1, 2, 3, ... (as the operations
/// keep them, see `law_add_memo_keeps_numbering` and
/// `law_insert_quote_keeps_numbering`), its memo history, however it is read,
/// lists the versions 1, 2, ..., n in that order, n being how many the quote
/// has, and every entry belongs to the quote.
pub proof fn law_history_numbered(ms: Seq<MemoVersionView>, memos: Seq<MemoRecord>, qid: Seq<char>)
    requires
        numbered_from_one(memos, qid),
        lists_memos(ms, memos, qid),
    ensures
        ms.len() == count_before(memos, qid, memos.len() as int),
        forall|i: int| 0 <= i < ms.len() ==> (#[trigger] ms[i]).version == i + 1 && ms[i].quote_id == qid,
{
    let n = count_before(memos, qid, memos.len() as int);
    lemma_count_bounds(memos, qid, memos.len() as int);
    let idx = choose|idx: Seq<int>| memo_listing(ms, memos, qid, idx);
    lemma_versions_ordered(memos, qid);
    let v = Seq::new(ms.len(), |i: int| memos[idx[i]].version as int);
    assert forall|a: int, b: int| 0 <= a < b < v.len() implies #[trigger] v[a] < #[trigger] v[b] by {
        assert(idx[a] != idx[b]);
        assert(memos[idx[a]].version <= memos[idx[b]].version);
        if idx[a] > idx[b] {
            assert(memos[idx[b]].version < memos[idx[a]].version);
        }
    }
    assert forall|a: int| 0 <= a < v.len() implies 1 <= #[trigger] v[a] <= n by {
        assert(memos[idx[a]].quote_id == qid);
    }
    assert forall|c: int| 1 <= c <= n implies #[trigger] v.contains(c) by {
        lemma_count_reached(memos, qid, memos.len() as int, c - 1);
        let k = choose|k: int| 0 <= k < memos.len() && (#[trigger] memos[k]).quote_id == qid && count_before(memos, qid, k) == c - 1;
        assert(idx.contains(k));
        let p = choose|p: int| 0 <= p < idx.len() && idx[p] == k;
        assert(v[p] == c);
    }
    lemma_strict_range(v, n);
    assert forall|i: int| 0 <= i < ms.len() implies (#[trigger] ms[i]).version == i + 1 && ms[i].quote_id == qid by {
        assert(v[i] == i + 1);
        assert(ms[i] == memo_of(memos[idx[i]]));
    }
}

/// A memo history lists lower version numbers first, and only versions of
/// its quote.
pub proof fn law_history_oldest_first(ms: Seq<MemoVersionView>, memos: Seq<MemoRecord>, qid: Seq<char>, i: int, j: int)
    requires
        lists_memos(ms, memos, qid),
        0 <= i < j < ms.len(),
    ensures
        ms[i].version <= ms[j].version,
        ms[i].quote_id == qid,
{
    let idx = choose|idx: Seq<int>| memo_listing(ms, memos, qid, idx);
    assert(ms[i] == memo_of(memos[idx[i]]));
    assert(ms[j] == memo_of(memos[idx[j]]));
    assert(memos[idx[i]].version <= memos[idx[j]].version);
}

/// Numbering a quote's versions 1, 2, 3, ... leaves no ties among them.
pub proof fn law_numbered_has_no_ties(memos: Seq<MemoRecord>, qid: Seq<char>)
    requires
        numbered_from_one(memos, qid),
    ensures
        no_version_ties(memos, qid),
{
    lemma_versions_ordered(memos, qid);
}

/// When no two versions of a quote share a number, its memo history can be
/// read in one way only.
pub proof fn law_history_unique(a: Seq<MemoVersionView>, b: Seq<MemoVersionView>, memos: Seq<MemoRecord>, qid: Seq<char>)
    requires
        no_version_ties(memos, qid),
        lists_memos(a, memos, qid),
        lists_memos(b, memos, qid),
    ensures
        a == b,
{
    let ia = choose|idx: Seq<int>| memo_listing(a, memos, qid, idx);
    let ib = choose|idx: Seq<int>| memo_listing(b, memos, qid, idx);
    lemma_listings_agree(memos, qid, a, b, ia, ib, 0);
    if a.len() != b.len() {
        let (x, y, ix, iy) = if a.len() < b.len() { (a, b, ia, ib) } else { (b, a, ib, ia) };
        let p0 = x.len() as int;
        assert(memos[iy[p0]].quote_id == qid);
        assert(ix.contains(iy[p0]));
        let p = choose|p: int| 0 <= p < ix.len() && ix[p] == iy[p0];
        assert(iy[p] == ix[p]);
        assert(iy[p] == iy[p0]);
    }
    assert forall|i: int| 0 <= i < a.len() implies a[i] == b[i] by {
        assert(a[i] == memo_of(memos[ia[i]]));
        assert(b[i] == memo_of(memos[ib[i]]));
    }
    assert(a =~= b);
}

/// Two listings of a tie-free history put the same row at every position
/// both have.
proof fn lemma_listings_agree(
    memos: Seq<MemoRecord>,
    qid: Seq<char>,
    a: Seq<MemoVersionView>,
    b: Seq<MemoVersionView>,
    ia: Seq<int>,
    ib: Seq<int>,
    i: int,
)
    requires
        no_version_ties(memos, qid),
        memo_listing(a, memos, qid, ia),
        memo_listing(b, memos, qid, ib),
        0 <= i,
    ensures
        forall|j: int| i <= j < ia.len() && j < ib.len() ==> #[trigger] ia[j] == ib[j],
    decreases ia.len() - i,
{
    if i < ia.len() && i < ib.len() {
        lemma_listings_agree(memos, qid, a, b, ia, ib, i + 1);
        lemma_listings_agree_at(memos, qid, a, b, ia, ib, i);
    }
}

/// Rows listed in a tie-free history come in strictly increasing numbers.
proof fn lemma_listing_strict(memos: Seq<MemoRecord>, qid: Seq<char>, a: Seq<MemoVersionView>, ia: Seq<int>, x: int, y: int)
    requires
        no_version_ties(memos, qid),
        memo_listing(a, memos, qid, ia),
        0 <= x < y < ia.len(),
    ensures
        memos[ia[x]].version < memos[ia[y]].version,
{
    assert(ia[x] != ia[y]);
    assert(memos[ia[x]].version <= memos[ia[y]].version);
    assert(memos[ia[x]].quote_id == qid && memos[ia[y]].quote_id == qid);
    if ia[x] < ia[y] {
        assert(memos[ia[x]].version != memos[ia[y]].version);
    } else {
        assert(memos[ia[y]].version != memos[ia[x]].version);
    }
}

proof fn lemma_listings_agree_at(
    memos: Seq<MemoRecord>,
    qid: Seq<char>,
    a: Seq<MemoVersionView>,
    b: Seq<MemoVersionView>,
    ia: Seq<int>,
    ib: Seq<int>,
    i: int,
)
    requires
        no_version_ties(memos, qid),
        memo_listing(a, memos, qid, ia),
        memo_listing(b, memos, qid, ib),
        0 <= i < ia.len(),
        i < ib.len(),
    ensures
        ia[i] == ib[i],
    decreases i,
{
    if i > 0 {
        lemma_listings_agree_at(memos, qid, a, b, ia, ib, i - 1);
    }
    // every earlier position agrees
    assert forall|j: int| 0 <= j < i implies #[trigger] ia[j] == ib[j] by {
        lemma_listings_agree_at(memos, qid, a, b, ia, ib, j);
    }
    let x = ia[i];
    let y = ib[i];
    if x != y {
        assert(memos[x].quote_id == qid && memos[y].quote_id == qid);
        assert(ib.contains(x));
        let p = choose|p: int| 0 <= p < ib.len() && ib[p] == x;
        assert(ia.contains(y));
        let r = choose|r: int| 0 <= r < ia.len() && ia[r] == y;
        if p < i {
            assert(ia[p] == x);
        } else if r < i {
            assert(ib[r] == y);
        } else {
            // p > i and r > i
            lemma_listing_strict(memos, qid, b, ib, i, p);
            lemma_listing_strict(memos, qid, a, ia, i, r);
        }
    }
}

/// When no two versions of a quote share a number, the version that
/// `latest_memo` gives (a row of the quote carrying its greatest number) is
/// the last entry of the quote's memo history.
pub proof fn law_latest_is_last_of_history(ms: Seq<MemoVersionView>, memos: Seq<MemoRecord>, qid: Seq<char>, k: int)
    requires
        no_version_ties(memos, qid),
        lists_memos(ms, memos, qid),
        0 <= k < memos.len(),
        memos[k].quote_id == qid,
        max_version(memos, qid) == Some(memos[k].version),
    ensures
        ms.len() > 0,
        ms.last() == memo_of(memos[k]),
{
    law_history_ends_with_latest(ms, memos, qid);
    let idx = choose|idx: Seq<int>| memo_listing(ms, memos, qid, idx);
    let l = ms.len() - 1;
    assert(ms[l] == memo_of(memos[idx[l]]));
    assert(memos[idx[l]].quote_id == qid);
    if idx[l] < k {
        assert(memos[idx[l]].version != memos[k].version);
    } else if k < idx[l] {
        assert(memos[k].version != memos[idx[l]].version);
    }
}

/// Appending a row of another quote changes no quote's history.
proof fn lemma_push_other_keeps_history(memos: Seq<MemoRecord>, row: MemoRecord, qid: Seq<char>, ms: Seq<MemoVersionView>)
    requires
        row.quote_id != qid,
    ensures
        lists_memos(ms, memos, qid) <==> lists_memos(ms, memos.push(row), qid),
{
    let nm = memos.push(row);
    if lists_memos(ms, memos, qid) {
        let idx = choose|idx: Seq<int>| memo_listing(ms, memos, qid, idx);
        assert forall|i: int| 0 <= i < idx.len() implies nm[#[trigger] idx[i]] == memos[idx[i]] by {}
        assert forall|k: int| 0 <= k < nm.len() && (#[trigger] nm[k]).quote_id == qid implies idx.contains(k) by {
            assert(nm[k] == memos[k]);
        }
        assert forall|a: int, b: int| 0 <= a < b < idx.len() implies nm[#[trigger] idx[a]].version <= nm[#[trigger] idx[b]].version by {
            assert(nm[idx[a]] == memos[idx[a]]);
            assert(nm[idx[b]] == memos[idx[b]]);
        }
        assert(memo_listing(ms, nm, qid, idx));
    }
    if lists_memos(ms, nm, qid) {
        let idx = choose|idx: Seq<int>| memo_listing(ms, nm, qid, idx);
        assert forall|i: int| 0 <= i < idx.len() implies #[trigger] idx[i] < memos.len() && nm[idx[i]] == memos[idx[i]] by {
            if idx[i] == memos.len() {
                assert(nm[idx[i]] == row);
            }
        }
        assert forall|k: int| 0 <= k < memos.len() && (#[trigger] memos[k]).quote_id == qid implies idx.contains(k) by {
            assert(nm[k] == memos[k]);
        }
        assert forall|a: int, b: int| 0 <= a < b < idx.len() implies memos[#[trigger] idx[a]].version <= memos[#[trigger] idx[b]].version by {
            assert(nm[idx[a]] == memos[idx[a]]);
            assert(nm[idx[b]] == memos[idx[b]]);
        }
        assert(memo_listing(ms, memos, qid, idx));
    }
}

/// Adding a memo version leaves the quote's history as it was, followed by
/// the new version (with the next number and the text given).
pub proof fn law_added_memo_extends_history(
    old: DbState,
    new: DbState,
    qid: Seq<char>,
    memo: Seq<char>,
    now: Seq<char>,
    v: i64,
    before: Seq<MemoVersionView>,
    after: Seq<MemoVersionView>,
)
    requires
        no_version_ties(old.memos, qid),
        memo_added(old, new, qid, memo, now, Ok(v)),
        lists_memos(before, old.memos, qid),
        lists_memos(after, new.memos, qid),
    ensures
        after == before.push(memo_of(new.memos.last())),
        v == if before.len() == 0 { 1 } else { before.last().version + 1 },
        after.last().version == v,
        after.last().memo == memo,
        after.last().quote_id == qid,
        no_version_ties(new.memos, qid),
{
    let m = old.memos.len() as int;
    let nm = new.memos;
    let row = nm.last();
    law_added_memo_is_latest(old, new, qid, memo, now, v);
    law_history_ends_with_latest(before, old.memos, qid);
    assert(nm.drop_last() =~= old.memos);
    assert(nm[m] == row);
    assert(no_version_ties(nm, qid)) by {
        assert forall|a: int, b: int|
            0 <= a < b < nm.len() && (#[trigger] nm[a]).quote_id == qid && (#[trigger] nm[b]).quote_id
                == qid implies nm[a].version != nm[b].version by {
            assert(nm[a] == old.memos[a]);
            if b < m {
                assert(nm[b] == old.memos[b]);
            }
        }
    }
    let ib = choose|idx: Seq<int>| memo_listing(before, old.memos, qid, idx);
    let c = before.push(memo_of(row));
    let ic = ib.push(m);
    assert forall|i: int| 0 <= i < ib.len() implies nm[#[trigger] ib[i]] == old.memos[ib[i]] by {}
    assert(ic.no_duplicates()) by {
        assert forall|a: int, b: int| 0 <= a < ic.len() && 0 <= b < ic.len() && a != b implies ic[a] != ic[b] by {
            if a < ib.len() && b < ib.len() {
                assert(ib[a] != ib[b]);
            } else if a < ib.len() {
                assert(ic[a] == ib[a]);
            } else {
                assert(ic[b] == ib[b]);
            }
        }
    }
    assert forall|i: int| 0 <= i < ic.len() implies {
        &&& 0 <= #[trigger] ic[i] < nm.len()
        &&& nm[ic[i]].quote_id == qid
        &&& c[i] == memo_of(nm[ic[i]])
    } by {
        if i < ib.len() {
            assert(ic[i] == ib[i]);
        }
    }
    assert forall|k: int| 0 <= k < nm.len() && (#[trigger] nm[k]).quote_id == qid implies ic.contains(k) by {
        if k < m {
            assert(nm[k] == old.memos[k]);
            assert(ib.contains(k));
            let p = choose|p: int| 0 <= p < ib.len() && ib[p] == k;
            assert(ic[p] == k);
        } else {
            assert(ic[ib.len() as int] == k);
        }
    }
    assert forall|a: int, b: int| 0 <= a < b < ic.len() implies nm[#[trigger] ic[a]].version <= nm[#[trigger] ic[b]].version by {
        assert(ic[a] == ib[a]);
        assert(nm[ib[a]] == old.memos[ib[a]]);
        if b < ib.len() {
            assert(ic[b] == ib[b]);
            assert(nm[ib[b]] == old.memos[ib[b]]);
        } else {
            assert(ic[b] == m);
            assert(ib[a] < m);
        }
    }
    assert(memo_listing(c, nm, qid, ic));
    law_history_unique(after, c, nm, qid);
}

/// Adding a memo version to one quote, or inserting a quote under another
/// id, leaves the memo history of every other quote as it was.
pub proof fn law_writes_keep_other_histories(
    old: DbState,
    new: DbState,
    written: Seq<char>,
    memo: Seq<char>,
    now: Seq<char>,
    added: Result<i64, crate::error::DbError>,
    input: QuoteInsertView,
    embedding: Option<Seq<u32>>,
    inserted: Result<Seq<char>, crate::error::DbError>,
    other: Seq<char>,
    ms: Seq<MemoVersionView>,
)
    requires
        memo_added(old, new, written, memo, now, added) || quote_inserted(
            old,
            new,
            written,
            now,
            input,
            embedding,
            inserted,
        ),
        other != written,
    ensures
        lists_memos(ms, new.memos, other) <==> lists_memos(ms, old.memos, other),
{
    if new.memos != old.memos {
        let row = new.memos.last();
        assert(new.memos =~= old.memos.push(row));
        lemma_push_other_keeps_history(old.memos, row, other, ms);
    }
}

/// The ids of a listing of quotes.
pub open spec fn listed_ids(v: Seq<QuoteView>) -> Set<Seq<char>> {
    v.map_values(|q: QuoteView| q.id).to_set()
}

/// A listing of all quotes holds the id of every row, and no other.
proof fn lemma_listed_ids(res: Seq<QuoteView>, rows: Seq<QuoteRecord>)
    requires
        lists_quotes(res, rows, None),
    ensures
        listed_ids(res) == rows.map_values(|r: QuoteRecord| r.id).to_set(),
{
    let idx = choose|idx: Seq<int>| quote_listing(res, rows, None, idx);
    let a = res.map_values(|q: QuoteView| q.id);
    let b = rows.map_values(|r: QuoteRecord| r.id);
    assert forall|x: Seq<char>| a.contains(x) <==> b.contains(x) by {
        if a.contains(x) {
            let i = choose|i: int| 0 <= i < a.len() && a[i] == x;
            assert(res[i] == quote_of(rows[idx[i]]));
            assert(b[idx[i]] == x);
        }
        if b.contains(x) {
            let k = choose|k: int| 0 <= k < b.len() && b[k] == x;
            assert(listed_under(None, rows[k]));
            assert(idx.contains(k));
            let p = choose|p: int| 0 <= p < idx.len() && idx[p] == k;
            assert(a[p] == x);
        }
    }
    assert(listed_ids(res) =~= b.to_set());
}

/// Inserting a quote lists, afterwards, the ids listed before and the new
/// id, which was not among them.
pub proof fn law_insert_quote_lists_new_id(
    old: DbState,
    new: DbState,
    id: Seq<char>,
    now: Seq<char>,
    input: QuoteInsertView,
    embedding: Option<Seq<u32>>,
    before: Seq<QuoteView>,
    after: Seq<QuoteView>,
)
    requires
        quote_inserted(old, new, id, now, input, embedding, Ok(id)),
        lists_quotes(before, old.quotes, None),
        lists_quotes(after, new.quotes, None),
    ensures
        !listed_ids(before).contains(id),
        listed_ids(after) == listed_ids(before).insert(id),
{
    lemma_listed_ids(before, old.quotes);
    lemma_listed_ids(after, new.quotes);
    let a = old.quotes.map_values(|r: QuoteRecord| r.id);
    let b = new.quotes.map_values(|r: QuoteRecord| r.id);
    assert(b =~= a.push(id));
    if a.contains(id) {
        let k = choose|k: int| 0 <= k < a.len() && a[k] == id;
        assert(old.quotes[k].id == id);
        assert(has_quote(old, id));
    }
    assert forall|x: Seq<char>| b.contains(x) <==> a.contains(x) || x == id by {
        if b.contains(x) {
            let k = choose|k: int| 0 <= k < b.len() && b[k] == x;
            if k < a.len() {
                assert(a[k] == x);
            }
        }
        if a.contains(x) {
            let k = choose|k: int| 0 <= k < a.len() && a[k] == x;
            assert(b[k] == x);
        }
        if x == id {
            assert(b[a.len() as int] == x);
        }
    }
    assert(b.to_set() =~= a.to_set().insert(id));
}

// ── Embeddings ──────────────────────────────────────────────────────────────

/// The embeddings a run of insertions stores, in order: for each insertion
/// (id, embedding) that carried an embedding, the id with its components.
pub open spec fn inserted_embeddings(ins: Seq<(Seq<char>, Option<Seq<u32>>)>) -> Seq<(Seq<char>, Seq<u32>)> {
    ins.filter_map(
        |p: (Seq<char>, Option<Seq<u32>>)|
            match p.1 {
                Some(e) => Some((p.0, e)),
                None => None,
            },
    )
}

proof fn lemma_embeddings_of_inserts_upto(
    states: Seq<DbState>,
    ins: Seq<(Seq<char>, Option<Seq<u32>>)>,
    nows: Seq<Seq<char>>,
    inputs: Seq<QuoteInsertView>,
    i: int,
)
    requires
        states.len() == ins.len() + 1,
        nows.len() == ins.len(),
        inputs.len() == ins.len(),
        states[0].quotes.len() == 0,
        forall|k: int|
            0 <= k < ins.len() ==> quote_inserted(
                states[k],
                states[k + 1],
                (#[trigger] ins[k]).0,
                nows[k],
                inputs[k],
                ins[k].1,
                Ok(ins[k].0),
            ),
        0 <= i <= ins.len(),
    ensures
        embeddings_of(states[i].quotes) == inserted_embeddings(ins.take(i)),
        forall|k: int| 0 <= k < i ==> has_quote(states[i], (#[trigger] ins[k]).0),
        forall|a: int, b: int| 0 <= a < b < i ==> (#[trigger] ins[a]).0 != (#[trigger] ins[b]).0,
    decreases i,
{
    if i == 0 {
        assert(ins.take(0) =~= Seq::<(Seq<char>, Option<Seq<u32>>)>::empty());
        assert(states[0].quotes =~= Seq::<QuoteRecord>::empty());
    } else {
        lemma_embeddings_of_inserts_upto(states, ins, nows, inputs, i - 1);
        let old = states[i - 1];
        let new = states[i];
        assert(quote_inserted(old, new, ins[i - 1].0, nows[i - 1], inputs[i - 1], ins[i - 1].1, Ok(ins[i - 1].0)));
        law_insert_appends_embedding(old, new, ins[i - 1].0, nows[i - 1], inputs[i - 1], ins[i - 1].1);
        ins.lemma_filter_map_take_succ(
            |p: (Seq<char>, Option<Seq<u32>>)|
                match p.1 {
                    Some(e) => Some((p.0, e)),
                    None => None,
                },
            i - 1,
        );
        let n = old.quotes.len() as int;
        assert forall|k: int| 0 <= k < i implies has_quote(new, (#[trigger] ins[k]).0) by {
            if k < i - 1 {
                assert(has_quote(old, ins[k].0));
                let j = choose|j: int| 0 <= j < old.quotes.len() && #[trigger] old.quotes[j].id == ins[k].0;
                assert(new.quotes[j] == old.quotes[j]);
            } else {
                assert(new.quotes[n].id == ins[k].0);
            }
        }
        assert forall|a: int, b: int| 0 <= a < b < i implies (#[trigger] ins[a]).0 != (#[trigger] ins[b]).0 by {
            if b == i - 1 {
                assert(has_quote(old, ins[a].0));
                assert(!has_quote(old, ins[b].0));
            }
        }
    }
}

/// Into an empty store, a run of successful quote insertions stores, as
/// `all_embeddings` reads them back, exactly the embeddings given, in the
/// order given, each under the id of its quote, the ids all distinct;
/// quotes inserted without an embedding have none listed.
pub proof fn law_embeddings_of_inserts(
    states: Seq<DbState>,
    ins: Seq<(Seq<char>, Option<Seq<u32>>)>,
    nows: Seq<Seq<char>>,
    inputs: Seq<QuoteInsertView>,
)
    requires
        states.len() == ins.len() + 1,
        nows.len() == ins.len(),
        inputs.len() == ins.len(),
        states[0].quotes.len() == 0,
        forall|k: int|
            0 <= k < ins.len() ==> quote_inserted(
                states[k],
                states[k + 1],
                (#[trigger] ins[k]).0,
                nows[k],
                inputs[k],
                ins[k].1,
                Ok(ins[k].0),
            ),
    ensures
        embeddings_of(states.last().quotes) == inserted_embeddings(ins),
        forall|a: int, b: int| 0 <= a < b < ins.len() ==> (#[trigger] ins[a]).0 != (#[trigger] ins[b]).0,
{
    lemma_embeddings_of_inserts_upto(states, ins, nows, inputs, ins.len() as int);
    assert(ins.take(ins.len() as int) =~= ins);
}

// ── Listing by tag ──────────────────────────────────────────────────────────

/// A quote inserted with a tag is listed under that tag.
pub proof fn law_tagged_quote_is_listed(
    old: DbState,
    new: DbState,
    id: Seq<char>,
    now: Seq<char>,
    input: QuoteInsertView,
    embedding: Option<Seq<u32>>,
    tag: Seq<char>,
    listed: Seq<QuoteView>,
)
    requires
        wf_state(new),
        quote_inserted(old, new, id, now, input, embedding, Ok(id)),
        input.tags.contains(tag),
        lists_quotes(listed, new.quotes, Some(tag)),
    ensures
        lookup_quote(new, id) matches Some(q) && listed.contains(q),
{
    let n = old.quotes.len() as int;
    let row = new.quotes[n];
    assert(row == new_quote_record(id, now, input, embedding));
    assert(tagged(tag, row));
    let idx = choose|idx: Seq<int>| quote_listing(listed, new.quotes, Some(tag), idx);
    assert(listed_under(Some(tag), new.quotes[n]));
    assert(idx.contains(n));
    let w = choose|w: int| 0 <= w < idx.len() && idx[w] == n;
    assert(listed[w] == quote_of(row));
    crate::db::lemma_lookup_quote_in(new, n);
}

/// Listing by a tag gives exactly the quotes of the full listing that carry
/// the tag.
pub proof fn law_tag_listing_is_filter(
    rows: Seq<QuoteRecord>,
    all: Seq<QuoteView>,
    tag: Seq<char>,
    with_tag: Seq<QuoteView>,
    q: QuoteView,
)
    requires
        lists_quotes(all, rows, None),
        lists_quotes(with_tag, rows, Some(tag)),
    ensures
        with_tag.contains(q) <==> all.contains(q) && q.tags.contains(tag),
{
    let ia = choose|idx: Seq<int>| quote_listing(all, rows, None, idx);
    let it = choose|idx: Seq<int>| quote_listing(with_tag, rows, Some(tag), idx);
    if with_tag.contains(q) {
        let p = choose|p: int| 0 <= p < with_tag.len() && with_tag[p] == q;
        let k = it[p];
        assert(listed_under(None, rows[k]));
        assert(ia.contains(k));
        let r = choose|r: int| 0 <= r < ia.len() && ia[r] == k;
        assert(all[r] == q);
    }
    if all.contains(q) && q.tags.contains(tag) {
        let p = choose|p: int| 0 <= p < all.len() && all[p] == q;
        let k = ia[p];
        assert(quote_of(rows[k]) == q);
        assert(listed_under(Some(tag), rows[k]));
        assert(it.contains(k));
        let r = choose|r: int| 0 <= r < it.len() && it[r] == k;
        assert(with_tag[r] == q);
    }
}

/// The creation time, as stored text, of the row with id `id`.
pub open spec fn created_text(rows: Seq<QuoteRecord>, id: Seq<char>) -> Seq<char> {
    rows[choose|k: int| 0 <= k < rows.len() && #[trigger] rows[k].id == id].created_at
}

/// A listing of quotes (all of them, or those under a tag) puts the newer
/// first: of two listed quotes, the earlier has the greater or equal
/// creation time as stored text, compared by code points.
pub proof fn law_listing_newest_first(
    rows: Seq<QuoteRecord>,
    res: Seq<QuoteView>,
    tag: Option<Seq<char>>,
    i: int,
    j: int,
)
    requires
        crate::db::quote_ids_distinct(rows),
        lists_quotes(res, rows, tag),
        0 <= i < j < res.len(),
    ensures
        text_le(created_text(rows, res[j].id), created_text(rows, res[i].id)),
{
    let idx = choose|idx: Seq<int>| quote_listing(res, rows, tag, idx);
    let ki = idx[i];
    let kj = idx[j];
    assert(res[i] == quote_of(rows[ki]));
    assert(res[j] == quote_of(rows[kj]));
    assert(text_le(rows[kj].created_at, rows[ki].created_at));
    let ji = choose|k: int| 0 <= k < rows.len() && #[trigger] rows[k].id == res[i].id;
    let jj = choose|k: int| 0 <= k < rows.len() && #[trigger] rows[k].id == res[j].id;
    assert(rows[ki].id == res[i].id);
    assert(rows[kj].id == res[j].id);
    if ji != ki {
        assert(rows[ji].id != rows[ki].id);
    }
    if jj != kj {
        assert(rows[jj].id != rows[kj].id);
    }
}

/// Listing by a tag keeps the order of the full listing: two quotes come in
/// the same order in both, unless they were created at the same time (the
/// same stored text), whose order neither listing fixes.
pub proof fn law_tag_listing_keeps_order(
    rows: Seq<QuoteRecord>,
    all: Seq<QuoteView>,
    tag: Seq<char>,
    with_tag: Seq<QuoteView>,
    a: int,
    b: int,
    c: int,
    d: int,
)
    requires
        crate::db::quote_ids_distinct(rows),
        lists_quotes(all, rows, None),
        lists_quotes(with_tag, rows, Some(tag)),
        0 <= a < b < with_tag.len(),
        0 <= c < all.len(),
        0 <= d < all.len(),
        all[c] == with_tag[a],
        all[d] == with_tag[b],
    ensures
        c < d || created_text(rows, with_tag[a].id) == created_text(rows, with_tag[b].id),
{
    let ia = choose|idx: Seq<int>| quote_listing(all, rows, None, idx);
    let it = choose|idx: Seq<int>| quote_listing(with_tag, rows, Some(tag), idx);
    let ka = it[a];
    let kb = it[b];
    assert(with_tag[a] == quote_of(rows[ka]));
    assert(with_tag[b] == quote_of(rows[kb]));
    assert(all[c] == quote_of(rows[ia[c]]));
    assert(all[d] == quote_of(rows[ia[d]]));
    assert(ia[c] == ka) by {
        if ia[c] != ka {
            assert(rows[ia[c]].id != rows[ka].id);
        }
    }
    assert(ia[d] == kb) by {
        if ia[d] != kb {
            assert(rows[ia[d]].id != rows[kb].id);
        }
    }
    assert(ka != kb);
    let ta = rows[ka].created_at;
    let tb = rows[kb].created_at;
    assert(text_le(tb, ta));
    if d < c {
        assert(text_le(rows[ia[c]].created_at, rows[ia[d]].created_at));
        crate::text::lemma_text_le_antisym(ta, tb);
    }
    let ja = choose|k: int| 0 <= k < rows.len() && #[trigger] rows[k].id == with_tag[a].id;
    let jb = choose|k: int| 0 <= k < rows.len() && #[trigger] rows[k].id == with_tag[b].id;
    assert(rows[ka].id == with_tag[a].id);
    assert(rows[kb].id == with_tag[b].id);
    if ja != ka {
        assert(rows[ja].id != rows[ka].id);
    }
    if jb != kb {
        assert(rows[jb].id != rows[kb].id);
    }
}

// ── What an operation leaves alone ──────────────────────────────────────────

/// Inserting a quote leaves every other quote as it was.
pub proof fn law_insert_quote_keeps_other_quotes(
    old: DbState,
    new: DbState,
    id: Seq<char>,
    now: Seq<char>,
    input: QuoteInsertView,
    embedding: Option<Seq<u32>>,
    res: Result<Seq<char>, crate::error::DbError>,
    other: Seq<char>,
)
    requires
        wf_state(old),
        wf_state(new),
        quote_inserted(old, new, id, now, input, embedding, res),
        other != id,
    ensures
        lookup_quote(new, other) == lookup_quote(old, other),
{
    if new.quotes != old.quotes {
        let n = old.quotes.len() as int;
        assert(new.quotes.drop_last() =~= old.quotes);
        if has_quote(old, other) {
            let i = choose|i: int| 0 <= i < old.quotes.len() && #[trigger] old.quotes[i].id == other;
            assert(new.quotes[i] == old.quotes[i]);
            crate::db::lemma_lookup_quote_in(old, i);
            crate::db::lemma_lookup_quote_in(new, i);
        } else {
            if has_quote(new, other) {
                let i = choose|i: int| 0 <= i < new.quotes.len() && #[trigger] new.quotes[i].id == other;
                if i < n {
                    assert(new.quotes[i] == old.quotes[i]);
                    assert(has_quote(old, other));
                } else {
                    assert(new.quotes[n].id == id);
                }
            }
        }
    }
}

/// Adding a memo version or storing an asset leaves every quote as it was.
pub proof fn law_memo_and_asset_keep_quotes(
    old: DbState,
    new: DbState,
    qid: Seq<char>,
    memo: Seq<char>,
    now: Seq<char>,
    res: Result<i64, crate::error::DbError>,
    input: AssetInsertView,
    id: Seq<char>,
)
    requires
        memo_added(old, new, qid, memo, now, res) || asset_inserted(old, new, input, now),
    ensures
        lookup_quote(new, id) == lookup_quote(old, id),
{
    assert(new.quotes =~= old.quotes);
}

/// A search yields at most `top_n` results.
pub proof fn law_search_at_most_top_n(s: DbState, ranked: Seq<(Seq<char>, u32)>, top_n: int)
    requires
        0 <= top_n,
    ensures
        hits_of(s, ranked.take(if top_n < ranked.len() { top_n } else { ranked.len() as int })).len() <= top_n,
{
    let r = ranked.take(if top_n < ranked.len() { top_n } else { ranked.len() as int });
    lemma_filter_map_len(r, |p: (Seq<char>, u32)|
        match lookup_quote(s, p.0) {
            Some(q) => Some((q, p.1)),
            None => None,
        });
}

proof fn lemma_filter_map_len<A, B>(v: Seq<A>, f: spec_fn(A) -> Option<B>)
    ensures
        v.filter_map(f).len() <= v.len(),
    decreases v.len(),
{
    if v.len() > 0 {
        lemma_filter_map_len(v.drop_last(), f);
    }
}


// ── The text order ──────────────────────────────────────────────────────────

/// One character sorts before or equal to another exactly when its code
/// point is not greater.
pub proof fn law_text_le_chars(c: char, d: char)
    ensures
        text_le(seq![c], seq![d]) <==> (c as u32) <= (d as u32),
{
    let a = seq![c];
    let b = seq![d];
    assert(a.len() == 1 && a[0] == c);
    assert(b.len() == 1 && b[0] == d);
    if (c as u32) == (d as u32) {
        assert(a.drop_first() =~= Seq::<char>::empty());
        assert(b.drop_first() =~= Seq::<char>::empty());
        assert(text_le(a.drop_first(), b.drop_first()));
        assert(text_le(a, b));
    } else if (c as u32) < (d as u32) {
        assert(text_le(a, b));
    } else {
        assert(!text_le(a, b));
    }
}

/// Two texts that agree up to a first differing character are ordered by
/// the code points of that character, whatever follows.
pub proof fn law_text_le_first_difference(p: Seq<char>, c: char, d: char, x: Seq<char>, y: Seq<char>)
    requires
        (c as u32) != (d as u32),
    ensures
        text_le(p + seq![c] + x, p + seq![d] + y) <==> (c as u32) < (d as u32),
    decreases p.len(),
{
    let a = p + seq![c] + x;
    let b = p + seq![d] + y;
    if p.len() > 0 {
        law_text_le_first_difference(p.drop_first(), c, d, x, y);
        assert(a.drop_first() =~= p.drop_first() + seq![c] + x);
        assert(b.drop_first() =~= p.drop_first() + seq![d] + y);
        assert(a[0] == p[0] && b[0] == p[0]);
    } else {
        assert(a[0] == c && b[0] == d);
    }
}

/// A text sorts before or equal to every text it begins.
pub proof fn law_text_le_prefix(p: Seq<char>, x: Seq<char>)
    ensures
        text_le(p, p + x),
    decreases p.len(),
{
    if p.len() > 0 {
        law_text_le_prefix(p.drop_first(), x);
        assert((p + x).drop_first() =~= p.drop_first() + x);
        assert((p + x)[0] == p[0]);
    }
}

// ── Search results ──────────────────────────────────────────────────────────

/// `pos` gives, for each hit, the ranked position it comes from: the
/// positions rise, each names the hit's quote and carries its score, and
/// every ranked position whose id names a quote is among them.
pub open spec fn hits_from_positions(
    s: DbState,
    ranked: Seq<(Seq<char>, u32)>,
    hits: Seq<(QuoteView, u32)>,
    pos: Seq<int>,
) -> bool {
    &&& pos.len() == hits.len()
    &&& forall|i: int|
        0 <= i < pos.len() ==> {
            &&& 0 <= #[trigger] pos[i] < ranked.len()
            &&& lookup_quote(s, ranked[pos[i]].0) == Some(hits[i].0)
            &&& hits[i].1 == ranked[pos[i]].1
        }
    &&& forall|i: int, j: int| 0 <= i < j < pos.len() ==> #[trigger] pos[i] < #[trigger] pos[j]
    &&& forall|k: int| 0 <= k < ranked.len() && (#[trigger] lookup_quote(s, ranked[k].0)) is Some ==> pos.contains(k)
}

/// The hits of a ranking keep its order: the i-th hit comes from an earlier
/// ranked position than the (i+1)-th, each hit is the quote its id names
/// with the score it was ranked with, and every ranked id that names a quote
/// gives a hit.
pub proof fn law_hits_keep_rank_order(s: DbState, ranked: Seq<(Seq<char>, u32)>)
    ensures
        exists|pos: Seq<int>| #[trigger] hits_from_positions(s, ranked, hits_of(s, ranked), pos),
    decreases ranked.len(),
{
    if ranked.len() == 0 {
        let pos: Seq<int> = Seq::empty();
        assert(hits_from_positions(s, ranked, hits_of(s, ranked), pos));
    } else {
        let prev = ranked.drop_last();
        law_hits_keep_rank_order(s, prev);
        let pp = choose|pos: Seq<int>| hits_from_positions(s, prev, hits_of(s, prev), pos);
        let n = prev.len() as int;
        let h = hits_of(s, ranked);
        let hp = hits_of(s, prev);
        assert forall|k: int| 0 <= k < n implies prev[k] == #[trigger] ranked[k] by {}
        match lookup_quote(s, ranked[n].0) {
            Some(q) => {
                assert(h =~= hp + seq![(q, ranked[n].1)]);
                let pos = pp.push(n);
                assert forall|k: int| 0 <= k < ranked.len() && (#[trigger] lookup_quote(s, ranked[k].0)) is Some implies pos.contains(k) by {
                    if k < n {
                        assert(lookup_quote(s, prev[k].0) is Some);
                        assert(pp.contains(k));
                        let w = choose|w: int| 0 <= w < pp.len() && pp[w] == k;
                        assert(pos[w] == k);
                    } else {
                        assert(pos[pp.len() as int] == k);
                    }
                }
                assert forall|i: int, j: int| 0 <= i < j < pos.len() implies #[trigger] pos[i] < #[trigger] pos[j] by {
                    if j < pp.len() {
                        assert(pp[i] < pp[j]);
                    } else {
                        assert(0 <= pp[i] < prev.len());
                    }
                }
                assert(hits_from_positions(s, ranked, h, pos));
            },
            None => {
                assert(h =~= hp);
                assert forall|k: int| 0 <= k < ranked.len() && (#[trigger] lookup_quote(s, ranked[k].0)) is Some implies pp.contains(k) by {
                    if k < n {
                        assert(lookup_quote(s, prev[k].0) is Some);
                    }
                }
                assert(hits_from_positions(s, ranked, h, pp));
            },
        }
    }
}

/// When every ranked id names a quote, the hits are those quotes, one per
/// ranked id, in rank order, each with its score.
pub proof fn law_hits_all_found(s: DbState, ranked: Seq<(Seq<char>, u32)>)
    requires
        forall|k: int| 0 <= k < ranked.len() ==> (#[trigger] lookup_quote(s, ranked[k].0)) is Some,
    ensures
        hits_of(s, ranked).len() == ranked.len(),
        forall|i: int|
            0 <= i < ranked.len() ==> lookup_quote(s, (#[trigger] ranked[i]).0) == Some(hits_of(s, ranked)[i].0)
                && hits_of(s, ranked)[i].1 == ranked[i].1,
{
    law_hits_keep_rank_order(s, ranked);
    let h = hits_of(s, ranked);
    let pos = choose|pos: Seq<int>| hits_from_positions(s, ranked, h, pos);
    assert forall|k: int| 0 <= k < ranked.len() implies #[trigger] pos.contains(k) by {
        assert(lookup_quote(s, ranked[k].0) is Some);
    }
    lemma_rising_positions_cover(pos, ranked.len() as int);
    assert forall|i: int| 0 <= i < ranked.len() implies lookup_quote(s, (#[trigger] ranked[i]).0) == Some(h[i].0) && h[i].1 == ranked[i].1 by {
        assert(pos[i] == i);
    }
}

/// Rising positions in `0..n` that include every position of `0..n` are
/// `0, 1, ..., n - 1`.
proof fn lemma_rising_positions_cover(pos: Seq<int>, n: int)
    requires
        0 <= n,
        forall|i: int| 0 <= i < pos.len() ==> 0 <= #[trigger] pos[i] < n,
        forall|i: int, j: int| 0 <= i < j < pos.len() ==> #[trigger] pos[i] < #[trigger] pos[j],
        forall|k: int| 0 <= k < n ==> #[trigger] pos.contains(k),
    ensures
        pos.len() == n,
        forall|i: int| 0 <= i < n ==> #[trigger] pos[i] == i,
{
    let v = Seq::new(pos.len(), |i: int| pos[i] + 1);
    assert forall|c: int| 1 <= c <= n implies #[trigger] v.contains(c) by {
        assert(pos.contains(c - 1));
        let p = choose|p: int| 0 <= p < pos.len() && pos[p] == c - 1;
        assert(v[p] == c);
    }
    assert forall|a: int, b: int| 0 <= a < b < v.len() implies #[trigger] v[a] < #[trigger] v[b] by {
        assert(pos[a] < pos[b]);
    }
    lemma_strict_range(v, n);
    assert forall|i: int| 0 <= i < n implies #[trigger] pos[i] == i by {
        assert(v[i] == i + 1);
    }
}

// ── Comma-separated lists ───────────────────────────────────────────────────

/// The pieces joined back together with a comma between each two.
pub open spec fn join_commas(pieces: Seq<Seq<char>>) -> Seq<char>
    decreases pieces.len(),
{
    if pieces.len() == 0 {
        Seq::empty()
    } else if pieces.len() == 1 {
        pieces[0]
    } else {
        join_commas(pieces.drop_last()) + seq![','] + pieces.last()
    }
}

/// Splitting at commas cuts the text at its commas and nowhere else: no
/// piece holds a comma, and the pieces joined with commas give the text
/// back.
pub proof fn law_split_commas(s: Seq<char>)
    ensures
        split_commas(s).len() >= 1,
        forall|i: int, k: int|
            0 <= i < split_commas(s).len() && 0 <= k < split_commas(s)[i].len() ==> #[trigger] split_commas(s)[i][k]
                != ',',
        join_commas(split_commas(s)) == s,
    decreases s.len(),
{
    if s.len() > 0 {
        let prev = split_commas(s.drop_last());
        law_split_commas(s.drop_last());
        let c = s.last();
        assert(s =~= s.drop_last().push(c));
        if c == ',' {
            let next = prev.push(Seq::empty());
            assert(next.drop_last() =~= prev);
            assert(join_commas(next) == join_commas(prev) + seq![','] + Seq::<char>::empty());
            assert(join_commas(next) =~= s);
            assert forall|i: int, k: int|
                0 <= i < next.len() && 0 <= k < next[i].len() implies #[trigger] next[i][k] != ',' by {
                assert(i < prev.len());
                assert(next[i] == prev[i]);
            }
        } else {
            let l = prev.len() - 1;
            let next = prev.update(l, prev.last().push(c));
            if prev.len() == 1 {
                assert(join_commas(next) == next[0]);
                assert(join_commas(prev) == prev[0]);
                assert(next[0] =~= prev[0].push(c));
            } else {
                assert(next.drop_last() =~= prev.drop_last());
                assert(next.last() == prev.last().push(c));
                assert(join_commas(next) =~= join_commas(prev).push(c));
            }
            assert forall|i: int, k: int|
                0 <= i < next.len() && 0 <= k < next[i].len() implies #[trigger] next[i][k] != ',' by {
                if i < l {
                    assert(next[i] == prev[i]);
                } else if k < prev.last().len() {
                    assert(next[i][k] == prev[l][k]);
                }
            }
        }
    }
}

/// Text without a comma is one piece.
proof fn lemma_split_no_comma(s: Seq<char>)
    requires
        forall|k: int| 0 <= k < s.len() ==> #[trigger] s[k] != ',',
    ensures
        split_commas(s) == seq![s],
    decreases s.len(),
{
    if s.len() > 0 {
        lemma_split_no_comma(s.drop_last());
        assert(s.last() == s[s.len() - 1]);
        assert(s.drop_last().push(s.last()) =~= s);
        assert(seq![s.drop_last()].update(0, s.drop_last().push(s.last())) =~= seq![s]);
    } else {
        assert(s =~= Seq::<char>::empty());
    }
}

/// A tag list without a comma names one tag, the text trimmed, or none
/// when the trimmed text is empty: only commas separate tags.
pub proof fn law_tag_list_without_comma(s: Seq<char>)
    requires
        forall|k: int| 0 <= k < s.len() ==> #[trigger] s[k] != ',',
    ensures
        tag_list(s) == if trimmed(s).len() > 0 {
            seq![trimmed(s)]
        } else {
            Seq::<Seq<char>>::empty()
        },
{
    lemma_split_no_comma(s);
    let m = seq![s].map_values(|p: Seq<char>| trimmed(p));
    assert(m =~= seq![trimmed(s)]);
    reveal(Seq::filter);
    assert(m.drop_last() =~= Seq::<Seq<char>>::empty());
    assert(Seq::<Seq<char>>::empty().filter(|t: Seq<char>| t.len() > 0) =~= Seq::<Seq<char>>::empty());
    if trimmed(s).len() > 0 {
        assert(tag_list(s) =~= seq![trimmed(s)]);
    } else {
        assert(tag_list(s) =~= Seq::<Seq<char>>::empty());
    }
}

// ── White space ─────────────────────────────────────────────────────────────

/// The characters of Unicode's `White_Space` property.
pub open spec fn unicode_white_space(x: u32) -> bool {
    ||| x == 0x09 || x == 0x0a || x == 0x0b || x == 0x0c || x == 0x0d
    ||| x == 0x20 || x == 0x85 || x == 0xa0 || x == 0x1680
    ||| x == 0x2000 || x == 0x2001 || x == 0x2002 || x == 0x2003 || x == 0x2004 || x == 0x2005
    ||| x == 0x2006 || x == 0x2007 || x == 0x2008 || x == 0x2009 || x == 0x200a
    ||| x == 0x2028 || x == 0x2029 || x == 0x202f || x == 0x205f || x == 0x3000
}

proof fn lemma_trim_front_push(s: Seq<char>, c: char)
    ensures
        trim_front(s.push(c)) == if trim_front(s).len() == 0 {
            trim_front(seq![c])
        } else {
            trim_front(s).push(c)
        },
    decreases s.len(),
{
    if s.len() == 0 {
        assert(s.push(c) =~= seq![c]);
    } else {
        assert(s.push(c)[0] == s[0]);
        if is_white_space(s[0]) {
            assert(s.push(c).drop_first() =~= s.drop_first().push(c));
            lemma_trim_front_push(s.drop_first(), c);
        }
    }
}

/// Trimming ignores a white-space character (any of Unicode's `White_Space`:
/// tab, line feed, vertical tab, form feed, carriage return, space, ...)
/// added at either end of a text, and keeps a single character that is not
/// white space.
pub proof fn law_trim_ignores_white_space(s: Seq<char>, c: char)
    ensures
        unicode_white_space(c as u32) ==> trimmed(s.push(c)) == trimmed(s),
        unicode_white_space(c as u32) ==> trimmed(seq![c] + s) == trimmed(s),
        !unicode_white_space(c as u32) ==> trimmed(seq![c]) == seq![c],
{
    let w = unicode_white_space(c as u32);
    assert(w == is_white_space(c));
    if w {
        lemma_trim_front_push(s, c);
        assert(seq![c].drop_first() =~= Seq::<char>::empty());
        let t = trim_front(s);
        assert(seq![c][0] == c);
        assert(trim_front(seq![c]) == trim_front(seq![c].drop_first()));
        assert(trim_front(Seq::<char>::empty()) =~= Seq::<char>::empty());
        if t.len() > 0 {
            assert(t.push(c).drop_last() =~= t);
            assert(t.push(c).last() == c);
        } else {
            assert(t =~= Seq::<char>::empty());
        }
        assert((seq![c] + s).drop_first() =~= s);
        assert((seq![c] + s)[0] == c);
    } else {
        assert(seq![c][0] == c);
        assert(seq![c].last() == c);
    }
}

} // verus!
