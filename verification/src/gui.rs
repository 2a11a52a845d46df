//! What the desktop front end exchanges with the store: plain records for
//! quotes and memo versions, and the commands it issues.

use vstd::prelude::*;
use crate::db::{lists_memos, lists_quotes, lookup_quote, max_version, memo_added, quote_inserted, embedding_view, result_view, uuid_text, Db, DbState};
use crate::error::DbError;
use crate::search::{collect_hits, hits_of, ranked_view, result_views};
use crate::models::{clone_opt, clone_strings, opt_view, MemoVersion, MemoVersionView, Quote, QuoteInsert, QuoteInsertView, QuoteView};
use crate::time::{day_pattern, minute_pattern, utc_format, utc_parse};

verus! {

/// A quote as the front end shows it.
#[derive(Debug)]
pub struct QuoteDto {
    pub id: String,
    pub quote: String,
    pub source_title: Option<String>,
    pub source_author: Option<String>,
    pub source_url: Option<String>,
    pub tags: Vec<String>,
    /// The day it was created, as `YYYY-MM-DD`.
    pub created_at: String,
    pub latest_memo: Option<String>,
}

/// A memo version as the front end shows it.
#[derive(Debug)]
pub struct MemoVersionDto {
    pub version: i64,
    pub memo: String,
    /// When it was written, as `YYYY-MM-DD HH:MM`.
    pub created_at: String,
}

/// A new quote as the front end submits it.
#[derive(Debug)]
pub struct AddQuoteInput {
    pub quote: String,
    pub source_title: Option<String>,
    pub source_author: Option<String>,
    pub source_url: Option<String>,
    pub tags: Vec<String>,
    pub memo: Option<String>,
}

/// `d` shows quote `q` with latest memo `memo`.
pub open spec fn dto_shows(d: QuoteDto, q: QuoteView, memo: Option<Seq<char>>) -> bool {
    &&& d.id@ == q.id
    &&& d.quote@ == q.quote
    &&& opt_view(d.source_title) == q.source_title
    &&& opt_view(d.source_author) == q.source_author
    &&& opt_view(d.source_url) == q.source_url
    &&& d.tags.deep_view() == q.tags
    &&& utc_format(q.created_at.0, q.created_at.1, day_pattern()) == Some(d.created_at@)
    &&& opt_view(d.latest_memo) == memo
}

/// `memo` is the text of the latest version of the memo of quote `qid`:
/// a version with the greatest number, or `None` when it has none.
pub open spec fn is_latest_memo(s: DbState, qid: Seq<char>, memo: Option<Seq<char>>) -> bool {
    match memo {
        None => max_version(s.memos, qid) is None,
        Some(t) => exists|k: int|
            0 <= k < s.memos.len() && (#[trigger] s.memos[k]).quote_id == qid && max_version(
                s.memos,
                qid,
            ) == Some(s.memos[k].version) && s.memos[k].memo == t,
    }
}

/// `d` shows quote `q` of the store `s`, with the text of its latest memo.
pub open spec fn dto_shows_in(d: QuoteDto, q: QuoteView, s: DbState) -> bool {
    dto_shows(d, q, opt_view(d.latest_memo)) && is_latest_memo(s, q.id, opt_view(d.latest_memo))
}

/// `d` shows memo version `m`.
pub open spec fn memo_dto_shows(d: MemoVersionDto, m: MemoVersionView) -> bool {
    &&& d.version == m.version
    &&& d.memo@ == m.memo
    &&& utc_format(m.created_at.0, m.created_at.1, minute_pattern()) == Some(d.created_at@)
}

fn dto_of(q: &Quote, latest_memo: Option<String>) -> (res: QuoteDto)
    ensures
        dto_shows(res, q@, opt_view(latest_memo)),
{
    QuoteDto {
        id: q.id.clone(),
        quote: q.quote.clone(),
        source_title: clone_opt(&q.source_title),
        source_author: clone_opt(&q.source_author),
        source_url: clone_opt(&q.source_url),
        tags: clone_strings(&q.tags),
        created_at: q.created_at.day(),
        latest_memo,
    }
}

/// The front end's record of quote `q` with the text of its latest memo.
pub fn quote_to_dto(q: Quote, latest_memo: Option<String>) -> (res: QuoteDto)
    ensures
        dto_shows(res, q@, opt_view(latest_memo)),
{
    dto_of(&q, latest_memo)
}

/// The front end's record of a memo version.
pub fn memo_version_to_dto(m: &MemoVersion) -> (res: MemoVersionDto)
    ensures
        memo_dto_shows(res, m@),
{
    MemoVersionDto { version: m.version, memo: m.memo.clone(), created_at: m.created_at.day_minute() }
}

fn latest_memo_text(db: &Db, qid: &str) -> (res: Option<String>)
    requires
        db.wf(),
    ensures
        is_latest_memo(db@, qid@, opt_view(res)),
{
    match db.latest_memo(qid) {
        Some(m) => Some(m.memo),
        None => None,
    }
}

fn dtos_of(db: &Db, quotes: &Vec<Quote>) -> (res: Vec<QuoteDto>)
    requires
        db.wf(),
    ensures
        res@.len() == quotes@.len(),
        forall|i: int|
            0 <= i < res@.len() ==> dto_shows_in(#[trigger] res@[i], quotes@[i]@, db@),
{
    let mut res: Vec<QuoteDto> = Vec::new();
    let mut i: usize = 0;
    while i < quotes.len()
        invariant
            i <= quotes@.len(),
            db.wf(),
            res@.len() == i,
            forall|k: int|
                0 <= k < i ==> dto_shows_in(#[trigger] res@[k], quotes@[k]@, db@),
        decreases quotes@.len() - i,
    {
        let memo = latest_memo_text(db, quotes[i].id.as_str());
        let ghost mv = opt_view(memo);
        let d = dto_of(&quotes[i], memo);
        res.push(d);
        assert(dto_shows_in(res@[i as int], quotes@[i as int]@, db@));
        i = i + 1;
    }
    res
}

/// Every quote with its latest memo, from the latest created to the
/// earliest.
pub fn list_quotes(db: &Db) -> (res: Vec<QuoteDto>)
    requires
        db.wf(),
    ensures
        exists|qs: Seq<QuoteView>|
            {
                &&& lists_quotes(qs, db@.quotes, None)
                &&& res@.len() == qs.len()
                &&& forall|i: int|
                    0 <= i < qs.len() ==> dto_shows_in(#[trigger] res@[i], qs[i], db@)
            },
{
    let quotes = db.list_quotes();
    let res = dtos_of(db, &quotes);
    assert(lists_quotes(crate::db::quote_views(quotes@), db@.quotes, None));
    assert forall|i: int| 0 <= i < quotes@.len() implies dto_shows_in(#[trigger] res@[i], crate::db::quote_views(quotes@)[i], db@) by {
        assert(crate::db::quote_views(quotes@)[i] == quotes@[i]@);
    }
    res
}

/// The quotes that carry `tag` (see `Db::list_quotes_by_tag`) with their
/// latest memos, from the latest created to the earliest.
pub fn list_by_tag(db: &Db, tag: &str) -> (res: Vec<QuoteDto>)
    requires
        db.wf(),
    ensures
        exists|qs: Seq<QuoteView>|
            {
                &&& lists_quotes(qs, db@.quotes, Some(tag@))
                &&& res@.len() == qs.len()
                &&& forall|i: int|
                    0 <= i < qs.len() ==> dto_shows_in(#[trigger] res@[i], qs[i], db@)
            },
{
    let quotes = db.list_quotes_by_tag(tag);
    let res = dtos_of(db, &quotes);
    assert(lists_quotes(crate::db::quote_views(quotes@), db@.quotes, Some(tag@)));
    assert forall|i: int| 0 <= i < quotes@.len() implies dto_shows_in(#[trigger] res@[i], crate::db::quote_views(quotes@)[i], db@) by {
        assert(crate::db::quote_views(quotes@)[i] == quotes@[i]@);
    }
    res
}

/// Every version of the memo of quote `quote_id`, from the first to the
/// latest.
pub fn get_history(db: &Db, quote_id: &str) -> (res: Vec<MemoVersionDto>)
    requires
        db.wf(),
    ensures
        exists|ms: Seq<MemoVersionView>|
            {
                &&& lists_memos(ms, db@.memos, quote_id@)
                &&& res@.len() == ms.len()
                &&& forall|i: int| 0 <= i < ms.len() ==> memo_dto_shows(#[trigger] res@[i], ms[i])
            },
{
    let versions = db.get_memo_versions(quote_id);
    let mut res: Vec<MemoVersionDto> = Vec::new();
    let mut i: usize = 0;
    while i < versions.len()
        invariant
            i <= versions@.len(),
            res@.len() == i,
            forall|k: int| 0 <= k < i ==> memo_dto_shows(#[trigger] res@[k], versions@[k]@),
        decreases versions@.len() - i,
    {
        res.push(memo_version_to_dto(&versions[i]));
        i = i + 1;
    }
    let ghost ms = crate::db::memo_views(versions@);
    assert forall|k: int| 0 <= k < ms.len() implies memo_dto_shows(#[trigger] res@[k], ms[k]) by {
        assert(ms[k] == versions@[k]@);
    }
    res
}

/// Adds `memo` as the next version of the memo of quote `quote_id`.
pub fn update_memo(db: &mut Db, quote_id: &str, memo: &str) -> (res: Result<i64, DbError>)
    requires
        old(db).wf(),
    ensures
        final(db).wf(),
        exists|now: Seq<char>|
            utc_parse(now) is Some && memo_added(old(db)@, final(db)@, quote_id@, memo@, now, res),
{
    db.add_memo_version(quote_id, memo)
}

pub open spec fn input_view(input: AddQuoteInput) -> QuoteInsertView {
    QuoteInsertView {
        quote: input.quote@,
        source_title: opt_view(input.source_title),
        source_author: opt_view(input.source_author),
        source_url: opt_view(input.source_url),
        tags: input.tags.deep_view(),
        memo: opt_view(input.memo),
    }
}

/// Stores the quote submitted, with its embedding (the bit patterns of its
/// components), under a fresh id, and returns the id.
pub fn add_quote(db: &mut Db, input: AddQuoteInput, embedding: Option<Vec<u32>>) -> (res: Result<String, DbError>)
    requires
        old(db).wf(),
        embedding matches Some(e) ==> 4 * e@.len() <= usize::MAX,
    ensures
        final(db).wf(),
        exists|id: Seq<char>, now: Seq<char>|
            {
                &&& uuid_text(id)
                &&& utc_parse(now) is Some
                &&& quote_inserted(
                    old(db)@,
                    final(db)@,
                    id,
                    now,
                    input_view(input),
                    embedding_view(embedding),
                    result_view(res),
                )
            },
        res matches Ok(id) ==> (lookup_quote(final(db)@, id@) matches Some(q) && {
            &&& q.id == id@
            &&& q.quote == input.quote@
            &&& q.source_title == opt_view(input.source_title)
            &&& q.source_author == opt_view(input.source_author)
            &&& q.source_url == opt_view(input.source_url)
            &&& q.tags == input.tags.deep_view()
        }),
{
    let ghost iv = input_view(input);
    let ins = QuoteInsert {
        quote: input.quote,
        source_title: input.source_title,
        source_author: input.source_author,
        source_url: input.source_url,
        tags: input.tags,
        memo: input.memo,
    };
    assert(ins@ == iv);
    let ghost emb = embedding_view(embedding);
    let res = db.insert_quote(&ins, embedding);
    proof {
        if res is Ok {
            let (id, now) = choose|id: Seq<char>, now: Seq<char>|
                {
                    &&& uuid_text(id)
                    &&& utc_parse(now) is Some
                    &&& quote_inserted(old(db)@, db@, id, now, iv, emb, result_view(res))
                };
            crate::laws::law_inserted_quote_found(old(db)@, db@, id, now, iv, emb);
        }
    }
    res
}

/// The search results for the ranked ids (see `collect_hits`): the first
/// `top` ids that name a quote, each as the front end's record with its
/// latest memo, and with its score (the bits of an `f32`).
pub fn search_quotes(db: &Db, ranked: &Vec<(String, u32)>, top: usize) -> (res: Vec<(QuoteDto, u32)>)
    requires
        db.wf(),
    ensures
        res@.len() == hits_of(
            db@,
            ranked_view(ranked@).take(if top < ranked@.len() { top as int } else { ranked@.len() as int }),
        ).len(),
        forall|i: int|
            0 <= i < res@.len() ==> {
                let h = hits_of(
                    db@,
                    ranked_view(ranked@).take(if top < ranked@.len() { top as int } else { ranked@.len() as int }),
                )[i];
                &&& dto_shows_in((#[trigger] res@[i]).0, h.0, db@)
                &&& res@[i].1 == h.1
            },
{
    let hits = collect_hits(db, ranked, top);
    let ghost hv = result_views(hits@);
    let mut res: Vec<(QuoteDto, u32)> = Vec::new();
    let mut i: usize = 0;
    while i < hits.len()
        invariant
            i <= hits@.len(),
            db.wf(),
            hv == result_views(hits@),
            res@.len() == i,
            forall|k: int| 0 <= k < i ==> {
                &&& dto_shows_in((#[trigger] res@[k]).0, hv[k].0, db@)
                &&& res@[k].1 == hv[k].1
            },
        decreases hits@.len() - i,
    {
        let memo = latest_memo_text(db, hits[i].quote.id.as_str());
        let d = dto_of(&hits[i].quote, memo);
        res.push((d, hits[i].score_bits));
        i = i + 1;
    }
    res
}

} // verus!
