//! The decisions the command-line front end makes around the store: what
//! it accepts as a new quote, how it reads a comma-separated tag list, what
//! it shows for one quote, and whether an edited memo is a new version.

use vstd::prelude::*;
use crate::db::{lists_memos, lookup_quote, max_version, Db};
use crate::error::InputError;
use crate::gui::is_latest_memo;
use crate::models::{clone_opt, clone_strings, opt_view, MemoVersionView, QuoteInsert, QuoteInsertView};
use crate::text::{chars_of, string_of, trim, trim_chars, trimmed};
use crate::time::{day_pattern, utc_format};

verus! {

/// The pieces of `s` between commas, in order (as `str::split(',')`).
pub open spec fn split_commas(s: Seq<char>) -> Seq<Seq<char>>
    decreases s.len(),
{
    if s.len() == 0 {
        seq![Seq::empty()]
    } else {
        let prev = split_commas(s.drop_last());
        if s.last() == ',' {
            prev.push(Seq::empty())
        } else {
            prev.update(prev.len() - 1, prev.last().push(s.last()))
        }
    }
}

proof fn lemma_split_nonempty(s: Seq<char>)
    ensures
        split_commas(s).len() >= 1,
    decreases s.len(),
{
    if s.len() > 0 {
        lemma_split_nonempty(s.drop_last());
    }
}

/// The tags a comma-separated list names: each piece trimmed of white
/// space, empty pieces dropped.
pub open spec fn tag_list(s: Seq<char>) -> Seq<Seq<char>> {
    split_commas(s).map_values(|p: Seq<char>| trimmed(p)).filter(|t: Seq<char>| t.len() > 0)
}

proof fn lemma_filter_push(a: Seq<Seq<char>>, x: Seq<char>)
    ensures
        a.push(x).filter(|t: Seq<char>| t.len() > 0) == if x.len() > 0 {
            a.filter(|t: Seq<char>| t.len() > 0).push(x)
        } else {
            a.filter(|t: Seq<char>| t.len() > 0)
        },
{
    reveal(Seq::filter);
    assert(a.push(x).drop_last() =~= a);
}

/// The tags named by a comma-separated list such as `"philosophy, ethics"`.
pub fn parse_tags(text: &str) -> (res: Vec<String>)
    ensures
        res.deep_view() == tag_list(text@),
{
    let cs = chars_of(text);
    let ghost s = text@;
    let ghost f = |p: Seq<char>| trimmed(p);
    let mut res: Vec<String> = Vec::new();
    let mut cur: Vec<char> = Vec::new();
    let mut i: usize = 0;
    while i < cs.len()
        invariant
            i <= cs@.len(),
            cs@ == s,
            split_commas(s.take(i as int)).len() >= 1,
            cur@ == split_commas(s.take(i as int)).last(),
            res.deep_view() == split_commas(s.take(i as int)).drop_last().map_values(f).filter(
                |t: Seq<char>| t.len() > 0,
            ),
            f == (|p: Seq<char>| trimmed(p)),
        decreases cs@.len() - i,
    {
        let c = cs[i];
        let ghost prev = split_commas(s.take(i as int));
        proof {
            assert(s.take(i + 1).drop_last() =~= s.take(i as int));
            assert(s.take(i + 1).last() == c);
            lemma_split_nonempty(s.take(i + 1));
        }
        if c == ',' {
            let t = trim_chars(cur.as_slice());
            let ghost old_res = res.deep_view();
            if t.len() > 0 {
                res.push(string_of(t.as_slice()));
                assert(res.deep_view() =~= old_res.push(t@));
            }
            proof {
                let next = split_commas(s.take(i + 1));
                assert(next == prev.push(Seq::empty()));
                assert(next.drop_last() =~= prev);
                assert(prev =~= prev.drop_last().push(prev.last()));
                assert(prev.map_values(f) =~= prev.drop_last().map_values(f).push(f(prev.last())));
                lemma_filter_push(prev.drop_last().map_values(f), f(prev.last()));
            }
            cur = Vec::new();
        } else {
            cur.push(c);
            proof {
                let next = split_commas(s.take(i + 1));
                assert(next.drop_last() =~= prev.drop_last());
            }
        }
        i = i + 1;
    }
    assert(s.take(cs@.len() as int) =~= s);
    let t = trim_chars(cur.as_slice());
    let ghost old_res = res.deep_view();
    if t.len() > 0 {
        res.push(string_of(t.as_slice()));
        assert(res.deep_view() =~= old_res.push(t@));
    }
    proof {
        let all = split_commas(s);
        assert(all =~= all.drop_last().push(all.last()));
        assert(all.map_values(f) =~= all.drop_last().map_values(f).push(f(all.last())));
        lemma_filter_push(all.drop_last().map_values(f), f(all.last()));
    }
    res
}

/// Checks a new quote given on the command line: the text is trimmed and
/// must not be empty; `tags` is a comma-separated list.
pub fn prepare_quote(
    quote: &str,
    author: Option<String>,
    title: Option<String>,
    url: Option<String>,
    tags: Option<&str>,
    memo: Option<String>,
) -> (res: Result<QuoteInsert, InputError>)
    ensures
        match res {
            Ok(ins) => {
                &&& trimmed(quote@).len() > 0
                &&& ins@ == QuoteInsertView {
                    quote: trimmed(quote@),
                    source_title: opt_view(title),
                    source_author: opt_view(author),
                    source_url: opt_view(url),
                    tags: match tags {
                        Some(t) => tag_list(t@),
                        None => Seq::empty(),
                    },
                    memo: opt_view(memo),
                }
            },
            Err(e) => e == InputError::EmptyQuote && trimmed(quote@).len() == 0,
        },
{
    let text = trim(quote);
    if chars_of(text.as_str()).len() == 0 {
        return Err(InputError::EmptyQuote);
    }
    let tag_names = match tags {
        Some(t) => parse_tags(t),
        None => {
            let v: Vec<String> = Vec::new();
            assert(v.deep_view() =~= Seq::<Seq<char>>::empty());
            v
        },
    };
    Ok(
        QuoteInsert {
            quote: text,
            source_title: title,
            source_author: author,
            source_url: url,
            tags: tag_names,
            memo,
        },
    )
}

/// Checks a tag given on the command line: it must not be empty once
/// trimmed.
pub fn check_tag(tag: &str) -> (res: Result<(), InputError>)
    ensures
        res is Ok <==> trimmed(tag@).len() > 0,
        res matches Err(e) ==> e == InputError::EmptyTag,
{
    let t = trim(tag);
    if chars_of(t.as_str()).len() == 0 {
        Err(InputError::EmptyTag)
    } else {
        Ok(())
    }
}

/// Whether an edited memo is a new version: it differs from the current
/// text once both are trimmed.
pub fn memo_changed(current: &str, edited: &str) -> (res: bool)
    ensures
        res == (trimmed(edited@) != trimmed(current@)),
{
    let a = trim_chars(chars_of(current).as_slice());
    let b = trim_chars(chars_of(edited).as_slice());
    if a.len() != b.len() {
        assert(a@.len() != b@.len());
        return true;
    }
    let mut i: usize = 0;
    while i < a.len()
        invariant
            i <= a@.len(),
            a@.len() == b@.len(),
            a@ == trimmed(current@),
            b@ == trimmed(edited@),
            forall|k: int| 0 <= k < i ==> a@[k] == b@[k],
        decreases a@.len() - i,
    {
        if a[i] != b[i] {
            assert(a@[i as int] != b@[i as int]);
            assert(a@ != b@);
            return true;
        }
        i = i + 1;
    }
    assert(a@ =~= b@);
    false
}

/// The text of the latest memo of quote `id`, or empty text when it has
/// none; an edit starts from it.
pub fn current_memo(db: &Db, id: &str) -> (res: String)
    requires
        db.wf(),
    ensures
        is_latest_memo(db@, id@, Some(res@)) || (max_version(db@.memos, id@) is None && res@.len()
            == 0),
{
    match db.latest_memo(id) {
        Some(m) => m.memo,
        None => String::new(),
    }
}

/// One quote as the command line shows it.
#[derive(Debug)]
pub struct QuoteDetail {
    pub id: String,
    pub quote: String,
    pub source_title: Option<String>,
    pub source_author: Option<String>,
    pub source_url: Option<String>,
    pub tags: Vec<String>,
    /// The text of the last version in its memo history.
    pub latest_memo: Option<String>,
    pub memo_version_count: usize,
    /// The day it was created, as `YYYY-MM-DD`.
    pub created_at: String,
}

/// The quote with id `id` with its memo history summed up: the number of
/// versions and the text of the last; `None` when there is no such quote.
pub fn quote_detail(db: &Db, id: &str) -> (res: Option<QuoteDetail>)
    requires
        db.wf(),
    ensures
        match res {
            None => lookup_quote(db@, id@) is None,
            Some(d) => {
                &&& lookup_quote(db@, id@) matches Some(q)
                &&& d.id@ == q.id
                &&& d.quote@ == q.quote
                &&& opt_view(d.source_title) == q.source_title
                &&& opt_view(d.source_author) == q.source_author
                &&& opt_view(d.source_url) == q.source_url
                &&& d.tags.deep_view() == q.tags
                &&& utc_format(q.created_at.0, q.created_at.1, day_pattern()) == Some(d.created_at@)
                &&& exists|ms: Seq<MemoVersionView>|
                    {
                        &&& lists_memos(ms, db@.memos, id@)
                        &&& d.memo_version_count == ms.len()
                        &&& opt_view(d.latest_memo) == if ms.len() == 0 {
                            None
                        } else {
                            Some(ms.last().memo)
                        }
                    }
            },
        },
{
    let q = match db.get_quote(id) {
        Some(q) => q,
        None => {
            return None;
        },
    };
    let versions = db.get_memo_versions(id);
    let ghost ms = crate::db::memo_views(versions@);
    let n = versions.len();
    let latest = if n == 0 {
        None
    } else {
        assert(ms[n - 1] == versions@[n - 1]@);
        Some(versions[n - 1].memo.clone())
    };
    let d = QuoteDetail {
        id: q.id.clone(),
        quote: q.quote.clone(),
        source_title: clone_opt(&q.source_title),
        source_author: clone_opt(&q.source_author),
        source_url: clone_opt(&q.source_url),
        tags: clone_strings(&q.tags),
        latest_memo: latest,
        memo_version_count: n,
        created_at: q.created_at.day(),
    };
    Some(d)
}

} // verus!
