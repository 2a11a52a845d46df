//! The last step of a semantic search: given the quote ids ranked by
//! similarity to the query (best first), keep the first `top_n` and read
//! their quotes. The similarity itself is computed on floating-point
//! embeddings by the caller; a score travels here as the bit pattern of its
//! `f32` (`f32::to_bits`).

use vstd::prelude::*;
use crate::db::{lookup_quote, Db, DbState};
use crate::models::{Quote, QuoteView};

verus! {

/// A quote found by a search, with its similarity score (the bits of an
/// `f32`).
#[derive(Debug)]
pub struct SearchResult {
    pub quote: Quote,
    pub score_bits: u32,
}

pub open spec fn result_views(v: Seq<SearchResult>) -> Seq<(QuoteView, u32)> {
    v.map_values(|r: SearchResult| (r.quote@, r.score_bits))
}

pub open spec fn ranked_view(v: Seq<(String, u32)>) -> Seq<(Seq<char>, u32)> {
    v.map_values(|p: (String, u32)| (p.0@, p.1))
}

/// The quotes of the ranked ids, in rank order, with their scores; ids with
/// no quote are skipped.
pub open spec fn hits_of(s: DbState, ranked: Seq<(Seq<char>, u32)>) -> Seq<(QuoteView, u32)> {
    ranked.filter_map(
        |p: (Seq<char>, u32)|
            match lookup_quote(s, p.0) {
                Some(q) => Some((q, p.1)),
                None => None,
            },
    )
}

/// The first `top_n` ranked ids (all of them when there are fewer), with
/// the quotes they name, in rank order; an id with no quote is skipped.
pub fn collect_hits(db: &Db, ranked: &Vec<(String, u32)>, top_n: usize) -> (res: Vec<SearchResult>)
    requires
        db.wf(),
    ensures
        result_views(res@) == hits_of(
            db@,
            ranked_view(ranked@).take(if top_n < ranked@.len() { top_n as int } else { ranked@.len() as int }),
        ),
{
    let n = if top_n < ranked.len() { top_n } else { ranked.len() };
    let ghost rv = ranked_view(ranked@);
    let ghost f = |p: (Seq<char>, u32)|
        match lookup_quote(db@, p.0) {
            Some(q) => Some((q, p.1)),
            None => None,
        };
    let mut res: Vec<SearchResult> = Vec::new();
    let mut i: usize = 0;
    while i < n
        invariant
            i <= n <= ranked@.len(),
            db.wf(),
            rv == ranked_view(ranked@),
            result_views(res@) == rv.take(i as int).filter_map(f),
            f == (|p: (Seq<char>, u32)|
                match lookup_quote(db@, p.0) {
                    Some(q) => Some((q, p.1)),
                    None => None,
                }),
        decreases n - i,
    {
        proof {
            rv.lemma_filter_map_take_succ(f, i as int);
        }
        let ghost old_res = res@;
        match db.get_quote(ranked[i].0.as_str()) {
            Some(q) => {
                res.push(SearchResult { quote: q, score_bits: ranked[i].1 });
                assert(result_views(res@) =~= result_views(old_res).push((res@.last().quote@, ranked@[i as int].1)));
            },
            None => {},
        }
        i = i + 1;
    }
    res
}

} // verus!
