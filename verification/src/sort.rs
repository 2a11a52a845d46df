//! Ordering row positions by a key, as `ORDER BY` does: the output holds
//! exactly the positions given, each once, in key order.

use vstd::prelude::*;
use crate::text::{text_le, text_le_exec, lemma_text_le_total, lemma_text_le_trans};

verus! {

/// `out` holds the same positions as `src`, each once.
pub open spec fn same_positions(out: Seq<usize>, src: Seq<usize>) -> bool {
    &&& out.len() == src.len()
    &&& out.no_duplicates()
    &&& forall|x: usize| out.contains(x) <==> src.contains(x)
}

proof fn lemma_insert_positions(s: Seq<usize>, p: int, x: usize)
    requires
        0 <= p <= s.len(),
        s.no_duplicates(),
        !s.contains(x),
    ensures
        s.insert(p, x).no_duplicates(),
        forall|y: usize| s.insert(p, x).contains(y) <==> (s.contains(y) || y == x),
        s.insert(p, x).len() == s.len() + 1,
{
    s.insert_ensures(p, x);
    let t = s.insert(p, x);
    assert forall|y: usize| t.contains(y) <==> (s.contains(y) || y == x) by {
        if t.contains(y) {
            let k = choose|k: int| 0 <= k < t.len() && t[k] == y;
            if k < p {
                assert(s[k] == y);
            } else if k > p {
                assert(s[k - 1] == y);
            }
        }
        if s.contains(y) {
            let k = choose|k: int| 0 <= k < s.len() && s[k] == y;
            if k < p {
                assert(t[k] == y);
            } else {
                assert(t[k + 1] == y);
            }
        }
        if y == x {
            assert(t[p] == y);
        }
    }
    assert forall|a: int, b: int| 0 <= a < t.len() && 0 <= b < t.len() && a != b implies t[a]
        != t[b] by {
        if a != p && b != p {
            let sa = if a < p { a } else { a - 1 };
            let sb = if b < p { b } else { b - 1 };
            assert(t[a] == s[sa]);
            assert(t[b] == s[sb]);
        } else if a == p {
            let sb = if b < p { b } else { b - 1 };
            assert(t[b] == s[sb]);
            assert(s.contains(s[sb]));
        } else {
            let sa = if a < p { a } else { a - 1 };
            assert(t[a] == s[sa]);
            assert(s.contains(s[sa]));
        }
    }
}

/// The characters of each key.
pub open spec fn key_view(keys: Seq<Vec<char>>) -> Seq<Seq<char>> {
    keys.map_values(|v: Vec<char>| v@)
}

/// `out` is ordered from the latest key to the earliest in binary text order.
pub open spec fn text_desc(out: Seq<usize>, keys: Seq<Seq<char>>) -> bool {
    forall|a: int, b: int|
        0 <= a < b < out.len() ==> text_le(
            #[trigger] keys[out[b] as int],
            #[trigger] keys[out[a] as int],
        )
}

/// The positions `src`, ordered by `keys` from the greatest to the least in
/// binary text order; positions with equal keys keep their order in `src`.
pub fn order_text_desc(keys: &Vec<Vec<char>>, src: &Vec<usize>) -> (out: Vec<usize>)
    requires
        src@.no_duplicates(),
        forall|i: int| 0 <= i < src@.len() ==> #[trigger] src@[i] < keys@.len(),
    ensures
        same_positions(out@, src@),
        forall|i: int| 0 <= i < out@.len() ==> #[trigger] out@[i] < keys@.len(),
        text_desc(out@, key_view(keys@)),
{
    let ghost kv = key_view(keys@);
    let mut out: Vec<usize> = Vec::new();
    let mut k: usize = 0;
    while k < src.len()
        invariant
            k <= src@.len(),
            kv == key_view(keys@),
            src@.no_duplicates(),
            forall|i: int| 0 <= i < src@.len() ==> #[trigger] src@[i] < keys@.len(),
            same_positions(out@, src@.take(k as int)),
            forall|i: int| 0 <= i < out@.len() ==> #[trigger] out@[i] < keys@.len(),
            text_desc(out@, kv),
        decreases src@.len() - k,
    {
        let x = src[k];
        let mut p: usize = 0;
        while p < out.len() && text_le_exec(&keys[x], &keys[out[p]])
            invariant
                p <= out@.len(),
                x < keys@.len(),
                kv == key_view(keys@),
                forall|i: int| 0 <= i < out@.len() ==> #[trigger] out@[i] < keys@.len(),
                forall|a: int| 0 <= a < p ==> text_le(kv[x as int], #[trigger] kv[out@[a] as int]),
            decreases out@.len() - p,
        {
            p = p + 1;
        }
        let ghost old_out = out@;
        proof {
            assert(!src@.take(k as int).contains(x)) by {
                if src@.take(k as int).contains(x) {
                    let pre = src@.take(k as int);
                    let j = choose|j: int| 0 <= j < pre.len() && pre[j] == x;
                    assert(src@[j] == src@[k as int]);
                }
            }
            assert(!old_out.contains(x));
            lemma_insert_positions(old_out, p as int, x);
            old_out.insert_ensures(p as int, x);
            if p < old_out.len() {
                assert(!text_le(kv[x as int], kv[old_out[p as int] as int]));
                lemma_text_le_total(kv[x as int], kv[old_out[p as int] as int]);
            }
        }
        out.insert(p, x);
        proof {
            let t = out@;
            assert(t == old_out.insert(p as int, x));
            assert forall|a: int, b: int| 0 <= a < b < t.len() implies text_le(
                #[trigger] kv[t[b] as int],
                #[trigger] kv[t[a] as int],
            ) by {
                if b < p {
                    assert(t[a] == old_out[a] && t[b] == old_out[b]);
                } else if b == p {
                    assert(t[a] == old_out[a]);
                } else if a < p {
                    assert(t[a] == old_out[a] && t[b] == old_out[b - 1]);
                } else if a == p {
                    assert(t[b] == old_out[b - 1]);
                    if b - 1 > p {
                        assert(text_le(kv[old_out[b - 1] as int], kv[old_out[p as int] as int]));
                        lemma_text_le_trans(kv[old_out[b - 1] as int], kv[old_out[p as int] as int], kv[x as int]);
                    }
                } else {
                    assert(t[a] == old_out[a - 1] && t[b] == old_out[b - 1]);
                }
            }
            let before = src@.take(k as int);
            let after = src@.take(k + 1);
            assert(after =~= before.push(x));
            assert forall|y: usize| t.contains(y) <==> after.contains(y) by {
                if after.contains(y) && y != x {
                    let j = choose|j: int| 0 <= j < after.len() && after[j] == y;
                    assert(before[j] == y);
                }
                if before.contains(y) {
                    let j = choose|j: int| 0 <= j < before.len() && before[j] == y;
                    assert(after[j] == y);
                }
                if y == x {
                    assert(after[k as int] == y);
                }
            }
            assert forall|i: int| 0 <= i < t.len() implies #[trigger] t[i] < keys@.len() by {
                if i < p {
                    assert(t[i] == old_out[i]);
                } else if i > p {
                    assert(t[i] == old_out[i - 1]);
                }
            }
        }
        k = k + 1;
    }
    assert(src@.take(src@.len() as int) =~= src@);
    out
}

/// `out` is ordered by `keys` from the least to the greatest.
pub open spec fn int_asc(out: Seq<usize>, keys: Seq<i64>) -> bool {
    forall|a: int, b: int|
        0 <= a < b < out.len() ==> #[trigger] keys[out[a] as int] <= #[trigger] keys[out[b] as int]
}

/// The positions `src`, ordered by `keys` from the least to the greatest;
/// positions with equal keys keep their order in `src`.
pub fn order_int_asc(keys: &Vec<i64>, src: &Vec<usize>) -> (out: Vec<usize>)
    requires
        src@.no_duplicates(),
        forall|i: int| 0 <= i < src@.len() ==> #[trigger] src@[i] < keys@.len(),
    ensures
        same_positions(out@, src@),
        forall|i: int| 0 <= i < out@.len() ==> #[trigger] out@[i] < keys@.len(),
        int_asc(out@, keys@),
{
    let mut out: Vec<usize> = Vec::new();
    let mut k: usize = 0;
    while k < src.len()
        invariant
            k <= src@.len(),
            src@.no_duplicates(),
            forall|i: int| 0 <= i < src@.len() ==> #[trigger] src@[i] < keys@.len(),
            same_positions(out@, src@.take(k as int)),
            forall|i: int| 0 <= i < out@.len() ==> #[trigger] out@[i] < keys@.len(),
            int_asc(out@, keys@),
        decreases src@.len() - k,
    {
        let x = src[k];
        let mut p: usize = 0;
        while p < out.len() && keys[out[p]] <= keys[x]
            invariant
                p <= out@.len(),
                x < keys@.len(),
                forall|i: int| 0 <= i < out@.len() ==> #[trigger] out@[i] < keys@.len(),
                forall|a: int| 0 <= a < p ==> #[trigger] keys@[out@[a] as int] <= keys@[x as int],
            decreases out@.len() - p,
        {
            p = p + 1;
        }
        let ghost old_out = out@;
        proof {
            assert(!src@.take(k as int).contains(x)) by {
                if src@.take(k as int).contains(x) {
                    let pre = src@.take(k as int);
                    let j = choose|j: int| 0 <= j < pre.len() && pre[j] == x;
                    assert(src@[j] == src@[k as int]);
                }
            }
            assert(!old_out.contains(x));
            lemma_insert_positions(old_out, p as int, x);
            old_out.insert_ensures(p as int, x);
        }
        out.insert(p, x);
        proof {
            let t = out@;
            assert(t == old_out.insert(p as int, x));
            assert forall|a: int, b: int| 0 <= a < b < t.len() implies #[trigger] keys@[t[a] as int]
                <= #[trigger] keys@[t[b] as int] by {
                if b < p {
                    assert(t[a] == old_out[a] && t[b] == old_out[b]);
                } else if b == p {
                    assert(t[a] == old_out[a]);
                } else if a < p {
                    assert(t[a] == old_out[a] && t[b] == old_out[b - 1]);
                    assert(keys@[old_out[p as int] as int] <= keys@[old_out[b - 1] as int]);
                } else if a == p {
                    assert(t[b] == old_out[b - 1]);
                    assert(keys@[old_out[p as int] as int] <= keys@[old_out[b - 1] as int]);
                } else {
                    assert(t[a] == old_out[a - 1] && t[b] == old_out[b - 1]);
                }
            }
            let before = src@.take(k as int);
            let after = src@.take(k + 1);
            assert(after =~= before.push(x));
            assert forall|y: usize| t.contains(y) <==> after.contains(y) by {
                if after.contains(y) && y != x {
                    let j = choose|j: int| 0 <= j < after.len() && after[j] == y;
                    assert(before[j] == y);
                }
                if before.contains(y) {
                    let j = choose|j: int| 0 <= j < before.len() && before[j] == y;
                    assert(after[j] == y);
                }
                if y == x {
                    assert(after[k as int] == y);
                }
            }
            assert forall|i: int| 0 <= i < t.len() implies #[trigger] t[i] < keys@.len() by {
                if i < p {
                    assert(t[i] == old_out[i]);
                } else if i > p {
                    assert(t[i] == old_out[i - 1]);
                }
            }
        }
        k = k + 1;
    }
    assert(src@.take(src@.len() as int) =~= src@);
    out
}

} // verus!
