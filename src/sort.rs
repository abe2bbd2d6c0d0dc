//! A stable sort of row indices by a byte-string key (a timestamp), used
//! where rows are listed in time order.
use vstd::prelude::*;
use crate::assembler::views;
use crate::order::{lex_lt, less, lemma_lex_trans};
use crate::store::lemma_lex_irrefl;

verus! {

/// Where index `i` goes in `order` (sorted by key): before the first entry
/// whose key is strictly greater, so that equal keys keep their order.
pub open spec fn ins_pos(order: Seq<int>, keys: Seq<Seq<u8>>, i: int, p: int) -> int
    decreases order.len() - p,
{
    if p < 0 || p >= order.len() {
        order.len() as int
    } else if lex_lt(keys[i], keys[order[p]]) {
        p
    } else {
        ins_pos(order, keys, i, p + 1)
    }
}

/// The indices `0..n` in ascending order of their keys, ties in index order.
pub open spec fn sort_order(keys: Seq<Seq<u8>>, n: int) -> Seq<int>
    decreases n,
{
    if n <= 0 {
        Seq::empty()
    } else {
        let o = sort_order(keys, n - 1);
        o.insert(ins_pos(o, keys, n - 1, 0), n - 1)
    }
}

/// The keys of `order` never decrease.
pub open spec fn ascending(order: Seq<int>, keys: Seq<Seq<u8>>) -> bool {
    forall|a: int, b: int| 0 <= a < b < order.len() ==> !lex_lt(keys[order[b]], keys[order[a]])
}

/// `order` lists each of `0..n` exactly once.
pub open spec fn permutes(order: Seq<int>, n: int) -> bool {
    &&& order.len() == n
    &&& forall|k: int| 0 <= k < order.len() ==> 0 <= #[trigger] order[k] < n
    &&& forall|a: int, b: int| 0 <= a < b < order.len() ==> order[a] != order[b]
}

proof fn lemma_ins_pos(order: Seq<int>, keys: Seq<Seq<u8>>, i: int, p: int)
    requires
        0 <= p <= order.len(),
    ensures
        p <= ins_pos(order, keys, i, p) <= order.len(),
        forall|k: int| p <= k < ins_pos(order, keys, i, p) ==> !lex_lt(keys[i], keys[order[k]]),
        ins_pos(order, keys, i, p) < order.len() ==> lex_lt(
            keys[i],
            keys[order[ins_pos(order, keys, i, p)]],
        ),
    decreases order.len() - p,
{
    if p < order.len() && !lex_lt(keys[i], keys[order[p]]) {
        lemma_ins_pos(order, keys, i, p + 1);
    }
}

/// The order that `sort_order` gives lists `0..n` once each, keys ascending.
pub proof fn lemma_sort_order(keys: Seq<Seq<u8>>, n: int)
    requires
        0 <= n <= keys.len(),
    ensures
        permutes(sort_order(keys, n), n),
        ascending(sort_order(keys, n), keys),
    decreases n,
{
    if n > 0 {
        lemma_sort_order(keys, n - 1);
        let o = sort_order(keys, n - 1);
        let i = n - 1;
        lemma_ins_pos(o, keys, i, 0);
        let p = ins_pos(o, keys, i, 0);
        let r = o.insert(p, i);
        assert forall|k: int| 0 <= k < r.len() implies 0 <= #[trigger] r[k] < n by {
            if k > p {
                assert(r[k] == o[k - 1]);
            }
        }
        assert forall|a: int, b: int| 0 <= a < b < r.len() implies r[a] != r[b] by {
            if a < p && b > p {
                assert(r[b] == o[b - 1]);
            } else if a > p {
                assert(r[a] == o[a - 1] && r[b] == o[b - 1]);
            }
        }
        assert forall|a: int, b: int| 0 <= a < b < r.len() implies !lex_lt(keys[r[b]], keys[r[a]]) by {
            if b < p {
            } else if b == p {
                assert(!lex_lt(keys[i], keys[o[a]]));
            } else if a < p {
                assert(r[b] == o[b - 1]);
            } else if a == p {
                assert(r[b] == o[b - 1]);
                if lex_lt(keys[o[b - 1]], keys[i]) {
                    lemma_lex_trans(keys[o[b - 1]], keys[i], keys[o[p]]);
                    if p == b - 1 {
                        lemma_lex_irrefl(keys[o[p]]);
                    }
                }
            } else {
                assert(r[a] == o[a - 1] && r[b] == o[b - 1]);
            }
        }
    }
}

pub open spec fn as_ints(v: Seq<usize>) -> Seq<int> {
    v.map_values(|x: usize| x as int)
}

/// The indices of `keys` in ascending key order, ties in index order.
pub fn sort_indices(keys: &Vec<Vec<u8>>) -> (r: Vec<usize>)
    ensures
        as_ints(r@) == sort_order(views(keys@), keys@.len() as int),
        permutes(as_ints(r@), keys@.len() as int),
        ascending(as_ints(r@), views(keys@)),
{
    let ghost ks = views(keys@);
    let mut order: Vec<usize> = Vec::new();
    let mut i: usize = 0;
    while i < keys.len()
        invariant
            i <= keys@.len(),
            ks == views(keys@),
            as_ints(order@) == sort_order(ks, i as int),
        decreases keys.len() - i,
    {
        proof {
            lemma_sort_order(ks, i as int);
        }
        let ghost o = as_ints(order@);
        let mut p: usize = 0;
        while p < order.len() && !less(keys[i].as_slice(), keys[order[p]].as_slice())
            invariant
                i < keys@.len(),
                ks == views(keys@),
                o == as_ints(order@),
                permutes(o, i as int),
                p <= order@.len(),
                ins_pos(o, ks, i as int, 0) == ins_pos(o, ks, i as int, p as int),
            decreases order.len() - p,
        {
            assert(o[p as int] == order@[p as int] as int);
            p = p + 1;
        }
        proof {
            if p < order@.len() {
                assert(o[p as int] == order@[p as int] as int);
            }
        }
        order.insert(p, i);
        assert(as_ints(order@) =~= o.insert(p as int, i as int));
        i = i + 1;
    }
    proof {
        lemma_sort_order(ks, keys@.len() as int);
    }
    order
}

} // verus!
