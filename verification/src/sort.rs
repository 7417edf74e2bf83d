//! Stable sorting of items by an integer key.
use vstd::prelude::*;

verus! {

/// `a` may come before `b`: not greater in ascending order, not smaller in
/// descending order.
pub open spec fn key_ordered(a: i64, b: i64, descending: bool) -> bool {
    if descending {
        a >= b
    } else {
        a <= b
    }
}

/// Every item's key may come before the keys of the items after it.
pub open spec fn is_sorted_by_key<T>(s: Seq<(i64, T)>, descending: bool) -> bool {
    forall|i: int, j: int| 0 <= i < j < s.len() ==> key_ordered(s[i].0, s[j].0, descending)
}

/// `p` lists the indices `0..n`, each once.
pub open spec fn is_index_permutation(p: Seq<int>, n: int) -> bool {
    &&& p.len() == n
    &&& forall|i: int| 0 <= i < p.len() ==> 0 <= #[trigger] p[i] < n
    &&& forall|i: int, j: int| 0 <= i < j < p.len() ==> p[i] != p[j]
}

/// `out[i]` is `inp[p[i]]`, `p` is a permutation, and items with equal keys
/// keep the order they had in `inp`.
pub open spec fn is_stable_reordering<T>(p: Seq<int>, out: Seq<(i64, T)>, inp: Seq<(i64, T)>) -> bool {
    &&& is_index_permutation(p, inp.len() as int)
    &&& out.len() == inp.len()
    &&& forall|i: int| 0 <= i < out.len() ==> out[i] == inp[#[trigger] p[i]]
    &&& forall|i: int, j: int| 0 <= i < j < out.len() && out[i].0 == out[j].0 ==> p[i] < p[j]
}

/// `out` is what a stable sort of `inp` by key gives.
pub open spec fn is_stable_sort_of<T>(out: Seq<(i64, T)>, inp: Seq<(i64, T)>, descending: bool) -> bool {
    &&& is_sorted_by_key(out, descending)
    &&& exists|p: Seq<int>| is_stable_reordering(p, out, inp)
}

/// Law: a sort puts keys in non-decreasing order, or non-increasing order
/// when descending, and keeps the number of items.
pub proof fn law_sort_order<T>(out: Seq<(i64, T)>, inp: Seq<(i64, T)>, descending: bool)
    requires
        is_stable_sort_of(out, inp, descending),
    ensures
        out.len() == inp.len(),
        forall|i: int, j: int|
            0 <= i < j < out.len() ==> if descending {
                out[i].0 >= out[j].0
            } else {
                out[i].0 <= out[j].0
            },
{
    let p = choose|p: Seq<int>| is_stable_reordering(p, out, inp);
    assert forall|i: int, j: int| 0 <= i < j < out.len() implies if descending {
        out[i].0 >= out[j].0
    } else {
        out[i].0 <= out[j].0
    } by {
        assert(key_ordered(out[i].0, out[j].0, descending));
    }
}

/// Sorts `items` by key, ascending or descending; items with equal keys keep
/// their order (as `slice::sort_by` does).
pub fn sort_by_key_stable<T>(items: Vec<(i64, T)>, descending: bool) -> (out: Vec<(i64, T)>)
    ensures
        is_stable_sort_of(out@, items@, descending),
{
    let ghost inp = items@;
    let mut out: Vec<(i64, T)> = Vec::new();
    let ghost mut p: Seq<int> = Seq::empty();
    for x in it: items.into_iter()
        invariant
            it.seq() == inp,
            is_sorted_by_key(out@, descending),
            is_stable_reordering(p, out@, inp.take(it.index() as int)),
    {
        let ghost j = it.index() as int;
        let ghost before = out@;
        let ghost q = p;
        assert(x == inp[j]);
        let mut pos: usize = 0;
        while pos < out.len() && key_ordered_exec(out[pos].0, x.0, descending)
            invariant
                pos <= out.len(),
                forall|k: int| 0 <= k < pos ==> key_ordered(out@[k].0, x.0, descending),
            decreases out.len() - pos,
        {
            pos = pos + 1;
        }
        let ghost xk = x.0;
        out.insert(pos, x);
        proof {
            p = q.insert(pos as int, j);
            let inp2 = inp.take(j + 1);
            assert(inp.take(j) == inp2.take(j));
            assert forall|k: int| pos < k < before.len() + 1 implies !key_ordered(#[trigger] out@[k].0, xk, descending) by {
                assert(out@[k] == before[k - 1]);
                assert(!key_ordered(before[pos as int].0, xk, descending));
                if k - 1 > pos {
                    assert(key_ordered(before[pos as int].0, before[k - 1].0, descending));
                }
            }
            assert forall|a: int, b: int| 0 <= a < b < out@.len() implies key_ordered(out@[a].0, out@[b].0, descending) by {
                if a < pos && b < pos {
                } else if a < pos && b == pos {
                } else if a < pos && b > pos {
                    assert(out@[b] == before[b - 1]);
                } else if a == pos {
                    assert(!key_ordered(out@[b].0, xk, descending));
                } else {
                    assert(out@[a] == before[a - 1]);
                    assert(out@[b] == before[b - 1]);
                }
            }
            assert forall|i: int| 0 <= i < p.len() implies 0 <= #[trigger] p[i] < j + 1 by {
                if i < pos {
                    assert(p[i] == q[i]);
                } else if i > pos {
                    assert(p[i] == q[i - 1]);
                }
            }
            assert forall|a: int, b: int| 0 <= a < b < p.len() implies p[a] != p[b] by {
                if a < pos && b < pos {
                } else if a < pos && b == pos {
                    assert(q[a] < j);
                } else if a < pos && b > pos {
                    assert(p[b] == q[b - 1]);
                } else if a == pos {
                    assert(p[b] == q[b - 1]);
                    assert(q[b - 1] < j);
                } else {
                    assert(p[a] == q[a - 1]);
                    assert(p[b] == q[b - 1]);
                }
            }
            assert forall|i: int| 0 <= i < out@.len() implies out@[i] == inp2[#[trigger] p[i]] by {
                if i < pos {
                    assert(p[i] == q[i]);
                    assert(out@[i] == before[i]);
                } else if i > pos {
                    assert(p[i] == q[i - 1]);
                    assert(out@[i] == before[i - 1]);
                }
            }
            assert forall|a: int, b: int| 0 <= a < b < out@.len() && out@[a].0 == out@[b].0 implies p[a] < p[b] by {
                if a < pos && b < pos {
                } else if a < pos && b == pos {
                    assert(q[a] < j);
                } else if a < pos && b > pos {
                    assert(p[b] == q[b - 1]);
                    assert(out@[b] == before[b - 1]);
                } else if a == pos {
                    assert(!key_ordered(out@[b].0, xk, descending));
                    assert(key_ordered(xk, xk, descending));
                } else {
                    assert(p[a] == q[a - 1]);
                    assert(p[b] == q[b - 1]);
                    assert(out@[a] == before[a - 1]);
                    assert(out@[b] == before[b - 1]);
                }
            }
            assert(is_stable_reordering(p, out@, inp2));
        }
    }
    proof {
        assert(inp.take(inp.len() as int) == inp);
    }
    out
}

/// The items of a stable sort by key, the keys left out.
pub open spec fn sorted_values<T>(out: Seq<T>, items: Seq<(i64, T)>, descending: bool) -> bool {
    exists|sorted: Seq<(i64, T)>|
        is_stable_sort_of(sorted, items, descending) && out == sorted.map_values(|p: (i64, T)| p.1)
}

/// Sorts `items` stably by key and keeps the items alone.
pub fn sort_values_by_key<T>(items: Vec<(i64, T)>, descending: bool) -> (out: Vec<T>)
    ensures
        sorted_values(out@, items@, descending),
{
    let sorted = sort_by_key_stable(items, descending);
    let ghost sv = sorted@;
    let mut out: Vec<T> = Vec::new();
    for p in it: sorted.into_iter()
        invariant
            it.seq() == sv,
            out@ == sv.take(it.index() as int).map_values(|p: (i64, T)| p.1),
    {
        let ghost k = it.index() as int;
        out.push(p.1);
        proof {
            assert(sv.take(k + 1).map_values(|p: (i64, T)| p.1) =~= sv.take(k).map_values(
                |p: (i64, T)| p.1,
            ).push(sv[k].1));
        }
    }
    proof {
        assert(sv.take(sv.len() as int) == sv);
        assert(out@ == sv.map_values(|p: (i64, T)| p.1));
    }
    out
}

/// Whether `a` may come before `b`.
fn key_ordered_exec(a: i64, b: i64, descending: bool) -> (r: bool)
    ensures
        r == key_ordered(a, b, descending),
{
    if descending {
        a >= b
    } else {
        a <= b
    }
}

} // verus!
