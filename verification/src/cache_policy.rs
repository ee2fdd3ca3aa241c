use vstd::prelude::*;

verus! {

/// `order` with the entry `k` inserted before the first entry whose hit count is higher than
/// that of `k`.
pub open spec fn insert_by_hits(hits: Seq<u64>, order: Seq<int>, k: int) -> Seq<int>
    decreases order.len(),
{
    if order.len() == 0 {
        seq![k]
    } else if hits[k] < hits[order[0]] {
        seq![k] + order
    } else {
        seq![order[0]] + insert_by_hits(hits, order.drop_first(), k)
    }
}

/// The entries `0..n` in order of their hit counts, entries with equal counts in their given
/// order (what a stable sort by hit count gives).
pub open spec fn sorted_by_hits(hits: Seq<u64>, n: nat) -> Seq<int>
    decreases n,
{
    if n == 0 {
        Seq::empty()
    } else {
        insert_by_hits(hits, sorted_by_hits(hits, (n - 1) as nat), n - 1)
    }
}

/// The entries `0..n` in their order.
pub open spec fn all_entries(n: nat) -> Seq<int> {
    Seq::new(n, |i: int| i)
}

/// The entries a bounded cache keeps after a store, in their new order: all of them, in order,
/// when there are no more than `max_size`; else, after sorting them by hit count, all but the
/// first ones, as many as there are too many.
pub open spec fn kept_entries(hits: Seq<u64>, max_size: nat) -> Seq<int> {
    if hits.len() <= max_size {
        all_entries(hits.len())
    } else {
        sorted_by_hits(hits, hits.len()).subrange(hits.len() - max_size, hits.len() as int)
    }
}

/// The entries that a bounded cache of at most `max_size` entries keeps, given their hit
/// counts, in the order it keeps them: when there are too many, it sorts them by hit count
/// (stably) and drops the first ones until `max_size` remain.
pub fn eviction_order(hits: &Vec<u64>, max_size: usize) -> (r: Vec<usize>)
    ensures
        r@.len() == kept_entries(hits@, max_size as nat).len(),
        forall|i: int| 0 <= i < r@.len() ==> #[trigger] r@[i] as int == kept_entries(hits@, max_size as nat)[i],
{
    let n = hits.len();
    if n <= max_size {
        let mut r: Vec<usize> = Vec::new();
        let mut i: usize = 0;
        while i < n
            invariant
                0 <= i <= n,
                r@.len() == i,
                forall|j: int| 0 <= j < i ==> #[trigger] r@[j] as int == j,
            decreases n - i,
        {
            r.push(i);
            i = i + 1;
        }
        return r;
    }
    let mut order: Vec<usize> = Vec::new();
    let mut k: usize = 0;
    while k < n
        invariant
            n == hits@.len(),
            0 <= k <= n,
            order@.len() == k,
            forall|j: int| 0 <= j < k ==> #[trigger] order@[j] < n,
            forall|j: int| 0 <= j < k ==> #[trigger] order@[j] as int == sorted_by_hits(hits@, k as nat)[j],
            sorted_by_hits(hits@, k as nat).len() == k,
        decreases n - k,
    {
        let ghost ov = sorted_by_hits(hits@, k as nat);
        let mut j: usize = 0;
        assert(ov.subrange(0, k as int) =~= ov);
        assert(insert_by_hits(hits@, ov, k as int) =~= ov.subrange(0, 0) + insert_by_hits(hits@, ov.subrange(0, k as int), k as int));
        while j < k && !(hits[k] < hits[order[j]])
            invariant
                n == hits@.len(),
                0 <= j <= k < n,
                order@.len() == k,
                ov == sorted_by_hits(hits@, k as nat),
                ov.len() == k,
                forall|x: int| 0 <= x < k ==> #[trigger] order@[x] < n,
                forall|x: int| 0 <= x < k ==> #[trigger] order@[x] as int == ov[x],
                insert_by_hits(hits@, ov, k as int) == ov.subrange(0, j as int) + insert_by_hits(
                    hits@,
                    ov.subrange(j as int, k as int),
                    k as int,
                ),
            decreases k - j,
        {
            let ghost tail = ov.subrange(j as int, k as int);
            assert(tail[0] == order@[j as int] as int);
            assert(tail.drop_first() =~= ov.subrange(j + 1, k as int));
            assert(ov.subrange(0, j as int) + (seq![tail[0]] + insert_by_hits(hits@, tail.drop_first(), k as int)) =~= ov.subrange(
                0,
                j + 1,
            ) + insert_by_hits(hits@, ov.subrange(j + 1, k as int), k as int));
            j = j + 1;
        }
        proof {
            if j < k {
                let tail = ov.subrange(j as int, k as int);
                assert(tail[0] == order@[j as int] as int);
            }
        }
        let ghost before = order@;
        order.insert(j, k);
        proof {
            let nv = ov.subrange(0, j as int) + seq![k as int] + ov.subrange(j as int, k as int);
            assert(sorted_by_hits(hits@, (k + 1) as nat) == insert_by_hits(hits@, ov, k as int));
            assert(insert_by_hits(hits@, ov, k as int) =~= nv);
            assert forall|x: int| 0 <= x < k + 1 implies #[trigger] order@[x] as int == nv[x] by {
                if x < j {
                    assert(order@[x] == before[x]);
                } else if x == j {
                } else {
                    assert(order@[x] == before[x - 1]);
                }
            }
        }
        k = k + 1;
    }
    let drop = n - max_size;
    let mut r: Vec<usize> = Vec::new();
    let mut i: usize = drop;
    while i < n
        invariant
            n == hits@.len(),
            drop == n - max_size,
            drop <= i <= n,
            order@.len() == n,
            forall|j: int| 0 <= j < n ==> #[trigger] order@[j] as int == sorted_by_hits(hits@, n as nat)[j],
            r@.len() == i - drop,
            forall|j: int| 0 <= j < i - drop ==> #[trigger] r@[j] == order@[j + drop],
        decreases n - i,
    {
        r.push(order[i]);
        i = i + 1;
    }
    r
}

/// Whether the hit counts never decrease along `order`.
pub open spec fn hits_nondecreasing(hits: Seq<u64>, order: Seq<int>) -> bool {
    forall|a: int, b: int| 0 <= a < b < order.len() ==> hits[#[trigger] order[a]] <= hits[#[trigger] order[b]]
}

proof fn lemma_insert_by_hits(hits: Seq<u64>, order: Seq<int>, k: int)
    requires
        0 <= k < hits.len(),
        forall|p: int| 0 <= p < order.len() ==> 0 <= #[trigger] order[p] < hits.len(),
    ensures
        insert_by_hits(hits, order, k).len() == order.len() + 1,
        forall|x: int| #[trigger] insert_by_hits(hits, order, k).contains(x) <==> (x == k || order.contains(x)),
        forall|p: int| 0 <= p < order.len() + 1 ==> 0 <= #[trigger] insert_by_hits(hits, order, k)[p] < hits.len(),
        hits_nondecreasing(hits, order) ==> hits_nondecreasing(hits, insert_by_hits(hits, order, k)),
    decreases order.len(),
{
    let r = insert_by_hits(hits, order, k);
    if order.len() == 0 {
        assert forall|x: int| #[trigger] r.contains(x) <==> (x == k || order.contains(x)) by {
            if r.contains(x) {
                assert(r[0] == k);
            }
            if x == k {
                assert(r[0] == k);
            }
        }
    } else if hits[k] < hits[order[0]] {
        assert forall|x: int| #[trigger] r.contains(x) <==> (x == k || order.contains(x)) by {
            if r.contains(x) {
                let p = choose|p: int| 0 <= p < r.len() && r[p] == x;
                if p > 0 {
                    assert(order[p - 1] == x);
                }
            }
            if order.contains(x) {
                let p = choose|p: int| 0 <= p < order.len() && order[p] == x;
                assert(r[p + 1] == x);
            }
            if x == k {
                assert(r[0] == k);
            }
        }
        assert forall|p: int| 0 <= p < order.len() + 1 implies 0 <= #[trigger] r[p] < hits.len() by {
            if p > 0 {
                assert(r[p] == order[p - 1]);
            }
        }
        if hits_nondecreasing(hits, order) {
            assert forall|a: int, b: int| 0 <= a < b < r.len() implies hits[#[trigger] r[a]] <= hits[#[trigger] r[b]] by {
                assert(r[b] == order[b - 1]);
                if a == 0 {
                    if b > 1 {
                        assert(hits[order[0]] <= hits[order[b - 1]]);
                    }
                } else {
                    assert(r[a] == order[a - 1]);
                }
            }
        }
    } else {
        let rest = order.drop_first();
        let ins = insert_by_hits(hits, rest, k);
        lemma_insert_by_hits(hits, rest, k);
        assert forall|x: int| #[trigger] r.contains(x) <==> (x == k || order.contains(x)) by {
            if r.contains(x) {
                let p = choose|p: int| 0 <= p < r.len() && r[p] == x;
                if p == 0 {
                    assert(order[0] == x);
                } else {
                    assert(ins[p - 1] == x);
                    assert(ins.contains(x));
                    if x != k {
                        let q = choose|q: int| 0 <= q < rest.len() && rest[q] == x;
                        assert(order[q + 1] == x);
                    }
                }
            }
            if order.contains(x) {
                let p = choose|p: int| 0 <= p < order.len() && order[p] == x;
                if p == 0 {
                    assert(r[0] == x);
                } else {
                    assert(rest[p - 1] == x);
                    assert(rest.contains(x));
                    assert(ins.contains(x));
                    let q = choose|q: int| 0 <= q < ins.len() && ins[q] == x;
                    assert(r[q + 1] == x);
                }
            }
            if x == k {
                assert(ins.contains(k));
                let q = choose|q: int| 0 <= q < ins.len() && ins[q] == k;
                assert(r[q + 1] == k);
            }
        }
        assert forall|p: int| 0 <= p < order.len() + 1 implies 0 <= #[trigger] r[p] < hits.len() by {
            if p > 0 {
                assert(r[p] == ins[p - 1]);
            }
        }
        if hits_nondecreasing(hits, order) {
            assert(hits_nondecreasing(hits, rest)) by {
                assert forall|a: int, b: int| 0 <= a < b < rest.len() implies hits[#[trigger] rest[a]] <= hits[#[trigger] rest[b]] by {
                    assert(rest[a] == order[a + 1] && rest[b] == order[b + 1]);
                }
            }
            assert forall|a: int, b: int| 0 <= a < b < r.len() implies hits[#[trigger] r[a]] <= hits[#[trigger] r[b]] by {
                assert(r[b] == ins[b - 1]);
                if a == 0 {
                    let x = ins[b - 1];
                    assert(ins.contains(x));
                    if x != k {
                        let q = choose|q: int| 0 <= q < rest.len() && rest[q] == x;
                        assert(order[q + 1] == x);
                    }
                } else {
                    assert(r[a] == ins[a - 1]);
                }
            }
        }
    }
}

proof fn lemma_sorted_by_hits(hits: Seq<u64>, n: nat)
    requires
        n <= hits.len(),
    ensures
        sorted_by_hits(hits, n).len() == n,
        forall|x: int| #[trigger] sorted_by_hits(hits, n).contains(x) <==> 0 <= x < n,
        forall|p: int| 0 <= p < n ==> 0 <= #[trigger] sorted_by_hits(hits, n)[p] < hits.len(),
        hits_nondecreasing(hits, sorted_by_hits(hits, n)),
    decreases n,
{
    if n > 0 {
        lemma_sorted_by_hits(hits, (n - 1) as nat);
        lemma_insert_by_hits(hits, sorted_by_hits(hits, (n - 1) as nat), n - 1);
    }
}

/// A bounded cache keeps at most `max_size` entries, each once, and drops only entries hit no
/// more often than any entry it keeps.
pub proof fn law_eviction_keeps_most_hit(hits: Seq<u64>, max_size: nat)
    ensures
        kept_entries(hits, max_size).len() == if hits.len() <= max_size {
            hits.len()
        } else {
            max_size
        },
        forall|a: int, b: int|
            0 <= a < b < kept_entries(hits, max_size).len() ==> #[trigger] kept_entries(hits, max_size)[a]
                != #[trigger] kept_entries(hits, max_size)[b],
        forall|x: int| #[trigger] kept_entries(hits, max_size).contains(x) ==> 0 <= x < hits.len(),
        forall|x: int, y: int|
            #![trigger kept_entries(hits, max_size).contains(x), kept_entries(hits, max_size).contains(y)]
            0 <= x < hits.len() && !kept_entries(hits, max_size).contains(x) && kept_entries(hits, max_size).contains(y)
                ==> hits[x] <= hits[y],
{
    let n = hits.len();
    let kept = kept_entries(hits, max_size);
    if n <= max_size {
        assert forall|x: int| #[trigger] kept.contains(x) implies 0 <= x < n by {
            let p = choose|p: int| 0 <= p < kept.len() && kept[p] == x;
        }
        assert forall|x: int, y: int|
            #![trigger kept.contains(x), kept.contains(y)]
            0 <= x < n && !kept.contains(x) && kept.contains(y) implies hits[x] <= hits[y] by {
            assert(kept[x] == x);
        }
    } else {
        let s = sorted_by_hits(hits, n);
        lemma_sorted_by_hits(hits, n);
        let d = n - max_size;
        assert forall|a: int, b: int| 0 <= a < b < kept.len() implies #[trigger] kept[a] != #[trigger] kept[b] by {
            assert(kept[a] == s[a + d] && kept[b] == s[b + d]);
            lemma_distinct_positions(hits, n, a + d, b + d);
        }
        assert forall|x: int| #[trigger] kept.contains(x) implies 0 <= x < n by {
            let p = choose|p: int| 0 <= p < kept.len() && kept[p] == x;
            assert(s[p + d] == x);
        }
        assert forall|x: int, y: int|
            #![trigger kept.contains(x), kept.contains(y)]
            0 <= x < n && !kept.contains(x) && kept.contains(y) implies hits[x] <= hits[y] by {
            assert(s.contains(x));
            let px = choose|p: int| 0 <= p < s.len() && s[p] == x;
            let q = choose|q: int| 0 <= q < kept.len() && kept[q] == y;
            assert(s[q + d] == y);
            if px >= d {
                assert(kept[px - d] == x);
            }
            assert(px < q + d);
        }
    }
}

proof fn lemma_distinct_positions(hits: Seq<u64>, n: nat, a: int, b: int)
    requires
        n <= hits.len(),
        0 <= a < b < n,
    ensures
        sorted_by_hits(hits, n)[a] != sorted_by_hits(hits, n)[b],
{
    lemma_sorted_by_hits(hits, n);
    lemma_count_positions(hits, n);
}

proof fn lemma_count_positions(hits: Seq<u64>, n: nat)
    requires
        n <= hits.len(),
    ensures
        forall|a: int, b: int| 0 <= a < b < n ==> #[trigger] sorted_by_hits(hits, n)[a] != #[trigger] sorted_by_hits(hits, n)[b],
{
    let s = sorted_by_hits(hits, n);
    lemma_sorted_by_hits(hits, n);
    lemma_no_duplicates(s, n as int);
}

/// A sequence of `n` entries that holds each of `0..n` holds each once.
proof fn lemma_no_duplicates(s: Seq<int>, n: int)
    requires
        s.len() == n,
        forall|x: int| #[trigger] s.contains(x) <==> 0 <= x < n,
    ensures
        forall|a: int, b: int| 0 <= a < b < n ==> #[trigger] s[a] != #[trigger] s[b],
{
    assert forall|a: int, b: int| 0 <= a < b < n implies #[trigger] s[a] != #[trigger] s[b] by {
        if s[a] == s[b] {
            let t = s.remove(b);
            assert forall|x: int| 0 <= x < n implies #[trigger] t.contains(x) by {
                assert(s.contains(x));
                let p = choose|p: int| 0 <= p < s.len() && s[p] == x;
                if p < b {
                    assert(t[p] == x);
                } else if p == b {
                    assert(t[a] == x);
                } else {
                    assert(t[p - 1] == x);
                }
            }
            lemma_pigeon(t, n);
        }
    }
}

/// A sequence that holds each of `0..n` has at least `n` elements.
proof fn lemma_pigeon(t: Seq<int>, n: int)
    requires
        0 <= n,
        forall|x: int| 0 <= x < n ==> #[trigger] t.contains(x),
    ensures
        t.len() >= n,
    decreases n,
{
    if n == 0 {
    } else {
        assert(t.contains(n - 1));
        let p = choose|p: int| 0 <= p < t.len() && t[p] == n - 1;
        let u = t.remove(p);
        assert forall|x: int| 0 <= x < n - 1 implies #[trigger] u.contains(x) by {
            assert(t.contains(x));
            let q = choose|q: int| 0 <= q < t.len() && t[q] == x;
            if q < p {
                assert(u[q] == x);
            } else {
                assert(q != p);
                assert(u[q - 1] == x);
            }
        }
        lemma_pigeon(u, n - 1);
    }
}

} // verus!
