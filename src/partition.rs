//! Splitting an ordered item sequence into fixed-size shards.
use vstd::prelude::*;
use crate::item::Item;
use crate::collect::{collected, item_views, shuffled_items, string_views};

verus! {

/// A contiguous group of items that becomes one container file.
pub struct Shard {
    pub index: usize,
    pub total_shards: usize,
    pub items: Vec<Item>,
}

/// `ceil(n / size)`.
pub open spec fn shard_count(n: nat, size: nat) -> nat
    recommends
        size > 0,
{
    ((n + size - 1) / size as int) as nat
}

/// Start of shard `i` in the item sequence.
pub open spec fn shard_start(i: nat, size: nat) -> nat {
    i * size
}

/// End (exclusive) of shard `i` in a sequence of `n` items.
pub open spec fn shard_end(i: nat, size: nat, n: nat) -> nat {
    if (i + 1) * size < n { (i + 1) * size } else { n }
}

/// The items of shard `i` when `items` is cut into pieces of `size`.
pub open spec fn shard_items(items: Seq<Item>, i: nat, size: nat) -> Seq<Item> {
    items.subrange(shard_start(i, size) as int, shard_end(i, size, items.len()) as int)
}

/// `shards` is the partition of `items` into pieces of `size`, in index order.
pub open spec fn is_partition(shards: Seq<Shard>, items: Seq<Item>, size: nat) -> bool {
    &&& shards.len() == shard_count(items.len(), size)
    &&& forall|i: int|
        0 <= i < shards.len() ==> {
            &&& (#[trigger] shards[i]).index == i
            &&& shards[i].total_shards == shards.len()
            &&& shards[i].items@ == shard_items(items, i as nat, size)
        }
}

/// The items of all shards, concatenated in index order.
pub open spec fn concat_items(shards: Seq<Shard>) -> Seq<Item>
    decreases shards.len(),
{
    if shards.len() == 0 {
        Seq::empty()
    } else {
        concat_items(shards.drop_last()) + shards.last().items@
    }
}

/// Total number of items held by all shards.
pub open spec fn total_len(shards: Seq<Shard>) -> nat
    decreases shards.len(),
{
    if shards.len() == 0 {
        0
    } else {
        total_len(shards.drop_last()) + shards.last().items@.len()
    }
}

proof fn lemma_count_bounds(n: nat, size: nat, k: nat)
    requires
        size > 0,
        k == shard_count(n, size),
    ensures
        k * size >= n,
        k > 0 ==> (k - 1) * size < n,
{
    let q = n + size - 1;
    assert(k * size <= q && q < k * size + size) by (nonlinear_arith)
        requires k == q / size as int, size > 0;
    assert(k > 0 ==> (k - 1) * size == k * size - size) by (nonlinear_arith);
}

/// Cuts `items` into shards of `size` items each, the last holding what remains.
/// Each shard is tagged with its index and the number of shards.
pub fn partition(items: &Vec<Item>, size: usize) -> (r: Vec<Shard>)
    requires
        size > 0,
    ensures
        is_partition(r@, items@, size as nat),
{
    let n = items.len();
    proof {
        assert(n % size != 0 ==> n / size < n) by (nonlinear_arith)
            requires size > 0;
    }
    let total: usize = n / size + if n % size == 0 { 0 } else { 1 };
    proof {
        assert(total == shard_count(n as nat, size as nat)) by (nonlinear_arith)
            requires total == n / size + if n % size == 0 { 0int } else { 1int }, size > 0,
                shard_count(n as nat, size as nat) == ((n + size - 1) / size as int);
        lemma_count_bounds(n as nat, size as nat, total as nat);
    }
    let mut shards: Vec<Shard> = Vec::new();
    let mut start: usize = 0;
    let mut i: usize = 0;
    while i < total
        invariant
            i <= total,
            total == shard_count(n as nat, size as nat),
            total * size >= n,
            total > 0 ==> (total - 1) * size < n,
            n == items@.len(),
            size > 0,
            i < total ==> start == i * size,
            i < total ==> start < n,
            shards@.len() == i,
            forall|j: int|
                0 <= j < i ==> {
                    &&& (#[trigger] shards@[j]).index == j
                    &&& shards@[j].total_shards == total
                    &&& shards@[j].items@ == shard_items(items@, j as nat, size as nat)
                },
        decreases total - i,
    {
        let end: usize = if n - start > size { start + size } else { n };
        let mut chunk: Vec<Item> = Vec::new();
        let mut j: usize = start;
        while j < end
            invariant
                start <= j <= end <= n,
                n == items@.len(),
                chunk@ == items@.subrange(start as int, j as int),
            decreases end - j,
        {
            chunk.push(items[j].duplicate());
            assert(items@.subrange(start as int, j + 1) =~= items@.subrange(start as int, j as int).push(items@[j as int]));
            j = j + 1;
        }
        proof {
            assert((i + 1) * size == start + size) by (nonlinear_arith)
                requires start == i * size;
            assert(shard_end(i as nat, size as nat, n as nat) == end);
        }
        shards.push(Shard { index: i, total_shards: total, items: chunk });
        proof {
            if i + 1 < total {
                assert((i + 1) * size <= (total - 1) * size) by (nonlinear_arith)
                    requires i + 1 <= total - 1, size > 0;
            }
        }
        start = end;
        i = i + 1;
    }
    shards
}

/// The work for one split: its shards and the number of items they were cut from.
pub struct SplitPlan {
    pub num_samples: usize,
    pub shards: Vec<Shard>,
}

/// Collects the items of `paths` for extension `ext`, shuffles them, and cuts
/// them into shards of `size`.
pub fn plan_split(paths: &Vec<String>, ext: &str, size: usize) -> (r: SplitPlan)
    requires
        size > 0,
    ensures
        exists|items: Seq<Item>| {
            &&& #[trigger] is_partition(r.shards@, items, size as nat)
            &&& item_views(items).to_multiset() == collected(string_views(paths@), ext@).to_multiset()
            &&& r.num_samples == items.len()
        },
{
    let items = shuffled_items(paths, ext);
    let shards = partition(&items, size);
    let r = SplitPlan { num_samples: items.len(), shards };
    assert(is_partition(r.shards@, items@, size as nat));
    r
}

proof fn lemma_concat_prefix(shards: Seq<Shard>, items: Seq<Item>, size: nat, k: nat)
    requires
        size > 0,
        is_partition(shards, items, size),
        k <= shards.len(),
    ensures
        concat_items(shards.subrange(0, k as int)) == items.subrange(0, shard_end_or_zero(k, size, items.len()) as int),
        total_len(shards.subrange(0, k as int)) == shard_end_or_zero(k, size, items.len()),
    decreases k,
{
    let n = items.len();
    lemma_count_bounds(n, size, shards.len());
    if k == 0 {
        assert(shards.subrange(0, 0) =~= Seq::<Shard>::empty());
        assert(items.subrange(0, 0) =~= Seq::<Item>::empty());
    } else {
        let p = shards.subrange(0, k as int);
        assert(p.drop_last() =~= shards.subrange(0, k - 1));
        lemma_concat_prefix(shards, items, size, (k - 1) as nat);
        let i = (k - 1) as nat;
        assert(shards[i as int].items@ == shard_items(items, i, size));
        assert((k - 1) * size <= (shards.len() - 1) * size) by (nonlinear_arith)
            requires k <= shards.len(), size > 0;
        assert(k * size == (k - 1) * size + size) by (nonlinear_arith);
        if k > 1 {
            let m = (k - 2) as nat;
            assert(m + 1 == i);
            assert((m + 1) * size == i * size);
            assert(i * size < n);
            assert(shard_end(m, size, n) == i * size);
        } else {
            assert(i == 0);
            assert(i * size == 0) by (nonlinear_arith)
                requires i == 0;
        }
        assert(shard_end_or_zero((k - 1) as nat, size, n) == shard_start(i, size));
        assert(items.subrange(0, shard_end(i, size, n) as int) =~= items.subrange(0, shard_start(i, size) as int)
            + items.subrange(shard_start(i, size) as int, shard_end(i, size, n) as int));
    }
}

/// End of the first `k` shards: 0 for none, else the end of shard `k - 1`.
spec fn shard_end_or_zero(k: nat, size: nat, n: nat) -> nat {
    if k == 0 { 0 } else { shard_end((k - 1) as nat, size, n) }
}

/// A partition holds `ceil(n / size)` shards whose lengths add up to `n`, and
/// whose items, concatenated in index order, are the input sequence: nothing
/// is lost or repeated.
pub proof fn lemma_partition_exact(shards: Seq<Shard>, items: Seq<Item>, size: nat)
    requires
        size > 0,
        is_partition(shards, items, size),
    ensures
        shards.len() == shard_count(items.len(), size),
        total_len(shards) == items.len(),
        concat_items(shards) == items,
{
    let n = items.len();
    lemma_count_bounds(n, size, shards.len());
    lemma_concat_prefix(shards, items, size, shards.len());
    assert(shards.subrange(0, shards.len() as int) =~= shards);
    if shards.len() > 0 {
        assert(shard_end((shards.len() - 1) as nat, size, n) == n);
    } else {
        assert(n == 0);
    }
    assert(items.subrange(0, n as int) =~= items);
}

/// Every shard but the last holds exactly `size` items; the last holds the rest,
/// which is `size` when `size` divides the number of items.
pub proof fn lemma_shard_sizes(shards: Seq<Shard>, items: Seq<Item>, size: nat, i: int)
    requires
        size > 0,
        is_partition(shards, items, size),
        0 <= i < shards.len(),
    ensures
        i < shards.len() - 1 ==> shards[i].items@.len() == size,
        i == shards.len() - 1 ==> shards[i].items@.len() == items.len() - i * size,
        shards[i].items@.len() > 0,
{
    let n = items.len();
    lemma_count_bounds(n, size, shards.len());
    if i < shards.len() - 1 {
        assert((i + 1) * size <= (shards.len() - 1) * size) by (nonlinear_arith)
            requires i + 1 <= shards.len() - 1, size > 0;
    }
    assert((i + 1) * size == i * size + size) by (nonlinear_arith);
    assert(i * size <= (shards.len() - 1) * size) by (nonlinear_arith)
        requires i <= shards.len() - 1, size > 0;
}

} // verus!
