//! Sorting by keys, with what is equal left in its order.

use vstd::prelude::*;

verus! {

/// Whether a key comes before another: by the first number that differs, and a key before its extensions.
pub open spec fn key_less(a: Seq<u64>, b: Seq<u64>) -> bool
    decreases a.len(),
{
    if b.len() == 0 {
        false
    } else if a.len() == 0 {
        true
    } else if a[0] != b[0] {
        a[0] < b[0]
    } else {
        key_less(a.drop_first(), b.drop_first())
    }
}

/// Whether item `i` comes before item `j`.
pub open spec fn comes_before(keys: Seq<Seq<u64>>, i: int, j: int) -> bool {
    key_less(keys[i], keys[j]) || (keys[i] == keys[j] && i < j)
}

/// Whether `order` lists the items `0` to `n` once each, in order.
pub open spec fn is_order(keys: Seq<Seq<u64>>, n: int, order: Seq<usize>) -> bool {
    &&& order.len() == n <= usize::MAX
    &&& order.no_duplicates()
    &&& forall|i: int| 0 <= i < order.len() ==> #[trigger] order[i] < n
    &&& forall|i: int, j: int|
        #![trigger order[i], order[j]]
        0 <= i < j < order.len() ==> comes_before(keys, order[i] as int, order[j] as int)
}

pub open spec fn key_views(keys: Seq<Vec<u64>>) -> Seq<Seq<u64>> {
    keys.map_values(|k: Vec<u64>| k@)
}

proof fn lemma_less_trans(a: Seq<u64>, b: Seq<u64>, c: Seq<u64>)
    requires
        key_less(a, b),
        key_less(b, c),
    ensures
        key_less(a, c),
    decreases a.len(),
{
    if a.len() > 0 && a[0] == b[0] && b[0] == c[0] {
        lemma_less_trans(a.drop_first(), b.drop_first(), c.drop_first());
    }
}

proof fn lemma_less_total(a: Seq<u64>, b: Seq<u64>)
    ensures
        key_less(a, b) || key_less(b, a) || a == b,
        !(key_less(a, b) && key_less(b, a)),
        a == b ==> !key_less(a, b),
    decreases a.len(),
{
    if a.len() > 0 && b.len() > 0 && a[0] == b[0] {
        lemma_less_total(a.drop_first(), b.drop_first());
        if a.drop_first() == b.drop_first() {
            assert(a =~= seq![a[0]] + a.drop_first());
            assert(b =~= seq![b[0]] + b.drop_first());
        }
    } else if a.len() == 0 && b.len() == 0 {
        assert(a =~= b);
    }
}

proof fn lemma_before_trans(keys: Seq<Seq<u64>>, i: int, j: int, k: int)
    requires
        comes_before(keys, i, j),
        comes_before(keys, j, k),
    ensures
        comes_before(keys, i, k),
{
    if key_less(keys[i], keys[j]) && key_less(keys[j], keys[k]) {
        lemma_less_trans(keys[i], keys[j], keys[k]);
    }
}

fn less(a: &Vec<u64>, b: &Vec<u64>) -> (r: bool)
    ensures
        r == key_less(a@, b@),
{
    let mut i: usize = 0;
    assert(a@.skip(0) =~= a@);
    assert(b@.skip(0) =~= b@);
    while i < a.len() && i < b.len()
        invariant
            i <= a@.len(),
            i <= b@.len(),
            key_less(a@, b@) == key_less(a@.skip(i as int), b@.skip(i as int)),
        decreases a@.len() - i,
    {
        if a[i] != b[i] {
            return a[i] < b[i];
        }
        assert(a@.skip(i as int).drop_first() =~= a@.skip(i + 1));
        assert(b@.skip(i as int).drop_first() =~= b@.skip(i + 1));
        i += 1;
    }
    i < b.len()
}

/// The order of items with the given keys.
pub fn sorted_order(keys: &Vec<Vec<u64>>) -> (r: Vec<usize>)
    ensures
        is_order(key_views(keys@), keys@.len() as int, r@),
{
    let ghost views = key_views(keys@);
    let mut order: Vec<usize> = Vec::new();
    let mut k: usize = 0;
    while k < keys.len()
        invariant
            k <= keys@.len(),
            views == key_views(keys@),
            is_order(views, k as int, order@),
        decreases keys@.len() - k,
    {
        let mut p: usize = order.len();
        while p > 0 && less(&keys[k], &keys[order[p - 1]])
            invariant
                k < keys@.len(),
                views == key_views(keys@),
                is_order(views, k as int, order@),
                p <= order@.len(),
                forall|i: int| p <= i < order@.len() ==> comes_before(views, k as int, #[trigger] order@[i] as int),
            decreases p,
        {
            assert(views[k as int] == keys@[k as int]@);
            assert(views[order@[p - 1] as int] == keys@[order@[p - 1] as int]@);
            p = p - 1;
        }
        proof {
            assert(views[k as int] == keys@[k as int]@);
            if p > 0 {
                let last = order@[p - 1] as int;
                assert(views[last] == keys@[last]@);
                lemma_less_total(views[k as int], views[last]);
                assert(comes_before(views, last, k as int));
                assert forall|i: int| 0 <= i < p implies comes_before(views, #[trigger] order@[i] as int, k as int) by {
                    if i < p - 1 {
                        assert(comes_before(views, order@[i] as int, order@[p - 1] as int));
                        lemma_before_trans(views, order@[i] as int, last, k as int);
                    }
                }
            }
        }
        let ghost before = order@;
        order.insert(p, k);
        proof {
            let after = order@;
            assert(after =~= before.insert(p as int, k));
            assert forall|i: int, j: int| #![trigger after[i], after[j]] 0 <= i < j < after.len() implies comes_before(
                views,
                after[i] as int,
                after[j] as int,
            ) by {
                let a = if i < p { i } else { i - 1 };
                let b = if j < p { j } else { j - 1 };
                if i == p {
                    assert(after[j] == before[b]);
                } else if j == p {
                    assert(after[i] == before[a]);
                } else {
                    assert(after[i] == before[a] && after[j] == before[b]);
                }
            }
            assert(after.no_duplicates()) by {
                assert forall|i: int, j: int| 0 <= i < after.len() && 0 <= j < after.len() && i != j implies after[i]
                    != after[j] by {
                    let a = if i < p { i } else { i - 1 };
                    let b = if j < p { j } else { j - 1 };
                    if i != p && j != p {
                        assert(before[a] != before[b]);
                    }
                }
            }
            assert forall|i: int| 0 <= i < after.len() implies #[trigger] after[i] < k + 1 by {
                let a = if i < p { i } else { i - 1 };
                if i != p {
                    assert(after[i] == before[a]);
                }
            }
        }
        k += 1;
    }
    order
}

/// There is one order.
pub proof fn orders_are_unique(keys: Seq<Seq<u64>>, n: int, a: Seq<usize>, b: Seq<usize>)
    requires
        is_order(keys, n, a),
        is_order(keys, n, b),
    ensures
        a == b,
{
    assert forall|i: int| 0 <= i < n implies a[i] == b[i] by {
        lemma_same_item(keys, n, a, b, i);
    }
    assert(a =~= b);
}

/// Every item is listed.
pub proof fn orders_list_every_item(keys: Seq<Seq<u64>>, n: int, a: Seq<usize>, item: int)
    requires
        is_order(keys, n, a),
        0 <= item < n,
    ensures
        exists|i: int| 0 <= i < n && #[trigger] a[i] == item,
{
    let all = Set::new(|x: usize| x < n);
    vstd::seq_lib::seq_to_set_is_finite(a);
    a.unique_seq_to_set();
    let numbers = a.to_set();
    lemma_numbers(n);
    assert(numbers.subset_of(all));
    vstd::set_lib::lemma_len_subset(numbers, all);
    vstd::set_lib::lemma_subset_equality(numbers, all);
    assert(numbers.contains(item as usize));
    let i = choose|i: int| 0 <= i < a.len() && a[i] == item as usize;
    assert(a[i] == item);
}

proof fn lemma_numbers(n: int)
    requires
        0 <= n <= usize::MAX + 1,
    ensures
        Set::new(|x: usize| x < n).finite(),
        Set::new(|x: usize| x < n).len() == n,
    decreases n,
{
    let all = Set::new(|x: usize| x < n);
    if n > 0 {
        lemma_numbers(n - 1);
        let less = Set::new(|x: usize| x < n - 1);
        assert(all =~= less.insert((n - 1) as usize));
    } else {
        assert(all =~= Set::empty());
    }
}

proof fn lemma_same_item(keys: Seq<Seq<u64>>, n: int, a: Seq<usize>, b: Seq<usize>, i: int)
    requires
        is_order(keys, n, a),
        is_order(keys, n, b),
        0 <= i < n,
    ensures
        a[i] == b[i],
    decreases i,
{
    assert forall|j: int| 0 <= j < i implies a[j] == b[j] by {
        lemma_same_item(keys, n, a, b, j);
    }
    if a[i] != b[i] {
        orders_list_every_item(keys, n, a, b[i] as int);
        orders_list_every_item(keys, n, b, a[i] as int);
        let p = choose|p: int| 0 <= p < n && #[trigger] a[p] == b[i];
        let q = choose|q: int| 0 <= q < n && #[trigger] b[q] == a[i];
        if p < i {
            assert(b[p] == b[i]);
        }
        if q < i {
            assert(a[q] == a[i]);
        }
        assert(comes_before(keys, a[i] as int, a[p] as int));
        assert(comes_before(keys, b[i] as int, b[q] as int));
        lemma_less_total(keys[a[i] as int], keys[b[i] as int]);
    }
}

} // verus!
