//! Stable sorting by a key made of a small rank and a text.
//!
//! Lists are sorted the way `sort_by` sorts them: by the key, and items with equal
//! keys keep their relative order.

use vstd::prelude::*;

use crate::text::{
    lemma_text_lt_asymmetric, lemma_text_lt_irreflexive, lemma_text_lt_total,
    lemma_text_lt_transitive, text_less, text_lt,
};

verus! {

/// Key `(r1, t1)` comes strictly before key `(r2, t2)`: lower rank first, then
/// by text, ascending or (`desc`) descending.
pub open spec fn key_before(r1: u8, t1: Seq<char>, r2: u8, t2: Seq<char>, desc: bool) -> bool {
    r1 < r2 || (r1 == r2 && (if desc {
        text_lt(t2, t1)
    } else {
        text_lt(t1, t2)
    }))
}

/// Item `i` comes before item `j` in the stable order: its key is smaller, or the
/// keys are equal and `i` came first.
pub open spec fn pos_before(ranks: Seq<u8>, texts: Seq<Seq<char>>, desc: bool, i: int, j: int) -> bool {
    key_before(ranks[i], texts[i], ranks[j], texts[j], desc) || (ranks[i] == ranks[j] && texts[i]
        == texts[j] && i < j)
}

/// `order` lists every item index once, in the stable order of the keys.
pub open spec fn is_stable_order(order: Seq<usize>, ranks: Seq<u8>, texts: Seq<Seq<char>>, desc: bool) -> bool {
    &&& order.len() == ranks.len()
    &&& texts.len() == ranks.len()
    &&& forall|k: int| 0 <= k < order.len() ==> #[trigger] order[k] < order.len()
    &&& forall|a: int, b: int|
        0 <= a < b < order.len() ==> pos_before(ranks, texts, desc, #[trigger] order[a] as int, #[trigger] order[b] as int)
}

proof fn lemma_key_transitive(
    r1: u8,
    t1: Seq<char>,
    r2: u8,
    t2: Seq<char>,
    r3: u8,
    t3: Seq<char>,
    desc: bool,
)
    requires
        key_before(r1, t1, r2, t2, desc),
        key_before(r2, t2, r3, t3, desc),
    ensures
        key_before(r1, t1, r3, t3, desc),
{
    if r1 == r2 && r2 == r3 {
        if desc {
            lemma_text_lt_transitive(t3, t2, t1);
        } else {
            lemma_text_lt_transitive(t1, t2, t3);
        }
    }
}

proof fn lemma_key_total(r1: u8, t1: Seq<char>, r2: u8, t2: Seq<char>, desc: bool)
    ensures
        key_before(r1, t1, r2, t2, desc) || (r1 == r2 && t1 == t2) || key_before(
            r2,
            t2,
            r1,
            t1,
            desc,
        ),
{
    lemma_text_lt_total(t1, t2);
}

proof fn lemma_key_irreflexive(r: u8, t: Seq<char>, desc: bool)
    ensures
        !key_before(r, t, r, t, desc),
{
    lemma_text_lt_irreflexive(t);
}

proof fn lemma_key_asymmetric(r1: u8, t1: Seq<char>, r2: u8, t2: Seq<char>, desc: bool)
    requires
        key_before(r1, t1, r2, t2, desc),
    ensures
        !key_before(r2, t2, r1, t1, desc),
{
    if r1 == r2 {
        if desc {
            lemma_text_lt_asymmetric(t2, t1);
        } else {
            lemma_text_lt_asymmetric(t1, t2);
        }
    }
}

/// `pos_before` is irreflexive.
proof fn lemma_pos_irreflexive(ranks: Seq<u8>, texts: Seq<Seq<char>>, desc: bool, i: int)
    requires
        0 <= i < ranks.len(),
        texts.len() == ranks.len(),
    ensures
        !pos_before(ranks, texts, desc, i, i),
{
    lemma_key_irreflexive(ranks[i], texts[i], desc);
}

/// Any two different items are ordered one way or the other.
proof fn lemma_pos_total(ranks: Seq<u8>, texts: Seq<Seq<char>>, desc: bool, i: int, j: int)
    requires
        0 <= i < ranks.len(),
        0 <= j < ranks.len(),
        texts.len() == ranks.len(),
        i != j,
    ensures
        pos_before(ranks, texts, desc, i, j) || pos_before(ranks, texts, desc, j, i),
{
    lemma_key_total(ranks[i], texts[i], ranks[j], texts[j], desc);
}

/// `pos_before` is asymmetric.
proof fn lemma_pos_asymmetric(ranks: Seq<u8>, texts: Seq<Seq<char>>, desc: bool, i: int, j: int)
    requires
        0 <= i < ranks.len(),
        0 <= j < ranks.len(),
        texts.len() == ranks.len(),
        pos_before(ranks, texts, desc, i, j),
    ensures
        !pos_before(ranks, texts, desc, j, i),
{
    if key_before(ranks[i], texts[i], ranks[j], texts[j], desc) {
        lemma_key_asymmetric(ranks[i], texts[i], ranks[j], texts[j], desc);
    } else {
        lemma_key_irreflexive(ranks[i], texts[i], desc);
    }
}

/// The order over the first `n` items, sorted and holding each of them once.
spec fn sorted_prefix(order: Seq<usize>, ranks: Seq<u8>, texts: Seq<Seq<char>>, desc: bool, n: int) -> bool {
    &&& order.len() == n
    &&& forall|k: int| 0 <= k < order.len() ==> #[trigger] order[k] < n
    &&& forall|a: int, b: int|
        0 <= a < b < order.len() ==> pos_before(ranks, texts, desc, #[trigger] order[a] as int, #[trigger] order[b] as int)
}

proof fn lemma_insert_keeps_sorted(
    order: Seq<usize>,
    ranks: Seq<u8>,
    texts: Seq<Seq<char>>,
    desc: bool,
    i: usize,
    p: int,
)
    requires
        texts.len() == ranks.len(),
        i < ranks.len(),
        sorted_prefix(order, ranks, texts, desc, i as int),
        0 <= p <= order.len(),
        forall|q: int|
            0 <= q < p ==> !key_before(
                ranks[i as int],
                texts[i as int],
                ranks[#[trigger] order[q] as int],
                texts[order[q] as int],
                desc,
            ),
        p < order.len() ==> key_before(
            ranks[i as int],
            texts[i as int],
            ranks[order[p] as int],
            texts[order[p] as int],
            desc,
        ),
    ensures
        sorted_prefix(order.insert(p, i), ranks, texts, desc, i + 1),
{
    let new = order.insert(p, i);
    assert forall|a: int, b: int| 0 <= a < b < new.len() implies pos_before(
        ranks,
        texts,
        desc,
        #[trigger] new[a] as int,
        #[trigger] new[b] as int,
    ) by {
        if b < p {
            assert(new[a] == order[a] && new[b] == order[b]);
        } else if b == p {
            assert(new[a] == order[a]);
            assert(new[b] == i);
            assert(!key_before(
                ranks[i as int],
                texts[i as int],
                ranks[order[a] as int],
                texts[order[a] as int],
                desc,
            ));
            lemma_key_total(
                ranks[i as int],
                texts[i as int],
                ranks[order[a] as int],
                texts[order[a] as int],
                desc,
            );
        } else if a < p {
            assert(new[a] == order[a] && new[b] == order[b - 1]);
        } else if a == p {
            assert(new[a] == i && new[b] == order[b - 1]);
            let op = order[p] as int;
            let ob = order[b - 1] as int;
            if b - 1 > p {
                assert(pos_before(ranks, texts, desc, op, ob));
                if key_before(ranks[op], texts[op], ranks[ob], texts[ob], desc) {
                    lemma_key_transitive(
                        ranks[i as int],
                        texts[i as int],
                        ranks[op],
                        texts[op],
                        ranks[ob],
                        texts[ob],
                        desc,
                    );
                }
            }
        } else {
            assert(new[a] == order[a - 1] && new[b] == order[b - 1]);
        }
    }
    assert forall|k: int| 0 <= k < new.len() implies #[trigger] new[k] < i + 1 by {
        if k < p {
            assert(new[k] == order[k]);
        } else if k > p {
            assert(new[k] == order[k - 1]);
        }
    }
}

fn key_less(ranks: &Vec<u8>, texts: &Vec<Vec<char>>, desc: bool, i: usize, j: usize) -> (r: bool)
    requires
        i < ranks.len(),
        j < ranks.len(),
        texts.len() == ranks.len(),
    ensures
        r == key_before(ranks@[i as int], texts@[i as int]@, ranks@[j as int], texts@[j as int]@, desc),
{
    if ranks[i] < ranks[j] {
        true
    } else if ranks[i] == ranks[j] {
        if desc {
            text_less(&texts[j], &texts[i])
        } else {
            text_less(&texts[i], &texts[j])
        }
    } else {
        false
    }
}

/// The views of a list of texts.
pub open spec fn text_views(texts: Seq<Vec<char>>) -> Seq<Seq<char>> {
    texts.map_values(|t: Vec<char>| t@)
}

/// The stable order of the keys `(ranks[i], texts[i])`; there is exactly one
/// (see `lemma_stable_order_unique`).
pub open spec fn stable_sorted(ranks: Seq<u8>, texts: Seq<Seq<char>>, desc: bool) -> Seq<usize> {
    choose|o: Seq<usize>| is_stable_order(o, ranks, texts, desc)
}

/// The items taken in the given order of their indices.
pub open spec fn permuted<T>(items: Seq<T>, order: Seq<usize>) -> Seq<T> {
    order.map_values(|k: usize| items[k as int])
}

/// The indices of the items in the stable order of the keys `(ranks[i], texts[i])`.
pub fn stable_order(ranks: &Vec<u8>, texts: &Vec<Vec<char>>, desc: bool) -> (order: Vec<usize>)
    requires
        texts.len() == ranks.len(),
    ensures
        is_stable_order(order@, ranks@, text_views(texts@), desc),
        order@ == stable_sorted(ranks@, text_views(texts@), desc),
{
    let ghost tv = text_views(texts@);
    let mut order: Vec<usize> = Vec::new();
    let mut i: usize = 0;
    while i < ranks.len()
        invariant
            i <= ranks.len() == texts.len(),
            tv == text_views(texts@),
            sorted_prefix(order@, ranks@, tv, desc, i as int),
        decreases ranks.len() - i,
    {
        let mut p: usize = 0;
        while p < order.len() && !key_less(ranks, texts, desc, i, order[p])
            invariant
                i < ranks.len() == texts.len(),
                tv == text_views(texts@),
                sorted_prefix(order@, ranks@, tv, desc, i as int),
                p <= order.len(),
                forall|q: int|
                    0 <= q < p ==> !key_before(
                        ranks@[i as int],
                        tv[i as int],
                        ranks@[#[trigger] order@[q] as int],
                        tv[order@[q] as int],
                        desc,
                    ),
            decreases order.len() - p,
        {
            p = p + 1;
        }
        proof {
            lemma_insert_keeps_sorted(order@, ranks@, tv, desc, i, p as int);
        }
        order.insert(p, i);
        i = i + 1;
    }
    proof {
        let chosen = stable_sorted(ranks@, tv, desc);
        assert(is_stable_order(order@, ranks@, tv, desc));
        assert(is_stable_order(chosen, ranks@, tv, desc));
        lemma_stable_order_unique(order@, chosen, ranks@, tv, desc);
    }
    order
}

/// A stable order holds every item index.
proof fn lemma_order_covers(order: Seq<usize>, ranks: Seq<u8>, texts: Seq<Seq<char>>, desc: bool, x: int)
    requires
        is_stable_order(order, ranks, texts, desc),
        0 <= x < order.len(),
    ensures
        exists|k: int| 0 <= k < order.len() && #[trigger] order[k] as int == x,
{
    let n = order.len() as int;
    let ints = order.map_values(|y: usize| y as int);
    assert forall|a: int, b: int| 0 <= a < n && 0 <= b < n && a != b implies ints[a] != ints[b] by {
        if a < b {
            lemma_pos_irreflexive(ranks, texts, desc, order[a] as int);
        } else {
            lemma_pos_irreflexive(ranks, texts, desc, order[b] as int);
        }
    }
    assert(ints.no_duplicates());
    ints.unique_seq_to_set();
    let range = vstd::set_lib::set_int_range(0, n);
    vstd::set_lib::lemma_int_range(0, n);
    assert(ints.to_set().subset_of(range)) by {
        assert forall|y: int| ints.to_set().contains(y) implies range.contains(y) by {
            let k = choose|k: int| 0 <= k < n && ints[k] == y;
            assert(order[k] < n);
        }
    }
    vstd::set_lib::lemma_subset_equality(ints.to_set(), range);
    assert(range.contains(x));
    assert(ints.to_set().contains(x));
    let k = choose|k: int| 0 <= k < ints.len() && ints[k] == x;
    assert(order[k] as int == x);
}

/// Two stable orders of the same keys are the same: the sorted result is unique.
pub proof fn lemma_stable_order_unique(
    o1: Seq<usize>,
    o2: Seq<usize>,
    ranks: Seq<u8>,
    texts: Seq<Seq<char>>,
    desc: bool,
)
    requires
        is_stable_order(o1, ranks, texts, desc),
        is_stable_order(o2, ranks, texts, desc),
    ensures
        o1 == o2,
{
    let n = o1.len() as int;
    assert forall|k: int| 0 <= k < n implies #[trigger] o1[k] == o2[k] by {
        lemma_orders_agree_up_to(o1, o2, ranks, texts, desc, k);
    }
    assert(o1 =~= o2);
}

proof fn lemma_orders_agree_up_to(
    o1: Seq<usize>,
    o2: Seq<usize>,
    ranks: Seq<u8>,
    texts: Seq<Seq<char>>,
    desc: bool,
    k: int,
)
    requires
        is_stable_order(o1, ranks, texts, desc),
        is_stable_order(o2, ranks, texts, desc),
        0 <= k < o1.len(),
    ensures
        forall|j: int| 0 <= j <= k ==> #[trigger] o1[j] == o2[j],
    decreases k,
{
    if k > 0 {
        lemma_orders_agree_up_to(o1, o2, ranks, texts, desc, k - 1);
    }
    let x = o1[k] as int;
    let y = o2[k] as int;
    if x != y {
        lemma_pos_total(ranks, texts, desc, x, y);
        if pos_before(ranks, texts, desc, x, y) {
            // x sits in o2 somewhere after k
            lemma_order_covers(o2, ranks, texts, desc, x);
            let m = choose|m: int| 0 <= m < o2.len() && #[trigger] o2[m] as int == x;
            if m < k {
                assert(o1[m] == o2[m]);
                lemma_pos_irreflexive(ranks, texts, desc, x);
            } else {
                assert(m != k);
                assert(pos_before(ranks, texts, desc, o2[k] as int, o2[m] as int));
                lemma_pos_asymmetric(ranks, texts, desc, x, y);
            }
        } else {
            lemma_order_covers(o1, ranks, texts, desc, y);
            let m = choose|m: int| 0 <= m < o1.len() && #[trigger] o1[m] as int == y;
            if m < k {
                assert(o1[m] == o2[m]);
                lemma_pos_irreflexive(ranks, texts, desc, y);
            } else {
                assert(m != k);
                assert(pos_before(ranks, texts, desc, o1[k] as int, o1[m] as int));
                lemma_pos_asymmetric(ranks, texts, desc, y, x);
            }
        }
    }
}

/// Every list of keys has a stable order (the one `stable_sorted` names).
pub proof fn lemma_stable_order_exists(ranks: Seq<u8>, texts: Seq<Seq<char>>, desc: bool)
    requires
        texts.len() == ranks.len(),
        ranks.len() <= usize::MAX,
    ensures
        is_stable_order(stable_sorted(ranks, texts, desc), ranks, texts, desc),
    decreases ranks.len(),
{
    let n = ranks.len() as int;
    if n == 0 {
        assert(is_stable_order(Seq::<usize>::empty(), ranks, texts, desc));
    } else {
        let order = sorted_indices(ranks, texts, desc, n);
        assert(is_stable_order(order, ranks, texts, desc));
    }
}

/// A sorted order of the first `n` items, built by insertion.
proof fn sorted_indices(ranks: Seq<u8>, texts: Seq<Seq<char>>, desc: bool, n: int) -> (o: Seq<usize>)
    requires
        texts.len() == ranks.len(),
        0 <= n <= ranks.len(),
        n <= usize::MAX,
    ensures
        sorted_prefix(o, ranks, texts, desc, n),
    decreases n,
{
    if n == 0 {
        Seq::empty()
    } else {
        let prev = sorted_indices(ranks, texts, desc, n - 1);
        let i = (n - 1) as usize;
        let p = first_after(prev, ranks, texts, desc, i, 0);
        lemma_insert_keeps_sorted(prev, ranks, texts, desc, i, p);
        prev.insert(p, i)
    }
}

/// The first position, from `from` on, whose key comes after item `i`'s.
proof fn first_after(order: Seq<usize>, ranks: Seq<u8>, texts: Seq<Seq<char>>, desc: bool, i: usize, from: int) -> (p: int)
    requires
        texts.len() == ranks.len(),
        i < ranks.len(),
        sorted_prefix(order, ranks, texts, desc, i as int),
        0 <= from <= order.len(),
        forall|q: int|
            0 <= q < from ==> !key_before(
                ranks[i as int],
                texts[i as int],
                ranks[#[trigger] order[q] as int],
                texts[order[q] as int],
                desc,
            ),
    ensures
        0 <= p <= order.len(),
        forall|q: int|
            0 <= q < p ==> !key_before(
                ranks[i as int],
                texts[i as int],
                ranks[#[trigger] order[q] as int],
                texts[order[q] as int],
                desc,
            ),
        p < order.len() ==> key_before(
            ranks[i as int],
            texts[i as int],
            ranks[order[p] as int],
            texts[order[p] as int],
            desc,
        ),
    decreases order.len() - from,
{
    if from == order.len() {
        from
    } else if key_before(
        ranks[i as int],
        texts[i as int],
        ranks[order[from] as int],
        texts[order[from] as int],
        desc,
    ) {
        from
    } else {
        first_after(order, ranks, texts, desc, i, from + 1)
    }
}

} // verus!
