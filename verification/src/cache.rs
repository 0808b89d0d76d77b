use vstd::prelude::*;
use std::collections::HashMap;
use std::collections::VecDeque;

use crate::types::DecodedImage;

verus! {

broadcast use {vstd::std_specs::hash::group_hash_axioms, vstd::std_specs::vecdeque::group_vec_dequeue_axioms};

/// A cached value together with the number of bytes it is charged for.
pub struct CacheItem<V> {
    pub value: V,
    pub byte_len: usize,
}

/// Total byte length of the items that `order` names.
pub open spec fn total_len<V>(order: Seq<usize>, items: Map<usize, CacheItem<V>>) -> nat
    decreases order.len(),
{
    if order.len() == 0 {
        0
    } else {
        total_len(order.drop_last(), items) + items[order.last()].byte_len as nat
    }
}

/// `order` with every occurrence of `page` taken out.
pub open spec fn without(order: Seq<usize>, page: usize) -> Seq<usize>
    decreases order.len(),
{
    if order.len() == 0 {
        order
    } else if order.last() == page {
        without(order.drop_last(), page)
    } else {
        without(order.drop_last(), page).push(order.last())
    }
}

/// The recency order after `page` was used: it becomes the most recent entry.
pub open spec fn touched(order: Seq<usize>, page: usize) -> Seq<usize> {
    without(order, page).push(page)
}

/// Drops least recently used entries, oldest first, until what is left fits in `max` bytes
/// or nothing is left.
pub open spec fn evict<V>(order: Seq<usize>, items: Map<usize, CacheItem<V>>, max: nat) -> (
    Seq<usize>,
    Map<usize, CacheItem<V>>,
)
    decreases order.len(),
{
    if order.len() > 0 && total_len(order, items) > max {
        evict(order.drop_first(), items.remove(order[0]), max)
    } else {
        (order, items)
    }
}

/// The consistency of a cache's parts: the recency order names each cached page once, and
/// the byte count is the sum of the items' lengths.
pub open spec fn order_matches<V>(order: Seq<usize>, items: Map<usize, CacheItem<V>>) -> bool {
    &&& order.no_duplicates()
    &&& forall|k: usize| #[trigger] items.contains_key(k) <==> order.contains(k)
}

/// The total length of a non-empty order is its first item's length plus the rest.
pub proof fn lemma_total_len_first<V>(s: Seq<usize>, items: Map<usize, CacheItem<V>>)
    requires
        s.len() > 0,
    ensures
        total_len(s, items) == items[s[0]].byte_len + total_len(s.drop_first(), items),
    decreases s.len(),
{
    if s.len() == 1 {
        assert(s.drop_last() =~= Seq::<usize>::empty());
        assert(s.drop_first() =~= Seq::<usize>::empty());
    } else {
        lemma_total_len_first(s.drop_last(), items);
        assert(s.drop_last().drop_first() =~= s.drop_first().drop_last());
    }
}

/// The total length depends only on the items that the order names.
pub proof fn lemma_total_len_congruent<V>(
    s: Seq<usize>,
    a: Map<usize, CacheItem<V>>,
    b: Map<usize, CacheItem<V>>,
)
    requires
        forall|k: usize| s.contains(k) ==> a[k] == b[k],
    ensures
        total_len(s, a) == total_len(s, b),
    decreases s.len(),
{
    if s.len() > 0 {
        assert forall|k: usize| s.drop_last().contains(k) implies a[k] == b[k] by {
            let j = choose|j: int| 0 <= j < s.drop_last().len() && s.drop_last()[j] == k;
            assert(s[j] == k);
            assert(s.contains(k));
        }
        lemma_total_len_congruent(s.drop_last(), a, b);
        assert(s.contains(s.last()));
    }
}

/// Membership in a non-empty sequence, split at its last element.
pub proof fn lemma_contains_split(s: Seq<usize>)
    requires
        s.len() > 0,
    ensures
        forall|x: usize| #[trigger] s.contains(x) <==> (s.drop_last().contains(x) || x == s.last()),
{
    assert forall|x: usize| #[trigger] s.contains(x) <==> (s.drop_last().contains(x) || x == s.last()) by {
        if s.contains(x) {
            let j = choose|j: int| 0 <= j < s.len() && s[j] == x;
            if j < s.len() - 1 {
                assert(s.drop_last()[j] == x);
            }
        }
        if s.drop_last().contains(x) {
            let j = choose|j: int| 0 <= j < s.drop_last().len() && s.drop_last()[j] == x;
            assert(s[j] == x);
        }
        if x == s.last() {
            assert(s[s.len() - 1] == x);
        }
    }
}

/// Taking `page` out of an order removes it and nothing else, and keeps it free of
/// duplicates.
pub proof fn lemma_without(s: Seq<usize>, page: usize)
    ensures
        !without(s, page).contains(page),
        forall|x: usize| x != page ==> (without(s, page).contains(x) <==> s.contains(x)),
        s.no_duplicates() ==> without(s, page).no_duplicates(),
        !s.contains(page) ==> without(s, page) == s,
        without(s, page).len() <= s.len(),
    decreases s.len(),
{
    if s.len() > 0 {
        let t = s.drop_last();
        lemma_without(t, page);
        lemma_contains_split(s);
        if s.last() != page {
            lemma_contains_split(without(s, page));
            assert(without(s, page).drop_last() == without(t, page));
        }
        if s.last() != page {
            assert(without(s, page).last() == s.last());
            if without(s, page).contains(page) {
                let j = choose|j: int| 0 <= j < without(s, page).len() && without(s, page)[j] == page;
                assert(j < without(t, page).len());
                assert(without(t, page)[j] == page);
            }
        }
        if s.no_duplicates() {
            assert(t.no_duplicates()) by {
                assert forall|i: int, j: int| 0 <= i < t.len() && 0 <= j < t.len() && i != j implies t[i] != t[j] by {
                    assert(s[i] == t[i] && s[j] == t[j]);
                }
            }
            if s.last() != page {
                assert(!t.contains(s.last())) by {
                    if t.contains(s.last()) {
                        let j = choose|j: int| 0 <= j < t.len() && t[j] == s.last();
                        assert(s[j] == s[s.len() - 1]);
                    }
                }
                assert(!without(t, page).contains(s.last()));
                let w = without(s, page);
                assert forall|i: int, j: int| 0 <= i < w.len() && 0 <= j < w.len() && i != j implies w[i] != w[j] by {
                    if i < w.len() - 1 && j < w.len() - 1 {
                        assert(w[i] == without(t, page)[i] && w[j] == without(t, page)[j]);
                    } else if i == w.len() - 1 {
                        assert(without(t, page).contains(w[j]) || j == w.len() - 1);
                        if j < w.len() - 1 {
                            assert(w[j] == without(t, page)[j]);
                        }
                    } else {
                        if i < w.len() - 1 {
                            assert(w[i] == without(t, page)[i]);
                        }
                    }
                }
            }
        }
        if !s.contains(page) {
            assert(!t.contains(page)) by {
                if t.contains(page) {
                    let j = choose|j: int| 0 <= j < t.len() && t[j] == page;
                    assert(s[j] == page);
                }
            }
            assert(s.last() != page) by {
                assert(s[s.len() - 1] == s.last());
            }
            assert(without(s, page) =~= t.push(s.last()));
        }
    }
}

/// Taking a page out of an order subtracts its item's length from the total.
pub proof fn lemma_total_len_without<V>(s: Seq<usize>, page: usize, items: Map<usize, CacheItem<V>>)
    requires
        s.no_duplicates(),
        s.contains(page),
    ensures
        total_len(s, items) == total_len(without(s, page), items) + items[page].byte_len,
    decreases s.len(),
{
    let t = s.drop_last();
    assert(t.no_duplicates()) by {
        assert forall|i: int, j: int| 0 <= i < t.len() && 0 <= j < t.len() && i != j implies t[i] != t[j] by {
            assert(s[i] == t[i] && s[j] == t[j]);
        }
    }
    if s.last() == page {
        assert(!t.contains(page)) by {
            if t.contains(page) {
                let j = choose|j: int| 0 <= j < t.len() && t[j] == page;
                assert(s[j] == s[s.len() - 1]);
            }
        }
        lemma_without(t, page);
    } else {
        assert(t.contains(page)) by {
            let j = choose|j: int| 0 <= j < s.len() && s[j] == page;
            assert(j != s.len() - 1);
            assert(t[j] == page);
        }
        lemma_total_len_without(t, page, items);
        assert(without(s, page).drop_last() == without(t, page));
    }
}

/// Eviction keeps the cache consistent, leaves it within budget (or empty), keeps the items
/// that stay, and keeps the most recent end of the order.
pub proof fn lemma_evict<V>(order: Seq<usize>, items: Map<usize, CacheItem<V>>, max: nat)
    requires
        order_matches(order, items),
    ensures
        order_matches(evict(order, items, max).0, evict(order, items, max).1),
        total_len(evict(order, items, max).0, evict(order, items, max).1) <= max
            || evict(order, items, max).0.len() == 0,
        forall|k: usize| #[trigger]
            evict(order, items, max).1.contains_key(k) ==> evict(order, items, max).1[k]
                == items[k],
        evict(order, items, max).0.len() <= order.len(),
        evict(order, items, max).0 == order.skip(order.len() - evict(order, items, max).0.len()),
    decreases order.len(),
{
    if order.len() > 0 && total_len(order, items) > max {
        let o2 = order.drop_first();
        let i2 = items.remove(order[0]);
        assert(order_matches(o2, i2)) by {
            assert forall|i: int, j: int| 0 <= i < o2.len() && 0 <= j < o2.len() && i != j implies o2[i] != o2[j] by {
                assert(order[i + 1] == o2[i] && order[j + 1] == o2[j]);
            }
            assert forall|k: usize| #[trigger] i2.contains_key(k) <==> o2.contains(k) by {
                if o2.contains(k) {
                    let j = choose|j: int| 0 <= j < o2.len() && o2[j] == k;
                    assert(order[j + 1] == k);
                    assert(order.contains(k));
                    assert(k != order[0]);
                }
                if i2.contains_key(k) {
                    assert(order.contains(k));
                    let j = choose|j: int| 0 <= j < order.len() && order[j] == k;
                    assert(j != 0);
                    assert(o2[j - 1] == k);
                }
            }
        }
        lemma_evict(o2, i2, max);
        assert(order.skip(1) == o2);
        assert(o2.skip(o2.len() - evict(o2, i2, max).0.len()) =~= order.skip(
            order.len() - evict(o2, i2, max).0.len(),
        ));
    } else {
        assert(order.skip(0) =~= order);
    }
}

/// The recency order and items after inserting `item` under `page` into a cache with the
/// budget `max`: the page becomes the most recent one, then the least recently used pages
/// are dropped until the rest fits.
pub open spec fn after_insert<V>(
    order: Seq<usize>,
    items: Map<usize, CacheItem<V>>,
    page: usize,
    item: CacheItem<V>,
    max: nat,
) -> (Seq<usize>, Map<usize, CacheItem<V>>) {
    evict(touched(order, page), items.insert(page, item), max)
}

/// Touching a page keeps the order free of duplicates and adds just that page.
pub proof fn lemma_touched_no_duplicates(order: Seq<usize>, page: usize)
    requires
        order.no_duplicates(),
    ensures
        touched(order, page).no_duplicates(),
        forall|k: usize| #[trigger] touched(order, page).contains(k) <==> (order.contains(k) || k == page),
{
    lemma_without(order, page);
    let w = without(order, page);
    let t = touched(order, page);
    assert(t.drop_last() == w);
    lemma_contains_split(t);
    assert forall|i: int, j: int| 0 <= i < t.len() && 0 <= j < t.len() && i != j implies t[i] != t[j] by {
        if i < t.len() - 1 && j < t.len() - 1 {
            assert(t[i] == w[i] && t[j] == w[j]);
        } else if i == t.len() - 1 {
            assert(t[j] == w[j]);
        } else {
            assert(t[i] == w[i]);
        }
    }
}

/// Eviction never drops the most recent page when its item alone fits in the budget.
pub proof fn lemma_evict_keeps_last<V>(order: Seq<usize>, items: Map<usize, CacheItem<V>>, max: nat)
    requires
        order_matches(order, items),
        order.len() > 0,
        items[order.last()].byte_len <= max,
    ensures
        evict(order, items, max).0.len() > 0,
        evict(order, items, max).0.last() == order.last(),
        evict(order, items, max).1.contains_key(order.last()),
        evict(order, items, max).1[order.last()] == items[order.last()],
    decreases order.len(),
{
    assert(order.contains(order.last())) by {
        assert(order[order.len() - 1] == order.last());
    }
    if order.len() > 0 && total_len(order, items) > max {
        if order.len() == 1 {
            assert(order.drop_last() =~= Seq::<usize>::empty());
            assert(total_len(order.drop_last(), items) == 0);
            assert(total_len(order, items) == items[order.last()].byte_len);
            assert(false);
        }
        let o2 = order.drop_first();
        let i2 = items.remove(order[0]);
        assert(order[0] != order.last());
        lemma_evict(order, items, max);
        assert(order_matches(o2, i2)) by {
            assert forall|i: int, j: int| 0 <= i < o2.len() && 0 <= j < o2.len() && i != j implies o2[i] != o2[j] by {
                assert(order[i + 1] == o2[i] && order[j + 1] == o2[j]);
            }
            assert forall|k: usize| #[trigger] i2.contains_key(k) <==> o2.contains(k) by {
                if o2.contains(k) {
                    let j = choose|j: int| 0 <= j < o2.len() && o2[j] == k;
                    assert(order[j + 1] == k);
                    assert(order.contains(k));
                    assert(k != order[0]);
                }
                if i2.contains_key(k) {
                    assert(order.contains(k));
                    let j = choose|j: int| 0 <= j < order.len() && order[j] == k;
                    assert(j != 0);
                    assert(o2[j - 1] == k);
                }
            }
        }
        assert(o2.last() == order.last());
        lemma_evict_keeps_last(o2, i2, max);
    }
}

/// Law: right after an item that fits in the budget is inserted, it is cached, unchanged,
/// as the most recently used page.
pub proof fn law_inserted_item_is_kept<V>(
    order: Seq<usize>,
    items: Map<usize, CacheItem<V>>,
    page: usize,
    item: CacheItem<V>,
    max: nat,
)
    requires
        order_matches(order, items),
        item.byte_len <= max,
    ensures
        after_insert(order, items, page, item, max).1.contains_key(page),
        after_insert(order, items, page, item, max).1[page] == item,
        after_insert(order, items, page, item, max).0.len() > 0,
        after_insert(order, items, page, item, max).0.last() == page,
{
    let t = touched(order, page);
    let i1 = items.insert(page, item);
    lemma_touched_no_duplicates(order, page);
    assert(order_matches(t, i1));
    lemma_evict_keeps_last(t, i1, max);
}

/// Law: eviction keeps the most recently used pages. After an insert, the cached pages are
/// the most recent end of the new recency order, they fit in the budget (or nothing is
/// left), and every page that stays keeps its item.
pub proof fn law_eviction_keeps_most_recent<V>(
    order: Seq<usize>,
    items: Map<usize, CacheItem<V>>,
    page: usize,
    item: CacheItem<V>,
    max: nat,
)
    requires
        order_matches(order, items),
    ensures
        ({
            let (o, it) = after_insert(order, items, page, item, max);
            let t = touched(order, page);
            &&& order_matches(o, it)
            &&& o == t.skip(t.len() - o.len())
            &&& (total_len(o, it) <= max || o.len() == 0)
            &&& forall|k: usize| #[trigger] it.contains_key(k) ==> it[k] == items.insert(page, item)[k]
        }),
{
    lemma_touched_no_duplicates(order, page);
    lemma_evict(touched(order, page), items.insert(page, item), max);
}

/// Law: an item larger than the whole budget empties the cache when it is inserted.
pub proof fn law_oversized_item_empties_cache<V>(
    order: Seq<usize>,
    items: Map<usize, CacheItem<V>>,
    page: usize,
    item: CacheItem<V>,
    max: nat,
)
    requires
        order_matches(order, items),
        item.byte_len > max,
    ensures
        after_insert(order, items, page, item, max).0.len() == 0,
        after_insert(order, items, page, item, max).1 == Map::<usize, CacheItem<V>>::empty(),
{
    let t = touched(order, page);
    let i1 = items.insert(page, item);
    lemma_touched_no_duplicates(order, page);
    lemma_evict(t, i1, max);
    let (o, it) = evict(t, i1, max);
    if o.len() > 0 {
        assert(o.last() == page) by {
            assert(o == t.skip(t.len() - o.len()));
            assert(o[o.len() - 1] == t[t.len() - 1]);
        }
        assert(o.contains(page)) by {
            assert(o[o.len() - 1] == page);
        }
        lemma_total_len_without(o, page, it);
        assert(it.contains_key(page));
        assert(it[page] == i1[page]);
        assert(false);
    }
    assert(it =~= Map::<usize, CacheItem<V>>::empty()) by {
        assert forall|k: usize| !it.contains_key(k) by {
            if it.contains_key(k) {
                assert(o.contains(k));
            }
        }
    }
}

/// A cache of page values.
pub trait Cache<V: Clone + Send> {
    /// The invariant that the cache's operations keep.
    spec fn cache_inv(&self) -> bool;

    /// Whether `insert(page, _, byte_len)` keeps the byte count within `usize`.
    spec fn insert_fits(&self, page: usize, byte_len: usize) -> bool;

    fn get(&mut self, page: usize) -> (r: Option<V>)
        requires
            old(self).cache_inv(),
        ensures
            final(self).cache_inv(),
    ;

    fn insert(&mut self, page: usize, value: V, byte_len: usize)
        requires
            old(self).cache_inv(),
            old(self).insert_fits(page, byte_len),
        ensures
            final(self).cache_inv(),
    ;

    fn contains(&self, page: usize) -> bool
        requires
            self.cache_inv(),
    ;

    fn clear(&mut self)
        requires
            old(self).cache_inv(),
        ensures
            final(self).cache_inv(),
    ;

    fn bytes_used(&self) -> usize
        requires
            self.cache_inv(),
    ;
}

/// A page cache bounded by a byte budget, which drops the least recently used pages first.
pub struct LruPageCache<V> {
    max_bytes: usize,
    bytes_used: usize,
    items: HashMap<usize, CacheItem<V>>,
    order: VecDeque<usize>,
}

impl<V> LruPageCache<V> {
    /// Pages from least to most recently used.
    pub closed spec fn recency(&self) -> Seq<usize> {
        self.order@
    }

    /// The cached pages and their items.
    pub closed spec fn entries(&self) -> Map<usize, CacheItem<V>> {
        self.items@
    }

    /// Bytes charged for the cached pages.
    pub closed spec fn used(&self) -> nat {
        self.bytes_used as nat
    }

    /// The byte budget.
    pub closed spec fn budget(&self) -> nat {
        self.max_bytes as nat
    }

    /// The cache's invariant.
    pub closed spec fn wf(&self) -> bool {
        &&& order_matches(self.order@, self.items@)
        &&& self.bytes_used == total_len(self.order@, self.items@)
        &&& self.bytes_used <= self.max_bytes
    }

    /// What `wf` guarantees to users of the cache.
    pub proof fn lemma_wf(&self)
        requires
            self.wf(),
        ensures
            order_matches(self.recency(), self.entries()),
            self.used() == total_len(self.recency(), self.entries()),
            self.used() <= self.budget(),
    {
    }

    /// An empty cache with the given byte budget.
    pub fn new(max_bytes: usize) -> (r: Self)
        ensures
            r.wf(),
            r.budget() == max_bytes,
            r.used() == 0,
            r.recency() == Seq::<usize>::empty(),
            r.entries() == Map::<usize, CacheItem<V>>::empty(),
    {
        LruPageCache { max_bytes, bytes_used: 0, items: HashMap::new(), order: VecDeque::new() }
    }

    /// The byte budget.
    pub fn max_bytes(&self) -> (r: usize)
        ensures
            r == self.budget(),
    {
        self.max_bytes
    }

    /// Makes `page` the most recently used page.
    fn touch(&mut self, page: usize)
        ensures
            final(self).order@ == touched(old(self).order@, page),
            final(self).items@ == old(self).items@,
            final(self).bytes_used == old(self).bytes_used,
            final(self).max_bytes == old(self).max_bytes,
    {
        let mut kept: VecDeque<usize> = VecDeque::new();
        let n = self.order.len();
        let mut i: usize = 0;
        while i < n
            invariant
                n == self.order@.len(),
                i <= n,
                kept@ == without(self.order@.take(i as int), page),
            decreases n - i,
        {
            let candidate = self.order[i];
            assert(self.order@.take(i + 1).drop_last() =~= self.order@.take(i as int));
            if candidate != page {
                kept.push_back(candidate);
            }
            i = i + 1;
        }
        assert(self.order@.take(n as int) =~= self.order@);
        kept.push_back(page);
        self.order = kept;
    }

    /// Drops least recently used pages until the cache is within its budget.
    fn evict_until_fit(&mut self)
        requires
            order_matches(old(self).order@, old(self).items@),
            old(self).bytes_used == total_len(old(self).order@, old(self).items@),
        ensures
            final(self).wf(),
            final(self).max_bytes == old(self).max_bytes,
            (final(self).order@, final(self).items@) == evict(
                old(self).order@,
                old(self).items@,
                old(self).max_bytes as nat,
            ),
    {
        while self.bytes_used > self.max_bytes
            invariant
                order_matches(self.order@, self.items@),
                self.bytes_used == total_len(self.order@, self.items@),
                self.max_bytes == old(self).max_bytes,
                evict(self.order@, self.items@, self.max_bytes as nat) == evict(
                    old(self).order@,
                    old(self).items@,
                    old(self).max_bytes as nat,
                ),
            ensures
                final(self).wf(),
                final(self).max_bytes == old(self).max_bytes,
                (final(self).order@, final(self).items@) == evict(
                    old(self).order@,
                    old(self).items@,
                    old(self).max_bytes as nat,
                ),
            decreases self.order@.len(),
        {
            let ghost o = self.order@;
            let ghost it = self.items@;
            match self.order.pop_front() {
                None => {
                    assert(o.len() == 0);
                    assert(total_len(o, it) == 0);
                    break;
                },
                Some(oldest) => {
                    proof {
                        lemma_total_len_first(o, it);
                        assert(o.contains(oldest));
                        assert(self.order@ =~= o.drop_first());
                    }
                    let removed = self.items.remove(&oldest);
                    proof {
                        let it2 = self.items@;
                        assert(it2 == it.remove(oldest));
                        assert(!self.order@.contains(oldest)) by {
                            if self.order@.contains(oldest) {
                                let j = choose|j: int| 0 <= j < self.order@.len() && self.order@[j] == oldest;
                                assert(o[j + 1] == o[0]);
                            }
                        }
                        lemma_total_len_congruent(self.order@, it, it2);
                        assert(order_matches(self.order@, it2)) by {
                            assert forall|i: int, j: int| 0 <= i < self.order@.len() && 0 <= j < self.order@.len() && i != j implies self.order@[i] != self.order@[j] by {
                                assert(o[i + 1] == self.order@[i] && o[j + 1] == self.order@[j]);
                            }
                            assert forall|k: usize| #[trigger] it2.contains_key(k) <==> self.order@.contains(k) by {
                                if self.order@.contains(k) {
                                    let j = choose|j: int| 0 <= j < self.order@.len() && self.order@[j] == k;
                                    assert(o[j + 1] == k);
                                    assert(o.contains(k));
                                }
                                if it2.contains_key(k) {
                                    assert(o.contains(k));
                                    let j = choose|j: int| 0 <= j < o.len() && o[j] == k;
                                    assert(j != 0);
                                    assert(self.order@[j - 1] == k);
                                }
                            }
                        }
                    }
                    match removed {
                        Some(item) => {
                            self.bytes_used = self.bytes_used - item.byte_len;
                        },
                        None => {
                            assert(false);
                        },
                    }
                },
            }
        }
    }
}

impl<V: Clone + Send> Cache<V> for LruPageCache<V> {
    open spec fn cache_inv(&self) -> bool {
        self.wf()
    }

    /// The bytes charged once `page`'s current item is taken out, plus `byte_len`, fit in
    /// `usize`.
    open spec fn insert_fits(&self, page: usize, byte_len: usize) -> bool {
        (if self.entries().contains_key(page) {
            self.used() - self.entries()[page].byte_len
        } else {
            self.used() as int
        }) + byte_len <= usize::MAX
    }

    /// A clone of the value cached for `page`, if any; a hit makes `page` the most recently
    /// used page.
    fn get(&mut self, page: usize) -> (r: Option<V>)
        ensures
            final(self).wf(),
            final(self).budget() == old(self).budget(),
            final(self).entries() == old(self).entries(),
            final(self).used() == old(self).used(),
            r is Some <==> old(self).entries().contains_key(page),
            r matches Some(v) ==> cloned(old(self).entries()[page].value, v),
            final(self).recency() == if old(self).entries().contains_key(page) {
                touched(old(self).recency(), page)
            } else {
                old(self).recency()
            },
    {
        let value = match self.items.get(&page) {
            Some(item) => Some(item.value.clone()),
            None => None,
        };
        if value.is_some() {
            self.touch(page);
            proof {
                let o = old(self).order@;
                lemma_without(o, page);
                lemma_total_len_without(o, page, self.items@);
                let w = without(o, page);
                assert(touched(o, page).drop_last() == w);
                assert(!w.contains(page));
                lemma_contains_split(touched(o, page));
                assert(touched(o, page).no_duplicates()) by {
                    let t = touched(o, page);
                    assert forall|i: int, j: int| 0 <= i < t.len() && 0 <= j < t.len() && i != j implies t[i] != t[j] by {
                        if i < t.len() - 1 && j < t.len() - 1 {
                            assert(t[i] == w[i] && t[j] == w[j]);
                        } else if i == t.len() - 1 {
                            assert(t[j] == w[j]);
                        } else {
                            assert(t[i] == w[i]);
                        }
                    }
                }
            }
        }
        value
    }

    /// Caches `value` for `page`, charged `byte_len` bytes, as the most recently used page,
    /// then drops least recently used pages until the cache is within its budget.
    fn insert(&mut self, page: usize, value: V, byte_len: usize)
        ensures
            final(self).wf(),
            final(self).budget() == old(self).budget(),
            (final(self).recency(), final(self).entries()) == after_insert(
                old(self).recency(),
                old(self).entries(),
                page,
                CacheItem { value, byte_len },
                old(self).budget(),
            ),
    {
        let ghost o = self.order@;
        let ghost it = self.items@;
        proof {
            lemma_without(o, page);
        }
        let existing = self.items.remove(&page);
        match existing {
            Some(item) => {
                proof {
                    lemma_total_len_without(o, page, it);
                }
                self.bytes_used = self.bytes_used - item.byte_len;
            },
            None => {},
        }
        let ghost it1 = self.items@;
        let ghost w = without(o, page);
        proof {
            assert(!w.contains(page));
            assert forall|k: usize| w.contains(k) implies it1[k] == it[k] by {}
            lemma_total_len_congruent(w, it, it1);
            if !o.contains(page) {
                assert(w == o);
            }
        }
        let ghost gi = CacheItem { value, byte_len };
        self.items.insert(page, CacheItem { value, byte_len });
        assert(self.items@ =~= it.insert(page, gi));
        self.bytes_used = self.bytes_used + byte_len;
        self.touch(page);
        proof {
            let it2 = self.items@;
            let t = touched(o, page);
            assert(t.drop_last() == w);
            assert forall|k: usize| w.contains(k) implies it2[k] == it1[k] by {}
            lemma_total_len_congruent(w, it1, it2);
            lemma_contains_split(t);
            assert(t.no_duplicates()) by {
                assert forall|i: int, j: int| 0 <= i < t.len() && 0 <= j < t.len() && i != j implies t[i] != t[j] by {
                    if i < t.len() - 1 && j < t.len() - 1 {
                        assert(t[i] == w[i] && t[j] == w[j]);
                    } else if i == t.len() - 1 {
                        assert(t[j] == w[j]);
                    } else {
                        assert(t[i] == w[i]);
                    }
                }
            }
            assert(order_matches(t, it2));
            assert(self.bytes_used == total_len(t, it2));
        }
        self.evict_until_fit();
    }

    /// Whether a value is cached for `page`.
    fn contains(&self, page: usize) -> (r: bool)
        ensures
            r == self.entries().contains_key(page),
    {
        self.items.contains_key(&page)
    }

    /// Drops every cached page.
    fn clear(&mut self)
        ensures
            final(self).wf(),
            final(self).budget() == old(self).budget(),
            final(self).used() == 0,
            final(self).recency() == Seq::<usize>::empty(),
            final(self).entries() == Map::<usize, CacheItem<V>>::empty(),
    {
        self.items.clear();
        self.order.clear();
        self.bytes_used = 0;
    }

    /// Bytes charged for the cached pages.
    fn bytes_used(&self) -> (r: usize)
        ensures
            r == self.used(),
    {
        self.bytes_used
    }
}

/// The cache of decoded pages.
pub type DisplayCache = LruPageCache<DecodedImage>;

/// The cache of thumbnails.
pub type ThumbnailCache = LruPageCache<DecodedImage>;

impl<V: Clone + Send> LruPageCache<V> {
    /// Whether inserting `byte_len` bytes for `page` keeps the byte count within `usize`.
    pub fn fits_insert(&self, page: usize, byte_len: usize) -> (r: bool)
        requires
            self.wf(),
        ensures
            r == (<Self as Cache<V>>::insert_fits(self, page, byte_len)),
    {
        proof {
            if self.items@.contains_key(page) {
                assert(self.order@.contains(page));
                lemma_total_len_without(self.order@, page, self.items@);
            }
        }
        let kept = match self.items.get(&page) {
            Some(item) => self.bytes_used - item.byte_len,
            None => self.bytes_used,
        };
        byte_len <= usize::MAX - kept
    }

}

/// One operation on a page cache, with its arguments.
pub enum CacheOp<V> {
    Insert { page: usize, value: V, byte_len: usize },
    Get { page: usize },
    Clear,
}

/// `after` is what `op` makes of the cache `before`, as the operation's contract states it.
pub open spec fn cache_op_done<V>(before: LruPageCache<V>, after: LruPageCache<V>, op: CacheOp<V>) -> bool {
    &&& after.wf()
    &&& after.budget() == before.budget()
    &&& match op {
        CacheOp::Insert { page, value, byte_len } => (after.recency(), after.entries()) == after_insert(
            before.recency(),
            before.entries(),
            page,
            CacheItem { value, byte_len },
            before.budget(),
        ),
        CacheOp::Get { page } => {
            &&& after.entries() == before.entries()
            &&& after.recency() == if before.entries().contains_key(page) {
                touched(before.recency(), page)
            } else {
                before.recency()
            }
        },
        CacheOp::Clear => {
            &&& after.entries() == Map::<usize, CacheItem<V>>::empty()
            &&& after.recency() == Seq::<usize>::empty()
        },
    }
}

/// `states` is a run of the cache: each state is what the operation of the same index makes
/// of the state before it.
pub open spec fn cache_run<V>(states: Seq<LruPageCache<V>>, ops: Seq<CacheOp<V>>) -> bool {
    &&& states.len() == ops.len() + 1
    &&& forall|i: int| 0 <= i < ops.len() ==> #[trigger] cache_op_done(states[i], states[i + 1], ops[i])
}

/// Operation `i` of `ops` inserts `value` for `page`, and no later operation inserts for
/// `page` again or clears the cache.
pub open spec fn last_insert_at<V>(ops: Seq<CacheOp<V>>, page: usize, value: V, i: int) -> bool {
    &&& 0 <= i < ops.len()
    &&& ops[i] matches CacheOp::Insert { page: p, value: v, .. } && p == page && v == value
    &&& forall|j: int|
        i < j < ops.len() ==> !(#[trigger] ops[j] is Clear) && !(ops[j] matches CacheOp::Insert {
            page: q,
            ..
        } && q == page)
}

/// Law: no operation changes a cache's byte budget: along any run, every state has the
/// budget of the first.
pub proof fn law_budget_is_constant<V>(states: Seq<LruPageCache<V>>, ops: Seq<CacheOp<V>>)
    requires
        cache_run(states, ops),
    ensures
        forall|i: int| 0 <= i < states.len() ==> #[trigger] states[i].budget() == states[0].budget(),
    decreases ops.len(),
{
    if ops.len() > 0 {
        let n = ops.len() - 1;
        assert(cache_run(states.drop_last(), ops.drop_last())) by {
            assert forall|i: int| 0 <= i < ops.drop_last().len() implies #[trigger] cache_op_done(
                states.drop_last()[i],
                states.drop_last()[i + 1],
                ops.drop_last()[i],
            ) by {
                assert(cache_op_done(states[i], states[i + 1], ops[i]));
            }
        }
        law_budget_is_constant(states.drop_last(), ops.drop_last());
        assert(cache_op_done(states[n], states[n + 1], ops[n]));
        assert forall|i: int| 0 <= i < states.len() implies #[trigger] states[i].budget() == states[0].budget() by {
            if i < states.len() - 1 {
                assert(states.drop_last()[i] == states[i]);
            } else {
                assert(states.drop_last()[n] == states[n]);
            }
        }
    }
}

/// Law: a read gives back the latest write. Along any run that starts from an empty cache
/// (as `new` and `clear` leave it), every page still cached holds the value of the last
/// insert for it, with no clear after that insert; so `get` of that page returns a clone of
/// that value.
pub proof fn law_read_gives_latest_insert<V>(states: Seq<LruPageCache<V>>, ops: Seq<CacheOp<V>>)
    requires
        cache_run(states, ops),
        states[0].wf(),
        states[0].entries() == Map::<usize, CacheItem<V>>::empty(),
    ensures
        forall|p: usize|
            #[trigger] states.last().entries().contains_key(p) ==> exists|i: int|
                last_insert_at(ops, p, states.last().entries()[p].value, i),
    decreases ops.len(),
{
    if ops.len() > 0 {
        let n = ops.len() - 1;
        let pre_s = states.drop_last();
        let pre_o = ops.drop_last();
        assert(cache_run(pre_s, pre_o)) by {
            assert forall|i: int| 0 <= i < pre_o.len() implies #[trigger] cache_op_done(pre_s[i], pre_s[i + 1], pre_o[i]) by {
                assert(cache_op_done(states[i], states[i + 1], ops[i]));
            }
        }
        law_read_gives_latest_insert(pre_s, pre_o);
        let before = states[n];
        let after = states[n + 1];
        assert(pre_s.last() == before);
        assert(cache_op_done(before, after, ops[n]));
        if n == 0 {
            assert(before == states[0]);
        } else {
            let k: int = n - 1;
            assert(cache_op_done(states[k], states[k + 1], ops[k]));
        }
        before.lemma_wf();
        assert forall|p: usize| #[trigger] after.entries().contains_key(p) implies exists|i: int|
            last_insert_at(ops, p, after.entries()[p].value, i) by {
            match ops[n] {
                CacheOp::Insert { page, value, byte_len } => {
                    let item = CacheItem { value, byte_len };
                    let t = touched(before.recency(), page);
                    let i1 = before.entries().insert(page, item);
                    lemma_touched_no_duplicates(before.recency(), page);
                    assert(order_matches(t, i1));
                    lemma_evict(t, i1, before.budget());
                    assert(after.entries()[p] == i1[p]);
                    assert(i1.contains_key(p)) by {
                        let o = after.recency();
                        after.lemma_wf();
                        assert(o.contains(p));
                        let j = choose|j: int| 0 <= j < o.len() && o[j] == p;
                        assert(t[t.len() - o.len() + j] == p);
                        assert(t.contains(p));
                    }
                    if p == page {
                        assert(last_insert_at(ops, p, after.entries()[p].value, n));
                    } else {
                        assert(before.entries().contains_key(p));
                        let i = choose|i: int| last_insert_at(pre_o, p, before.entries()[p].value, i);
                        assert(last_insert_at(ops, p, after.entries()[p].value, i)) by {
                            assert forall|j: int| i < j < ops.len() implies !(#[trigger] ops[j] is Clear) && !(
                            ops[j] matches CacheOp::Insert { page: q, .. } && q == p) by {
                                if j < n {
                                    assert(pre_o[j] == ops[j]);
                                }
                            }
                            assert(pre_o[i] == ops[i]);
                        }
                    }
                },
                CacheOp::Get { page } => {
                    assert(before.entries().contains_key(p));
                    let i = choose|i: int| last_insert_at(pre_o, p, before.entries()[p].value, i);
                    assert(last_insert_at(ops, p, after.entries()[p].value, i)) by {
                        assert forall|j: int| i < j < ops.len() implies !(#[trigger] ops[j] is Clear) && !(
                        ops[j] matches CacheOp::Insert { page: q, .. } && q == p) by {
                            if j < n {
                                assert(pre_o[j] == ops[j]);
                            }
                        }
                        assert(pre_o[i] == ops[i]);
                    }
                },
                CacheOp::Clear => {
                    assert(!after.entries().contains_key(p));
                },
            }
        }
    }
}

} // verus!
