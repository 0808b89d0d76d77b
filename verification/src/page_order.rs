use vstd::prelude::*;

use crate::natural::lemma_natural_trichotomy;
use crate::natural::natural_after;
use crate::natural::natural_before;
use crate::natural::natural_equal;
use crate::natural::sorts_after;
use crate::text::is_supported_image_name;
use crate::text::spec_is_supported_image_name;
use crate::types::ArchiveEntry;
use crate::types::PageDescriptor;
use crate::types::PageIndex;

verus! {

/// Entry `k` of `entries` holds a page: it exists and its name has an image extension.
pub open spec fn is_page_entry(entries: Seq<ArchiveEntry>, k: int) -> bool {
    0 <= k < entries.len() && spec_is_supported_image_name(entries[k].name@)
}

/// Natural order is a total preorder on the names of the page entries of `entries`:
/// comparing two names either way gives opposite answers, and "not after" is transitive.
pub open spec fn natural_order_is_total_on(entries: Seq<ArchiveEntry>) -> bool {
    &&& forall|a: int, b: int|
        #![trigger is_page_entry(entries, a), is_page_entry(entries, b)]
        is_page_entry(entries, a) && is_page_entry(entries, b) ==> (natural_before(
            entries[a].name@,
            entries[b].name@,
        ) <==> natural_after(entries[b].name@, entries[a].name@))
    &&& forall|a: int, b: int, c: int|
        #![trigger is_page_entry(entries, a), is_page_entry(entries, b), is_page_entry(entries, c)]
        is_page_entry(entries, a) && is_page_entry(entries, b) && is_page_entry(entries, c) && !natural_after(
            entries[a].name@,
            entries[b].name@,
        ) && !natural_after(entries[b].name@, entries[c].name@) ==> !natural_after(
            entries[a].name@,
            entries[c].name@,
        )
}

/// `pages` lists the page entries of `entries`, each once, with each descriptor's
/// `page_index` its position in `pages`.
pub open spec fn describes_pages(entries: Seq<ArchiveEntry>, pages: Seq<PageDescriptor>) -> bool {
    &&& forall|i: int|
        #![trigger pages[i]]
        0 <= i < pages.len() ==> {
            let k = pages[i].physical_index as int;
            &&& pages[i].page_index == i
            &&& is_page_entry(entries, k)
            &&& pages[i].entry_id == entries[k].id
            &&& pages[i].name@ == entries[k].name@
        }
    &&& forall|i: int, j: int|
        0 <= i < j < pages.len() ==> pages[i].physical_index != pages[j].physical_index
    &&& forall|k: int|
        is_page_entry(entries, k) ==> exists|i: int|
            0 <= i < pages.len() && pages[i].physical_index == k
}

/// `pages` is in natural order of their names, and pages with equivalent names keep the
/// order in which the archive lists them.
pub open spec fn in_natural_order(pages: Seq<PageDescriptor>) -> bool {
    forall|i: int, j: int|
        0 <= i < j < pages.len() ==> {
            &&& !natural_after(pages[i].name@, pages[j].name@)
            &&& (natural_equal(pages[i].name@, pages[j].name@) ==> pages[i].physical_index
                < pages[j].physical_index)
        }
}

/// The positions `s` of entries in `entries` are in natural order of their names, stable.
pub open spec fn indices_sorted(entries: Seq<ArchiveEntry>, s: Seq<usize>) -> bool {
    forall|a: int, b: int|
        #![trigger s[a], s[b]]
        0 <= a < b < s.len() ==> {
            &&& !natural_after(entries[s[a] as int].name@, entries[s[b] as int].name@)
            &&& (natural_equal(entries[s[a] as int].name@, entries[s[b] as int].name@) ==> s[a]
                < s[b])
        }
}

proof fn lemma_insert_sorted(entries: Seq<ArchiveEntry>, s: Seq<usize>, j: int, x: usize)
    requires
        natural_order_is_total_on(entries),
        indices_sorted(entries, s),
        0 <= j <= s.len(),
        is_page_entry(entries, x as int),
        forall|m: int| 0 <= m < s.len() ==> #[trigger] s[m] < x && is_page_entry(entries, s[m] as int),
        j == 0 || !natural_after(entries[s[j - 1] as int].name@, entries[x as int].name@),
        forall|m: int|
            j <= m < s.len() ==> natural_after(entries[#[trigger] s[m] as int].name@, entries[x as int].name@),
    ensures
        indices_sorted(entries, s.insert(j, x)),
{
    let t = s.insert(j, x);
    let nx = entries[x as int].name@;
    assert forall|a: int, b: int| #![trigger t[a], t[b]] 0 <= a < b < t.len() implies {
        &&& !natural_after(entries[t[a] as int].name@, entries[t[b] as int].name@)
        &&& (natural_equal(entries[t[a] as int].name@, entries[t[b] as int].name@) ==> t[a] < t[b])
    } by {
        if b < j {
            assert(t[a] == s[a] && t[b] == s[b]);
        } else if a > j {
            assert(t[a] == s[a - 1] && t[b] == s[b - 1]);
        } else if a < j && b > j {
            assert(t[a] == s[a] && t[b] == s[b - 1]);
        } else if b == j {
            assert(t[a] == s[a] && t[b] == x);
            let ka = s[a] as int;
            let kp = s[j - 1] as int;
            assert(s[a] < x);
            if a < j - 1 {
                assert(!natural_after(entries[ka].name@, entries[kp].name@));
                assert(is_page_entry(entries, ka) && is_page_entry(entries, kp));
            }
        } else {
            assert(a == j);
            assert(t[a] == x && t[b] == s[b - 1]);
            let kb = s[b - 1] as int;
            assert(natural_after(entries[kb].name@, nx));
            assert(is_page_entry(entries, kb));
            assert(natural_before(nx, entries[kb].name@));
            lemma_natural_trichotomy(nx, entries[kb].name@);
        }
    }
}

/// The pages at distance `offset` from `current`, forward first, as the window lists them.
pub open spec fn window_step(current: int, forward: int, backward: int, count: int, offset: int) -> Seq<usize> {
    (if offset <= forward && current + offset < count {
        seq![(current + offset) as usize]
    } else {
        Seq::empty()
    }) + (if offset <= backward && current >= offset {
        seq![(current - offset) as usize]
    } else {
        Seq::empty()
    })
}

/// The pages at distances `1..=n` from `current`, nearer ones first.
pub open spec fn window_steps(current: int, forward: int, backward: int, count: int, n: int) -> Seq<usize>
    decreases n,
{
    if n <= 0 {
        Seq::empty()
    } else {
        window_steps(current, forward, backward, count, n - 1) + window_step(
            current,
            forward,
            backward,
            count,
            n,
        )
    }
}

/// The pages to load around `current` in a comic of `count` pages, in priority order:
/// `current` itself, then outward one step at a time, the page ahead before the page
/// behind, up to `forward` pages ahead and `backward` pages behind. Empty when `current` is
/// not a page.
pub open spec fn window(current: int, forward: int, backward: int, count: int) -> Seq<usize> {
    if current >= count {
        Seq::empty()
    } else {
        seq![current as usize] + window_steps(
            current,
            forward,
            backward,
            count,
            if forward >= backward { forward } else { backward },
        )
    }
}

/// How far page `p` is from page `c`.
pub open spec fn distance(p: int, c: int) -> int {
    if p >= c {
        p - c
    } else {
        c - p
    }
}

/// Page `p` of a comic of `count` pages lies within `forward` pages ahead of `current` and
/// `backward` pages behind it.
pub open spec fn in_window(p: int, current: int, forward: int, backward: int, count: int) -> bool {
    &&& 0 <= p < count
    &&& (p >= current ==> p - current <= forward)
    &&& (p < current ==> current - p <= backward)
}

/// The steps of a window name pages within it at distance `1..=n`, each once, nearer
/// ones first, and every such page.
pub proof fn lemma_window_steps(c: int, f: int, b: int, count: int, n: int)
    requires
        0 <= c < count <= usize::MAX,
        f >= 0,
        b >= 0,
        n >= 0,
    ensures
        ({
            let s = window_steps(c, f, b, count, n);
            &&& forall|i: int|
                0 <= i < s.len() ==> 1 <= distance(#[trigger] s[i] as int, c) <= n && in_window(
                    s[i] as int,
                    c,
                    f,
                    b,
                    count,
                )
            &&& forall|i: int, j: int|
                0 <= i < j < s.len() ==> distance(#[trigger] s[i] as int, c) <= distance(
                    #[trigger] s[j] as int,
                    c,
                )
            &&& s.no_duplicates()
            &&& forall|p: int|
                in_window(p, c, f, b, count) && 1 <= distance(p, c) <= n ==> #[trigger] s.contains(
                    p as usize,
                )
        }),
    decreases n,
{
    if n > 0 {
        lemma_window_steps(c, f, b, count, n - 1);
        let s0 = window_steps(c, f, b, count, n - 1);
        let st = window_step(c, f, b, count, n);
        let s = window_steps(c, f, b, count, n);
        assert(s == s0 + st);
        assert forall|i: int| 0 <= i < s.len() implies 1 <= distance(#[trigger] s[i] as int, c) <= n
            && in_window(s[i] as int, c, f, b, count) by {
            if i >= s0.len() {
                assert(s[i] == st[i - s0.len()]);
            } else {
                assert(s[i] == s0[i]);
            }
        }
        assert forall|i: int, j: int| 0 <= i < j < s.len() implies distance(#[trigger] s[i] as int, c)
            <= distance(#[trigger] s[j] as int, c) by {
            if j >= s0.len() {
                assert(s[j] == st[j - s0.len()]);
                if i >= s0.len() {
                    assert(s[i] == st[i - s0.len()]);
                } else {
                    assert(s[i] == s0[i]);
                }
            } else {
                assert(s[i] == s0[i] && s[j] == s0[j]);
            }
        }
        assert(s.no_duplicates()) by {
            assert forall|i: int, j: int| 0 <= i < s.len() && 0 <= j < s.len() && i != j implies s[i] != s[j] by {
                if i >= s0.len() && j >= s0.len() {
                    assert(s[i] == st[i - s0.len()] && s[j] == st[j - s0.len()]);
                } else if i >= s0.len() {
                    assert(s[i] == st[i - s0.len()] && s[j] == s0[j]);
                } else if j >= s0.len() {
                    assert(s[j] == st[j - s0.len()] && s[i] == s0[i]);
                } else {
                    assert(s[i] == s0[i] && s[j] == s0[j]);
                }
            }
        }
        assert forall|p: int| in_window(p, c, f, b, count) && 1 <= distance(p, c) <= n implies #[trigger] s.contains(
            p as usize,
        ) by {
            if distance(p, c) < n {
                assert(s0.contains(p as usize));
                let k = choose|k: int| 0 <= k < s0.len() && s0[k] == p as usize;
                assert(s[k] == s0[k]);
            } else if p > c {
                assert(st[0] == p as usize);
                assert(s[s0.len() as int] == st[0]);
            } else {
                let k = st.len() - 1;
                assert(st[k] == p as usize);
                assert(s[s0.len() + k] == st[k]);
            }
        }
    }
}

/// Law: the window of a page of the comic starts at that page, names only pages within
/// `forward` pages ahead and `backward` pages behind it, names each such page exactly once,
/// and lists nearer pages before farther ones.
pub proof fn law_window_priority(current: int, forward: int, backward: int, count: int)
    requires
        0 <= current < count <= usize::MAX,
        forward >= 0,
        backward >= 0,
    ensures
        ({
            let w = window(current, forward, backward, count);
            &&& w.len() > 0 && w[0] == current
            &&& w.no_duplicates()
            &&& forall|i: int| 0 <= i < w.len() ==> in_window(#[trigger] w[i] as int, current, forward, backward, count)
            &&& forall|p: int| in_window(p, current, forward, backward, count) ==> #[trigger] w.contains(p as usize)
            &&& forall|i: int, j: int|
                0 <= i < j < w.len() ==> distance(#[trigger] w[i] as int, current) <= distance(
                    #[trigger] w[j] as int,
                    current,
                )
        }),
{
    let widest = if forward >= backward { forward } else { backward };
    lemma_window_steps(current, forward, backward, count, widest);
    let s = window_steps(current, forward, backward, count, widest);
    let w = window(current, forward, backward, count);
    assert(w == seq![current as usize] + s);
    assert forall|i: int| 0 <= i < w.len() implies in_window(#[trigger] w[i] as int, current, forward, backward, count) by {
        if i > 0 {
            assert(w[i] == s[i - 1]);
        }
    }
    assert forall|i: int, j: int| 0 <= i < j < w.len() implies distance(#[trigger] w[i] as int, current)
        <= distance(#[trigger] w[j] as int, current) by {
        assert(w[j] == s[j - 1]);
        if i > 0 {
            assert(w[i] == s[i - 1]);
        }
    }
    assert(w.no_duplicates()) by {
        assert forall|i: int, j: int| 0 <= i < w.len() && 0 <= j < w.len() && i != j implies w[i] != w[j] by {
            if i > 0 && j > 0 {
                assert(w[i] == s[i - 1] && w[j] == s[j - 1]);
            } else if i > 0 {
                assert(w[i] == s[i - 1]);
            } else {
                assert(w[j] == s[j - 1]);
            }
        }
    }
    assert forall|p: int| in_window(p, current, forward, backward, count) implies #[trigger] w.contains(p as usize) by {
        if p == current {
            assert(w[0] == p as usize);
        } else {
            assert(s.contains(p as usize));
            let k = choose|k: int| 0 <= k < s.len() && s[k] == p as usize;
            assert(w[k + 1] == s[k]);
        }
    }
}

/// The pages of a comic in reading order.
#[derive(Debug, Clone)]
pub struct PageOrder {
    pages: Vec<PageDescriptor>,
}

impl View for PageOrder {
    type V = Seq<PageDescriptor>;

    closed spec fn view(&self) -> Seq<PageDescriptor> {
        self.pages@
    }
}

impl PageOrder {
    /// Keeps the entries whose names have an image extension and orders them naturally by
    /// name (`page2` before `page10`); entries with equivalent names keep the archive's
    /// order. Each page records its position in that order.
    pub fn from_entries(entries: Vec<ArchiveEntry>) -> (r: Self)
        ensures
            describes_pages(entries@, r@),
            natural_order_is_total_on(entries@) ==> in_natural_order(r@),
            r@.len() <= entries@.len(),
    {
        let n = entries.len();
        let ghost total = natural_order_is_total_on(entries@);
        let mut sorted: Vec<usize> = Vec::new();
        for i in 0..n
            invariant
                n == entries.len(),
                total == natural_order_is_total_on(entries@),
                sorted@.no_duplicates(),
                sorted.len() <= i,
                forall|m: int|
                    0 <= m < sorted.len() ==> #[trigger] sorted@[m] < i && is_page_entry(
                        entries@,
                        sorted@[m] as int,
                    ),
                forall|k: int|
                    0 <= k < i && is_page_entry(entries@, k) ==> sorted@.contains(k as usize),
                total ==> indices_sorted(entries@, sorted@),
        {
            if is_supported_image_name(entries[i].name.as_str()) {
                let mut j = sorted.len();
                while j > 0 && sorts_after(entries[sorted[j - 1]].name.as_str(), entries[i].name.as_str())
                    invariant
                        n == entries.len(),
                        i < n,
                        j <= sorted.len(),
                        forall|m: int| 0 <= m < sorted.len() ==> #[trigger] sorted@[m] < i,
                        forall|m: int|
                            j <= m < sorted.len() ==> natural_after(
                                entries@[#[trigger] sorted@[m] as int].name@,
                                entries@[i as int].name@,
                            ),
                    decreases j,
                {
                    j = j - 1;
                }
                let ghost before = sorted@;
                proof {
                    if total {
                        lemma_insert_sorted(entries@, before, j as int, i);
                    }
                }
                sorted.insert(j, i);
                proof {
                    let t = sorted@;
                    assert(t == before.insert(j as int, i));
                    assert forall|m: int| 0 <= m < t.len() implies #[trigger] t[m] < i + 1
                        && is_page_entry(entries@, t[m] as int) by {
                        if m < j {
                            assert(t[m] == before[m]);
                        } else if m > j {
                            assert(t[m] == before[m - 1]);
                        }
                    }
                    assert(t.no_duplicates()) by {
                        assert forall|a: int, b: int| 0 <= a < t.len() && 0 <= b < t.len() && a != b implies t[a] != t[b] by {
                            if a != j as int && b != j as int {
                                let a2 = if a < j { a } else { a - 1 };
                                let b2 = if b < j { b } else { b - 1 };
                                assert(t[a] == before[a2] && t[b] == before[b2]);
                            } else if a == j {
                                let b2 = if b < j { b } else { b - 1 };
                                assert(t[b] == before[b2]);
                            } else {
                                let a2 = if a < j { a } else { a - 1 };
                                assert(t[a] == before[a2]);
                            }
                        }
                    }
                    assert forall|k: int| 0 <= k < i + 1 && is_page_entry(entries@, k) implies t.contains(k as usize) by {
                        if k == i {
                            assert(t[j as int] == i);
                        } else {
                            assert(before.contains(k as usize));
                            let m = choose|m: int| 0 <= m < before.len() && before[m] == k as usize;
                            if m < j {
                                assert(t[m] == before[m]);
                            } else {
                                assert(t[m + 1] == before[m]);
                            }
                        }
                    }
                }
            }
        }
        let mut pages: Vec<PageDescriptor> = Vec::new();
        let count = sorted.len();
        for k in 0..count
            invariant
                count == sorted.len(),
                n == entries.len(),
                pages.len() == k,
                forall|m: int| 0 <= m < sorted.len() ==> #[trigger] sorted@[m] < n,
                forall|m: int|
                    #![trigger pages@[m]]
                    0 <= m < k ==> {
                        &&& pages@[m].page_index == m
                        &&& pages@[m].physical_index == sorted@[m]
                        &&& pages@[m].entry_id == entries@[sorted@[m] as int].id
                        &&& pages@[m].name@ == entries@[sorted@[m] as int].name@
                    },
        {
            let idx = sorted[k];
            let d = PageDescriptor {
                page_index: k,
                entry_id: entries[idx].id,
                name: entries[idx].name.clone(),
                physical_index: idx,
            };
            pages.push(d);
        }
        proof {
            let p = pages@;
            assert forall|i: int, j: int| 0 <= i < j < p.len() implies p[i].physical_index != p[j].physical_index by {
                assert(p[i].physical_index == sorted@[i] && p[j].physical_index == sorted@[j]);
            }
            assert forall|k: int| is_page_entry(entries@, k) implies exists|i: int|
                0 <= i < p.len() && p[i].physical_index == k by {
                assert(sorted@.contains(k as usize));
                let m = choose|m: int| 0 <= m < sorted.len() && sorted@[m] == k as usize;
                assert(p[m].physical_index == sorted@[m]);
            }
            if total {
                assert forall|i: int, j: int| 0 <= i < j < p.len() implies {
                    &&& !natural_after(p[i].name@, p[j].name@)
                    &&& (natural_equal(p[i].name@, p[j].name@) ==> p[i].physical_index < p[j].physical_index)
                } by {
                    assert(p[i].physical_index == sorted@[i] && p[j].physical_index == sorted@[j]);
                }
            }
        }
        PageOrder { pages }
    }

    /// Number of pages.
    pub fn len(&self) -> (r: usize)
        ensures
            r == self@.len(),
    {
        self.pages.len()
    }

    /// Whether the comic has no page.
    pub fn is_empty(&self) -> (r: bool)
        ensures
            r == (self@.len() == 0),
    {
        self.pages.len() == 0
    }

    /// The page at `index` in reading order, if there is one.
    pub fn page(&self, index: PageIndex) -> (r: Option<&PageDescriptor>)
        ensures
            r == if index < self@.len() {
                Some(&self@[index as int])
            } else {
                None
            },
    {
        if index < self.pages.len() {
            Some(&self.pages[index])
        } else {
            None
        }
    }

    /// All pages in reading order.
    pub fn pages(&self) -> (r: &[PageDescriptor])
        ensures
            r@ == self@,
    {
        self.pages.as_slice()
    }

    /// The pages to load around `current`, most urgent first: `current`, then outward one
    /// step at a time (the page ahead before the page behind), at most `forward` pages ahead
    /// and `backward` pages behind, within the comic. Empty when `current` is not a page.
    pub fn prioritized_window(&self, current: PageIndex, forward: usize, backward: usize) -> (r: Vec<PageIndex>)
        requires
            forward + backward + 1 <= usize::MAX,
            current >= self@.len() || current + forward <= usize::MAX,
        ensures
            r@ == window(current as int, forward as int, backward as int, self@.len() as int),
    {
        let mut pages: Vec<PageIndex> = Vec::with_capacity(forward + backward + 1);
        if current >= self.len() {
            return pages;
        }
        pages.push(current);
        let widest = if forward >= backward { forward } else { backward };
        let count = self.len();
        assert(pages@ == seq![current] + window_steps(current as int, forward as int, backward as int, count as int, 0));
        let mut offset: usize = 1;
        while offset <= widest
            invariant
                1 <= offset <= widest + 1,
                widest < usize::MAX,
                count == self@.len(),
                current < count,
                current + forward <= usize::MAX,
                widest == if forward >= backward { forward } else { backward },
                pages@ == seq![current] + window_steps(
                    current as int,
                    forward as int,
                    backward as int,
                    count as int,
                    offset - 1,
                ),
            decreases widest + 1 - offset,
        {
            let ghost prev = pages@;
            if offset <= forward {
                let next = current + offset;
                if next < count {
                    pages.push(next);
                }
            }
            if offset <= backward && current >= offset {
                pages.push(current - offset);
            }
            assert(pages@ =~= prev + window_step(
                current as int,
                forward as int,
                backward as int,
                count as int,
                offset as int,
            ));
            offset = offset + 1;
        }
        pages
    }
}

} // verus!
