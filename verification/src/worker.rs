use vstd::prelude::*;
use std::collections::HashSet;
use std::collections::VecDeque;
use std::sync::Arc;

use crate::cache::Cache;
use crate::cache::CacheItem;
use crate::cache::DisplayCache;
use crate::cache::ThumbnailCache;
use crate::cache::LruPageCache;
use crate::cache::without;
use crate::page_order::PageOrder;
use crate::raw::PageBytes;
use crate::page_order::window;
use crate::types::ArchiveEntry;
use crate::types::DecodedImage;
use crate::types::EntryId;
use crate::types::PageIndex;
use crate::types::ReaderCommand;
use crate::types::ReaderError;
use crate::types::ReaderEvent;
use crate::types::ReaderOptions;
use crate::types::ReaderResult;

verus! {

broadcast use {vstd::std_specs::hash::group_hash_axioms, vstd::std_specs::vecdeque::group_vec_dequeue_axioms};

/// What a command asks of the reader's loop.
#[derive(Debug, Clone, Copy, PartialEq, Eq, Structural)]
pub enum WindowResult {
    Continue,
    JumpTo(PageIndex),
    Shutdown,
}

/// `min(p, count - 1)`: the nearest page of a comic of `count` pages.
pub open spec fn clamp_page(p: int, count: int) -> int {
    if p < count - 1 {
        p
    } else {
        count - 1
    }
}

/// What `command` asks of a reader at page `current` of a comic of `count` pages: a jump to
/// the page it names (clamped to the comic), one page on or back (clamped), nothing of the
/// loop (thumbnail requests), or to stop.
pub open spec fn command_control(command: ReaderCommand, current: int, count: int) -> WindowResult {
    match command {
        ReaderCommand::GoTo(page) => WindowResult::JumpTo(clamp_page(page as int, count) as usize),
        ReaderCommand::Next => WindowResult::JumpTo(clamp_page(current + 1, count) as usize),
        ReaderCommand::Previous => WindowResult::JumpTo(
            if current >= 1 {
                (current - 1) as usize
            } else {
                0
            },
        ),
        ReaderCommand::RequestThumbnails { .. } => WindowResult::Continue,
        ReaderCommand::Shutdown => WindowResult::Shutdown,
    }
}

/// Law: a jump that a command asks for lands on a page of the comic; only `Shutdown` stops
/// the loop and only a thumbnail request leaves the page as it is.
pub proof fn law_jumps_land_in_comic(command: ReaderCommand, current: int, count: int)
    requires
        0 <= current < count <= usize::MAX,
    ensures
        command_control(command, current, count) matches WindowResult::JumpTo(next) ==> next < count,
        command_control(command, current, count) is Shutdown <==> command is Shutdown,
        command_control(command, current, count) is Continue <==> command is RequestThumbnails,
{
}

proof fn lemma_without_front(x: usize, s: Seq<usize>)
    requires
        !s.contains(x),
    ensures
        without(seq![x] + s, x) == s,
    decreases s.len(),
{
    if s.len() == 0 {
        assert(seq![x] + s =~= seq![x]);
        assert(seq![x].drop_last() =~= Seq::<usize>::empty());
        assert(without(seq![x], x) == without(Seq::<usize>::empty(), x));
    } else {
        assert((seq![x] + s).drop_last() =~= seq![x] + s.drop_last());
        assert(!s.drop_last().contains(x)) by {
            if s.drop_last().contains(x) {
                let j = choose|j: int| 0 <= j < s.drop_last().len() && s.drop_last()[j] == x;
                assert(s[j] == x);
            }
        }
        lemma_without_front(x, s.drop_last());
        assert(s.last() != x) by {
            assert(s[s.len() - 1] == s.last());
        }
        assert(s.drop_last().push(s.last()) =~= s);
        assert((seq![x] + s).last() == s.last());
        assert(without(seq![x] + s, x) == without(seq![x] + s.drop_last(), x).push(s.last()));
    }
}

/// Law: the prefetch queue that a jump to `current` builds holds every other page within
/// `forward` pages ahead and `backward` pages behind, each once, never `current` itself,
/// nearer pages first (the page ahead before the page behind at equal distance).
pub proof fn law_prefetch_queue(current: int, forward: int, backward: int, count: int)
    requires
        0 <= current < count <= usize::MAX,
        forward >= 0,
        backward >= 0,
    ensures
        ({
            let q = without(window(current, forward, backward, count), current as usize);
            &&& !q.contains(current as usize)
            &&& q.no_duplicates()
            &&& forall|i: int| 0 <= i < q.len() ==> crate::page_order::in_window(#[trigger] q[i] as int, current, forward, backward, count)
            &&& forall|p: int| crate::page_order::in_window(p, current, forward, backward, count) && p != current
                ==> #[trigger] q.contains(p as usize)
            &&& forall|i: int, j: int| 0 <= i < j < q.len() ==> crate::page_order::distance(#[trigger] q[i] as int, current)
                <= crate::page_order::distance(#[trigger] q[j] as int, current)
        }),
{
    let widest = if forward >= backward { forward } else { backward };
    crate::page_order::lemma_window_steps(current, forward, backward, count, widest);
    let s = crate::page_order::window_steps(current, forward, backward, count, widest);
    assert(!s.contains(current as usize)) by {
        if s.contains(current as usize) {
            let j = choose|j: int| 0 <= j < s.len() && s[j] == current as usize;
            assert(crate::page_order::distance(s[j] as int, current) >= 1);
        }
    }
    lemma_without_front(current as usize, s);
    assert(window(current, forward, backward, count) == seq![current as usize] + s);
}

/// The pages `lo..hi`, ascending, that are neither in `cached` nor in `queued`.
pub open spec fn pages_to_enqueue<V>(lo: int, hi: int, cached: Map<usize, CacheItem<V>>, queued: Seq<usize>) -> Seq<usize>
    decreases hi - lo,
{
    if hi <= lo {
        Seq::empty()
    } else {
        let rest = pages_to_enqueue(lo, hi - 1, cached, queued);
        if !cached.contains_key((hi - 1) as usize) && !queued.contains((hi - 1) as usize) {
            rest.push((hi - 1) as usize)
        } else {
            rest
        }
    }
}

/// First page of the thumbnails requested around `center` within `radius`.
pub open spec fn thumbnail_start(center: int, radius: int, count: int) -> int {
    let c = clamp_page(center, count);
    if c >= radius {
        c - radius
    } else {
        0
    }
}

/// Last page of the thumbnails requested around `center` within `radius`.
pub open spec fn thumbnail_end(center: int, radius: int, count: int) -> int {
    clamp_page(clamp_page(center, count) + radius, count)
}

/// The reader's loop decodes a thumbnail before the next prefetch when both queues hold
/// work and two prefetches ran since the last thumbnail.
pub open spec fn thumbnail_first(thumbnails: Seq<usize>, prefetches: Seq<usize>, since: int) -> bool {
    thumbnails.len() > 0 && prefetches.len() > 0 && since >= 2
}

proof fn lemma_pages_to_enqueue<V>(lo: int, hi: int, cached: Map<usize, CacheItem<V>>, queued: Seq<usize>)
    requires
        0 <= lo,
        hi <= usize::MAX + 1,
    ensures
        ({
            let s = pages_to_enqueue(lo, hi, cached, queued);
            &&& s.no_duplicates()
            &&& forall|i: int|
                0 <= i < s.len() ==> lo <= #[trigger] s[i] < hi && !queued.contains(s[i])
                    && !cached.contains_key(s[i])
        }),
    decreases hi - lo,
{
    if hi > lo {
        lemma_pages_to_enqueue(lo, hi - 1, cached, queued);
    }
}

/// The pages that `pages_to_enqueue(lo, hi, ..)` lists are exactly those in `lo..hi` that
/// are neither cached nor queued, in ascending order.
proof fn lemma_pages_to_enqueue_exact<V>(lo: int, hi: int, cached: Map<usize, CacheItem<V>>, queued: Seq<usize>)
    requires
        0 <= lo,
        hi <= usize::MAX + 1,
    ensures
        ({
            let s = pages_to_enqueue(lo, hi, cached, queued);
            &&& forall|p: usize| #[trigger] s.contains(p) <==> (lo <= p < hi && !cached.contains_key(p) && !queued.contains(p))
            &&& forall|i: int, j: int| 0 <= i < j < s.len() ==> s[i] < s[j]
            &&& forall|i: int| 0 <= i < s.len() ==> lo <= #[trigger] s[i] < hi
        }),
    decreases hi - lo,
{
    let s = pages_to_enqueue(lo, hi, cached, queued);
    if hi > lo {
        lemma_pages_to_enqueue_exact(lo, hi - 1, cached, queued);
        let rest = pages_to_enqueue(lo, hi - 1, cached, queued);
        let x = (hi - 1) as usize;
        if !cached.contains_key(x) && !queued.contains(x) {
            assert(s == rest.push(x));
            assert forall|p: usize| #[trigger] s.contains(p) <==> (lo <= p < hi && !cached.contains_key(p) && !queued.contains(p)) by {
                if s.contains(p) {
                    let k = choose|k: int| 0 <= k < s.len() && s[k] == p;
                    if k < rest.len() {
                        assert(rest[k] == p);
                        assert(rest.contains(p));
                    }
                }
                if lo <= p < hi && !cached.contains_key(p) && !queued.contains(p) {
                    if p == x {
                        assert(s[rest.len() as int] == p);
                    } else {
                        assert(rest.contains(p));
                        let k = choose|k: int| 0 <= k < rest.len() && rest[k] == p;
                        assert(s[k] == p);
                    }
                }
            }
            assert forall|i: int, j: int| 0 <= i < j < s.len() implies s[i] < s[j] by {
                assert(s[i] == rest[i]);
                if j < rest.len() {
                    assert(s[j] == rest[j]);
                }
            }
            assert forall|i: int| 0 <= i < s.len() implies lo <= #[trigger] s[i] < hi by {
                if i < rest.len() {
                    assert(s[i] == rest[i]);
                }
            }
        } else {
            assert forall|p: usize| #[trigger] s.contains(p) <==> (lo <= p < hi && !cached.contains_key(p) && !queued.contains(p)) by {
                if lo <= p < hi && !cached.contains_key(p) && !queued.contains(p) {
                    assert(p != x);
                }
            }
        }
    } else {
        assert forall|p: usize| #[trigger] s.contains(p) <==> (lo <= p < hi && !cached.contains_key(p) && !queued.contains(p)) by {
        }
    }
}

proof fn lemma_without_shorter(s: Seq<usize>, page: usize)
    requires
        s.contains(page),
    ensures
        without(s, page).len() < s.len(),
    decreases s.len(),
{
    crate::cache::lemma_without(s.drop_last(), page);
    if s.last() != page {
        crate::cache::lemma_contains_split(s);
        lemma_without_shorter(s.drop_last(), page);
    }
}

proof fn lemma_window_steps_len(c: int, f: int, b: int, count: int, n: int)
    requires
        f >= 0,
        b >= 0,
        n >= 0,
    ensures
        crate::page_order::window_steps(c, f, b, count, n).len() <= f + b,
        crate::page_order::window_steps(c, f, b, count, n).len() <= (if n < f { n } else { f }) + (if n < b { n } else { b }),
    decreases n,
{
    if n > 0 {
        lemma_window_steps_len(c, f, b, count, n - 1);
    }
}

/// A thumbnail request in `poll`, if any, keeps `center + radius` within `usize` once the
/// center is clamped to a comic of `count` pages.
pub open spec fn thumbnail_request_fits(poll: CommandPoll, count: int) -> bool {
    poll matches CommandPoll::Received(ReaderCommand::RequestThumbnails { center, radius }) ==> clamp_page(
        center as int,
        count,
    ) + radius <= usize::MAX
}

/// The event that reports the caches' sizes.
pub open spec fn stats_of(raw: nat, display: nat, thumbnail: nat) -> ReaderEvent {
    ReaderEvent::CacheStats { raw_bytes: raw as usize, display_bytes: display as usize, thumbnail_bytes: thumbnail as usize }
}

/// `ev` reports an error with the text `text`.
pub open spec fn is_error_event(ev: ReaderEvent, text: Seq<char>) -> bool {
    ev matches ReaderEvent::Error(m) && m@ == text
}

/// `after` is `before` followed by the report of `error`, if any.
pub open spec fn reports_error(before: Seq<ReaderEvent>, error: Option<ReaderError>, after: Seq<ReaderEvent>) -> bool {
    match error {
        Some(e) => after.len() == before.len() + 1 && after.take(before.len() as int) == before
            && is_error_event(after.last(), crate::types::error_message(e)),
        None => after == before,
    }
}

/// How ending `job` (with `error`, if any) goes, from the count `since` of prefetches since
/// the last thumbnail, whether work is `queued`, and the cache report `stats`: the events
/// `before` grow by the error's report and `stats`; the loop then waits for a command after
/// the current page's own decode (briefly when work is queued) and otherwise takes pending
/// commands; a prefetch adds one to the count and a thumbnail that ran ahead of the
/// prefetches sets it to zero.
pub open spec fn finished_job<R>(
    job: Job,
    error: Option<ReaderError>,
    since: int,
    queued: bool,
    stats: ReaderEvent,
    before: Seq<ReaderEvent>,
    after: Seq<ReaderEvent>,
    phase: Phase,
    since_after: int,
    action: WorkerAction<R>,
) -> bool {
    &&& after.len() > 0
    &&& after.last() == stats
    &&& reports_error(before, error, after.drop_last())
    &&& match job {
        Job::Display { prefetch: false, .. } => {
            &&& phase == (Phase::Waiting { brief: queued })
            &&& action == WorkerAction::<R>::WaitCommand { brief: queued }
            &&& since_after == since
        },
        Job::Display { prefetch: true, .. } => {
            &&& phase == (Phase::Draining { latest: None })
            &&& action is PollCommand
            &&& since_after == since + 1
        },
        Job::Thumbnail { priority, .. } => {
            &&& phase == (Phase::Draining { latest: None })
            &&& action is PollCommand
            &&& since_after == if priority { 0 } else { since }
        },
    }
}

/// `after` is the cache `before` after a lookup of `page`: nothing changes but the recency of
/// `page`, which becomes the most recent page if it is cached.
pub open spec fn looked_up<V>(before: LruPageCache<V>, after: LruPageCache<V>, page: PageIndex) -> bool {
    &&& after.wf()
    &&& after.budget() == before.budget()
    &&& after.entries() == before.entries()
    &&& after.used() == before.used()
    &&& after.recency() == if before.entries().contains_key(page) {
        crate::cache::touched(before.recency(), page)
    } else {
        before.recency()
    }
}

/// `ev` reports the decoded page `page` with the pixels of `image`.
pub open spec fn is_decoded_event(ev: ReaderEvent, page: PageIndex, image: DecodedImage, from_cache: bool, elapsed: u128) -> bool {
    ev matches ReaderEvent::PageDecoded { page_index, image: shown, from_cache: cached, elapsed_ms }
        && page_index == page && crate::types::same_image(*shown, image) && cached == from_cache
        && elapsed_ms == elapsed
}

/// `ev` reports the thumbnail of page `page` with the pixels of `image`.
pub open spec fn is_thumbnail_event(ev: ReaderEvent, page: PageIndex, image: DecodedImage) -> bool {
    ev matches ReaderEvent::ThumbnailDecoded { page_index, image: shown } && page_index == page
        && crate::types::same_image(*shown, image)
}

/// `ev` reports neither a page count, nor a current page, nor the end of the loop.
pub open spec fn quiet(ev: ReaderEvent) -> bool {
    !(ev is PageCount) && !(ev is CurrentPage) && !(ev is Finished)
}

/// Every page that `ev` names (as the current page, or a page loading, decoded or made into
/// a thumbnail) is below `n`.
pub open spec fn page_below(ev: ReaderEvent, n: int) -> bool {
    match ev {
        ReaderEvent::CurrentPage { page_index } => (page_index as int) < n,
        ReaderEvent::LoadingPage { page_index } => (page_index as int) < n,
        ReaderEvent::PageDecoded { page_index, .. } => (page_index as int) < n,
        ReaderEvent::ThumbnailDecoded { page_index, .. } => (page_index as int) < n,
        _ => true,
    }
}

/// `ev` delivers a page other than `current`, or a thumbnail.
pub open spec fn delivers_other(ev: ReaderEvent, current: PageIndex) -> bool {
    ||| ev matches ReaderEvent::PageDecoded { page_index, .. } && page_index != current
    ||| ev is ThumbnailDecoded
}

/// `ev` ends the wait for the current page `current`: it delivers that page, reports an
/// error or a new current page, or reports that the loop finished.
pub open spec fn settles(ev: ReaderEvent, current: PageIndex) -> bool {
    ||| ev matches ReaderEvent::PageDecoded { page_index, .. } && page_index == current
    ||| ev is Error
    ||| ev is CurrentPage
    ||| ev is Finished
}

/// The events that end a job: those sent before, then the error's report, if any, then
/// the cache report.
proof fn lemma_job_end_events(before: Seq<ReaderEvent>, error: Option<ReaderError>, after: Seq<ReaderEvent>, stats: ReaderEvent)
    requires
        after.len() > 0,
        after.last() == stats,
        reports_error(before, error, after.drop_last()),
    ensures
        after.len() > before.len(),
        forall|k: int| 0 <= k < before.len() ==> after[k] == before[k],
        forall|k: int| before.len() <= k < after.len() ==> (after[k] is Error || after[k] == stats),
{
    let mid = after.drop_last();
    assert forall|k: int| 0 <= k < before.len() implies after[k] == before[k] by {
        assert(mid[k] == after[k]);
        if error is Some {
            assert(mid.take(before.len() as int)[k] == mid[k]);
        }
    }
    assert forall|k: int| before.len() <= k < after.len() implies (after[k] is Error || after[k] == stats) by {
        if k < after.len() - 1 {
            assert(mid[k] == after[k]);
            assert(error is Some);
        }
    }
}

/// The state of the reader's loop between two outside operations.
#[derive(Debug, Clone, Copy, PartialEq, Eq, Structural)]
pub enum Job {
    /// Decoding a page for display; `prefetch` when it is not the current page's own decode.
    Display { page: PageIndex, prefetch: bool },
    /// Making a thumbnail; `priority` when it ran ahead of the prefetch queue.
    Thumbnail { page: PageIndex, priority: bool },
}

/// Where the reader's loop stands: which outside result it waits for.
#[derive(Debug, Clone, Copy, PartialEq, Eq, Structural)]
pub enum Phase {
    /// Not started.
    Start,
    /// Waiting for the archive's listing.
    Listing,
    /// Taking pending commands without waiting; `latest` is the page the last jump named.
    Draining { latest: Option<PageIndex> },
    /// Waiting for a command; `brief` when the wait is bounded because work is queued.
    Waiting { brief: bool },
    /// Waiting for an archive entry's bytes.
    Reading { job: Job },
    /// Waiting for a decoder's result.
    Decoding { job: Job },
    /// Stopped for good.
    Stopped,
}

/// What came of a command channel operation.
#[derive(Debug, Clone)]
pub enum CommandPoll {
    /// A command arrived.
    Received(ReaderCommand),
    /// No command was pending.
    Empty,
    /// The bounded wait ended without a command.
    TimedOut,
    /// Every sender is gone.
    Disconnected,
}

/// The result of the outside operation that the loop asked for last.
pub enum WorkerInput<R> {
    /// Begin.
    Start,
    /// The archive's listing.
    Listed(ReaderResult<Vec<ArchiveEntry>>),
    /// The outcome of taking or waiting for a command.
    Command(CommandPoll),
    /// An entry's bytes.
    EntryRead(ReaderResult<R>),
    /// A decoder's image, and the milliseconds since the clock was last started.
    Decoded(ReaderResult<DecodedImage>, u128),
}

/// The outside operation that the loop asks for next.
pub enum WorkerAction<R> {
    /// List the archive's entries.
    ListEntries,
    /// Take a pending command, if any, without waiting.
    PollCommand,
    /// Wait for a command, for one millisecond when `brief`, else until one comes.
    WaitCommand { brief: bool },
    /// Read an entry's bytes, starting the clock first when `start_clock`.
    ReadEntry { entry_id: EntryId, start_clock: bool },
    /// Decode a page for display, starting the clock first when `start_clock`.
    Decode { raw: R, start_clock: bool },
    /// Make a thumbnail from a page's bytes.
    Thumbnail { raw: R, max_edge: u32 },
    /// Make a thumbnail from a decoded page.
    ThumbnailFromDecoded { image: DecodedImage, max_edge: u32 },
    /// Nothing more: the loop has ended.
    Stop,
}

/// The events to send, in order, then the operation to perform.
pub struct WorkerStep<R> {
    pub events: Vec<ReaderEvent>,
    pub action: WorkerAction<R>,
}

/// The reader's loop: its caches, its work queues and where it stands.
pub struct ReaderWorker<R> {
    options: ReaderOptions,
    order: PageOrder,
    current: PageIndex,
    raw_cache: LruPageCache<R>,
    display_cache: DisplayCache,
    thumbnail_cache: ThumbnailCache,
    prefetch_queue: VecDeque<PageIndex>,
    thumbnail_queue: VecDeque<PageIndex>,
    queued_thumbnails: HashSet<PageIndex>,
    prefetches_since_thumbnail: usize,
    phase: Phase,
}

impl<R: PageBytes> ReaderWorker<R> {
    /// The reader's options.
    pub closed spec fn spec_options(&self) -> ReaderOptions {
        self.options
    }

    /// Where the loop stands.
    pub closed spec fn spec_phase(&self) -> Phase {
        self.phase
    }

    /// The current page.
    pub closed spec fn current_page(&self) -> PageIndex {
        self.current
    }

    /// The pages queued for a thumbnail, as a set.
    pub closed spec fn queued(&self) -> Set<PageIndex> {
        self.queued_thumbnails@
    }

    /// The current page, as an integer.
    pub closed spec fn spec_current(&self) -> int {
        self.current as int
    }

    /// The comic's pages.
    pub closed spec fn spec_order(&self) -> PageOrder {
        self.order
    }

    /// The number of pages of the comic.
    pub closed spec fn page_count(&self) -> int {
        self.order@.len() as int
    }

    /// The pages waiting to be decoded ahead of need.
    pub closed spec fn prefetches(&self) -> Seq<PageIndex> {
        self.prefetch_queue@
    }

    /// The pages waiting for a thumbnail.
    pub closed spec fn thumbnails(&self) -> Seq<PageIndex> {
        self.thumbnail_queue@
    }

    /// Prefetches since the last thumbnail that ran ahead of them.
    pub closed spec fn since_thumbnail(&self) -> int {
        self.prefetches_since_thumbnail as int
    }

    /// The cache of pages' bytes.
    pub closed spec fn spec_raw_cache(&self) -> LruPageCache<R> {
        self.raw_cache
    }

    /// The cache of decoded pages.
    pub closed spec fn spec_display_cache(&self) -> LruPageCache<DecodedImage> {
        self.display_cache
    }

    /// The cache of thumbnails.
    pub closed spec fn spec_thumbnail_cache(&self) -> LruPageCache<DecodedImage> {
        self.thumbnail_cache
    }

    /// The loop has listed its comic.
    pub open spec fn listed(&self) -> bool {
        !(self.spec_phase() is Start || self.spec_phase() is Listing || self.spec_phase() is Stopped)
    }

    /// The invariant of the reader's loop.
    pub closed spec fn wf(&self) -> bool {
        &&& self.raw_cache.wf()
        &&& self.display_cache.wf()
        &&& self.thumbnail_cache.wf()
        &&& self.options.prefetch_forward + self.options.prefetch_backward < usize::MAX
        &&& self.thumbnail_queue@.no_duplicates()
        &&& forall|p: usize| #[trigger] self.queued_thumbnails@.contains(p) <==> self.thumbnail_queue@.contains(p)
        &&& self.prefetches_since_thumbnail + self.prefetch_queue@.len() <= self.options.prefetch_forward
            + self.options.prefetch_backward
        &&& self.listed() ==> {
            &&& 0 <= self.current < self.order@.len()
            &&& self.order@.len() + self.options.prefetch_forward <= usize::MAX
        }
        &&& (self.phase matches Phase::Draining { latest: Some(next) } ==> next < self.order@.len())
        &&& (self.phase matches Phase::Reading { job: Job::Display { prefetch: true, .. } }
            || self.phase matches Phase::Decoding { job: Job::Display { prefetch: true, .. } })
            ==> self.prefetches_since_thumbnail + self.prefetch_queue@.len() + 1
            <= self.options.prefetch_forward + self.options.prefetch_backward
    }

    /// Law: in every state of the loop each cache stays within its byte budget, no page is
    /// queued twice for a thumbnail, and once the comic is listed the current page is one of
    /// its pages.
    pub proof fn law_worker_invariants(&self)
        requires
            self.wf(),
        ensures
            self.spec_raw_cache().used() <= self.spec_raw_cache().budget(),
            self.spec_display_cache().used() <= self.spec_display_cache().budget(),
            self.spec_thumbnail_cache().used() <= self.spec_thumbnail_cache().budget(),
            self.thumbnails().no_duplicates(),
            self.listed() ==> 0 <= self.spec_current() < self.page_count(),
    {
        self.raw_cache.lemma_wf();
        self.display_cache.lemma_wf();
        self.thumbnail_cache.lemma_wf();
    }

    /// The page a job works on.
    pub open spec fn job_page(job: Job) -> PageIndex {
        match job {
            Job::Display { page, .. } => page,
            Job::Thumbnail { page, .. } => page,
        }
    }

    /// The current page is owed: the loop is about to decode it for display, or is reading
    /// or decoding it for display.
    pub open spec fn current_owed(s: Self) -> bool {
        match s.spec_phase() {
            Phase::Draining { .. } => true,
            Phase::Reading { job } => job == (Job::Display { page: s.current_page(), prefetch: false }),
            Phase::Decoding { job } => job == (Job::Display { page: s.current_page(), prefetch: false }),
            _ => false,
        }
    }

    /// Law: while the current page is owed, a step of the loop delivers no other page and
    /// no thumbnail; and unless it delivers the current page, reports an error, reports a
    /// new current page or finishes, the current page stays the same and stays owed.
    pub proof fn law_current_page_first(before: Self, after: Self, input: WorkerInput<R>, ev: Seq<ReaderEvent>, r: WorkerAction<R>)
        requires
            Self::current_owed(before),
            Self::stepped(before, after, input, ev, r),
        ensures
            forall|k: int| 0 <= k < ev.len() ==> !delivers_other(#[trigger] ev[k], before.current_page()),
            (forall|k: int| 0 <= k < ev.len() ==> !settles(#[trigger] ev[k], before.current_page())) ==> Self::current_owed(after)
                && after.current_page() == before.current_page(),
    {
        let c = before.current_page();
        match (before.spec_phase(), input) {
            (Phase::Draining { latest }, WorkerInput::Command(poll)) => {
                match poll {
                    CommandPoll::Received(_) => {},
                    CommandPoll::Disconnected => {},
                    _ => {
                        match latest {
                            Some(_) => {},
                            None => {
                                let job = Job::Display { page: c, prefetch: false };
                                let stats = after.stats_now();
                                if before.spec_display_cache().entries().contains_key(c) {
                                    lemma_job_end_events(ev.take(1), None, ev, stats);
                                    assert(ev.take(1)[0] == ev[0]);
                                } else if c >= before.spec_order()@.len() {
                                    lemma_job_end_events(Seq::empty(), Some(ReaderError::PageOutOfRange {
                                        index: c,
                                        page_count: before.spec_order()@.len() as usize,
                                    }), ev, stats);
                                } else {
                                    assert(ev =~= seq![ReaderEvent::LoadingPage { page_index: c }]);
                                }
                            },
                        }
                    },
                }
            },
            (Phase::Reading { job }, WorkerInput::EntryRead(Err(e))) => {
                lemma_job_end_events(Seq::empty(), Some(e), ev, after.stats_now());
            },
            (Phase::Decoding { job }, WorkerInput::Decoded(Ok(image), _)) => {
                lemma_job_end_events(ev.take(1), None, ev, after.stats_now());
                assert(ev.take(1)[0] == ev[0]);
            },
            (Phase::Decoding { job }, WorkerInput::Decoded(Err(e), _)) => {
                lemma_job_end_events(Seq::empty(), Some(e), ev, after.stats_now());
            },
            _ => {},
        }
    }

    /// The events of a display job as it begins report neither a page count, nor a current
    /// page, nor the end of the loop.
    proof fn lemma_display_begun_quiet(before: Self, after: Self, page: PageIndex, prefetch: bool, ev: Seq<ReaderEvent>, r: WorkerAction<R>)
        requires
            Self::display_begun(before, after, page, prefetch, Seq::empty(), ev, r),
        ensures
            forall|k: int| 0 <= k < ev.len() ==> quiet(#[trigger] ev[k]),
    {
        let stats = after.stats_now();
        if before.spec_display_cache().entries().contains_key(page) {
            lemma_job_end_events(ev.take(1), None, ev, stats);
            assert(ev.take(1)[0] == ev[0]);
        } else if page >= before.spec_order()@.len() {
            lemma_job_end_events(Seq::empty(), Some(ReaderError::PageOutOfRange {
                index: page,
                page_count: before.spec_order()@.len() as usize,
            }), ev, stats);
        } else {
            assert(ev =~= seq![ReaderEvent::LoadingPage { page_index: page }]);
        }
    }

    /// The events of a thumbnail job as it begins report neither a page count, nor a
    /// current page, nor the end of the loop.
    proof fn lemma_thumbnail_begun_quiet(before: Self, after: Self, page: PageIndex, priority: bool, ev: Seq<ReaderEvent>, r: WorkerAction<R>)
        requires
            Self::thumbnail_begun(before, after, page, priority, Seq::empty(), ev, r),
        ensures
            forall|k: int| 0 <= k < ev.len() ==> quiet(#[trigger] ev[k]),
    {
        let stats = after.stats_now();
        if before.spec_thumbnail_cache().entries().contains_key(page) {
            lemma_job_end_events(ev.take(1), None, ev, stats);
            assert(ev.take(1)[0] == ev[0]);
        } else if before.spec_display_cache().entries().contains_key(page) {
        } else if page >= before.spec_order()@.len() {
            lemma_job_end_events(Seq::empty(), Some(ReaderError::PageOutOfRange {
                index: page,
                page_count: before.spec_order()@.len() as usize,
            }), ev, stats);
        } else {
        }
    }

    /// The events of background work report neither a page count, nor a current page, nor
    /// the end of the loop, and the loop stays listed.
    proof fn lemma_background_quiet(before: Self, after: Self, ev: Seq<ReaderEvent>, r: WorkerAction<R>)
        requires
            Self::background_done(before, after, Seq::empty(), ev, r),
        ensures
            forall|k: int| 0 <= k < ev.len() ==> quiet(#[trigger] ev[k]),
            after.listed(),
    {
        let thumbs = before.thumbnails();
        let pre = before.prefetches();
        if thumbnail_first(thumbs, pre, before.since_thumbnail() as int) {
            let mid = choose|mid: Self| Self::requeued(before, mid, pre, thumbs.drop_first()) && #[trigger] Self::thumbnail_begun(
                mid, after, thumbs[0], true, Seq::empty(), ev, r);
            Self::lemma_thumbnail_begun_quiet(mid, after, thumbs[0], true, ev, r);
        } else if pre.len() > 0 {
            if pre[0] != before.current_page() && !before.spec_display_cache().entries().contains_key(pre[0]) {
                let mid = choose|mid: Self| Self::requeued(before, mid, pre.drop_first(), thumbs) && #[trigger] Self::display_begun(
                    mid, after, pre[0], true, Seq::empty(), ev, r);
                Self::lemma_display_begun_quiet(mid, after, pre[0], true, ev, r);
            }
        } else if thumbs.len() > 0 {
            let mid = choose|mid: Self| Self::requeued(before, mid, pre, thumbs.drop_first()) && #[trigger] Self::thumbnail_begun(
                mid, after, thumbs[0], false, Seq::empty(), ev, r);
            Self::lemma_thumbnail_begun_quiet(mid, after, thumbs[0], false, ev, r);
        }
    }

    /// Law: the comic is listed once and its page count reported once. Only the first step
    /// asks for the listing; no step returns to the start or to waiting for a listing; only
    /// the step that takes the listing reports the page count, and when the comic has pages
    /// it reports, in this order, the page count and page 0 as the current page.
    pub proof fn law_listed_once(before: Self, after: Self, input: WorkerInput<R>, ev: Seq<ReaderEvent>, r: WorkerAction<R>)
        requires
            Self::stepped(before, after, input, ev, r),
        ensures
            r is ListEntries ==> before.spec_phase() is Start,
            !(after.spec_phase() is Start),
            after.spec_phase() is Listing ==> before.spec_phase() is Start,
            forall|k: int| 0 <= k < ev.len() && #[trigger] ev[k] is PageCount ==> before.spec_phase() is Listing,
            (before.spec_phase() is Listing && (input matches WorkerInput::Listed(Ok(_))) && after.page_count() > 0) ==> ev == seq![
                ReaderEvent::PageCount { pages: after.page_count() as usize },
                ReaderEvent::CurrentPage { page_index: 0 },
            ],
    {
        Self::lemma_step_quiet(before, after, input, ev, r);
    }

    /// Law: a step that reports a new current page leaves that page current and owed, so
    /// that by `law_current_page_first` no other page is delivered before it.
    pub proof fn law_new_current_page_is_owed(before: Self, after: Self, input: WorkerInput<R>, ev: Seq<ReaderEvent>, r: WorkerAction<R>)
        requires
            Self::stepped(before, after, input, ev, r),
        ensures
            forall|k: int| 0 <= k < ev.len() ==> (#[trigger] ev[k] matches ReaderEvent::CurrentPage { page_index }
                ==> Self::current_owed(after) && after.current_page() == page_index),
    {
        Self::lemma_step_quiet(before, after, input, ev, r);
    }

    /// Which steps report page counts and current pages, and which phases a step can reach.
    proof fn lemma_step_quiet(before: Self, after: Self, input: WorkerInput<R>, ev: Seq<ReaderEvent>, r: WorkerAction<R>)
        requires
            Self::stepped(before, after, input, ev, r),
        ensures
            !(after.spec_phase() is Start),
            after.spec_phase() is Listing ==> before.spec_phase() is Start,
            r is ListEntries ==> before.spec_phase() is Start,
            !(before.spec_phase() is Listing) ==> forall|k: int| 0 <= k < ev.len() ==> !(#[trigger] ev[k] is PageCount),
            (before.spec_phase() is Listing && (input matches WorkerInput::Listed(Ok(_))) && after.page_count() > 0) ==> ev == seq![
                ReaderEvent::PageCount { pages: after.page_count() as usize },
                ReaderEvent::CurrentPage { page_index: 0 },
            ],
            forall|k: int| 0 <= k < ev.len() ==> (#[trigger] ev[k] matches ReaderEvent::CurrentPage { page_index }
                ==> Self::current_owed(after) && after.current_page() == page_index),
    {
        let c = before.current_page();
        let stats = after.stats_now();
        match (before.spec_phase(), input) {
            (Phase::Listing, WorkerInput::Listed(Ok(_))) => {
                if after.page_count() > 0 {
                    assert(ev[1] == ReaderEvent::CurrentPage { page_index: 0 });
                }
            },
            (Phase::Draining { latest }, WorkerInput::Command(poll)) => {
                match poll {
                    CommandPoll::Received(_) => {},
                    CommandPoll::Disconnected => {},
                    _ => {
                        match latest {
                            Some(_) => {},
                            None => {
                                Self::lemma_display_begun_quiet(before, after, c, false, ev, r);
                            },
                        }
                    },
                }
            },
            (Phase::Waiting { brief }, WorkerInput::Command(poll)) => {
                match poll {
                    CommandPoll::Received(_) => {},
                    CommandPoll::Disconnected => {
                        if brief {
                            Self::lemma_background_quiet(before, after, ev, r);
                        }
                    },
                    _ => {
                        Self::lemma_background_quiet(before, after, ev, r);
                    },
                }
            },
            (Phase::Reading { job }, WorkerInput::EntryRead(Err(e))) => {
                lemma_job_end_events(Seq::empty(), Some(e), ev, stats);
            },
            (Phase::Decoding { job }, WorkerInput::Decoded(Ok(image), _)) => {
                lemma_job_end_events(ev.take(1), None, ev, stats);
                assert(ev.take(1)[0] == ev[0]);
            },
            (Phase::Decoding { job }, WorkerInput::Decoded(Err(e), _)) => {
                lemma_job_end_events(Seq::empty(), Some(e), ev, stats);
            },
            _ => {},
        }
    }

    /// The loop is reading or decoding a page ahead of need.
    pub open spec fn prefetching(s: Self) -> bool {
        ||| s.spec_phase() matches Phase::Reading { job: Job::Display { prefetch: true, .. } }
        ||| s.spec_phase() matches Phase::Decoding { job: Job::Display { prefetch: true, .. } }
    }

    /// Law: thumbnails are interleaved with prefetches. A prefetch starts only when no
    /// thumbnail is queued or fewer than two prefetches ran since the last thumbnail that ran
    /// ahead of them (or since the last jump); each prefetch that ends adds one to that count.
    /// So while thumbnails are queued, at most two prefetches run in a row.
    pub proof fn law_thumbnails_interleave(before: Self, after: Self, input: WorkerInput<R>, ev: Seq<ReaderEvent>, r: WorkerAction<R>)
        requires
            Self::stepped(before, after, input, ev, r),
        ensures
            Self::prefetching(after) && !(before.spec_phase() is Reading || before.spec_phase() is Decoding) ==> (
                before.thumbnails().len() == 0 || before.since_thumbnail() < 2),
            Self::prefetching(before) && !(after.spec_phase() is Reading || after.spec_phase() is Decoding) ==> after.since_thumbnail()
                == before.since_thumbnail() + 1,
            (before.spec_phase() matches Phase::Decoding { job: Job::Thumbnail { priority: true, .. } })
                && !(after.spec_phase() is Reading || after.spec_phase() is Decoding) ==> after.since_thumbnail() == 0,
    {
        match (before.spec_phase(), input) {
            (Phase::Waiting { brief }, WorkerInput::Command(poll)) => {
                let thumbs = before.thumbnails();
                let pre = before.prefetches();
                if Self::prefetching(after) && !(poll is Received) && (brief || !(poll is Disconnected)) {
                    if thumbnail_first(thumbs, pre, before.since_thumbnail() as int) {
                        let mid = choose|mid: Self| Self::requeued(before, mid, pre, thumbs.drop_first()) && #[trigger] Self::thumbnail_begun(
                            mid, after, thumbs[0], true, Seq::empty(), ev, r);
                        assert(false);
                    } else if pre.len() == 0 && thumbs.len() > 0 {
                        let mid = choose|mid: Self| Self::requeued(before, mid, pre, thumbs.drop_first()) && #[trigger] Self::thumbnail_begun(
                            mid, after, thumbs[0], false, Seq::empty(), ev, r);
                        assert(false);
                    }
                }
            },
            _ => {},
        }
    }

    /// `states` is a run of the loop: step `i` takes `states[i]` to `states[i + 1]` with
    /// input `inputs[i]`, sending `events[i]` and asking for `actions[i]`.
    pub open spec fn worker_run(
        states: Seq<Self>,
        inputs: Seq<WorkerInput<R>>,
        events: Seq<Seq<ReaderEvent>>,
        actions: Seq<WorkerAction<R>>,
    ) -> bool {
        &&& states.len() == inputs.len() + 1
        &&& events.len() == inputs.len()
        &&& actions.len() == inputs.len()
        &&& forall|i: int| 0 <= i < inputs.len() ==> #[trigger] Self::stepped(states[i], states[i + 1], inputs[i], events[i], actions[i])
    }

    /// Law: the current page comes first. After step `a` of a run reports page `c` as the
    /// current page (its last event), no later step delivers another page or a thumbnail
    /// until, and including, the first step that delivers page `c`, reports an error or a
    /// new current page, or finishes; up to that step, `c` stays current and owed.
    pub proof fn law_current_page_delivered_first(
        states: Seq<Self>,
        inputs: Seq<WorkerInput<R>>,
        events: Seq<Seq<ReaderEvent>>,
        actions: Seq<WorkerAction<R>>,
        a: int,
        b: int,
        c: PageIndex,
    )
        requires
            Self::worker_run(states, inputs, events, actions),
            0 <= a < b <= inputs.len(),
            events[a].len() > 0,
            events[a].last() == (ReaderEvent::CurrentPage { page_index: c }),
            forall|i: int, k: int| a < i < b && 0 <= k < events[i].len() ==> !settles(#[trigger] events[i][k], c),
        ensures
            Self::current_owed(states[b]),
            states[b].current_page() == c,
            forall|i: int, k: int| a < i <= b && i < inputs.len() && 0 <= k < events[i].len() ==> !delivers_other(
                #[trigger] events[i][k],
                c,
            ),
        decreases b - a,
    {
        if b == a + 1 {
            assert(Self::stepped(states[a], states[a + 1], inputs[a], events[a], actions[a]));
            Self::law_new_current_page_is_owed(states[a], states[a + 1], inputs[a], events[a], actions[a]);
            let k = events[a].len() - 1;
            assert(events[a][k] == events[a].last());
        } else {
            Self::law_current_page_delivered_first(states, inputs, events, actions, a, b - 1, c);
            let i = b - 1;
            assert(Self::stepped(states[i], states[i + 1], inputs[i], events[i], actions[i]));
            Self::law_current_page_first(states[i], states[i + 1], inputs[i], events[i], actions[i]);
        }
        if b < inputs.len() {
            assert(Self::stepped(states[b], states[b + 1], inputs[b], events[b], actions[b]));
            Self::law_current_page_first(states[b], states[b + 1], inputs[b], events[b], actions[b]);
        }
    }

    /// Every page the loop has queued or works on is a page of the comic; before the listing,
    /// nothing is queued.
    pub open spec fn pages_in_range(s: Self) -> bool {
        let n = s.page_count();
        &&& (s.spec_phase() is Start || s.spec_phase() is Listing) ==> s.prefetches().len() == 0
            && s.thumbnails().len() == 0
        &&& forall|i: int| 0 <= i < s.prefetches().len() ==> (#[trigger] s.prefetches()[i] as int) < n
        &&& forall|i: int| 0 <= i < s.thumbnails().len() ==> (#[trigger] s.thumbnails()[i] as int) < n
        &&& (s.spec_phase() matches Phase::Reading { job } ==> (Self::job_page(job) as int) < n)
        &&& (s.spec_phase() matches Phase::Decoding { job } ==> (Self::job_page(job) as int) < n)
    }

    /// The events of a display job for a page of the comic, as it begins, name only that page.
    proof fn lemma_display_begun_in_range(before: Self, after: Self, page: PageIndex, prefetch: bool, ev: Seq<ReaderEvent>, r: WorkerAction<R>)
        requires
            Self::display_begun(before, after, page, prefetch, Seq::empty(), ev, r),
            (page as int) < before.page_count(),
        ensures
            forall|k: int| 0 <= k < ev.len() ==> page_below(#[trigger] ev[k], before.page_count()),
            after.spec_phase() matches Phase::Reading { job } ==> Self::job_page(job) == page,
            after.spec_phase() matches Phase::Decoding { job } ==> Self::job_page(job) == page,
    {
        let stats = after.stats_now();
        if before.spec_display_cache().entries().contains_key(page) {
            lemma_job_end_events(ev.take(1), None, ev, stats);
            assert(ev.take(1)[0] == ev[0]);
        } else {
            assert(ev =~= seq![ReaderEvent::LoadingPage { page_index: page }]);
        }
    }

    /// The events of a thumbnail job for a page of the comic, as it begins, name only that
    /// page.
    proof fn lemma_thumbnail_begun_in_range(before: Self, after: Self, page: PageIndex, priority: bool, ev: Seq<ReaderEvent>, r: WorkerAction<R>)
        requires
            Self::thumbnail_begun(before, after, page, priority, Seq::empty(), ev, r),
            (page as int) < before.page_count(),
        ensures
            forall|k: int| 0 <= k < ev.len() ==> page_below(#[trigger] ev[k], before.page_count()),
            after.spec_phase() matches Phase::Reading { job } ==> Self::job_page(job) == page,
            after.spec_phase() matches Phase::Decoding { job } ==> Self::job_page(job) == page,
    {
        let stats = after.stats_now();
        if before.spec_thumbnail_cache().entries().contains_key(page) {
            lemma_job_end_events(ev.take(1), None, ev, stats);
            assert(ev.take(1)[0] == ev[0]);
        }
    }

    /// Law: pages stay in the comic. A step from a state whose queued and worked-on pages
    /// are pages of the comic keeps them so, and every page that its events name (as the
    /// current page, or a page loading, decoded or made into a thumbnail) is a page of the
    /// comic.
    pub proof fn law_pages_stay_in_range(before: Self, after: Self, input: WorkerInput<R>, ev: Seq<ReaderEvent>, r: WorkerAction<R>)
        requires
            before.wf(),
            Self::pages_in_range(before),
            Self::stepped(before, after, input, ev, r),
        ensures
            Self::pages_in_range(after),
            forall|k: int| 0 <= k < ev.len() ==> page_below(#[trigger] ev[k], after.page_count()),
    {
        before.law_worker_invariants();
        let n = before.page_count();
        let c = before.current_page();
        let stats = after.stats_now();
        let f = before.spec_options().prefetch_forward as int;
        let b = before.spec_options().prefetch_backward as int;
        match (before.spec_phase(), input) {
            (Phase::Listing, WorkerInput::Listed(Ok(_))) => {
                if after.page_count() > 0 {
                    law_prefetch_queue(0, f, b, after.page_count());
                }
            },
            (Phase::Draining { latest }, WorkerInput::Command(poll)) => {
                match poll {
                    CommandPoll::Received(command) => {
                        match command_control(command, c as int, n) {
                            WindowResult::Continue => {
                                match command {
                                    ReaderCommand::RequestThumbnails { center, radius } => {
                                        lemma_pages_to_enqueue(
                                            thumbnail_start(center as int, radius as int, n),
                                            thumbnail_end(center as int, radius as int, n) + 1,
                                            before.spec_thumbnail_cache().entries(),
                                            before.thumbnails(),
                                        );
                                    },
                                    _ => {},
                                }
                                let t = after.thumbnails();
                                assert forall|i: int| 0 <= i < t.len() implies (#[trigger] t[i] as int) < n by {
                                    if i < before.thumbnails().len() {
                                        assert(t[i] == before.thumbnails()[i]);
                                    }
                                }
                            },
                            _ => {},
                        }
                    },
                    CommandPoll::Disconnected => {},
                    _ => {
                        match latest {
                            Some(next) => {
                                law_prefetch_queue(next as int, f, b, n);
                            },
                            None => {
                                Self::lemma_display_begun_in_range(before, after, c, false, ev, r);
                            },
                        }
                    },
                }
            },
            (Phase::Waiting { brief }, WorkerInput::Command(poll)) => {
                let background = !(poll is Received) && (brief || !(poll is Disconnected));
                if background {
                    let thumbs = before.thumbnails();
                    let pre = before.prefetches();
                    if thumbnail_first(thumbs, pre, before.since_thumbnail() as int) {
                        let mid = choose|mid: Self| Self::requeued(before, mid, pre, thumbs.drop_first()) && #[trigger] Self::thumbnail_begun(
                            mid, after, thumbs[0], true, Seq::empty(), ev, r);
                        Self::lemma_thumbnail_begun_in_range(mid, after, thumbs[0], true, ev, r);
                        assert forall|i: int| 0 <= i < after.thumbnails().len() implies (#[trigger] after.thumbnails()[i] as int) < n by {
                            assert(after.thumbnails()[i] == thumbs[i + 1]);
                        }
                    } else if pre.len() > 0 {
                        assert forall|i: int| 0 <= i < pre.drop_first().len() implies (#[trigger] pre.drop_first()[i] as int) < n by {
                            assert(pre.drop_first()[i] == pre[i + 1]);
                        }
                        if pre[0] != c && !before.spec_display_cache().entries().contains_key(pre[0]) {
                            let mid = choose|mid: Self| Self::requeued(before, mid, pre.drop_first(), thumbs) && #[trigger] Self::display_begun(
                                mid, after, pre[0], true, Seq::empty(), ev, r);
                            Self::lemma_display_begun_in_range(mid, after, pre[0], true, ev, r);
                        }
                    } else if thumbs.len() > 0 {
                        let mid = choose|mid: Self| Self::requeued(before, mid, pre, thumbs.drop_first()) && #[trigger] Self::thumbnail_begun(
                            mid, after, thumbs[0], false, Seq::empty(), ev, r);
                        Self::lemma_thumbnail_begun_in_range(mid, after, thumbs[0], false, ev, r);
                        assert forall|i: int| 0 <= i < after.thumbnails().len() implies (#[trigger] after.thumbnails()[i] as int) < n by {
                            assert(after.thumbnails()[i] == thumbs[i + 1]);
                        }
                    }
                } else {
                    match poll {
                        CommandPoll::Received(command) => {
                            match command_control(command, c as int, n) {
                                WindowResult::JumpTo(next) => {
                                    law_prefetch_queue(next as int, f, b, n);
                                },
                                WindowResult::Continue => {
                                    match command {
                                        ReaderCommand::RequestThumbnails { center, radius } => {
                                            lemma_pages_to_enqueue(
                                                thumbnail_start(center as int, radius as int, n),
                                                thumbnail_end(center as int, radius as int, n) + 1,
                                                before.spec_thumbnail_cache().entries(),
                                                before.thumbnails(),
                                            );
                                        },
                                        _ => {},
                                    }
                                    let t = after.thumbnails();
                                    assert forall|i: int| 0 <= i < t.len() implies (#[trigger] t[i] as int) < n by {
                                        if i < before.thumbnails().len() {
                                            assert(t[i] == before.thumbnails()[i]);
                                        }
                                    }
                                },
                                _ => {},
                            }
                        },
                        _ => {},
                    }
                }
            },
            (Phase::Reading { job }, WorkerInput::EntryRead(Err(e))) => {
                lemma_job_end_events(Seq::empty(), Some(e), ev, stats);
            },
            (Phase::Decoding { job }, WorkerInput::Decoded(Ok(image), _)) => {
                lemma_job_end_events(ev.take(1), None, ev, stats);
                assert(ev.take(1)[0] == ev[0]);
            },
            (Phase::Decoding { job }, WorkerInput::Decoded(Err(e), _)) => {
                lemma_job_end_events(Seq::empty(), Some(e), ev, stats);
            },
            _ => {},
        }
    }

    /// Only the step that takes the listing changes the comic's pages.
    proof fn lemma_order_kept(before: Self, after: Self, input: WorkerInput<R>, ev: Seq<ReaderEvent>, r: WorkerAction<R>)
        requires
            Self::stepped(before, after, input, ev, r),
            !(before.spec_phase() is Listing),
        ensures
            after.page_count() == before.page_count(),
    {
        match (before.spec_phase(), input) {
            (Phase::Waiting { brief }, WorkerInput::Command(poll)) => {
                let thumbs = before.thumbnails();
                let pre = before.prefetches();
                if !(poll is Received) && (brief || !(poll is Disconnected)) {
                    if thumbnail_first(thumbs, pre, before.since_thumbnail() as int) {
                        let mid = choose|mid: Self| Self::requeued(before, mid, pre, thumbs.drop_first()) && #[trigger] Self::thumbnail_begun(
                            mid, after, thumbs[0], true, Seq::empty(), ev, r);
                    } else if pre.len() > 0 {
                        if pre[0] != before.current_page() && !before.spec_display_cache().entries().contains_key(pre[0]) {
                            let mid = choose|mid: Self| Self::requeued(before, mid, pre.drop_first(), thumbs) && #[trigger] Self::display_begun(
                                mid, after, pre[0], true, Seq::empty(), ev, r);
                        }
                    } else if thumbs.len() > 0 {
                        let mid = choose|mid: Self| Self::requeued(before, mid, pre, thumbs.drop_first()) && #[trigger] Self::thumbnail_begun(
                            mid, after, thumbs[0], false, Seq::empty(), ev, r);
                    }
                }
            },
            _ => {},
        }
    }

    /// What holds of state `i` of a run that starts from a loop that has not started.
    proof fn lemma_run_state(
        states: Seq<Self>,
        inputs: Seq<WorkerInput<R>>,
        events: Seq<Seq<ReaderEvent>>,
        actions: Seq<WorkerAction<R>>,
        i: int,
    )
        requires
            Self::worker_run(states, inputs, events, actions),
            Self::fresh(states[0]),
            0 <= i < states.len(),
        ensures
            states[i].wf(),
            Self::pages_in_range(states[i]),
            i > 0 ==> !(states[i].spec_phase() is Start),
            states[i].spec_phase() is Listing ==> i == 1,
            i >= 2 ==> states[i].page_count() == states[2].page_count(),
        decreases i,
    {
        if i > 0 {
            let j = i - 1;
            Self::lemma_run_state(states, inputs, events, actions, j);
            assert(Self::stepped(states[j], states[j + 1], inputs[j], events[j], actions[j]));
            Self::lemma_step_quiet(states[j], states[j + 1], inputs[j], events[j], actions[j]);
            Self::law_pages_stay_in_range(states[j], states[j + 1], inputs[j], events[j], actions[j]);
            if i >= 3 {
                Self::lemma_order_kept(states[j], states[j + 1], inputs[j], events[j], actions[j]);
            }
        }
    }

    /// A loop that has not started: well formed, nothing queued.
    pub open spec fn fresh(s: Self) -> bool {
        &&& s.wf()
        &&& s.spec_phase() is Start
        &&& s.prefetches().len() == 0
        &&& s.thumbnails().len() == 0
    }

    /// Law: over a whole run of a loop that has not started (as `new` makes it), the listing
    /// is asked for only by the first step; the page count is reported only by the second,
    /// the one that takes the listing; from then on the comic's pages stay the same; and every
    /// page that any event names is a page of the comic.
    pub proof fn law_run_reports_pages_in_range(
        states: Seq<Self>,
        inputs: Seq<WorkerInput<R>>,
        events: Seq<Seq<ReaderEvent>>,
        actions: Seq<WorkerAction<R>>,
    )
        requires
            Self::worker_run(states, inputs, events, actions),
            Self::fresh(states[0]),
        ensures
            forall|i: int| 0 <= i < actions.len() && (#[trigger] actions[i] is ListEntries) ==> i == 0,
            forall|i: int, k: int| 0 <= i < events.len() && 0 <= k < events[i].len() && (#[trigger] events[i][k] is PageCount) ==> i == 1,
            forall|i: int| 2 <= i < states.len() ==> #[trigger] states[i].page_count() == states[2].page_count(),
            forall|i: int, k: int| 0 <= i < events.len() && 0 <= k < events[i].len() ==> page_below(#[trigger] events[i][k], states[i + 1].page_count()),
    {
        assert forall|i: int| 0 <= i < actions.len() && (#[trigger] actions[i] is ListEntries) implies i == 0 by {
            Self::lemma_run_state(states, inputs, events, actions, i);
            assert(Self::stepped(states[i], states[i + 1], inputs[i], events[i], actions[i]));
            Self::lemma_step_quiet(states[i], states[i + 1], inputs[i], events[i], actions[i]);
        }
        assert forall|i: int, k: int| 0 <= i < events.len() && 0 <= k < events[i].len() && (#[trigger] events[i][k] is PageCount) implies i == 1 by {
            Self::lemma_run_state(states, inputs, events, actions, i);
            assert(Self::stepped(states[i], states[i + 1], inputs[i], events[i], actions[i]));
            Self::lemma_step_quiet(states[i], states[i + 1], inputs[i], events[i], actions[i]);
        }
        assert forall|i: int| 2 <= i < states.len() implies #[trigger] states[i].page_count() == states[2].page_count() by {
            Self::lemma_run_state(states, inputs, events, actions, i);
        }
        assert forall|i: int, k: int| 0 <= i < events.len() && 0 <= k < events[i].len() implies page_below(#[trigger] events[i][k], states[i + 1].page_count()) by {
            Self::lemma_run_state(states, inputs, events, actions, i);
            assert(Self::stepped(states[i], states[i + 1], inputs[i], events[i], actions[i]));
            Self::law_pages_stay_in_range(states[i], states[i + 1], inputs[i], events[i], actions[i]);
        }
    }

    /// Prefetches counted towards the next thumbnail, the one under way included.
    pub open spec fn prefetch_potential(s: Self) -> int {
        s.since_thumbnail() + if Self::prefetching(s) { 1int } else { 0int }
    }

    /// A step starts a prefetch: the loop was between jobs and now reads or decodes a page
    /// ahead of need.
    pub open spec fn starts_prefetch(before: Self, after: Self) -> bool {
        Self::prefetching(after) && !(before.spec_phase() is Reading || before.spec_phase() is Decoding)
    }

    /// A step does thumbnail work: it takes a thumbnail off its queue, or goes on with a
    /// thumbnail job.
    pub open spec fn thumbnail_work(before: Self, after: Self) -> bool {
        ||| after.thumbnails().len() < before.thumbnails().len()
        ||| before.spec_phase() matches Phase::Reading { job: Job::Thumbnail { .. } }
        ||| before.spec_phase() matches Phase::Decoding { job: Job::Thumbnail { .. } }
    }

    /// A step without a jump and without thumbnail work never lowers the count of
    /// prefetches towards the next thumbnail, and a step that starts a prefetch raises it by
    /// one, from below two when thumbnails are queued.
    proof fn lemma_prefetch_potential(before: Self, after: Self, input: WorkerInput<R>, ev: Seq<ReaderEvent>, r: WorkerAction<R>)
        requires
            Self::stepped(before, after, input, ev, r),
            before.listed(),
            forall|k: int| 0 <= k < ev.len() ==> !(#[trigger] ev[k] is CurrentPage),
            !Self::thumbnail_work(before, after),
        ensures
            Self::prefetch_potential(after) >= Self::prefetch_potential(before),
            Self::starts_prefetch(before, after) ==> Self::prefetch_potential(after) == Self::prefetch_potential(before) + 1
                && (before.thumbnails().len() > 0 ==> Self::prefetch_potential(before) < 2),
    {
        Self::law_thumbnails_interleave(before, after, input, ev, r);
        let c = before.current_page();
        let stats = after.stats_now();
        match (before.spec_phase(), input) {
            (Phase::Draining { latest }, WorkerInput::Command(poll)) => {
                match poll {
                    CommandPoll::Received(_) => {},
                    CommandPoll::Disconnected => {},
                    _ => {
                        match latest {
                            Some(next) => {
                                assert(ev[0] is CurrentPage);
                            },
                            None => {},
                        }
                    },
                }
            },
            (Phase::Waiting { brief }, WorkerInput::Command(poll)) => {
                let thumbs = before.thumbnails();
                let pre = before.prefetches();
                if !(poll is Received) && (brief || !(poll is Disconnected)) {
                    if thumbnail_first(thumbs, pre, before.since_thumbnail() as int) {
                        let mid = choose|mid: Self| Self::requeued(before, mid, pre, thumbs.drop_first()) && #[trigger] Self::thumbnail_begun(
                            mid, after, thumbs[0], true, Seq::empty(), ev, r);
                        assert(false);
                    } else if pre.len() > 0 {
                        if pre[0] != c && !before.spec_display_cache().entries().contains_key(pre[0]) {
                            let mid = choose|mid: Self| Self::requeued(before, mid, pre.drop_first(), thumbs) && #[trigger] Self::display_begun(
                                mid, after, pre[0], true, Seq::empty(), ev, r);
                        }
                    } else if thumbs.len() > 0 {
                        let mid = choose|mid: Self| Self::requeued(before, mid, pre, thumbs.drop_first()) && #[trigger] Self::thumbnail_begun(
                            mid, after, thumbs[0], false, Seq::empty(), ev, r);
                        assert(false);
                    }
                } else {
                    match poll {
                        CommandPoll::Received(command) => {
                            match command_control(command, c as int, before.page_count()) {
                                WindowResult::JumpTo(_) => {
                                    assert(ev[0] is CurrentPage);
                                },
                                _ => {},
                            }
                        },
                        _ => {},
                    }
                }
            },
            _ => {},
        }
    }

    /// How many steps in `a..b` of the run start a prefetch while thumbnails are queued.
    pub open spec fn prefetch_starts(states: Seq<Self>, a: int, b: int) -> nat
        decreases b - a,
    {
        if b <= a {
            0
        } else {
            Self::prefetch_starts(states, a, b - 1) + if Self::starts_prefetch(states[b - 1], states[b])
                && states[b - 1].thumbnails().len() > 0 {
                1nat
            } else {
                0nat
            }
        }
    }

    /// Law: thumbnails are interleaved every two prefetches. Along any stretch of steps
    /// `a..b` of a run, past the listing, with no jump (no current page reported) and no
    /// thumbnail work, at most two steps start a prefetch while thumbnails are queued.
    pub proof fn law_two_prefetches_between_thumbnails(
        states: Seq<Self>,
        inputs: Seq<WorkerInput<R>>,
        events: Seq<Seq<ReaderEvent>>,
        actions: Seq<WorkerAction<R>>,
        a: int,
        b: int,
    )
        requires
            Self::worker_run(states, inputs, events, actions),
            0 <= a <= b <= inputs.len(),
            forall|i: int| a <= i < b ==> (#[trigger] states[i]).listed(),
            forall|i: int, k: int| a <= i < b && 0 <= k < events[i].len() ==> !(#[trigger] events[i][k] is CurrentPage),
            forall|i: int| a <= i < b ==> !Self::thumbnail_work(#[trigger] states[i], states[i + 1]),
        ensures
            Self::prefetch_starts(states, a, b) <= 2,
            Self::prefetch_starts(states, a, b) <= Self::prefetch_potential(states[b]),
        decreases b - a,
    {
        if b > a {
            Self::law_two_prefetches_between_thumbnails(states, inputs, events, actions, a, b - 1);
            let i = b - 1;
            assert(Self::stepped(states[i], states[i + 1], inputs[i], events[i], actions[i]));
            assert(states[i].listed());
            assert(!Self::thumbnail_work(states[i], states[i + 1]));
            Self::lemma_prefetch_potential(states[i], states[i + 1], inputs[i], events[i], actions[i]);
        }
    }

    /// A step that took a command jumped to page `t`: taking pending commands, it notes `t`
    /// as the page to jump to; waiting for a command, it makes `t` current at once and
    /// reports it.
    pub open spec fn turned_to(before: Self, after: Self, ev: Seq<ReaderEvent>, t: int) -> bool {
        &&& before.spec_phase() is Draining ==> after.spec_phase() == (Phase::Draining { latest: Some(t as usize) })
        &&& before.spec_phase() is Waiting ==> after.current_page() == t && ev == seq![
            ReaderEvent::CurrentPage { page_index: t as usize },
        ]
    }

    /// Law: turning pages. At page `c` of a comic of `n` pages, `Previous` goes to `c - 1`
    /// (staying on the first page), `Next` to `c + 1` (staying on the last page), and
    /// `GoTo(p)` to `p`, or to the last page when `p` lies beyond it.
    pub proof fn law_turning_pages(before: Self, after: Self, command: ReaderCommand, ev: Seq<ReaderEvent>, r: WorkerAction<R>)
        requires
            before.wf(),
            before.spec_phase() is Draining || before.spec_phase() is Waiting,
            Self::stepped(before, after, WorkerInput::Command(CommandPoll::Received(command)), ev, r),
        ensures
            ({
                let c = before.current_page() as int;
                let n = before.page_count();
                &&& command is Previous ==> Self::turned_to(before, after, ev, if c >= 1 { c - 1 } else { 0 })
                &&& command is Next ==> Self::turned_to(before, after, ev, if c + 1 < n { c + 1 } else { n - 1 })
                &&& command matches ReaderCommand::GoTo(p) ==> Self::turned_to(before, after, ev, if p < n { p as int } else { n - 1 })
            }),
    {
        before.law_worker_invariants();
    }

    /// Law: a thumbnail request queues, after what is already queued, exactly the pages of
    /// the comic within `radius` of `center` (taken as the last page when it lies beyond
    /// the comic) whose thumbnail is neither cached nor queued yet, in ascending order.
    pub proof fn law_thumbnail_request(before: Self, after: Self, center: PageIndex, radius: usize, ev: Seq<ReaderEvent>, r: WorkerAction<R>)
        requires
            before.wf(),
            before.spec_phase() is Draining || before.spec_phase() is Waiting,
            Self::stepped(
                before,
                after,
                WorkerInput::Command(CommandPoll::Received(ReaderCommand::RequestThumbnails { center, radius })),
                ev,
                r,
            ),
        ensures
            ({
                let n = before.page_count();
                let c: int = if (center as int) < n { center as int } else { n - 1 };
                let old_q = before.thumbnails();
                let q = after.thumbnails();
                let added = q.skip(old_q.len() as int);
                &&& q.len() >= old_q.len()
                &&& q.take(old_q.len() as int) == old_q
                &&& forall|p: usize| #[trigger] added.contains(p) <==> {
                    &&& (p as int) < n
                    &&& c - radius <= p <= c + radius
                    &&& !before.spec_thumbnail_cache().entries().contains_key(p)
                    &&& !old_q.contains(p)
                }
                &&& forall|i: int, j: int| 0 <= i < j < added.len() ==> added[i] < added[j]
            }),
    {
        before.law_worker_invariants();
        let n = before.page_count();
        let lo = thumbnail_start(center as int, radius as int, n);
        let hi = thumbnail_end(center as int, radius as int, n) + 1;
        let cached = before.spec_thumbnail_cache().entries();
        let old_q = before.thumbnails();
        lemma_pages_to_enqueue_exact(lo, hi, cached, old_q);
        let q = after.thumbnails();
        let s = pages_to_enqueue(lo, hi, cached, old_q);
        assert(q == old_q + s);
        assert(q.skip(old_q.len() as int) =~= s);
        assert(q.take(old_q.len() as int) =~= old_q);
    }

    /// Whether `input` answers what the loop asked for last, and keeps the loop's arithmetic
    /// within `usize`.
    pub open spec fn can_take(&self, input: WorkerInput<R>) -> bool {
        match self.spec_phase() {
            Phase::Start => input is Start,
            Phase::Listing => match input {
                WorkerInput::Listed(Ok(entries)) => entries@.len() + self.spec_options().prefetch_forward <= usize::MAX,
                WorkerInput::Listed(Err(_)) => true,
                _ => false,
            },
            Phase::Draining { .. } => match input {
                WorkerInput::Command(poll) => !(poll is TimedOut) && thumbnail_request_fits(poll, self.page_count()),
                _ => false,
            },
            Phase::Waiting { brief } => match input {
                WorkerInput::Command(poll) => !(poll is Empty) && (brief || !(poll is TimedOut))
                    && thumbnail_request_fits(poll, self.page_count()),
                _ => false,
            },
            Phase::Reading { job } => match input {
                WorkerInput::EntryRead(Ok(raw)) => self.spec_raw_cache().insert_fits(Self::job_page(job), raw.byte_count() as usize),
                WorkerInput::EntryRead(Err(_)) => true,
                _ => false,
            },
            Phase::Decoding { job } => match input {
                WorkerInput::Decoded(Ok(image), _) => match job {
                    Job::Display { page, .. } => self.spec_display_cache().insert_fits(page, image.rgba@.len() as usize),
                    Job::Thumbnail { page, .. } => self.spec_thumbnail_cache().insert_fits(page, image.rgba@.len() as usize),
                },
                WorkerInput::Decoded(Err(_), _) => true,
                _ => false,
            },
            Phase::Stopped => false,
        }
    }

    /// Asks the loop to make thumbnails of the pages within `radius` of `center` (both
    /// clamped to the comic), in ascending order, skipping pages whose thumbnail is cached or
    /// already queued.
    fn enqueue_thumbnails(&mut self, center: PageIndex, radius: usize, page_count: usize)
        requires
            old(self).wf(),
            page_count == 0 || clamp_page(center as int, page_count as int) + radius <= usize::MAX,
        ensures
            final(self).wf(),
            final(self).thumbnails() == if page_count == 0 {
                old(self).thumbnails()
            } else {
                old(self).thumbnails() + pages_to_enqueue(
                    thumbnail_start(center as int, radius as int, page_count as int),
                    thumbnail_end(center as int, radius as int, page_count as int) + 1,
                    old(self).thumbnail_cache.entries(),
                    old(self).thumbnails(),
                )
            },
            final(self).options == old(self).options,
            final(self).order == old(self).order,
            final(self).current == old(self).current,
            final(self).raw_cache == old(self).raw_cache,
            final(self).display_cache == old(self).display_cache,
            final(self).thumbnail_cache == old(self).thumbnail_cache,
            final(self).prefetch_queue == old(self).prefetch_queue,
            final(self).prefetches_since_thumbnail == old(self).prefetches_since_thumbnail,
            final(self).phase == old(self).phase,
    {
        if page_count == 0 {
            return;
        }
        let center = if center < page_count - 1 { center } else { page_count - 1 };
        let start = if center >= radius { center - radius } else { 0 };
        let end = if center + radius < page_count - 1 { center + radius } else { page_count - 1 };
        let ghost q0 = self.thumbnail_queue@;
        let ghost cached = self.thumbnail_cache.entries();
        let mut page = start;
        proof {
            lemma_pages_to_enqueue(start as int, start as int, cached, q0);
            assert(self.thumbnail_queue@ =~= q0 + pages_to_enqueue(start as int, page as int, cached, q0));
        }
        while page <= end
            invariant
                start <= page <= end + 1,
                end < page_count,
                old(self).wf(),
                self.thumbnail_cache == old(self).thumbnail_cache,
                cached == self.thumbnail_cache.entries(),
                q0 == old(self).thumbnail_queue@,
                self.thumbnail_queue@ == q0 + pages_to_enqueue(start as int, page as int, cached, q0),
                self.thumbnail_queue@.no_duplicates(),
                forall|p: usize| #[trigger] self.queued_thumbnails@.contains(p) <==> self.thumbnail_queue@.contains(p),
                self.options == old(self).options,
                self.order == old(self).order,
                self.current == old(self).current,
                self.raw_cache == old(self).raw_cache,
                self.display_cache == old(self).display_cache,
                self.prefetch_queue == old(self).prefetch_queue,
                self.prefetches_since_thumbnail == old(self).prefetches_since_thumbnail,
                self.phase == old(self).phase,
            decreases end + 1 - page,
        {
            let ghost before = self.thumbnail_queue@;
            proof {
                lemma_pages_to_enqueue(start as int, page as int, cached, q0);
            }
            let ghost added = pages_to_enqueue(start as int, page as int, cached, q0);
            let ghost in_added = added.contains(page);
            proof {
                if in_added {
                    let i = choose|i: int| 0 <= i < added.len() && added[i] == page;
                    assert(added[i] < page);
                }
                assert(before.contains(page) <==> q0.contains(page)) by {
                    if before.contains(page) {
                        let i = choose|i: int| 0 <= i < before.len() && before[i] == page;
                        if i >= q0.len() {
                            assert(added[i - q0.len()] == page);
                            assert(added[i - q0.len()] < page);
                        } else {
                            assert(q0[i] == page);
                        }
                    }
                    if q0.contains(page) {
                        let i = choose|i: int| 0 <= i < q0.len() && q0[i] == page;
                        assert(before[i] == page);
                    }
                }
            }
            if !self.thumbnail_cache.contains(page) && self.queued_thumbnails.insert(page) {
                self.thumbnail_queue.push_back(page);
                proof {
                    let after = self.thumbnail_queue@;
                    assert(after =~= q0 + pages_to_enqueue(start as int, page + 1, cached, q0));
                    assert(after.no_duplicates()) by {
                        assert forall|i: int, j: int| 0 <= i < after.len() && 0 <= j < after.len() && i != j implies after[i] != after[j] by {
                            if i < before.len() && j < before.len() {
                                assert(after[i] == before[i] && after[j] == before[j]);
                            } else if i < before.len() {
                                assert(after[i] == before[i]);
                                assert(before.contains(before[i]));
                            } else if j < before.len() {
                                assert(after[j] == before[j]);
                                assert(before.contains(before[j]));
                            }
                        }
                    }
                    assert forall|p: usize| #[trigger] self.queued_thumbnails@.contains(p) <==> after.contains(p) by {
                        crate::cache::lemma_contains_split(after);
                        assert(after.drop_last() == before);
                    }
                }
            } else {
                proof {
                    assert(self.thumbnail_queue@ =~= q0 + pages_to_enqueue(start as int, page + 1, cached, q0));
                }
            }
            page = page + 1;
        }
    }

    /// What `command` asks of the loop at page `current` of a comic of `page_count` pages;
    /// a thumbnail request also queues its thumbnails.
    fn apply_command(&mut self, command: ReaderCommand, current: PageIndex, page_count: usize) -> (r: Option<WindowResult>)
        requires
            old(self).wf(),
            0 <= current < page_count,
            command matches ReaderCommand::RequestThumbnails { center, radius } ==> clamp_page(center as int, page_count as int) + radius <= usize::MAX,
        ensures
            r == Some(command_control(command, current as int, page_count as int)),
            final(self).wf(),
            final(self).thumbnails() == match command {
                ReaderCommand::RequestThumbnails { center, radius } => old(self).thumbnails() + pages_to_enqueue(
                    thumbnail_start(center as int, radius as int, page_count as int),
                    thumbnail_end(center as int, radius as int, page_count as int) + 1,
                    old(self).thumbnail_cache.entries(),
                    old(self).thumbnails(),
                ),
                _ => old(self).thumbnails(),
            },
            !(command is RequestThumbnails) ==> final(self).queued_thumbnails == old(self).queued_thumbnails,
            !(command is RequestThumbnails) ==> final(self).thumbnail_queue == old(self).thumbnail_queue,
            final(self).options == old(self).options,
            final(self).order == old(self).order,
            final(self).current == old(self).current,
            final(self).raw_cache == old(self).raw_cache,
            final(self).display_cache == old(self).display_cache,
            final(self).thumbnail_cache == old(self).thumbnail_cache,
            final(self).prefetch_queue == old(self).prefetch_queue,
            final(self).prefetches_since_thumbnail == old(self).prefetches_since_thumbnail,
            final(self).phase == old(self).phase,
    {
        match command {
            ReaderCommand::GoTo(page) => Some(WindowResult::JumpTo(if page < page_count - 1 { page } else { page_count - 1 })),
            ReaderCommand::Next => Some(WindowResult::JumpTo(if current + 1 < page_count - 1 { current + 1 } else { page_count - 1 })),
            ReaderCommand::Previous => Some(WindowResult::JumpTo(current.saturating_sub(1))),
            ReaderCommand::RequestThumbnails { center, radius } => {
                self.enqueue_thumbnails(center, radius, page_count);
                Some(WindowResult::Continue)
            },
            ReaderCommand::Shutdown => Some(WindowResult::Shutdown),
        }
    }

    /// Refills the prefetch queue with the window around `current`, without `current`
    /// itself, and restarts the count of prefetches since the last thumbnail.
    fn rebuild_prefetch_queue(&mut self, current: PageIndex)
        requires
            old(self).wf(),
            current < old(self).order@.len(),
            old(self).order@.len() + old(self).options.prefetch_forward <= usize::MAX,
            !(old(self).phase is Reading || old(self).phase is Decoding),
        ensures
            final(self).wf(),
            final(self).prefetch_queue@ == without(
                window(
                    current as int,
                    old(self).options.prefetch_forward as int,
                    old(self).options.prefetch_backward as int,
                    old(self).order@.len() as int,
                ),
                current,
            ),
            final(self).prefetches_since_thumbnail == 0,
            final(self).options == old(self).options,
            final(self).order == old(self).order,
            final(self).current == old(self).current,
            final(self).raw_cache == old(self).raw_cache,
            final(self).display_cache == old(self).display_cache,
            final(self).thumbnail_cache == old(self).thumbnail_cache,
            final(self).thumbnail_queue == old(self).thumbnail_queue,
            final(self).queued_thumbnails == old(self).queued_thumbnails,
            final(self).phase == old(self).phase,
    {
        let pages = self.order.prioritized_window(current, self.options.prefetch_forward, self.options.prefetch_backward);
        let mut queue: VecDeque<PageIndex> = VecDeque::new();
        let n = pages.len();
        let mut i: usize = 0;
        while i < n
            invariant
                n == pages@.len(),
                i <= n,
                queue@ == without(pages@.take(i as int), current),
            decreases n - i,
        {
            assert(pages@.take(i + 1).drop_last() =~= pages@.take(i as int));
            if pages[i] != current {
                queue.push_back(pages[i]);
            }
            i = i + 1;
        }
        assert(pages@.take(n as int) =~= pages@);
        proof {
            let f = self.options.prefetch_forward as int;
            let b = self.options.prefetch_backward as int;
            let widest = if f >= b { f } else { b };
            lemma_window_steps_len(current as int, f, b, self.order@.len() as int, widest);
            assert(pages@[0] == current);
            assert(pages@.contains(current));
            lemma_without_shorter(pages@, current);
        }
        self.prefetch_queue = queue;
        self.prefetches_since_thumbnail = 0;
    }

    /// Whether the loop makes a thumbnail before the next prefetch.
    fn should_run_thumbnail_before_prefetch(&self) -> (r: bool)
        ensures
            r == thumbnail_first(self.thumbnails(), self.prefetches(), self.since_thumbnail()),
    {
        self.thumbnail_queue.len() != 0 && self.prefetch_queue.len() != 0 && self.prefetches_since_thumbnail >= 2
    }

    /// The event that reports the bytes each cache holds.
    fn cache_stats(&self) -> (r: ReaderEvent)
        requires
            self.wf(),
        ensures
            r == (ReaderEvent::CacheStats {
                raw_bytes: self.raw_cache.used() as usize,
                display_bytes: self.display_cache.used() as usize,
                thumbnail_bytes: self.thumbnail_cache.used() as usize,
            }),
    {
        ReaderEvent::CacheStats {
            raw_bytes: self.raw_cache.bytes_used(),
            display_bytes: self.display_cache.bytes_used(),
            thumbnail_bytes: self.thumbnail_cache.bytes_used(),
        }
    }

    /// Asks for the next command without waiting.
    fn loop_top(&mut self) -> (r: WorkerAction<R>)
        requires
            old(self).wf(),
            old(self).listed(),
            !(old(self).phase is Reading || old(self).phase is Decoding),
        ensures
            final(self).wf(),
            final(self).phase == (Phase::Draining { latest: None }),
            r is PollCommand,
            final(self).options == old(self).options,
            final(self).order == old(self).order,
            final(self).current == old(self).current,
            final(self).raw_cache == old(self).raw_cache,
            final(self).display_cache == old(self).display_cache,
            final(self).thumbnail_cache == old(self).thumbnail_cache,
            final(self).prefetch_queue == old(self).prefetch_queue,
            final(self).thumbnail_queue == old(self).thumbnail_queue,
            final(self).queued_thumbnails == old(self).queued_thumbnails,
            final(self).prefetches_since_thumbnail == old(self).prefetches_since_thumbnail,
    {
        self.phase = Phase::Draining { latest: None };
        WorkerAction::PollCommand
    }

    /// Makes `next` the current page: reports it and refills the prefetch queue around it.
    fn jump_to(&mut self, next: PageIndex, events: &mut Vec<ReaderEvent>)
        requires
            old(self).wf(),
            old(self).listed(),
            next < old(self).order@.len(),
            !(old(self).phase is Reading || old(self).phase is Decoding),
        ensures
            final(self).wf(),
            final(self).current == next,
            final(events)@ == old(events)@.push(ReaderEvent::CurrentPage { page_index: next }),
            final(self).prefetch_queue@ == without(
                window(
                    next as int,
                    old(self).options.prefetch_forward as int,
                    old(self).options.prefetch_backward as int,
                    old(self).order@.len() as int,
                ),
                next,
            ),
            final(self).prefetches_since_thumbnail == 0,
            final(self).options == old(self).options,
            final(self).order == old(self).order,
            final(self).raw_cache == old(self).raw_cache,
            final(self).display_cache == old(self).display_cache,
            final(self).thumbnail_cache == old(self).thumbnail_cache,
            final(self).thumbnail_queue == old(self).thumbnail_queue,
            final(self).queued_thumbnails == old(self).queued_thumbnails,
            final(self).phase == old(self).phase,
    {
        self.current = next;
        events.push(ReaderEvent::CurrentPage { page_index: next });
        self.rebuild_prefetch_queue(next);
    }

    /// Ends a job: reports its error, if any, and the caches' sizes, then moves on. After the
    /// current page's own decode the loop waits for a command (briefly when work is queued);
    /// after any other job it takes pending commands. A prefetch counts towards the next
    /// thumbnail; a thumbnail that ran ahead of the prefetches restarts that count.
    fn finish_job(&mut self, job: Job, error: Option<ReaderError>, events: &mut Vec<ReaderEvent>) -> (r: WorkerAction<R>)
        requires
            old(self).wf(),
            old(self).listed(),
            job matches Job::Display { prefetch: true, .. } ==> old(self).prefetches_since_thumbnail
                + old(self).prefetch_queue@.len() + 1 <= old(self).options.prefetch_forward
                + old(self).options.prefetch_backward,
        ensures
            final(self).wf(),
            final(self).listed(),
            final(self).options == old(self).options,
            final(self).order == old(self).order,
            final(self).current == old(self).current,
            final(self).raw_cache == old(self).raw_cache,
            final(self).display_cache == old(self).display_cache,
            final(self).thumbnail_cache == old(self).thumbnail_cache,
            final(self).prefetch_queue == old(self).prefetch_queue,
            final(self).thumbnail_queue == old(self).thumbnail_queue,
            final(self).queued_thumbnails == old(self).queued_thumbnails,
            finished_job(
                job,
                error,
                old(self).prefetches_since_thumbnail as int,
                old(self).prefetch_queue@.len() > 0 || old(self).thumbnail_queue@.len() > 0,
                stats_of(old(self).raw_cache.used(), old(self).display_cache.used(), old(self).thumbnail_cache.used()),
                old(events)@,
                final(events)@,
                final(self).phase,
                final(self).prefetches_since_thumbnail as int,
                r,
            ),
    {
        self.phase = Phase::Draining { latest: None };
        match error {
            Some(e) => {
                events.push(ReaderEvent::Error(e.message()));
                assert(events@.take(old(events)@.len() as int) =~= old(events)@);
            },
            None => {},
        }
        let ghost mid = events@;
        assert(reports_error(old(events)@, error, mid));
        match job {
            Job::Display { prefetch: false, .. } => {
                events.push(self.cache_stats());
                assert(events@.drop_last() =~= mid);
                let brief = self.prefetch_queue.len() != 0 || self.thumbnail_queue.len() != 0;
                self.phase = Phase::Waiting { brief };
                WorkerAction::WaitCommand { brief }
            },
            Job::Display { prefetch: true, .. } => {
                self.prefetches_since_thumbnail = self.prefetches_since_thumbnail + 1;
                events.push(self.cache_stats());
                assert(events@.drop_last() =~= mid);
                self.loop_top()
            },
            Job::Thumbnail { priority: true, .. } => {
                self.prefetches_since_thumbnail = 0;
                events.push(self.cache_stats());
                assert(events@.drop_last() =~= mid);
                self.loop_top()
            },
            Job::Thumbnail { priority: false, .. } => {
                events.push(self.cache_stats());
                assert(events@.drop_last() =~= mid);
                self.loop_top()
            },
        }
    }

    /// The stats event for the caches as they stand.
    pub open spec fn stats_now(&self) -> ReaderEvent {
        stats_of(self.spec_raw_cache().used(), self.spec_display_cache().used(), self.spec_thumbnail_cache().used())
    }

    /// How starting to decode `page` for display changes the loop (see `begin_display`).
    pub open spec fn display_begun(
        before: Self,
        after: Self,
        page: PageIndex,
        prefetch: bool,
        ev0: Seq<ReaderEvent>,
        ev1: Seq<ReaderEvent>,
        r: WorkerAction<R>,
    ) -> bool {
        &&& after.wf()
        &&& after.listed()
        &&& after.spec_options() == before.spec_options()
        &&& after.spec_order() == before.spec_order()
        &&& after.current_page() == before.current_page()
        &&& after.prefetches() == before.prefetches()
        &&& after.thumbnails() == before.thumbnails()
        &&& after.queued() == before.queued()
        &&& after.spec_thumbnail_cache() == before.spec_thumbnail_cache()
        &&& looked_up(before.spec_display_cache(), after.spec_display_cache(), page)
        &&& {
            let job = Job::Display { page, prefetch };
            let n = ev0.len();
            let queued = before.prefetches().len() > 0 || before.thumbnails().len() > 0;
            let since = before.since_thumbnail() as int;
            if before.spec_display_cache().entries().contains_key(page) {
                &&& after.spec_raw_cache() == before.spec_raw_cache()
                &&& ev1.len() > n
                &&& ev1.take(n as int) == ev0
                &&& is_decoded_event(ev1[n as int], page, before.spec_display_cache().entries()[page].value, true, 0)
                &&& finished_job(job, None, since, queued, after.stats_now(), ev1.take(n + 1 as int),
                    ev1, after.spec_phase(), after.since_thumbnail() as int, r)
            } else if page >= before.spec_order()@.len() {
                &&& after.spec_raw_cache() == before.spec_raw_cache()
                &&& finished_job(job, Some(ReaderError::PageOutOfRange { index: page, page_count: before.spec_order()@.len() as usize }),
                    since, queued, after.stats_now(), ev0, ev1, after.spec_phase(),
                    after.since_thumbnail() as int, r)
            } else {
                &&& ev1 == ev0.push(ReaderEvent::LoadingPage { page_index: page })
                &&& after.since_thumbnail() == before.since_thumbnail()
                &&& looked_up(before.spec_raw_cache(), after.spec_raw_cache(), page)
                &&& if before.spec_raw_cache().entries().contains_key(page) {
                    &&& after.spec_phase() == (Phase::Decoding { job })
                    &&& r matches WorkerAction::Decode { raw, start_clock } && start_clock
                        && vstd::pervasive::cloned(before.spec_raw_cache().entries()[page].value, raw)
                } else {
                    &&& after.spec_phase() == (Phase::Reading { job })
                    &&& r == WorkerAction::<R>::ReadEntry { entry_id: before.spec_order()@[page as int].entry_id, start_clock: true }
                }
            }
        }
    }

    /// Starts decoding `page` for display. A cached decode is reported at once and ends the
    /// job; a page outside the comic ends it with an error; otherwise the loading is
    /// reported and the clock starts, then the page's bytes come from the raw cache, or
    /// else from the archive.
    fn begin_display(&mut self, page: PageIndex, prefetch: bool, events: &mut Vec<ReaderEvent>) -> (r: WorkerAction<R>)
        requires
            old(self).wf(),
            old(self).listed(),
            !(old(self).phase is Reading || old(self).phase is Decoding),
            prefetch ==> old(self).prefetches_since_thumbnail + old(self).prefetch_queue@.len() + 1
                <= old(self).options.prefetch_forward + old(self).options.prefetch_backward,
        ensures
            Self::display_begun(*old(self), *final(self), page, prefetch, old(events)@, final(events)@, r),
    {
        let job = Job::Display { page, prefetch };
        match self.display_cache.get(page) {
            Some(image) => {
                let ghost n = events@.len();
                events.push(ReaderEvent::PageDecoded {
                    page_index: page,
                    image: Arc::new(image),
                    from_cache: true,
                    elapsed_ms: 0,
                });
                let ghost pushed = events@;
                assert(is_decoded_event(pushed[n as int], page, old(self).display_cache.entries()[page].value, true, 0));
                let r = self.finish_job(job, None, events);
                assert(events@.take(n + 1 as int) =~= pushed) by {
                    assert(events@.drop_last().take(n + 1 as int) =~= pushed);
                }
                assert(events@.take(n as int) =~= old(events)@) by {
                    assert(events@.drop_last().take(n as int) =~= pushed.take(n as int));
                }
                r
            },
            None => {
                if page >= self.order.len() {
                    let count = self.order.len();
                    return self.finish_job(job, Some(ReaderError::PageOutOfRange { index: page, page_count: count }), events);
                }
                let entry_id = match self.order.page(page) {
                    Some(descriptor) => descriptor.entry_id,
                    None => EntryId(0),
                };
                events.push(ReaderEvent::LoadingPage { page_index: page });
                match self.raw_cache.get(page) {
                    Some(raw) => {
                        self.phase = Phase::Decoding { job };
                        assert(looked_up(old(self).raw_cache, self.raw_cache, page));
                        assert(vstd::pervasive::cloned(old(self).raw_cache.entries()[page].value, raw));
                        WorkerAction::Decode { raw, start_clock: true }
                    },
                    None => {
                        self.phase = Phase::Reading { job };
                        WorkerAction::ReadEntry { entry_id, start_clock: true }
                    },
                }
            },
        }
    }

    /// How starting to make the thumbnail of `page` changes the loop (see `begin_thumbnail`).
    pub open spec fn thumbnail_begun(
        before: Self,
        after: Self,
        page: PageIndex,
        priority: bool,
        ev0: Seq<ReaderEvent>,
        ev1: Seq<ReaderEvent>,
        r: WorkerAction<R>,
    ) -> bool {
        &&& after.wf()
        &&& after.listed()
        &&& after.spec_options() == before.spec_options()
        &&& after.spec_order() == before.spec_order()
        &&& after.current_page() == before.current_page()
        &&& after.prefetches() == before.prefetches()
        &&& after.thumbnails() == before.thumbnails()
        &&& after.queued() == before.queued()
        &&& looked_up(before.spec_thumbnail_cache(), after.spec_thumbnail_cache(), page)
        &&& {
            let job = Job::Thumbnail { page, priority };
            let n = ev0.len();
            let queued = before.prefetches().len() > 0 || before.thumbnails().len() > 0;
            let since = before.since_thumbnail() as int;
            let edge = before.spec_options().thumbnail_edge;
            if before.spec_thumbnail_cache().entries().contains_key(page) {
                &&& after.spec_raw_cache() == before.spec_raw_cache()
                &&& after.spec_display_cache() == before.spec_display_cache()
                &&& ev1.len() > n
                &&& ev1.take(n as int) == ev0
                &&& is_thumbnail_event(ev1[n as int], page, before.spec_thumbnail_cache().entries()[page].value)
                &&& finished_job(job, None, since, queued, after.stats_now(), ev1.take(n + 1 as int),
                    ev1, after.spec_phase(), after.since_thumbnail() as int, r)
            } else {
                &&& looked_up(before.spec_display_cache(), after.spec_display_cache(), page)
                &&& if before.spec_display_cache().entries().contains_key(page) {
                    &&& after.spec_raw_cache() == before.spec_raw_cache()
                    &&& ev1 == ev0
                    &&& after.since_thumbnail() == before.since_thumbnail()
                    &&& after.spec_phase() == (Phase::Decoding { job })
                    &&& r matches WorkerAction::ThumbnailFromDecoded { image, max_edge } && max_edge == edge
                        && crate::types::same_image(image, before.spec_display_cache().entries()[page].value)
                } else if page >= before.spec_order()@.len() {
                    &&& after.spec_raw_cache() == before.spec_raw_cache()
                    &&& finished_job(job, Some(ReaderError::PageOutOfRange { index: page, page_count: before.spec_order()@.len() as usize }),
                        since, queued, after.stats_now(), ev0, ev1, after.spec_phase(),
                        after.since_thumbnail() as int, r)
                } else {
                    &&& ev1 == ev0
                    &&& after.since_thumbnail() == before.since_thumbnail()
                    &&& looked_up(before.spec_raw_cache(), after.spec_raw_cache(), page)
                    &&& if before.spec_raw_cache().entries().contains_key(page) {
                        &&& after.spec_phase() == (Phase::Decoding { job })
                        &&& r matches WorkerAction::Thumbnail { raw, max_edge } && max_edge == edge
                            && vstd::pervasive::cloned(before.spec_raw_cache().entries()[page].value, raw)
                    } else {
                        &&& after.spec_phase() == (Phase::Reading { job })
                        &&& r == WorkerAction::<R>::ReadEntry { entry_id: before.spec_order()@[page as int].entry_id, start_clock: false }
                    }
                }
            }
        }
    }

    /// Starts making the thumbnail of `page`. A cached thumbnail is reported at once and
    /// ends the job; otherwise it is made from the decoded page when that is cached, else
    /// from the page's bytes (cached or read from the archive); a page outside the comic
    /// ends the job with an error.
    fn begin_thumbnail(&mut self, page: PageIndex, priority: bool, events: &mut Vec<ReaderEvent>) -> (r: WorkerAction<R>)
        requires
            old(self).wf(),
            old(self).listed(),
            !(old(self).phase is Reading || old(self).phase is Decoding),
        ensures
            Self::thumbnail_begun(*old(self), *final(self), page, priority, old(events)@, final(events)@, r),
    {
        let job = Job::Thumbnail { page, priority };
        match self.thumbnail_cache.get(page) {
            Some(thumbnail) => {
                let ghost n = events@.len();
                events.push(ReaderEvent::ThumbnailDecoded { page_index: page, image: Arc::new(thumbnail) });
                let ghost pushed = events@;
                assert(is_thumbnail_event(pushed[n as int], page, old(self).thumbnail_cache.entries()[page].value));
                let r = self.finish_job(job, None, events);
                assert(events@.take(n + 1 as int) =~= pushed) by {
                    assert(events@.drop_last().take(n + 1 as int) =~= pushed);
                }
                assert(events@.take(n as int) =~= old(events)@) by {
                    assert(events@.drop_last().take(n as int) =~= pushed.take(n as int));
                }
                r
            },
            None => {
                match self.display_cache.get(page) {
                    Some(decoded) => {
                        self.phase = Phase::Decoding { job };
                        assert(crate::types::same_image(decoded, old(self).display_cache.entries()[page].value));
                        WorkerAction::ThumbnailFromDecoded { image: decoded, max_edge: self.options.thumbnail_edge }
                    },
                    None => {
                        if page >= self.order.len() {
                            let count = self.order.len();
                            return self.finish_job(job, Some(ReaderError::PageOutOfRange { index: page, page_count: count }), events);
                        }
                        let entry_id = match self.order.page(page) {
                            Some(descriptor) => descriptor.entry_id,
                            None => EntryId(0),
                        };
                        match self.raw_cache.get(page) {
                            Some(raw) => {
                                self.phase = Phase::Decoding { job };
                                assert(vstd::pervasive::cloned(old(self).raw_cache.entries()[page].value, raw));
                                WorkerAction::Thumbnail { raw, max_edge: self.options.thumbnail_edge }
                            },
                            None => {
                                self.phase = Phase::Reading { job };
                                WorkerAction::ReadEntry { entry_id, start_clock: false }
                            },
                        }
                    },
                }
            },
        }
    }

    /// `mid` is `before` with its work queues set to `prefetches` and `thumbnails`.
    pub open spec fn requeued(before: Self, mid: Self, prefetches: Seq<PageIndex>, thumbnails: Seq<PageIndex>) -> bool {
        &&& mid.prefetches() == prefetches
        &&& mid.thumbnails() == thumbnails
        &&& mid.spec_options() == before.spec_options()
        &&& mid.spec_order() == before.spec_order()
        &&& mid.current_page() == before.current_page()
        &&& mid.spec_raw_cache() == before.spec_raw_cache()
        &&& mid.spec_display_cache() == before.spec_display_cache()
        &&& mid.spec_thumbnail_cache() == before.spec_thumbnail_cache()
        &&& mid.since_thumbnail() == before.since_thumbnail()
    }

    /// How the loop picks background work when no command came: the next thumbnail when it
    /// runs ahead of the prefetches, else the next prefetch (skipped when it is the current
    /// page or already decoded), else the next thumbnail, else nothing; then it takes pending
    /// commands again.
    pub open spec fn background_done(before: Self, after: Self, ev0: Seq<ReaderEvent>, ev1: Seq<ReaderEvent>, r: WorkerAction<R>) -> bool {
        let thumbs = before.thumbnails();
        let pre = before.prefetches();
        if thumbnail_first(thumbs, pre, before.since_thumbnail() as int) {
            exists|mid: Self|
                Self::requeued(before, mid, pre, thumbs.drop_first()) && #[trigger] Self::thumbnail_begun(
                    mid,
                    after,
                    thumbs[0],
                    true,
                    ev0,
                    ev1,
                    r,
                )
        } else if pre.len() > 0 {
            if pre[0] != before.current_page() && !before.spec_display_cache().entries().contains_key(pre[0]) {
                exists|mid: Self|
                    Self::requeued(before, mid, pre.drop_first(), thumbs) && #[trigger] Self::display_begun(
                        mid,
                        after,
                        pre[0],
                        true,
                        ev0,
                        ev1,
                        r,
                    )
            } else {
                &&& Self::requeued(before, after, pre.drop_first(), thumbs)
                &&& after.queued() == before.queued()
                &&& after.spec_phase() == (Phase::Draining { latest: None })
                &&& ev1 == ev0
                &&& r is PollCommand
            }
        } else if thumbs.len() > 0 {
            exists|mid: Self|
                Self::requeued(before, mid, pre, thumbs.drop_first()) && #[trigger] Self::thumbnail_begun(
                    mid,
                    after,
                    thumbs[0],
                    false,
                    ev0,
                    ev1,
                    r,
                )
        } else {
            &&& Self::requeued(before, after, pre, thumbs)
            &&& after.queued() == before.queued()
            &&& after.spec_phase() == (Phase::Draining { latest: None })
            &&& ev1 == ev0
            &&& r is PollCommand
        }
    }

    /// Takes the next thumbnail off its queue.
    fn pop_thumbnail(&mut self) -> (r: Option<PageIndex>)
        requires
            old(self).wf(),
        ensures
            final(self).wf(),
            Self::requeued(*old(self), *final(self), old(self).prefetch_queue@,
                if old(self).thumbnail_queue@.len() > 0 { old(self).thumbnail_queue@.drop_first() } else { old(self).thumbnail_queue@ }),
            final(self).phase == old(self).phase,
            old(self).thumbnail_queue@.len() == 0 ==> final(self).queued_thumbnails == old(self).queued_thumbnails,
            r == if old(self).thumbnail_queue@.len() > 0 { Some(old(self).thumbnail_queue@[0]) } else { None::<PageIndex> },
    {
        let popped = self.thumbnail_queue.pop_front();
        match popped {
            Some(page) => {
                self.queued_thumbnails.remove(&page);
                proof {
                    let q0 = old(self).thumbnail_queue@;
                    let q = self.thumbnail_queue@;
                    assert(q =~= q0.drop_first());
                    assert(q.no_duplicates()) by {
                        assert forall|i: int, j: int| 0 <= i < q.len() && 0 <= j < q.len() && i != j implies q[i] != q[j] by {
                            assert(q0[i + 1] == q[i] && q0[j + 1] == q[j]);
                        }
                    }
                    assert forall|p: usize| #[trigger] self.queued_thumbnails@.contains(p) <==> q.contains(p) by {
                        if q.contains(p) {
                            let j = choose|j: int| 0 <= j < q.len() && q[j] == p;
                            assert(q0[j + 1] == p);
                            assert(q0.contains(p));
                            assert(p != page);
                        }
                        if self.queued_thumbnails@.contains(p) {
                            assert(q0.contains(p));
                            let j = choose|j: int| 0 <= j < q0.len() && q0[j] == p;
                            assert(j != 0);
                            assert(q[j - 1] == p);
                        }
                    }
                }
            },
            None => {},
        }
        popped
    }

    /// Takes the next page off the prefetch queue.
    fn pop_prefetch(&mut self) -> (r: Option<PageIndex>)
        requires
            old(self).wf(),
        ensures
            final(self).wf(),
            Self::requeued(*old(self), *final(self),
                if old(self).prefetch_queue@.len() > 0 { old(self).prefetch_queue@.drop_first() } else { old(self).prefetch_queue@ },
                old(self).thumbnail_queue@),
            final(self).queued_thumbnails == old(self).queued_thumbnails,
            final(self).phase == old(self).phase,
            r == if old(self).prefetch_queue@.len() > 0 { Some(old(self).prefetch_queue@[0]) } else { None::<PageIndex> },
            old(self).prefetch_queue@.len() > 0 ==> final(self).prefetches_since_thumbnail + final(self).prefetch_queue@.len() + 1
                <= final(self).options.prefetch_forward + final(self).options.prefetch_backward,
    {
        let popped = self.prefetch_queue.pop_front();
        proof {
            if old(self).prefetch_queue@.len() > 0 {
                assert(self.prefetch_queue@ =~= old(self).prefetch_queue@.drop_first());
            }
        }
        popped
    }

    /// Runs the next piece of background work, as `background_done` describes.
    fn run_background(&mut self, events: &mut Vec<ReaderEvent>) -> (r: WorkerAction<R>)
        requires
            old(self).wf(),
            old(self).listed(),
            !(old(self).phase is Reading || old(self).phase is Decoding),
        ensures
            Self::background_done(*old(self), *final(self), old(events)@, final(events)@, r),
    {
        if self.should_run_thumbnail_before_prefetch() {
            let popped = self.pop_thumbnail();
            match popped {
                Some(page) => {
                    let ghost mid = *self;
                    let r = self.begin_thumbnail(page, true, events);
                    assert(Self::thumbnail_begun(mid, *self, page, true, old(events)@, events@, r));
                    return r;
                },
                None => {
                    assert(false);
                    return self.loop_top();
                },
            }
        }
        let next = self.pop_prefetch();
        match next {
            Some(page) => {
                if page != self.current && !self.display_cache.contains(page) {
                    let ghost mid = *self;
                    let r = self.begin_display(page, true, events);
                    assert(Self::display_begun(mid, *self, page, true, old(events)@, events@, r));
                    return r;
                }
                return self.loop_top();
            },
            None => {},
        }
        let popped = self.pop_thumbnail();
        match popped {
            Some(page) => {
                let ghost mid = *self;
                assert(Self::requeued(*old(self), mid, old(self).prefetch_queue@, old(self).thumbnail_queue@.drop_first()));
                let r = self.begin_thumbnail(page, false, events);
                assert(Self::thumbnail_begun(mid, *self, page, false, old(events)@, events@, r));
                r
            },
            None => self.loop_top(),
        }
    }

    /// `after` is `before` in every part but its phase.
    pub open spec fn only_phase_changed(before: Self, after: Self) -> bool {
        &&& Self::requeued(before, after, before.prefetches(), before.thumbnails())
        &&& after.queued() == before.queued()
    }

    /// The loop makes `next` its current page: it reports it, refills the prefetch queue
    /// around it and takes pending commands again.
    pub open spec fn jumped(before: Self, after: Self, next: PageIndex, ev: Seq<ReaderEvent>, r: WorkerAction<R>) -> bool {
        &&& ev == seq![ReaderEvent::CurrentPage { page_index: next }]
        &&& after.current_page() == next
        &&& after.prefetches() == without(
            window(next as int, before.spec_options().prefetch_forward as int, before.spec_options().prefetch_backward as int, before.spec_order()@.len() as int),
            next,
        )
        &&& after.since_thumbnail() == 0
        &&& after.spec_options() == before.spec_options()
        &&& after.spec_order() == before.spec_order()
        &&& after.spec_raw_cache() == before.spec_raw_cache()
        &&& after.spec_display_cache() == before.spec_display_cache()
        &&& after.spec_thumbnail_cache() == before.spec_thumbnail_cache()
        &&& after.thumbnails() == before.thumbnails()
        &&& after.queued() == before.queued()
        &&& after.spec_phase() == (Phase::Draining { latest: None })
        &&& r is PollCommand
    }

    /// The loop ends: it reports that it finished and stops.
    pub open spec fn finished(before: Self, after: Self, ev: Seq<ReaderEvent>, r: WorkerAction<R>) -> bool {
        &&& Self::only_phase_changed(before, after)
        &&& after.spec_phase() == Phase::Stopped
        &&& ev == seq![ReaderEvent::Finished]
        &&& r is Stop
    }

    /// The loop queues the thumbnails a request asks for and takes pending commands again,
    /// with `latest` as the page the last jump named.
    pub open spec fn thumbnails_requested(
        before: Self,
        after: Self,
        command: ReaderCommand,
        latest: Option<PageIndex>,
        ev: Seq<ReaderEvent>,
        r: WorkerAction<R>,
    ) -> bool {
        let count = before.spec_order()@.len() as int;
        &&& ev == Seq::<ReaderEvent>::empty()
        &&& r is PollCommand
        &&& after.spec_phase() == (Phase::Draining { latest })
        &&& after.thumbnails() == match command {
            ReaderCommand::RequestThumbnails { center, radius } => before.thumbnails() + pages_to_enqueue(
                thumbnail_start(center as int, radius as int, count),
                thumbnail_end(center as int, radius as int, count) + 1,
                before.spec_thumbnail_cache().entries(),
                before.thumbnails(),
            ),
            _ => before.thumbnails(),
        }
        &&& Self::requeued(before, after, before.prefetches(), after.thumbnails())
    }

    /// What one step of the loop does with `input`: the events it sends, in order, and the
    /// operation it asks for next.
    pub open spec fn stepped(before: Self, after: Self, input: WorkerInput<R>, ev: Seq<ReaderEvent>, r: WorkerAction<R>) -> bool {
        let count = before.spec_order()@.len() as int;
        let f = before.spec_options().prefetch_forward as int;
        let b = before.spec_options().prefetch_backward as int;
        let queued = before.prefetches().len() > 0 || before.thumbnails().len() > 0;
        let since = before.since_thumbnail() as int;
        &&& after.wf()
        &&& match (before.spec_phase(), input) {
            (Phase::Start, _) => {
                &&& Self::only_phase_changed(before, after)
                &&& after.spec_phase() == Phase::Listing
                &&& ev == Seq::<ReaderEvent>::empty()
                &&& r is ListEntries
            },
            (Phase::Listing, WorkerInput::Listed(Err(e))) => {
                &&& Self::only_phase_changed(before, after)
                &&& after.spec_phase() == Phase::Stopped
                &&& ev.len() == 1
                &&& is_error_event(ev[0], crate::types::error_message(e))
                &&& r is Stop
            },
            (Phase::Listing, WorkerInput::Listed(Ok(entries))) => {
                &&& crate::page_order::describes_pages(entries@, after.spec_order()@)
                &&& (crate::page_order::natural_order_is_total_on(entries@) ==> crate::page_order::in_natural_order(after.spec_order()@))
                &&& after.spec_options() == before.spec_options()
                &&& after.spec_raw_cache() == before.spec_raw_cache()
                &&& after.spec_display_cache() == before.spec_display_cache()
                &&& after.spec_thumbnail_cache() == before.spec_thumbnail_cache()
                &&& after.thumbnails() == before.thumbnails()
                &&& after.queued() == before.queued()
                &&& if after.spec_order()@.len() == 0 {
                    &&& after.prefetches() == before.prefetches()
                    &&& after.spec_phase() == Phase::Stopped
                    &&& ev.len() == 1
                    &&& is_error_event(ev[0], crate::types::error_message(ReaderError::EmptyComic))
                    &&& r is Stop
                } else {
                    &&& after.current_page() == 0
                    &&& ev == seq![
                        ReaderEvent::PageCount { pages: after.spec_order()@.len() as usize },
                        ReaderEvent::CurrentPage { page_index: 0 },
                    ]
                    &&& after.prefetches() == without(window(0, f, b, after.spec_order()@.len() as int), 0)
                    &&& after.since_thumbnail() == 0
                    &&& after.spec_phase() == (Phase::Draining { latest: None })
                    &&& r is PollCommand
                }
            },
            (Phase::Draining { latest }, WorkerInput::Command(poll)) => match poll {
                CommandPoll::Received(command) => match command_control(command, before.current_page() as int, count) {
                    WindowResult::Shutdown => Self::finished(before, after, ev, r),
                    WindowResult::JumpTo(next) => {
                        &&& Self::only_phase_changed(before, after)
                        &&& after.spec_phase() == (Phase::Draining { latest: Some(next) })
                        &&& ev == Seq::<ReaderEvent>::empty()
                        &&& r is PollCommand
                    },
                    WindowResult::Continue => Self::thumbnails_requested(before, after, command, latest, ev, r),
                },
                CommandPoll::Disconnected => Self::finished(before, after, ev, r),
                _ => match latest {
                    Some(next) => Self::jumped(before, after, next, ev, r),
                    None => Self::display_begun(before, after, before.current_page(), false, Seq::empty(), ev, r),
                },
            },
            (Phase::Waiting { brief }, WorkerInput::Command(poll)) => match poll {
                CommandPoll::Received(command) => match command_control(command, before.current_page() as int, count) {
                    WindowResult::Shutdown => Self::finished(before, after, ev, r),
                    WindowResult::JumpTo(next) => Self::jumped(before, after, next, ev, r),
                    WindowResult::Continue => Self::thumbnails_requested(before, after, command, None, ev, r),
                },
                CommandPoll::Disconnected => if brief {
                    Self::background_done(before, after, Seq::empty(), ev, r)
                } else {
                    Self::finished(before, after, ev, r)
                },
                _ => Self::background_done(before, after, Seq::empty(), ev, r),
            },
            (Phase::Reading { job }, WorkerInput::EntryRead(Ok(raw))) => {
                let page = Self::job_page(job);
                let len = raw.byte_count() as usize;
                &&& exists|v: R| #[trigger] vstd::pervasive::cloned(raw, v) && (after.spec_raw_cache().recency(), after.spec_raw_cache().entries())
                    == crate::cache::after_insert(before.spec_raw_cache().recency(), before.spec_raw_cache().entries(), page,
                        CacheItem { value: v, byte_len: len }, before.spec_raw_cache().budget())
                &&& after.spec_raw_cache().budget() == before.spec_raw_cache().budget()
                &&& after.spec_display_cache() == before.spec_display_cache()
                &&& after.spec_thumbnail_cache() == before.spec_thumbnail_cache()
                &&& after.spec_options() == before.spec_options()
                &&& after.spec_order() == before.spec_order()
                &&& after.current_page() == before.current_page()
                &&& after.prefetches() == before.prefetches()
                &&& after.thumbnails() == before.thumbnails()
                &&& after.queued() == before.queued()
                &&& after.since_thumbnail() == before.since_thumbnail()
                &&& after.spec_phase() == (Phase::Decoding { job })
                &&& ev == Seq::<ReaderEvent>::empty()
                &&& match job {
                    Job::Display { .. } => r == WorkerAction::Decode { raw, start_clock: false },
                    Job::Thumbnail { .. } => r == WorkerAction::Thumbnail { raw, max_edge: before.spec_options().thumbnail_edge },
                }
            },
            (Phase::Reading { job }, WorkerInput::EntryRead(Err(e))) => {
                &&& after.spec_options() == before.spec_options()
                &&& after.spec_order() == before.spec_order()
                &&& after.current_page() == before.current_page()
                &&& after.spec_raw_cache() == before.spec_raw_cache()
                &&& after.spec_display_cache() == before.spec_display_cache()
                &&& after.spec_thumbnail_cache() == before.spec_thumbnail_cache()
                &&& after.prefetches() == before.prefetches()
                &&& after.thumbnails() == before.thumbnails()
                &&& after.queued() == before.queued()
                &&& finished_job(job, Some(e), since, queued, after.stats_now(), Seq::empty(), ev, after.spec_phase(),
                    after.since_thumbnail() as int, r)
            },
            (Phase::Decoding { job }, WorkerInput::Decoded(Ok(image), elapsed)) => {
                let page = Self::job_page(job);
                &&& after.spec_options() == before.spec_options()
                &&& after.spec_order() == before.spec_order()
                &&& after.current_page() == before.current_page()
                &&& after.spec_raw_cache() == before.spec_raw_cache()
                &&& after.prefetches() == before.prefetches()
                &&& after.thumbnails() == before.thumbnails()
                &&& after.queued() == before.queued()
                &&& ev.len() > 0
                &&& finished_job(job, None, since, queued, after.stats_now(), ev.take(1), ev, after.spec_phase(),
                    after.since_thumbnail() as int, r)
                &&& match job {
                    Job::Display { .. } => {
                        &&& is_decoded_event(ev[0], page, image, false, elapsed)
                        &&& after.spec_thumbnail_cache() == before.spec_thumbnail_cache()
                        &&& after.spec_display_cache().budget() == before.spec_display_cache().budget()
                        &&& exists|v: DecodedImage| #[trigger] crate::types::same_image(v, image) && (after.spec_display_cache().recency(), after.spec_display_cache().entries())
                            == crate::cache::after_insert(before.spec_display_cache().recency(), before.spec_display_cache().entries(), page,
                                CacheItem { value: v, byte_len: image.rgba@.len() as usize }, before.spec_display_cache().budget())
                    },
                    Job::Thumbnail { .. } => {
                        &&& is_thumbnail_event(ev[0], page, image)
                        &&& after.spec_display_cache() == before.spec_display_cache()
                        &&& after.spec_thumbnail_cache().budget() == before.spec_thumbnail_cache().budget()
                        &&& exists|v: DecodedImage| #[trigger] crate::types::same_image(v, image) && (after.spec_thumbnail_cache().recency(), after.spec_thumbnail_cache().entries())
                            == crate::cache::after_insert(before.spec_thumbnail_cache().recency(), before.spec_thumbnail_cache().entries(), page,
                                CacheItem { value: v, byte_len: image.rgba@.len() as usize }, before.spec_thumbnail_cache().budget())
                    },
                }
            },
            (Phase::Decoding { job }, WorkerInput::Decoded(Err(e), _)) => {
                &&& after.spec_options() == before.spec_options()
                &&& after.spec_order() == before.spec_order()
                &&& after.current_page() == before.current_page()
                &&& after.spec_raw_cache() == before.spec_raw_cache()
                &&& after.spec_display_cache() == before.spec_display_cache()
                &&& after.spec_thumbnail_cache() == before.spec_thumbnail_cache()
                &&& after.prefetches() == before.prefetches()
                &&& after.thumbnails() == before.thumbnails()
                &&& after.queued() == before.queued()
                &&& finished_job(job, Some(e), since, queued, after.stats_now(), Seq::empty(), ev, after.spec_phase(),
                    after.since_thumbnail() as int, r)
            },
            _ => false,
        }
    }

    fn take_listing(&mut self, input: WorkerInput<R>, events: &mut Vec<ReaderEvent>) -> (r: WorkerAction<R>)
        requires
            old(self).wf(),
            old(self).phase is Listing,
            old(self).can_take(input),
            old(events)@ == Seq::<ReaderEvent>::empty(),
        ensures
            Self::stepped(*old(self), *final(self), input, final(events)@, r),
    {
        match input {
            WorkerInput::Listed(Ok(entries)) => {
                let order = PageOrder::from_entries(entries);
                if order.is_empty() {
                    self.order = order;
                    self.phase = Phase::Stopped;
                    events.push(ReaderEvent::Error(ReaderError::EmptyComic.message()));
                    WorkerAction::Stop
                } else {
                    let count = order.len();
                    self.order = order;
                    self.current = 0;
                    events.push(ReaderEvent::PageCount { pages: count });
                    events.push(ReaderEvent::CurrentPage { page_index: 0 });
                    self.rebuild_prefetch_queue(0);
                    self.phase = Phase::Draining { latest: None };
                    let r = WorkerAction::PollCommand;
                    assert(events@ =~= seq![
                        ReaderEvent::PageCount { pages: count },
                        ReaderEvent::CurrentPage { page_index: 0 },
                    ]);
                    r
                }
            },
            WorkerInput::Listed(Err(e)) => {
                events.push(ReaderEvent::Error(e.message()));
                self.phase = Phase::Stopped;
                WorkerAction::Stop
            },
            _ => WorkerAction::Stop,
        }
    }

    fn stop(&mut self, events: &mut Vec<ReaderEvent>) -> (r: WorkerAction<R>)
        requires
            old(self).wf(),
            old(events)@ == Seq::<ReaderEvent>::empty(),
        ensures
            Self::finished(*old(self), *final(self), final(events)@, r),
            final(self).wf(),
    {
        events.push(ReaderEvent::Finished);
        self.phase = Phase::Stopped;
        assert(events@ =~= seq![ReaderEvent::Finished]);
        WorkerAction::Stop
    }

    fn take_command(&mut self, input: WorkerInput<R>, events: &mut Vec<ReaderEvent>) -> (r: WorkerAction<R>)
        requires
            old(self).wf(),
            old(self).phase is Draining || old(self).phase is Waiting,
            old(self).can_take(input),
            old(events)@ == Seq::<ReaderEvent>::empty(),
        ensures
            Self::stepped(*old(self), *final(self), input, final(events)@, r),
    {
        let poll = match input {
            WorkerInput::Command(poll) => poll,
            _ => CommandPoll::Empty,
        };
        let draining = match self.phase {
            Phase::Draining { .. } => true,
            _ => false,
        };
        let latest = match self.phase {
            Phase::Draining { latest } => latest,
            _ => None,
        };
        let brief = match self.phase {
            Phase::Waiting { brief } => brief,
            _ => false,
        };
        match poll {
            CommandPoll::Received(command) => {
                let count = self.order.len();
                let current = self.current;
                let control = self.apply_command(command, current, count);
                proof {
                    law_jumps_land_in_comic(command, current as int, count as int);
                }
                match control {
                    Some(WindowResult::JumpTo(next)) => {
                        if draining {
                            self.phase = Phase::Draining { latest: Some(next) };
                            WorkerAction::PollCommand
                        } else {
                            self.jump_to(next, events);
                            self.loop_top()
                        }
                    },
                    Some(WindowResult::Continue) => {
                        if draining {
                            self.phase = Phase::Draining { latest };
                            WorkerAction::PollCommand
                        } else {
                            self.loop_top()
                        }
                    },
                    _ => {
                        assert(command is Shutdown);
                        self.stop(events)
                    },
                }
            },
            CommandPoll::Disconnected => {
                if draining || !brief {
                    self.stop(events)
                } else {
                    self.run_background(events)
                }
            },
            _ => {
                if draining {
                    match latest {
                        Some(next) => {
                            self.jump_to(next, events);
                            self.loop_top()
                        },
                        None => {
                            let current = self.current;
                            self.begin_display(current, false, events)
                        },
                    }
                } else {
                    self.run_background(events)
                }
            },
        }
    }

    fn take_read(&mut self, input: WorkerInput<R>, events: &mut Vec<ReaderEvent>) -> (r: WorkerAction<R>)
        requires
            old(self).wf(),
            old(self).phase is Reading,
            old(self).can_take(input),
            old(events)@ == Seq::<ReaderEvent>::empty(),
        ensures
            Self::stepped(*old(self), *final(self), input, final(events)@, r),
    {
        let job = match self.phase {
            Phase::Reading { job } => job,
            _ => Job::Display { page: 0, prefetch: false },
        };
        let page = match job {
            Job::Display { page, .. } => page,
            Job::Thumbnail { page, .. } => page,
        };
        match input {
            WorkerInput::EntryRead(Ok(raw)) => {
                let len = raw.byte_len();
                let copy = raw.clone();
                let ghost v = copy;
                self.raw_cache.insert(page, copy, len);
                self.phase = Phase::Decoding { job };
                assert(vstd::pervasive::cloned(raw, v));
                match job {
                    Job::Display { .. } => WorkerAction::Decode { raw, start_clock: false },
                    Job::Thumbnail { .. } => WorkerAction::Thumbnail { raw, max_edge: self.options.thumbnail_edge },
                }
            },
            WorkerInput::EntryRead(Err(e)) => self.finish_job(job, Some(e), events),
            _ => WorkerAction::Stop,
        }
    }

    fn take_decoded(&mut self, input: WorkerInput<R>, events: &mut Vec<ReaderEvent>) -> (r: WorkerAction<R>)
        requires
            old(self).wf(),
            old(self).phase is Decoding,
            old(self).can_take(input),
            old(events)@ == Seq::<ReaderEvent>::empty(),
        ensures
            Self::stepped(*old(self), *final(self), input, final(events)@, r),
    {
        let job = match self.phase {
            Phase::Decoding { job } => job,
            _ => Job::Display { page: 0, prefetch: false },
        };
        match input {
            WorkerInput::Decoded(Ok(image), elapsed) => {
                let len = image.byte_len();
                let copy = image.clone();
                let ghost v = copy;
                match job {
                    Job::Display { page, .. } => {
                        self.display_cache.insert(page, copy, len);
                        events.push(ReaderEvent::PageDecoded {
                            page_index: page,
                            image: Arc::new(image),
                            from_cache: false,
                            elapsed_ms: elapsed,
                        });
                        let ghost first = events@;
                        assert(is_decoded_event(first[0], page, image, false, elapsed));
                        let r = self.finish_job(job, None, events);
                        assert(events@.take(1) =~= first) by {
                            assert(events@.drop_last().take(1) =~= first);
                        }
                        assert(events@[0] == first[0]);
                        assert(crate::types::same_image(v, image));
                        assert(exists|v: DecodedImage| #[trigger] crate::types::same_image(v, image) && (self.display_cache.recency(), self.display_cache.entries())
                            == crate::cache::after_insert(old(self).display_cache.recency(), old(self).display_cache.entries(), page,
                                CacheItem { value: v, byte_len: image.rgba@.len() as usize }, old(self).display_cache.budget()));
                        r
                    },
                    Job::Thumbnail { page, .. } => {
                        self.thumbnail_cache.insert(page, copy, len);
                        events.push(ReaderEvent::ThumbnailDecoded { page_index: page, image: Arc::new(image) });
                        let ghost first = events@;
                        assert(is_thumbnail_event(first[0], page, image));
                        let r = self.finish_job(job, None, events);
                        assert(events@.take(1) =~= first) by {
                            assert(events@.drop_last().take(1) =~= first);
                        }
                        assert(events@[0] == first[0]);
                        assert(crate::types::same_image(v, image));
                        r
                    },
                }
            },
            WorkerInput::Decoded(Err(e), _) => self.finish_job(job, Some(e), events),
            _ => WorkerAction::Stop,
        }
    }

    /// Whether `step` takes `input` now: it answers the operation asked for last, and the
    /// loop's arithmetic on it stays within `usize`.
    pub fn can_step(&self, input: &WorkerInput<R>) -> (r: bool)
        requires
            self.wf(),
        ensures
            r == self.can_take(*input),
    {
        match self.phase {
            Phase::Start => match input {
                WorkerInput::Start => true,
                _ => false,
            },
            Phase::Listing => match input {
                WorkerInput::Listed(Ok(entries)) => entries.len() <= usize::MAX - self.options.prefetch_forward,
                WorkerInput::Listed(Err(_)) => true,
                _ => false,
            },
            Phase::Draining { .. } => match input {
                WorkerInput::Command(poll) => match poll {
                    CommandPoll::TimedOut => false,
                    _ => self.thumbnail_request_ok(poll),
                },
                _ => false,
            },
            Phase::Waiting { brief } => match input {
                WorkerInput::Command(poll) => match poll {
                    CommandPoll::Empty => false,
                    CommandPoll::TimedOut => brief,
                    _ => self.thumbnail_request_ok(poll),
                },
                _ => false,
            },
            Phase::Reading { job } => match input {
                WorkerInput::EntryRead(Ok(raw)) => {
                    let page = match job {
                        Job::Display { page, .. } => page,
                        Job::Thumbnail { page, .. } => page,
                    };
                    self.raw_cache.fits_insert(page, raw.byte_len())
                },
                WorkerInput::EntryRead(Err(_)) => true,
                _ => false,
            },
            Phase::Decoding { job } => match input {
                WorkerInput::Decoded(Ok(image), _) => match job {
                    Job::Display { page, .. } => self.display_cache.fits_insert(page, image.byte_len()),
                    Job::Thumbnail { page, .. } => self.thumbnail_cache.fits_insert(page, image.byte_len()),
                },
                WorkerInput::Decoded(Err(_), _) => true,
                _ => false,
            },
            Phase::Stopped => false,
        }
    }

    fn thumbnail_request_ok(&self, poll: &CommandPoll) -> (r: bool)
        requires
            self.wf(),
            self.listed(),
        ensures
            r == thumbnail_request_fits(*poll, self.page_count()),
    {
        match poll {
            CommandPoll::Received(ReaderCommand::RequestThumbnails { center, radius }) => {
                let count = self.order.len();
                let clamped = if *center < count - 1 { *center } else { count - 1 };
                *radius <= usize::MAX - clamped
            },
            _ => true,
        }
    }

    /// Whether the loop has ended.
    pub fn is_stopped(&self) -> (r: bool)
        ensures
            r == (self.spec_phase() is Stopped),
    {
        match self.phase {
            Phase::Stopped => true,
            _ => false,
        }
    }

    /// Hands the loop the result of the operation it asked for last; it answers with the
    /// events to send and the next operation, as `stepped` describes.
    pub fn step(&mut self, input: WorkerInput<R>) -> (out: WorkerStep<R>)
        requires
            old(self).wf(),
            old(self).can_take(input),
        ensures
            Self::stepped(*old(self), *final(self), input, out.events@, out.action),
            final(self).wf(),
    {
        let mut events: Vec<ReaderEvent> = Vec::new();
        let action = match self.phase {
            Phase::Start => {
                self.phase = Phase::Listing;
                WorkerAction::ListEntries
            },
            Phase::Listing => self.take_listing(input, &mut events),
            Phase::Draining { .. } => self.take_command(input, &mut events),
            Phase::Waiting { .. } => self.take_command(input, &mut events),
            Phase::Reading { .. } => self.take_read(input, &mut events),
            Phase::Decoding { .. } => self.take_decoded(input, &mut events),
            Phase::Stopped => WorkerAction::Stop,
        };
        WorkerStep { events, action }
    }

    /// A reader's loop that has not started, with empty caches of the given budgets.
    pub fn new(options: ReaderOptions) -> (r: Self)
        requires
            options.prefetch_forward + options.prefetch_backward < usize::MAX,
        ensures
            r.wf(),
            r.spec_phase() == Phase::Start,
            r.spec_options() == options,
            r.spec_raw_cache().budget() == options.raw_cache_bytes,
            r.spec_display_cache().budget() == options.display_cache_bytes,
            r.spec_thumbnail_cache().budget() == options.thumbnail_cache_bytes,
            r.spec_raw_cache().used() == 0,
            r.spec_display_cache().used() == 0,
            r.spec_thumbnail_cache().used() == 0,
            r.prefetches() == Seq::<PageIndex>::empty(),
            r.thumbnails() == Seq::<PageIndex>::empty(),
            r.since_thumbnail() == 0,
    {
        let raw_cache = LruPageCache::new(options.raw_cache_bytes);
        let display_cache = LruPageCache::new(options.display_cache_bytes);
        let thumbnail_cache = LruPageCache::new(options.thumbnail_cache_bytes);
        let order = PageOrder::from_entries(Vec::new());
        ReaderWorker {
            options,
            order,
            current: 0,
            raw_cache,
            display_cache,
            thumbnail_cache,
            prefetch_queue: VecDeque::new(),
            thumbnail_queue: VecDeque::new(),
            queued_thumbnails: HashSet::new(),
            prefetches_since_thumbnail: 0,
            phase: Phase::Start,
        }
    }
}

} // verus!
