use vstd::prelude::*;
use vstd::string::StringExecFns;

use crate::text::decimal;
use crate::text::decimal_string;
use crate::text::decimal_string_wide;
use crate::types::ReaderCommand;
use crate::types::ReaderError;
use crate::types::ReaderEvent;

verus! {

/// How many pages on each side of the current page the thumbnail strip shows.
pub const THUMB_RADIUS: usize = 8;

/// `a - b`, or 0 when `b` is larger.
pub open spec fn minus(a: int, b: int) -> int {
    if a >= b {
        a - b
    } else {
        0
    }
}

/// The smaller of `a` and `b`.
pub open spec fn smaller(a: int, b: int) -> int {
    if a <= b {
        a
    } else {
        b
    }
}

/// Whether the view keeps the texture of `page` while `current` is shown: the current page
/// and its two neighbours.
pub fn should_keep_texture(current: usize, page: usize) -> (r: bool)
    ensures
        r == (current - page <= 1 && page - current <= 1),
{
    if current >= page {
        current - page <= 1
    } else {
        page - current <= 1
    }
}

/// The pages whose textures the view prepares around `current`, as an inclusive range:
/// the page before, the page itself and the page after, within the comic. Empty (start
/// after end) when the comic has no page.
pub fn texture_window(current: usize, page_count: usize) -> (r: (usize, usize))
    requires
        current < usize::MAX,
    ensures
        r.0 == minus(current as int, 1),
        r.1 == smaller(current + 1, minus(page_count as int, 1)),
{
    let start = current.saturating_sub(1);
    let last = page_count.saturating_sub(1);
    let end = if current + 1 < last { current + 1 } else { last };
    (start, end)
}

/// The thumbnail request the view sends: thumbnails within `THUMB_RADIUS` of the current
/// page, when a comic is open, has pages and shows its strip, unless that very request was
/// the last one sent.
pub fn thumbnail_request(has_reader: bool, page_count: usize, show_thumbnails: bool, current: usize, last: Option<(usize, usize)>) -> (r: Option<(usize, usize)>)
    ensures
        r == if has_reader && page_count > 0 && show_thumbnails && last != Some((current, THUMB_RADIUS)) {
            Some((current, THUMB_RADIUS))
        } else {
            None::<(usize, usize)>
        },
{
    if !has_reader || page_count == 0 || !show_thumbnails {
        return None;
    }
    let request = (current, THUMB_RADIUS);
    match last {
        Some((page, radius)) => {
            if page == current && radius == THUMB_RADIUS {
                None
            } else {
                Some(request)
            }
        },
        None => Some(request),
    }
}

/// What the thumbnail strip shows: pages `start..=end`, a button back to `back` when pages
/// come before, and a button on to `forward` when pages come after.
#[derive(Debug, Clone, Copy, PartialEq, Eq, Structural)]
pub struct ThumbnailStrip {
    pub start: usize,
    pub end: usize,
    pub back: Option<usize>,
    pub forward: Option<usize>,
}

/// The thumbnail strip around `current` in a comic of `page_count` pages: `THUMB_RADIUS`
/// pages on each side within the comic; the back button jumps `THUMB_RADIUS` pages before the
/// first shown page (at least to the first page), the forward button `THUMB_RADIUS` pages
/// after the last shown one (at most to the last page).
pub fn thumbnail_strip(current: usize, page_count: usize) -> (r: ThumbnailStrip)
    requires
        page_count > 0,
        current + 2 * THUMB_RADIUS <= usize::MAX,
    ensures
        r.start == minus(current as int, THUMB_RADIUS as int),
        r.end == smaller(current + THUMB_RADIUS, page_count - 1),
        r.back == if r.start > 0 {
            Some(minus(r.start as int, THUMB_RADIUS as int) as usize)
        } else {
            None::<usize>
        },
        r.forward == if r.end + 1 < page_count {
            Some(smaller(r.end + THUMB_RADIUS, page_count - 1) as usize)
        } else {
            None::<usize>
        },
{
    let start = current.saturating_sub(THUMB_RADIUS);
    let end = if current + THUMB_RADIUS < page_count - 1 { current + THUMB_RADIUS } else { page_count - 1 };
    let back = if start > 0 { Some(start.saturating_sub(THUMB_RADIUS)) } else { None };
    let forward = if end + 1 < page_count {
        Some(if end + THUMB_RADIUS < page_count - 1 { end + THUMB_RADIUS } else { page_count - 1 })
    } else {
        None
    };
    ThumbnailStrip { start, end, back, forward }
}

/// The page-turning buttons of the top bar and the page number it shows.
#[derive(Debug, Clone, Copy, PartialEq, Eq, Structural)]
pub struct TopBar {
    pub can_read: bool,
    pub previous_enabled: bool,
    pub next_enabled: bool,
    pub shown_page: usize,
}

/// The top bar for the current page: turning back needs a page before, turning on a page
/// after; the page number counts from 1.
pub fn top_bar(has_reader: bool, page_count: usize, current: usize) -> (r: TopBar)
    requires
        current < usize::MAX,
    ensures
        r.can_read == (has_reader && page_count > 0),
        r.previous_enabled == (r.can_read && current > 0),
        r.next_enabled == (r.can_read && current + 1 < page_count),
        r.shown_page == current + 1,
{
    let can_read = has_reader && page_count > 0;
    TopBar {
        can_read,
        previous_enabled: can_read && current > 0,
        next_enabled: can_read && current + 1 < page_count,
        shown_page: current + 1,
    }
}

/// The page that the page-number field asks for when it shows `shown` (counting from 1).
pub fn page_from_number(shown: usize) -> (r: usize)
    ensures
        r == minus(shown as int, 1),
{
    shown.saturating_sub(1)
}

/// The command the arrow keys give: left turns back when a page comes before, right turns on
/// when a page comes after (left wins); nothing while no comic with pages is open or a text
/// field takes the keyboard.
pub fn keyboard_command(
    has_reader: bool,
    page_count: usize,
    text_input_active: bool,
    left_pressed: bool,
    right_pressed: bool,
    current: usize,
) -> (r: Option<ReaderCommand>)
    requires
        current < usize::MAX,
    ensures
        !has_reader || page_count == 0 || text_input_active ==> r is None,
        has_reader && page_count > 0 && !text_input_active ==> r == if left_pressed && current > 0 {
            Some(ReaderCommand::Previous)
        } else if right_pressed && current + 1 < page_count {
            Some(ReaderCommand::Next)
        } else {
            None::<ReaderCommand>
        },
{
    if !has_reader || page_count == 0 || text_input_active {
        return None;
    }
    if left_pressed && current > 0 {
        Some(ReaderCommand::Previous)
    } else if right_pressed && current + 1 < page_count {
        Some(ReaderCommand::Next)
    } else {
        None
    }
}

/// Whether the O key opens the file dialog for choosing a comic: when it is pressed, no text
/// field takes the keyboard and the dialog is not open already. It works whether or not a
/// comic is open.
pub fn opens_file_dialog(o_pressed: bool, text_input_active: bool, dialog_open: bool) -> (r: bool)
    ensures
        r == (o_pressed && !text_input_active && !dialog_open),
{
    o_pressed && !text_input_active && !dialog_open
}

/// "第 {page} / {count} 页": the position of the shown page, counting from 1.
pub open spec fn position_text(page: nat, count: nat) -> Seq<char> {
    "第 "@ + decimal(page) + " / "@ + decimal(count) + " 页"@
}

/// What the view shows about the comic: its page count, the current page and a status line.
pub struct ReaderView {
    pub page_count: usize,
    pub current_page: usize,
    pub status: String,
}

impl ReaderView {
    /// The view before any comic is opened, inviting the reader to open one.
    pub fn new() -> (r: Self)
        ensures
            r.page_count == 0,
            r.current_page == 0,
            r.status@ == "打开一个 CBZ/ZIP 漫画或图片文件夹开始阅读"@,
    {
        ReaderView { page_count: 0, current_page: 0, status: String::from_str("打开一个 CBZ/ZIP 漫画或图片文件夹开始阅读") }
    }

    /// The view while the comic at `path` opens.
    pub fn opening(&mut self, path: &str)
        ensures
            final(self).page_count == 0,
            final(self).current_page == 0,
            final(self).status@ == "正在打开 "@ + path@,
    {
        self.current_page = 0;
        self.page_count = 0;
        let mut status = String::from_str("正在打开 ");
        status.append(path);
        self.status = status;
    }

    /// The view when the comic could not be opened.
    pub fn open_failed(&mut self, error: &ReaderError)
        ensures
            final(self).page_count == old(self).page_count,
            final(self).current_page == old(self).current_page,
            final(self).status@ == crate::types::error_message(*error),
    {
        self.status = error.message();
    }

    fn position(page_index: usize, page_count: usize) -> (r: String)
        requires
            page_index < usize::MAX,
        ensures
            r@ == position_text((page_index + 1) as nat, if page_count >= 1 { page_count as nat } else { 1 }),
    {
        let count = if page_count >= 1 { page_count } else { 1 };
        let mut text = String::from_str("第 ");
        let page = decimal_string(page_index + 1);
        text.append(page.as_str());
        text.append(" / ");
        let total = decimal_string(count);
        text.append(total.as_str());
        text.append(" 页");
        text
    }

    /// Updates the view for a reader event: the page count, the current page (and its
    /// position), loading and decode reports about the current page, and errors.
    pub fn on_event(&mut self, event: &ReaderEvent)
        requires
            event matches ReaderEvent::CurrentPage { page_index } ==> page_index < usize::MAX,
            event matches ReaderEvent::LoadingPage { page_index } ==> page_index < usize::MAX,
            event matches ReaderEvent::PageDecoded { page_index, .. } ==> page_index < usize::MAX,
        ensures
            ({
                let shown_count: nat = if old(self).page_count >= 1 { old(self).page_count as nat } else { 1 };
                match *event {
                    ReaderEvent::PageCount { pages } => {
                        &&& final(self).page_count == pages
                        &&& final(self).current_page == old(self).current_page
                        &&& final(self).status@ == "共 "@ + decimal(pages as nat) + " 页"@
                    },
                    ReaderEvent::CurrentPage { page_index } => {
                        &&& final(self).page_count == old(self).page_count
                        &&& final(self).current_page == page_index
                        &&& final(self).status@ == position_text((page_index + 1) as nat, shown_count)
                    },
                    ReaderEvent::LoadingPage { page_index } => {
                        &&& final(self).page_count == old(self).page_count
                        &&& final(self).current_page == old(self).current_page
                        &&& final(self).status@ == if page_index == old(self).current_page {
                            "正在加载第 "@ + decimal((page_index + 1) as nat) + " 页"@
                        } else {
                            old(self).status@
                        }
                    },
                    ReaderEvent::PageDecoded { page_index, from_cache, elapsed_ms, .. } => {
                        &&& final(self).page_count == old(self).page_count
                        &&& final(self).current_page == old(self).current_page
                        &&& final(self).status@ == if page_index == old(self).current_page {
                            position_text((page_index + 1) as nat, shown_count) + "，"@ + (if from_cache {
                                "缓存"@
                            } else {
                                "解码"@
                            }) + "耗时 "@ + decimal(elapsed_ms as nat) + "ms"@
                        } else {
                            old(self).status@
                        }
                    },
                    ReaderEvent::Error(text) => {
                        &&& final(self).page_count == old(self).page_count
                        &&& final(self).current_page == old(self).current_page
                        &&& final(self).status@ == text@
                    },
                    _ => {
                        &&& final(self).page_count == old(self).page_count
                        &&& final(self).current_page == old(self).current_page
                        &&& final(self).status@ == old(self).status@
                    },
                }
            }),
    {
        match event {
            ReaderEvent::PageCount { pages } => {
                self.page_count = *pages;
                let mut status = String::from_str("共 ");
                let number = decimal_string(*pages);
                status.append(number.as_str());
                status.append(" 页");
                self.status = status;
            },
            ReaderEvent::CurrentPage { page_index } => {
                self.current_page = *page_index;
                self.status = Self::position(*page_index, self.page_count);
            },
            ReaderEvent::LoadingPage { page_index } => {
                if *page_index == self.current_page {
                    let mut status = String::from_str("正在加载第 ");
                    let number = decimal_string(*page_index + 1);
                    status.append(number.as_str());
                    status.append(" 页");
                    self.status = status;
                }
            },
            ReaderEvent::PageDecoded { page_index, from_cache, elapsed_ms, .. } => {
                if *page_index == self.current_page {
                    let mut status = Self::position(*page_index, self.page_count);
                    status.append("，");
                    if *from_cache {
                        status.append("缓存");
                    } else {
                        status.append("解码");
                    }
                    status.append("耗时 ");
                    let number = decimal_string_wide(*elapsed_ms);
                    status.append(number.as_str());
                    status.append("ms");
                    self.status = status;
                }
            },
            ReaderEvent::Error(text) => {
                self.status = text.clone();
            },
            _ => {},
        }
    }
}

/// What `event` does to the view's page count and current page, as `on_event` states it:
/// a page count report sets the count, a current page report sets the current page, and
/// nothing else changes either.
pub open spec fn view_counts_step(before: ReaderView, after: ReaderView, event: ReaderEvent) -> bool {
    &&& after.page_count == (match event {
        ReaderEvent::PageCount { pages } => pages,
        _ => before.page_count,
    })
    &&& after.current_page == (match event {
        ReaderEvent::CurrentPage { page_index } => page_index,
        _ => before.current_page,
    })
}

/// The page count that the last page count report among `events` gives, or `initial`.
pub open spec fn last_page_count(events: Seq<ReaderEvent>, initial: usize) -> usize
    decreases events.len(),
{
    if events.len() == 0 {
        initial
    } else if let ReaderEvent::PageCount { pages } = events.last() {
        pages
    } else {
        last_page_count(events.drop_last(), initial)
    }
}

/// The page that the last current page report among `events` names, or `initial`.
pub open spec fn last_current_page(events: Seq<ReaderEvent>, initial: usize) -> usize
    decreases events.len(),
{
    if events.len() == 0 {
        initial
    } else if let ReaderEvent::CurrentPage { page_index } = events.last() {
        page_index
    } else {
        last_current_page(events.drop_last(), initial)
    }
}

/// Law: after the view takes a run of events, one by one, its page count and current page
/// are those of the last page count and current page reports among them (unchanged where
/// there is none).
pub proof fn law_view_follows_last_reports(views: Seq<ReaderView>, events: Seq<ReaderEvent>)
    requires
        views.len() == events.len() + 1,
        forall|i: int| 0 <= i < events.len() ==> #[trigger] view_counts_step(views[i], views[i + 1], events[i]),
    ensures
        views.last().page_count == last_page_count(events, views[0].page_count),
        views.last().current_page == last_current_page(events, views[0].current_page),
    decreases events.len(),
{
    if events.len() > 0 {
        let n = events.len() - 1;
        assert forall|i: int| 0 <= i < events.drop_last().len() implies #[trigger] view_counts_step(
            views.drop_last()[i],
            views.drop_last()[i + 1],
            events.drop_last()[i],
        ) by {
            assert(view_counts_step(views[i], views[i + 1], events[i]));
        }
        law_view_follows_last_reports(views.drop_last(), events.drop_last());
        assert(view_counts_step(views[n], views[n + 1], events[n]));
        assert(views.drop_last().last() == views[n]);
    }
}

/// Page `page` is the current page `current` or one of its neighbours: `should_keep_texture`.
pub open spec fn near_current(current: usize, page: usize) -> bool {
    current - page <= 1 && page - current <= 1
}

/// What the window does to its set of pages with textures on one event: it uploads the
/// pages `uploaded`, then keeps only those that `should_keep_texture` keeps for `current`.
pub open spec fn textures_after(before: Set<usize>, uploaded: Set<usize>, current: usize) -> Set<usize> {
    before.union(uploaded).filter(|page: usize| near_current(current, page))
}

/// Law: the window keeps textures only for the current page and its neighbours. Along a
/// run of events, where each event moves the view as `on_event` does and then uploads some
/// pages and trims the textures with `should_keep_texture`, every set of pages with textures
/// holds only pages within one page of the view's current page, whatever was uploaded.
pub proof fn law_textures_stay_near_current(
    views: Seq<ReaderView>,
    events: Seq<ReaderEvent>,
    uploads: Seq<Set<usize>>,
    textures: Seq<Set<usize>>,
)
    requires
        views.len() == events.len() + 1,
        uploads.len() == events.len(),
        textures.len() == events.len() + 1,
        forall|p: usize| #[trigger] textures[0].contains(p) ==> near_current(views[0].current_page, p),
        forall|i: int| 0 <= i < events.len() ==> #[trigger] view_counts_step(views[i], views[i + 1], events[i]),
        forall|i: int|
            0 <= i < events.len() ==> #[trigger] textures[i + 1] == textures_after(textures[i], uploads[i], views[i + 1].current_page),
    ensures
        forall|i: int, p: usize| 0 <= i < textures.len() && #[trigger] textures[i].contains(p) ==> near_current(views[i].current_page, p),
{
    assert forall|i: int, p: usize| 0 <= i < textures.len() && #[trigger] textures[i].contains(p) implies near_current(views[i].current_page, p) by {
        if i > 0 {
            let j = i - 1;
            assert(textures[j + 1] == textures_after(textures[j], uploads[j], views[j + 1].current_page));
        }
    }
}

} // verus!
