use std::sync::Arc;

use comic_reader::types::DecodedImage;
use comic_reader::types::ReaderCommand;
use comic_reader::types::ReaderError;
use comic_reader::types::ReaderEvent;
use comic_reader::view::keyboard_command;
use comic_reader::view::opens_file_dialog;
use comic_reader::view::page_from_number;
use comic_reader::view::should_keep_texture;
use comic_reader::view::texture_window;
use comic_reader::view::thumbnail_request;
use comic_reader::view::thumbnail_strip;
use comic_reader::view::top_bar;
use comic_reader::view::ReaderView;
use comic_reader::view::ThumbnailStrip;
use comic_reader::view::THUMB_RADIUS;

#[test]
fn textures_are_kept_for_the_current_page_and_neighbours() {
    assert!(should_keep_texture(5, 4));
    assert!(should_keep_texture(5, 5));
    assert!(should_keep_texture(5, 6));
    assert!(!should_keep_texture(5, 7));
    assert!(!should_keep_texture(5, 3));
    assert_eq!(texture_window(0, 10), (0, 1));
    assert_eq!(texture_window(5, 10), (4, 6));
    assert_eq!(texture_window(9, 10), (8, 9));
    assert_eq!(texture_window(0, 0), (0, 0));
}

#[test]
fn thumbnail_requests_are_not_repeated() {
    assert_eq!(thumbnail_request(true, 10, true, 3, None), Some((3, THUMB_RADIUS)));
    assert_eq!(thumbnail_request(true, 10, true, 3, Some((3, THUMB_RADIUS))), None);
    assert_eq!(thumbnail_request(true, 10, true, 4, Some((3, THUMB_RADIUS))), Some((4, THUMB_RADIUS)));
    assert_eq!(thumbnail_request(true, 10, false, 3, None), None);
    assert_eq!(thumbnail_request(false, 10, true, 3, None), None);
    assert_eq!(thumbnail_request(true, 0, true, 3, None), None);
}

#[test]
fn thumbnail_strip_spans_the_radius_with_jump_buttons() {
    assert_eq!(
        thumbnail_strip(0, 5),
        ThumbnailStrip { start: 0, end: 4, back: None, forward: None }
    );
    assert_eq!(
        thumbnail_strip(20, 100),
        ThumbnailStrip { start: 12, end: 28, back: Some(4), forward: Some(36) }
    );
    assert_eq!(
        thumbnail_strip(95, 100),
        ThumbnailStrip { start: 87, end: 99, back: Some(79), forward: None }
    );
    assert_eq!(
        thumbnail_strip(10, 30),
        ThumbnailStrip { start: 2, end: 18, back: Some(0), forward: Some(26) }
    );
}

#[test]
fn top_bar_enables_turning_where_pages_exist() {
    let bar = top_bar(true, 3, 0);
    assert!(bar.can_read && !bar.previous_enabled && bar.next_enabled);
    assert_eq!(bar.shown_page, 1);
    let bar = top_bar(true, 3, 2);
    assert!(bar.previous_enabled && !bar.next_enabled);
    let bar = top_bar(false, 3, 1);
    assert!(!bar.can_read && !bar.previous_enabled && !bar.next_enabled);
    assert_eq!(page_from_number(5), 4);
    assert_eq!(page_from_number(0), 0);
}

#[test]
fn arrow_keys_turn_pages() {
    assert!(matches!(keyboard_command(true, 5, false, true, false, 2), Some(ReaderCommand::Previous)));
    assert!(matches!(keyboard_command(true, 5, false, false, true, 2), Some(ReaderCommand::Next)));
    assert!(matches!(keyboard_command(true, 5, false, true, true, 0), Some(ReaderCommand::Next)));
    assert!(keyboard_command(true, 5, false, false, true, 4).is_none());
    assert!(keyboard_command(true, 5, true, true, true, 2).is_none());
    assert!(keyboard_command(false, 5, false, true, true, 2).is_none());
}

#[test]
fn view_status_follows_reader_events() {
    let mut view = ReaderView::new();
    assert_eq!(view.status, "打开一个 CBZ/ZIP 漫画或图片文件夹开始阅读");
    view.opening("/c.cbz");
    assert_eq!(view.status, "正在打开 /c.cbz");
    view.on_event(&ReaderEvent::PageCount { pages: 12 });
    assert_eq!(view.page_count, 12);
    assert_eq!(view.status, "共 12 页");
    view.on_event(&ReaderEvent::CurrentPage { page_index: 2 });
    assert_eq!(view.current_page, 2);
    assert_eq!(view.status, "第 3 / 12 页");
    view.on_event(&ReaderEvent::LoadingPage { page_index: 5 });
    assert_eq!(view.status, "第 3 / 12 页");
    view.on_event(&ReaderEvent::LoadingPage { page_index: 2 });
    assert_eq!(view.status, "正在加载第 3 页");
    let image = Arc::new(DecodedImage { width: 1, height: 1, rgba: vec![0; 4] });
    view.on_event(&ReaderEvent::PageDecoded { page_index: 2, image: image.clone(), from_cache: false, elapsed_ms: 42 });
    assert_eq!(view.status, "第 3 / 12 页，解码耗时 42ms");
    view.on_event(&ReaderEvent::PageDecoded { page_index: 2, image, from_cache: true, elapsed_ms: 0 });
    assert_eq!(view.status, "第 3 / 12 页，缓存耗时 0ms");
    view.on_event(&ReaderEvent::Finished);
    assert_eq!(view.status, "第 3 / 12 页，缓存耗时 0ms");
    view.on_event(&ReaderEvent::Error("broken".to_string()));
    assert_eq!(view.status, "broken");
    view.open_failed(&ReaderError::Archive("nope".to_string()));
    assert_eq!(view.status, "archive error: nope");
}

#[test]
fn position_counts_at_least_one_page() {
    let mut view = ReaderView::new();
    view.on_event(&ReaderEvent::CurrentPage { page_index: 0 });
    assert_eq!(view.status, "第 1 / 1 页");
}

#[test]
fn view_keeps_the_last_reported_count_and_page() {
    let mut view = ReaderView::new();
    for event in [
        ReaderEvent::PageCount { pages: 7 },
        ReaderEvent::CurrentPage { page_index: 2 },
        ReaderEvent::LoadingPage { page_index: 3 },
        ReaderEvent::CurrentPage { page_index: 5 },
        ReaderEvent::Finished,
    ] {
        view.on_event(&event);
    }
    assert_eq!((view.page_count, view.current_page), (7, 5));
}

#[test]
fn the_o_key_opens_the_file_dialog() {
    assert!(opens_file_dialog(true, false, false));
    assert!(!opens_file_dialog(true, true, false));
    assert!(!opens_file_dialog(true, false, true));
    assert!(!opens_file_dialog(false, false, false));
}
