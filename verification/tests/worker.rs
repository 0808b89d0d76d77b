use comic_reader::types::ArchiveEntry;
use comic_reader::types::DecodedImage;
use comic_reader::types::EntryId;
use comic_reader::types::ReaderCommand;
use comic_reader::types::ReaderError;
use comic_reader::types::ReaderEvent;
use comic_reader::types::ReaderOptions;
use comic_reader::worker::CommandPoll;
use comic_reader::worker::ReaderWorker;
use comic_reader::worker::WorkerAction;
use comic_reader::worker::WorkerInput;
use comic_reader::worker::WorkerStep;

fn entries(names: &[&str]) -> Vec<ArchiveEntry> {
    names
        .iter()
        .enumerate()
        .map(|(i, name)| ArchiveEntry {
            id: EntryId(i),
            name: name.to_string(),
            uncompressed_size: 1,
        })
        .collect()
}

fn image(tag: u8) -> DecodedImage {
    DecodedImage {
        width: 1,
        height: 1,
        rgba: vec![tag, tag, tag, 255],
    }
}

fn step(worker: &mut ReaderWorker<Vec<u8>>, input: WorkerInput<Vec<u8>>) -> WorkerStep<Vec<u8>> {
    assert!(worker.can_step(&input));
    worker.step(input)
}

fn listed(names: &[&str], options: ReaderOptions) -> ReaderWorker<Vec<u8>> {
    let mut worker = ReaderWorker::new(options);
    let out = step(&mut worker, WorkerInput::Start);
    assert!(out.events.is_empty());
    assert!(matches!(out.action, WorkerAction::ListEntries));
    let out = step(&mut worker, WorkerInput::Listed(Ok(entries(names))));
    assert!(matches!(out.action, WorkerAction::PollCommand));
    worker
}

fn small_options() -> ReaderOptions {
    ReaderOptions {
        prefetch_forward: 1,
        prefetch_backward: 1,
        ..ReaderOptions::default()
    }
}

#[test]
fn default_options_match_the_documented_budgets() {
    let options = ReaderOptions::default();
    assert_eq!(options.raw_cache_bytes, 256 * 1024 * 1024);
    assert_eq!(options.display_cache_bytes, 512 * 1024 * 1024);
    assert_eq!(options.thumbnail_cache_bytes, 64 * 1024 * 1024);
    assert_eq!(options.prefetch_forward, 4);
    assert_eq!(options.prefetch_backward, 4);
    assert_eq!(options.thumbnail_edge, 256);
}

#[test]
fn listing_reports_page_count_and_first_page() {
    let mut worker: ReaderWorker<Vec<u8>> = ReaderWorker::new(ReaderOptions::default());
    step(&mut worker, WorkerInput::Start);
    let out = step(
        &mut worker,
        WorkerInput::Listed(Ok(entries(&["b.jpg", "a.txt", "a.png"]))),
    );
    assert_eq!(out.events.len(), 2);
    assert!(matches!(out.events[0], ReaderEvent::PageCount { pages: 2 }));
    assert!(matches!(out.events[1], ReaderEvent::CurrentPage { page_index: 0 }));
    assert!(matches!(out.action, WorkerAction::PollCommand));
}

#[test]
fn empty_comic_is_reported_and_stops() {
    let mut worker: ReaderWorker<Vec<u8>> = ReaderWorker::new(ReaderOptions::default());
    step(&mut worker, WorkerInput::Start);
    let out = step(&mut worker, WorkerInput::Listed(Ok(entries(&["notes.txt"]))));
    assert_eq!(out.events.len(), 1);
    match &out.events[0] {
        ReaderEvent::Error(text) => assert_eq!(text, "comic contains no supported image pages"),
        other => panic!("unexpected event {other:?}"),
    }
    assert!(matches!(out.action, WorkerAction::Stop));
    assert!(worker.is_stopped());
}

#[test]
fn listing_error_is_reported_and_stops() {
    let mut worker: ReaderWorker<Vec<u8>> = ReaderWorker::new(ReaderOptions::default());
    step(&mut worker, WorkerInput::Start);
    let out = step(
        &mut worker,
        WorkerInput::Listed(Err(ReaderError::Archive("boom".to_string()))),
    );
    match &out.events[0] {
        ReaderEvent::Error(text) => assert_eq!(text, "archive error: boom"),
        other => panic!("unexpected event {other:?}"),
    }
    assert!(matches!(out.action, WorkerAction::Stop));
}

#[test]
fn current_page_is_decoded_first_then_prefetched_neighbours() {
    let mut worker = listed(&["p0.jpg", "p1.jpg", "p2.jpg"], small_options());

    // No command pending: the current page is loaded.
    let out = step(&mut worker, WorkerInput::Command(CommandPoll::Empty));
    assert_eq!(out.events.len(), 1);
    assert!(matches!(out.events[0], ReaderEvent::LoadingPage { page_index: 0 }));
    match out.action {
        WorkerAction::ReadEntry { entry_id, start_clock } => {
            assert_eq!(entry_id, EntryId(0));
            assert!(start_clock);
        }
        _ => panic!("expected a read"),
    }

    let out = step(&mut worker, WorkerInput::EntryRead(Ok(vec![1, 2, 3])));
    assert!(out.events.is_empty());
    match out.action {
        WorkerAction::Decode { raw, start_clock } => {
            assert_eq!(raw, vec![1, 2, 3]);
            assert!(!start_clock);
        }
        _ => panic!("expected a decode"),
    }

    let out = step(&mut worker, WorkerInput::Decoded(Ok(image(9)), 7));
    assert_eq!(out.events.len(), 2);
    match &out.events[0] {
        ReaderEvent::PageDecoded { page_index, image, from_cache, elapsed_ms } => {
            assert_eq!(*page_index, 0);
            assert_eq!(image.rgba, vec![9, 9, 9, 255]);
            assert!(!from_cache);
            assert_eq!(*elapsed_ms, 7);
        }
        other => panic!("unexpected event {other:?}"),
    }
    assert!(matches!(
        out.events[1],
        ReaderEvent::CacheStats { raw_bytes: 3, display_bytes: 4, thumbnail_bytes: 0 }
    ));
    assert!(matches!(out.action, WorkerAction::WaitCommand { brief: true }));

    // The wait ends without a command: the next page is prefetched.
    let out = step(&mut worker, WorkerInput::Command(CommandPoll::TimedOut));
    assert!(matches!(out.events[0], ReaderEvent::LoadingPage { page_index: 1 }));
    match out.action {
        WorkerAction::ReadEntry { entry_id, .. } => assert_eq!(entry_id, EntryId(1)),
        _ => panic!("expected a read"),
    }
    let out = step(&mut worker, WorkerInput::EntryRead(Ok(vec![4])));
    assert!(matches!(out.action, WorkerAction::Decode { .. }));
    let out = step(&mut worker, WorkerInput::Decoded(Ok(image(1)), 3));
    assert!(matches!(out.events[0], ReaderEvent::PageDecoded { page_index: 1, from_cache: false, .. }));
    assert!(matches!(out.events[1], ReaderEvent::CacheStats { .. }));
    assert!(matches!(out.action, WorkerAction::PollCommand));

    // The loop checks commands, re-reports the current page from the cache, then waits.
    let out = step(&mut worker, WorkerInput::Command(CommandPoll::Empty));
    assert!(matches!(
        out.events[0],
        ReaderEvent::PageDecoded { page_index: 0, from_cache: true, elapsed_ms: 0, .. }
    ));
    assert!(matches!(out.action, WorkerAction::WaitCommand { brief: false }));

    let out = step(
        &mut worker,
        WorkerInput::Command(CommandPoll::Received(ReaderCommand::Shutdown)),
    );
    assert_eq!(out.events.len(), 1);
    assert!(matches!(out.events[0], ReaderEvent::Finished));
    assert!(matches!(out.action, WorkerAction::Stop));
    assert!(worker.is_stopped());
}

#[test]
fn jumps_are_clamped_and_the_latest_one_wins() {
    let mut worker = listed(&["a.jpg", "b.jpg", "c.jpg"], small_options());
    let out = step(
        &mut worker,
        WorkerInput::Command(CommandPoll::Received(ReaderCommand::GoTo(99))),
    );
    assert!(out.events.is_empty());
    assert!(matches!(out.action, WorkerAction::PollCommand));
    let out = step(
        &mut worker,
        WorkerInput::Command(CommandPoll::Received(ReaderCommand::Next)),
    );
    assert!(out.events.is_empty());
    let out = step(&mut worker, WorkerInput::Command(CommandPoll::Empty));
    // `Next` counts from the page shown (0), not from the pending jump.
    assert_eq!(out.events.len(), 1);
    assert!(matches!(out.events[0], ReaderEvent::CurrentPage { page_index: 1 }));
    assert!(matches!(out.action, WorkerAction::PollCommand));
}

#[test]
fn previous_on_first_page_stays_there() {
    let mut worker = listed(&["a.jpg", "b.jpg"], small_options());
    step(&mut worker, WorkerInput::Command(CommandPoll::Received(ReaderCommand::Previous)));
    let out = step(&mut worker, WorkerInput::Command(CommandPoll::Empty));
    assert!(matches!(out.events[0], ReaderEvent::CurrentPage { page_index: 0 }));
}

#[test]
fn disconnected_commands_finish_the_reader() {
    let mut worker = listed(&["a.jpg"], small_options());
    let out = step(&mut worker, WorkerInput::Command(CommandPoll::Disconnected));
    assert!(matches!(out.events[0], ReaderEvent::Finished));
    assert!(matches!(out.action, WorkerAction::Stop));
}

#[test]
fn read_errors_are_reported_with_cache_stats() {
    let mut worker = listed(&["a.jpg"], small_options());
    step(&mut worker, WorkerInput::Command(CommandPoll::Empty));
    let out = step(
        &mut worker,
        WorkerInput::EntryRead(Err(ReaderError::Archive("gone".to_string()))),
    );
    assert_eq!(out.events.len(), 2);
    match &out.events[0] {
        ReaderEvent::Error(text) => assert_eq!(text, "archive error: gone"),
        other => panic!("unexpected event {other:?}"),
    }
    assert!(matches!(out.events[1], ReaderEvent::CacheStats { .. }));
    assert!(matches!(out.action, WorkerAction::WaitCommand { brief: false }));
}

#[test]
fn thumbnails_are_queued_once_and_made_after_prefetches() {
    let options = ReaderOptions {
        prefetch_forward: 0,
        prefetch_backward: 0,
        ..ReaderOptions::default()
    };
    let mut worker = listed(&["a.jpg", "b.jpg", "c.jpg"], options);
    let request = ReaderCommand::RequestThumbnails { center: 1, radius: 5 };
    step(&mut worker, WorkerInput::Command(CommandPoll::Received(request.clone())));
    step(&mut worker, WorkerInput::Command(CommandPoll::Received(request)));
    // Decode the current page.
    step(&mut worker, WorkerInput::Command(CommandPoll::Empty));
    step(&mut worker, WorkerInput::EntryRead(Ok(vec![0; 8])));
    let out = step(&mut worker, WorkerInput::Decoded(Ok(image(5)), 1));
    assert!(matches!(out.action, WorkerAction::WaitCommand { brief: true }));

    // Page 0 is decoded, so its thumbnail is made from the decoded image.
    let out = step(&mut worker, WorkerInput::Command(CommandPoll::TimedOut));
    assert!(out.events.is_empty());
    match out.action {
        WorkerAction::ThumbnailFromDecoded { image, max_edge } => {
            assert_eq!(image.rgba, vec![5, 5, 5, 255]);
            assert_eq!(max_edge, 256);
        }
        _ => panic!("expected a thumbnail from the decoded page"),
    }
    let out = step(&mut worker, WorkerInput::Decoded(Ok(image(6)), 0));
    assert!(matches!(out.events[0], ReaderEvent::ThumbnailDecoded { page_index: 0, .. }));
    assert!(matches!(out.action, WorkerAction::PollCommand));

    // Page 1 comes from the archive.
    step(&mut worker, WorkerInput::Command(CommandPoll::Empty));
    let out = step(&mut worker, WorkerInput::Command(CommandPoll::TimedOut));
    match out.action {
        WorkerAction::ReadEntry { entry_id, start_clock } => {
            assert_eq!(entry_id, EntryId(1));
            assert!(!start_clock);
        }
        _ => panic!("expected a read"),
    }
    let out = step(&mut worker, WorkerInput::EntryRead(Ok(vec![7])));
    assert!(matches!(out.action, WorkerAction::Thumbnail { max_edge: 256, .. }));
    step(&mut worker, WorkerInput::Decoded(Ok(image(7)), 0));

    // Page 2, then nothing is left: the loop waits without a bound.
    step(&mut worker, WorkerInput::Command(CommandPoll::Empty));
    step(&mut worker, WorkerInput::Command(CommandPoll::TimedOut));
    step(&mut worker, WorkerInput::EntryRead(Ok(vec![8])));
    step(&mut worker, WorkerInput::Decoded(Ok(image(8)), 0));
    let out = step(&mut worker, WorkerInput::Command(CommandPoll::Empty));
    assert!(matches!(out.action, WorkerAction::WaitCommand { brief: false }));
}

#[test]
fn step_refuses_inputs_that_do_not_answer_the_last_action() {
    let mut worker: ReaderWorker<Vec<u8>> = ReaderWorker::new(ReaderOptions::default());
    assert!(!worker.can_step(&WorkerInput::Command(CommandPoll::Empty)));
    step(&mut worker, WorkerInput::Start);
    assert!(!worker.can_step(&WorkerInput::Start));
    assert!(worker.can_step(&WorkerInput::Listed(Ok(Vec::new()))));
}

#[test]
fn a_thumbnail_runs_after_every_two_prefetches() {
    let options = ReaderOptions {
        prefetch_forward: 4,
        prefetch_backward: 0,
        ..ReaderOptions::default()
    };
    let mut worker = listed(&["a.jpg", "b.jpg", "c.jpg", "d.jpg", "e.jpg"], options);
    let request = ReaderCommand::RequestThumbnails { center: 0, radius: 4 };
    step(&mut worker, WorkerInput::Command(CommandPoll::Received(request)));
    step(&mut worker, WorkerInput::Command(CommandPoll::Empty));
    step(&mut worker, WorkerInput::EntryRead(Ok(vec![0])));
    step(&mut worker, WorkerInput::Decoded(Ok(image(1)), 1));
    for expected in [1usize, 2] {
        let out = step(&mut worker, WorkerInput::Command(CommandPoll::TimedOut));
        assert!(matches!(out.events[0], ReaderEvent::LoadingPage { page_index } if page_index == expected));
        step(&mut worker, WorkerInput::EntryRead(Ok(vec![0])));
        step(&mut worker, WorkerInput::Decoded(Ok(image(2)), 1));
        let out = step(&mut worker, WorkerInput::Command(CommandPoll::Empty));
        assert!(matches!(out.events[0], ReaderEvent::PageDecoded { page_index: 0, from_cache: true, .. }));
    }
    let out = step(&mut worker, WorkerInput::Command(CommandPoll::TimedOut));
    assert!(matches!(out.action, WorkerAction::ThumbnailFromDecoded { .. }));
}
