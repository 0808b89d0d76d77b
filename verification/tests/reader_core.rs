use bytes::Bytes;
use comic_reader::cache::Cache;
use comic_reader::cache::LruPageCache;
use comic_reader::page_order::PageOrder;
use comic_reader::raw::PageBytes;
use comic_reader::types::ArchiveEntry;
use comic_reader::types::EntryId;

fn entry(id: usize, name: &str) -> ArchiveEntry {
    ArchiveEntry {
        id: EntryId(id),
        name: name.to_string(),
        uncompressed_size: 1,
    }
}

#[test]
fn page_order_uses_natural_sorting_and_filters_images() {
    let order = PageOrder::from_entries(vec![
        ArchiveEntry {
            id: EntryId(0),
            name: "page10.jpg".to_string(),
            uncompressed_size: 1,
        },
        ArchiveEntry {
            id: EntryId(1),
            name: "notes.txt".to_string(),
            uncompressed_size: 1,
        },
        ArchiveEntry {
            id: EntryId(2),
            name: "page2.jpg".to_string(),
            uncompressed_size: 1,
        },
    ]);

    let names: Vec<_> = order
        .pages()
        .iter()
        .map(|page| page.name.as_str())
        .collect();
    assert_eq!(names, vec!["page2.jpg", "page10.jpg"]);
    assert_eq!(order.page(0).unwrap().entry_id, EntryId(2));
}

#[test]
fn lru_cache_evicts_oldest_items_by_byte_budget() {
    let mut cache = LruPageCache::new(10);
    cache.insert(0, Bytes::from_static(b"12345"), 5);
    cache.insert(1, Bytes::from_static(b"67890"), 5);
    cache.insert(2, Bytes::from_static(b"abcde"), 5);

    assert!(!cache.contains(0));
    assert!(cache.contains(1));
    assert!(cache.contains(2));
    assert_eq!(cache.bytes_used(), 10);
}

#[test]
fn page_order_records_positions_and_physical_indices() {
    let order = PageOrder::from_entries(vec![
        entry(7, "b/003.png"),
        entry(8, "b/001.PNG"),
        entry(9, "cover.txt"),
        entry(10, "b/002.jpeg"),
    ]);
    assert_eq!(order.len(), 3);
    assert!(!order.is_empty());
    let pages = order.pages();
    assert_eq!(pages[0].name, "b/001.PNG");
    assert_eq!(pages[0].physical_index, 1);
    assert_eq!(pages[0].entry_id, EntryId(8));
    assert_eq!(pages[1].name, "b/002.jpeg");
    assert_eq!(pages[2].name, "b/003.png");
    for (i, page) in pages.iter().enumerate() {
        assert_eq!(page.page_index, i);
    }
    assert!(order.page(3).is_none());
}

#[test]
fn page_order_keeps_archive_order_for_equal_names() {
    let order = PageOrder::from_entries(vec![entry(0, "a/1.jpg"), entry(1, "a/1.jpg")]);
    assert_eq!(order.pages()[0].physical_index, 0);
    assert_eq!(order.pages()[1].physical_index, 1);
}

#[test]
fn page_order_of_no_images_is_empty() {
    let order = PageOrder::from_entries(vec![entry(0, "readme.md"), entry(1, "folder/")]);
    assert!(order.is_empty());
    assert_eq!(order.len(), 0);
    assert!(order.prioritized_window(0, 4, 4).is_empty());
}

#[test]
fn prioritized_window_alternates_outward_from_current() {
    let entries: Vec<ArchiveEntry> = (0..10).map(|i| entry(i, &format!("p{i}.jpg"))).collect();
    let order = PageOrder::from_entries(entries);
    assert_eq!(order.prioritized_window(5, 2, 3), vec![5, 6, 4, 7, 3, 2]);
    assert_eq!(order.prioritized_window(0, 2, 2), vec![0, 1, 2]);
    assert_eq!(order.prioritized_window(9, 2, 1), vec![9, 8]);
    assert_eq!(order.prioritized_window(10, 2, 2), Vec::<usize>::new());
}

#[test]
fn lru_get_refreshes_recency() {
    let mut cache: LruPageCache<u32> = LruPageCache::new(10);
    cache.insert(0, 100, 5);
    cache.insert(1, 101, 5);
    assert_eq!(cache.get(0), Some(100));
    cache.insert(2, 102, 5);
    assert!(cache.contains(0));
    assert!(!cache.contains(1));
    assert!(cache.contains(2));
    assert_eq!(cache.get(1), None);
}

#[test]
fn lru_reinsert_replaces_value_and_size() {
    let mut cache: LruPageCache<u32> = LruPageCache::new(10);
    cache.insert(3, 1, 4);
    cache.insert(3, 2, 6);
    assert_eq!(cache.bytes_used(), 6);
    assert_eq!(cache.get(3), Some(2));
}

#[test]
fn lru_oversized_item_empties_cache() {
    let mut cache: LruPageCache<u32> = LruPageCache::new(10);
    cache.insert(0, 1, 4);
    cache.insert(1, 2, 11);
    assert!(!cache.contains(0));
    assert!(!cache.contains(1));
    assert_eq!(cache.bytes_used(), 0);
}

#[test]
fn lru_clear_and_budget() {
    let mut cache: LruPageCache<u32> = LruPageCache::new(64);
    assert_eq!(cache.max_bytes(), 64);
    cache.insert(0, 1, 10);
    cache.clear();
    assert_eq!(cache.bytes_used(), 0);
    assert!(!cache.contains(0));
}

#[test]
fn a_read_gives_back_the_latest_insert_and_the_budget_stays() {
    let mut cache = LruPageCache::new(100);
    cache.insert(3, Bytes::from_static(b"old"), 3);
    cache.insert(4, Bytes::from_static(b"other"), 5);
    cache.insert(3, Bytes::from_static(b"new"), 3);
    assert_eq!(cache.get(3), Some(Bytes::from_static(b"new")));
    cache.clear();
    assert_eq!(cache.get(3), None);
    assert_eq!(cache.max_bytes(), 100);
}

#[test]
fn raw_pages_are_charged_their_length() {
    assert_eq!(Bytes::from_static(b"abcde").byte_len(), 5);
    assert_eq!(vec![1u8, 2, 3].byte_len(), 3);
}
