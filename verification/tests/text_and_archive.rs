use comic_reader::archive::backend_kind_for_path;
use comic_reader::archive::entry_failure;
use comic_reader::archive::extract_failure;
use comic_reader::archive::folder_entries;
use comic_reader::archive::folder_image_names;
use comic_reader::archive::is_supported_open_path;
use comic_reader::archive::normalize_separators;
use comic_reader::archive::open_failure;
use comic_reader::archive::parse_failure;
use comic_reader::archive::read_failure;
use comic_reader::archive::scan_failure;
use comic_reader::archive::zip_entries;
use comic_reader::archive::BackendKind;
use comic_reader::archive::FolderArchiveBackend;
use comic_reader::archive::ZipArchiveBackend;
use comic_reader::archive::ZipEntryInfo;
use comic_reader::text::decimal_string;
use comic_reader::text::decimal_string_wide;
use comic_reader::text::is_archive_name;
use comic_reader::text::is_supported_image_name;
use comic_reader::types::DecodedImage;
use comic_reader::types::EntryId;
use comic_reader::types::ReaderError;

fn archive_text(error: ReaderError) -> String {
    match error {
        ReaderError::Archive(text) => text,
        other => panic!("unexpected error {other:?}"),
    }
}

#[test]
fn image_names_are_recognized_by_extension_case_insensitively() {
    for name in ["a.jpg", "a.JPEG", "dir/b.png", "c.webp", "d.GIF", "e.bmp", "f.tif", "g.TIFF", "x.y.png"] {
        assert!(is_supported_image_name(name), "{name}");
    }
    for name in ["notes.txt", "jpg", ".jpg", "a.jpg.txt", "", "dir/", "a.", "..", "a/.."] {
        assert!(!is_supported_image_name(name), "{name}");
    }
}

#[test]
fn image_names_follow_path_components() {
    assert!(is_supported_image_name("pages/001.jpg/"));
    assert!(is_supported_image_name("pages/001.jpg/."));
    assert!(is_supported_image_name("..jpg"));
    assert!(!is_supported_image_name("pages.jpg/.."));
    assert!(!is_supported_image_name("pages/.png"));
}

#[test]
fn archive_names_are_zip_or_cbz() {
    assert!(is_archive_name("comic.cbz"));
    assert!(is_archive_name("/tmp/COMIC.ZIP"));
    assert!(!is_archive_name("comic.rar"));
    assert!(!is_archive_name("cbz"));
}

#[test]
fn decimal_text_matches_to_string() {
    for n in [0usize, 7, 10, 42, 1000, 98765, usize::MAX] {
        assert_eq!(decimal_string(n), n.to_string());
    }
    assert_eq!(decimal_string_wide(u128::MAX), u128::MAX.to_string());
}

#[test]
fn error_messages_match_their_display_forms() {
    assert_eq!(ReaderError::Archive("x".to_string()).message(), "archive error: x");
    assert_eq!(ReaderError::Decode("y".to_string()).message(), "decode error: y");
    assert_eq!(ReaderError::EmptyComic.message(), "comic contains no supported image pages");
    assert_eq!(
        ReaderError::PageOutOfRange { index: 12, page_count: 3 }.message(),
        "page index 12 is outside page count 3"
    );
}

#[test]
fn decoded_image_byte_len_is_pixel_bytes() {
    let image = DecodedImage { width: 2, height: 1, rgba: vec![0; 8] };
    assert_eq!(image.byte_len(), 8);
    let copy = image.clone();
    assert_eq!(copy.rgba, image.rgba);
}

#[test]
fn separators_become_forward_slashes() {
    assert_eq!(normalize_separators("a\\b\\c.jpg"), "a/b/c.jpg");
    assert_eq!(normalize_separators("plain.png"), "plain.png");
    assert_eq!(normalize_separators("\\\\"), "//");
    assert_eq!(normalize_separators(""), "");
}

#[test]
fn zip_listing_keeps_image_files_with_their_positions() {
    let listing = vec![
        ZipEntryInfo { name: "dir/".to_string(), is_dir: true, size: 0 },
        ZipEntryInfo { name: "p1.jpg".to_string(), is_dir: false, size: 11 },
        ZipEntryInfo { name: "info.txt".to_string(), is_dir: false, size: 3 },
        ZipEntryInfo { name: "p2.png".to_string(), is_dir: false, size: 22 },
        ZipEntryInfo { name: "odd.jpg".to_string(), is_dir: true, size: 0 },
    ];
    let entries = zip_entries(listing);
    assert_eq!(entries.len(), 2);
    assert_eq!(entries[0].id, EntryId(1));
    assert_eq!(entries[0].name, "p1.jpg");
    assert_eq!(entries[0].uncompressed_size, 11);
    assert_eq!(entries[1].id, EntryId(3));
    assert_eq!(entries[1].name, "p2.png");
}

#[test]
fn folder_listing_keeps_images_and_numbers_them() {
    let kept = folder_image_names(vec![
        "sub\\01.jpg".to_string(),
        "readme.txt".to_string(),
        "02.webp".to_string(),
    ]);
    assert_eq!(kept, vec![(0, "sub/01.jpg".to_string()), (2, "02.webp".to_string())]);
    let entries = folder_entries(vec!["sub/01.jpg".to_string(), "02.webp".to_string()], vec![5, 6]);
    assert_eq!(entries[0].id, EntryId(0));
    assert_eq!(entries[1].id, EntryId(1));
    assert_eq!(entries[1].name, "02.webp");
    assert_eq!(entries[1].uncompressed_size, 6);
}

#[test]
fn folder_backend_finds_listed_entries() {
    let mut backend = FolderArchiveBackend::new("/comics/one".to_string());
    assert_eq!(backend.root(), "/comics/one");
    assert_eq!(
        archive_text(backend.entry_path(EntryId(0)).unwrap_err()),
        "folder entry 0 is out of range"
    );
    backend.set_entries(vec!["/comics/one/a.jpg".to_string()]);
    assert_eq!(backend.entry_path(EntryId(0)).unwrap(), "/comics/one/a.jpg");
    assert_eq!(
        archive_text(backend.entry_path(EntryId(3)).unwrap_err()),
        "folder entry 3 is out of range"
    );
}

#[test]
fn zip_backend_remembers_its_path() {
    let backend = ZipArchiveBackend::new("/comics/two.cbz".to_string());
    assert_eq!(backend.path(), "/comics/two.cbz");
}

#[test]
fn backend_kind_depends_on_folder_or_extension() {
    assert_eq!(backend_kind_for_path("/comics/x", true).unwrap(), BackendKind::Folder);
    assert_eq!(backend_kind_for_path("/comics/x.cbz", false).unwrap(), BackendKind::Zip);
    assert_eq!(backend_kind_for_path("/comics/x.ZIP", false).unwrap(), BackendKind::Zip);
    assert_eq!(
        archive_text(backend_kind_for_path("/comics/x.rar", false).unwrap_err()),
        "unsupported comic path /comics/x.rar"
    );
    assert!(is_supported_open_path("/c", true));
    assert!(is_supported_open_path("/c.cbz", false));
    assert!(!is_supported_open_path("/c.pdf", false));
}

#[test]
fn archive_error_texts() {
    assert_eq!(archive_text(open_failure("/a.cbz", "denied")), "failed to open /a.cbz: denied");
    assert_eq!(archive_text(parse_failure("/a.cbz", "bad")), "failed to parse /a.cbz: bad");
    assert_eq!(archive_text(entry_failure(4, "crc")), "failed to read zip entry 4: crc");
    assert_eq!(archive_text(extract_failure(5, "eof")), "failed to extract zip entry 5: eof");
    assert_eq!(archive_text(scan_failure("/dir", "loop")), "failed to scan folder /dir: loop");
    assert_eq!(archive_text(read_failure("/dir/a.jpg", "gone")), "failed to read /dir/a.jpg: gone");
}
