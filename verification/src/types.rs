use vstd::prelude::*;
use std::sync::Arc;

use crate::text::decimal;
use crate::text::decimal_string;

verus! {

/// Index of a page in reading order.
pub type PageIndex = usize;

/// Identifier of an entry inside a comic archive.
#[derive(Debug, Clone, Copy, PartialEq, Eq, Structural, Hash, PartialOrd, Ord)]
pub struct EntryId(pub usize);

/// One file of a comic archive, as the archive lists it.
#[derive(Debug, Clone)]
pub struct ArchiveEntry {
    pub id: EntryId,
    pub name: String,
    pub uncompressed_size: u64,
}

/// One page of a comic: where it stands in reading order and which entry holds it.
#[derive(Debug, Clone)]
pub struct PageDescriptor {
    pub page_index: PageIndex,
    pub entry_id: EntryId,
    pub name: String,
    pub physical_index: usize,
}

/// A decoded image as RGBA bytes.
#[derive(Debug)]
pub struct DecodedImage {
    pub width: u32,
    pub height: u32,
    pub rgba: Vec<u8>,
}

/// Two images with the same size and pixels.
pub open spec fn same_image(a: DecodedImage, b: DecodedImage) -> bool {
    &&& a.width == b.width
    &&& a.height == b.height
    &&& a.rgba@ == b.rgba@
}

impl Clone for DecodedImage {
    /// A copy with the same size and pixels.
    fn clone(&self) -> (r: Self)
        ensures
            same_image(r, *self),
    {
        let rgba = self.rgba.clone();
        assert(rgba@ =~= self.rgba@);
        DecodedImage { width: self.width, height: self.height, rgba }
    }
}

impl DecodedImage {
    /// Bytes held by the pixel data.
    pub fn byte_len(&self) -> (r: usize)
        ensures
            r == self.rgba@.len(),
    {
        self.rgba.len()
    }
}

/// Why reading a comic failed.
#[derive(Debug)]
pub enum ReaderError {
    Archive(String),
    Decode(String),
    EmptyComic,
    PageOutOfRange { index: PageIndex, page_count: usize },
}

/// The text that describes an error to the reader.
pub open spec fn error_message(e: ReaderError) -> Seq<char> {
    match e {
        ReaderError::Archive(s) => "archive error: "@ + s@,
        ReaderError::Decode(s) => "decode error: "@ + s@,
        ReaderError::EmptyComic => "comic contains no supported image pages"@,
        ReaderError::PageOutOfRange { index, page_count } => "page index "@ + decimal(
            index as nat,
        ) + " is outside page count "@ + decimal(page_count as nat),
    }
}

impl ReaderError {
    /// The text that describes the error, as its `Display` form gives it.
    pub fn message(&self) -> (r: String)
        ensures
            r@ == error_message(*self),
    {
        match self {
            ReaderError::Archive(s) => {
                let mut m = String::from_str("archive error: ");
                m.append(s.as_str());
                m
            },
            ReaderError::Decode(s) => {
                let mut m = String::from_str("decode error: ");
                m.append(s.as_str());
                m
            },
            ReaderError::EmptyComic => String::from_str("comic contains no supported image pages"),
            ReaderError::PageOutOfRange { index, page_count } => {
                let mut m = String::from_str("page index ");
                let i = decimal_string(*index);
                m.append(i.as_str());
                m.append(" is outside page count ");
                let c = decimal_string(*page_count);
                m.append(c.as_str());
                m
            },
        }
    }
}

/// Result of the reader's operations.
pub type ReaderResult<T> = core::result::Result<T, ReaderError>;

/// Cache budgets and prefetch distances of a reader.
#[derive(Debug, Clone)]
pub struct ReaderOptions {
    pub raw_cache_bytes: usize,
    pub display_cache_bytes: usize,
    pub thumbnail_cache_bytes: usize,
    pub prefetch_forward: usize,
    pub prefetch_backward: usize,
    pub thumbnail_edge: u32,
}

impl Default for ReaderOptions {
    /// 256 MiB of raw pages, 512 MiB of decoded pages, 64 MiB of thumbnails, four pages
    /// prefetched each way, thumbnails 256 pixels on their longer edge.
    fn default() -> (r: Self)
        ensures
            r.raw_cache_bytes == 256 * 1024 * 1024,
            r.display_cache_bytes == 512 * 1024 * 1024,
            r.thumbnail_cache_bytes == 64 * 1024 * 1024,
            r.prefetch_forward == 4,
            r.prefetch_backward == 4,
            r.thumbnail_edge == 256,
    {
        ReaderOptions {
            raw_cache_bytes: 256 * 1024 * 1024,
            display_cache_bytes: 512 * 1024 * 1024,
            thumbnail_cache_bytes: 64 * 1024 * 1024,
            prefetch_forward: 4,
            prefetch_backward: 4,
            thumbnail_edge: 256,
        }
    }
}

/// What the reader's user asks of the reader.
#[derive(Debug, Clone)]
pub enum ReaderCommand {
    GoTo(PageIndex),
    Next,
    Previous,
    RequestThumbnails { center: PageIndex, radius: usize },
    Shutdown,
}

/// What the reader reports to its user.
#[derive(Debug, Clone)]
pub enum ReaderEvent {
    PageCount { pages: usize },
    CurrentPage { page_index: PageIndex },
    LoadingPage { page_index: PageIndex },
    PageDecoded { page_index: PageIndex, image: Arc<DecodedImage>, from_cache: bool, elapsed_ms: u128 },
    ThumbnailDecoded { page_index: PageIndex, image: Arc<DecodedImage> },
    CacheStats { raw_bytes: usize, display_bytes: usize, thumbnail_bytes: usize },
    Finished,
    Error(String),
}

} // verus!
