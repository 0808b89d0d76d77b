use vstd::prelude::*;
use vstd::string::StrSliceExecFns;
use vstd::string::StringExecFns;

use crate::text::chars_of;
use crate::text::decimal;
use crate::text::decimal_string;
use crate::text::has_archive_extension;
use crate::text::is_archive_name;
use crate::text::is_supported_image_name;
use crate::text::spec_is_supported_image_name;
use crate::types::ArchiveEntry;
use crate::types::EntryId;
use crate::types::ReaderError;
use crate::types::ReaderResult;

verus! {

/// `s` with every backslash turned into a forward slash.
pub open spec fn forward_slashes(s: Seq<char>) -> Seq<char> {
    s.map_values(|c: char| if c == '\\' { '/' } else { c })
}

/// A path with forward slashes only, as entry names are shown whatever the platform.
pub fn normalize_separators(name: &str) -> (r: String)
    ensures
        r@ == forward_slashes(name@),
{
    let v = chars_of(name);
    let n = v.len();
    let mut out = String::new();
    let mut start: usize = 0;
    let mut i: usize = 0;
    while i < n
        invariant
            v@ == name@,
            n == v.len(),
            start <= i <= n,
            out@ == forward_slashes(v@.take(start as int)),
            forall|k: int| start <= k < i ==> v@[k] != '\\',
        decreases n - i,
    {
        if v[i] == '\\' {
            let piece = name.substring_char(start, i);
            let ghost before = out@;
            out.append(piece);
            out.append("/");
            proof {
                reveal_strlit("/");
            }
            assert("/"@ =~= seq!['/']);
            let ghost target = forward_slashes(v@.take(i + 1));
            let ghost built = forward_slashes(v@.take(start as int)) + v@.subrange(start as int, i as int) + seq!['/'];
            assert(target =~= built) by {
                assert forall|k: int| 0 <= k < target.len() implies target[k] == built[k] by {
                    if k < start {
                        assert(v@.take(i + 1)[k] == v@.take(start as int)[k]);
                    } else if k < i {
                        assert(v@.take(i + 1)[k] == v@[k]);
                    } else {
                        assert(v@.take(i + 1)[k] == v@[k]);
                    }
                }
            }
            assert(out@ =~= built);
            start = i + 1;
        }
        i = i + 1;
    }
    let piece = name.substring_char(start, n);
    out.append(piece);
    assert(v@.take(n as int) =~= v@);
    let ghost built = forward_slashes(v@.take(start as int)) + v@.subrange(start as int, n as int);
    assert(forward_slashes(v@) =~= built) by {
        assert forall|k: int| 0 <= k < v@.len() implies forward_slashes(v@)[k] == built[k] by {
            if k < start {
                assert(v@.take(start as int)[k] == v@[k]);
            }
        }
    }
    out
}

/// The positions `k < n`, ascending, for which `keep(k)` holds.
pub open spec fn indices_where(n: int, keep: spec_fn(int) -> bool) -> Seq<usize>
    decreases n,
{
    if n <= 0 {
        Seq::empty()
    } else if keep(n - 1) {
        indices_where(n - 1, keep).push((n - 1) as usize)
    } else {
        indices_where(n - 1, keep)
    }
}

/// What a zip archive reports of one of its entries.
pub struct ZipEntryInfo {
    pub name: String,
    pub is_dir: bool,
    pub size: u64,
}

/// The entries of a zip listing that hold pages: files whose names have an image
/// extension.
pub open spec fn zip_page_indices(listing: Seq<ZipEntryInfo>) -> Seq<usize> {
    indices_where(listing.len() as int, |k: int| !listing[k].is_dir && spec_is_supported_image_name(listing[k].name@))
}

/// The page entries of a zip archive, given what it reports of each entry in order: files
/// with an image extension, each identified by its position in the archive.
pub fn zip_entries(listing: Vec<ZipEntryInfo>) -> (r: Vec<ArchiveEntry>)
    ensures
        r@.len() == zip_page_indices(listing@).len(),
        forall|i: int|
            #![trigger r@[i]]
            0 <= i < r@.len() ==> {
                let k = zip_page_indices(listing@)[i] as int;
                &&& r@[i].id == EntryId(k as usize)
                &&& r@[i].name@ == listing@[k].name@
                &&& r@[i].uncompressed_size == listing@[k].size
            },
{
    let ghost keep = |k: int| !listing@[k].is_dir && spec_is_supported_image_name(listing@[k].name@);
    let mut entries: Vec<ArchiveEntry> = Vec::new();
    let n = listing.len();
    for index in 0..n
        invariant
            n == listing@.len(),
            keep == (|k: int| !listing@[k].is_dir && spec_is_supported_image_name(listing@[k].name@)),
            entries@.len() == indices_where(index as int, keep).len(),
            forall|i: int|
                #![trigger entries@[i]]
                0 <= i < entries@.len() ==> {
                    let k = indices_where(index as int, keep)[i] as int;
                    &&& entries@[i].id == EntryId(k as usize)
                    &&& entries@[i].name@ == listing@[k].name@
                    &&& entries@[i].uncompressed_size == listing@[k].size
                },
    {
        let info = &listing[index];
        if !info.is_dir && is_supported_image_name(info.name.as_str()) {
            entries.push(ArchiveEntry { id: EntryId(index), name: info.name.clone(), uncompressed_size: info.size });
            assert(indices_where(index + 1, keep) == indices_where(index as int, keep).push(index));
        } else {
            assert(indices_where(index + 1, keep) == indices_where(index as int, keep));
        }
    }
    entries
}

/// The files found under a folder that hold pages, given their paths relative to the folder
/// in the order they were found: the ones whose names, with forward slashes, have an image
/// extension.
pub open spec fn folder_page_indices(relative: Seq<String>) -> Seq<usize> {
    indices_where(relative.len() as int, |k: int| spec_is_supported_image_name(forward_slashes(relative[k]@)))
}

/// Picks the files under a folder that hold pages: for each, its position among `relative`
/// and its name with forward slashes.
pub fn folder_image_names(relative: Vec<String>) -> (r: Vec<(usize, String)>)
    ensures
        r@.len() == folder_page_indices(relative@).len(),
        forall|i: int|
            #![trigger r@[i]]
            0 <= i < r@.len() ==> {
                let k = folder_page_indices(relative@)[i];
                &&& r@[i].0 == k
                &&& r@[i].1@ == forward_slashes(relative@[k as int]@)
            },
{
    let ghost keep = |k: int| spec_is_supported_image_name(forward_slashes(relative@[k]@));
    let mut kept: Vec<(usize, String)> = Vec::new();
    let n = relative.len();
    for index in 0..n
        invariant
            n == relative@.len(),
            keep == (|k: int| spec_is_supported_image_name(forward_slashes(relative@[k]@))),
            kept@.len() == indices_where(index as int, keep).len(),
            forall|i: int|
                #![trigger kept@[i]]
                0 <= i < kept@.len() ==> {
                    let k = indices_where(index as int, keep)[i];
                    &&& kept@[i].0 == k
                    &&& kept@[i].1@ == forward_slashes(relative@[k as int]@)
                },
    {
        let name = normalize_separators(relative[index].as_str());
        if is_supported_image_name(name.as_str()) {
            kept.push((index, name));
            assert(indices_where(index + 1, keep) == indices_where(index as int, keep).push(index));
        } else {
            assert(indices_where(index + 1, keep) == indices_where(index as int, keep));
        }
    }
    kept
}

/// The entries of a folder's pages: the `i`-th is named `names[i]`, has `sizes[i]` bytes,
/// and is identified by `i`.
pub fn folder_entries(names: Vec<String>, sizes: Vec<u64>) -> (r: Vec<ArchiveEntry>)
    requires
        names@.len() == sizes@.len(),
    ensures
        r@.len() == names@.len(),
        forall|i: int|
            #![trigger r@[i]]
            0 <= i < r@.len() ==> {
                &&& r@[i].id == EntryId(i as usize)
                &&& r@[i].name@ == names@[i]@
                &&& r@[i].uncompressed_size == sizes@[i]
            },
{
    let mut entries: Vec<ArchiveEntry> = Vec::new();
    let n = names.len();
    for i in 0..n
        invariant
            n == names@.len(),
            n == sizes@.len(),
            entries@.len() == i,
            forall|j: int|
                #![trigger entries@[j]]
                0 <= j < i ==> {
                    &&& entries@[j].id == EntryId(j as usize)
                    &&& entries@[j].name@ == names@[j]@
                    &&& entries@[j].uncompressed_size == sizes@[j]
                },
    {
        entries.push(ArchiveEntry { id: EntryId(i), name: names[i].clone(), uncompressed_size: sizes[i] });
    }
    entries
}

/// `a` + `b` + `c` as one string.
fn join3(a: &str, b: &str, c: &str) -> (r: String)
    ensures
        r@ == a@ + b@ + c@,
{
    let mut s = String::from_str(a);
    s.append(b);
    s.append(c);
    s
}

/// An archive error with the text `text`.
pub open spec fn is_archive_error(e: ReaderError, text: Seq<char>) -> bool {
    e matches ReaderError::Archive(m) && m@ == text
}

/// The error for an archive file that could not be opened.
pub fn open_failure(path: &str, error: &str) -> (r: ReaderError)
    ensures
        is_archive_error(r, "failed to open "@ + path@ + ": "@ + error@),
{
    let head = join3("failed to open ", path, ": ");
    let text = join3(head.as_str(), error, "");
    assert(""@.len() == 0) by {
        reveal_strlit("");
    }
    assert(text@ =~= "failed to open "@ + path@ + ": "@ + error@);
    ReaderError::Archive(text)
}

/// The error for an archive file that is not a valid zip archive.
pub fn parse_failure(path: &str, error: &str) -> (r: ReaderError)
    ensures
        is_archive_error(r, "failed to parse "@ + path@ + ": "@ + error@),
{
    let head = join3("failed to parse ", path, ": ");
    let text = join3(head.as_str(), error, "");
    assert(""@.len() == 0) by {
        reveal_strlit("");
    }
    assert(text@ =~= "failed to parse "@ + path@ + ": "@ + error@);
    ReaderError::Archive(text)
}

/// The error for a zip entry whose header could not be read.
pub fn entry_failure(index: usize, error: &str) -> (r: ReaderError)
    ensures
        is_archive_error(r, "failed to read zip entry "@ + decimal(index as nat) + ": "@ + error@),
{
    let number = decimal_string(index);
    let head = join3("failed to read zip entry ", number.as_str(), ": ");
    let text = join3(head.as_str(), error, "");
    assert(""@.len() == 0) by {
        reveal_strlit("");
    }
    assert(text@ =~= "failed to read zip entry "@ + decimal(index as nat) + ": "@ + error@);
    ReaderError::Archive(text)
}

/// The error for a zip entry whose bytes could not be extracted.
pub fn extract_failure(index: usize, error: &str) -> (r: ReaderError)
    ensures
        is_archive_error(r, "failed to extract zip entry "@ + decimal(index as nat) + ": "@ + error@),
{
    let number = decimal_string(index);
    let head = join3("failed to extract zip entry ", number.as_str(), ": ");
    let text = join3(head.as_str(), error, "");
    assert(""@.len() == 0) by {
        reveal_strlit("");
    }
    assert(text@ =~= "failed to extract zip entry "@ + decimal(index as nat) + ": "@ + error@);
    ReaderError::Archive(text)
}

/// The error for a folder that could not be scanned.
pub fn scan_failure(root: &str, error: &str) -> (r: ReaderError)
    ensures
        is_archive_error(r, "failed to scan folder "@ + root@ + ": "@ + error@),
{
    let head = join3("failed to scan folder ", root, ": ");
    let text = join3(head.as_str(), error, "");
    assert(""@.len() == 0) by {
        reveal_strlit("");
    }
    assert(text@ =~= "failed to scan folder "@ + root@ + ": "@ + error@);
    ReaderError::Archive(text)
}

/// The error for a page file of a folder that could not be read.
pub fn read_failure(path: &str, error: &str) -> (r: ReaderError)
    ensures
        is_archive_error(r, "failed to read "@ + path@ + ": "@ + error@),
{
    let head = join3("failed to read ", path, ": ");
    let text = join3(head.as_str(), error, "");
    assert(""@.len() == 0) by {
        reveal_strlit("");
    }
    assert(text@ =~= "failed to read "@ + path@ + ": "@ + error@);
    ReaderError::Archive(text)
}

/// A comic stored as a zip (or cbz) archive.
pub struct ZipArchiveBackend {
    path: String,
}

impl ZipArchiveBackend {
    /// The archive's path.
    pub closed spec fn spec_path(&self) -> Seq<char> {
        self.path@
    }

    /// The comic stored in the archive at `path`.
    pub fn new(path: String) -> (r: Self)
        ensures
            r.spec_path() == path@,
    {
        ZipArchiveBackend { path }
    }

    /// Where the archive is.
    pub fn path(&self) -> (r: &str)
        ensures
            r@ == self.spec_path(),
    {
        self.path.as_str()
    }
}

/// A comic stored as a folder of image files.
pub struct FolderArchiveBackend {
    root: String,
    entries: Vec<String>,
}

impl FolderArchiveBackend {
    /// The folder's path.
    pub closed spec fn spec_root(&self) -> Seq<char> {
        self.root@
    }

    /// The paths of the folder's image files, as the last listing found them.
    pub closed spec fn spec_entries(&self) -> Seq<String> {
        self.entries@
    }

    /// The comic stored in the folder at `path`, not listed yet.
    pub fn new(path: String) -> (r: Self)
        ensures
            r.spec_root() == path@,
            r.spec_entries().len() == 0,
    {
        FolderArchiveBackend { root: path, entries: Vec::new() }
    }

    /// Where the folder is.
    pub fn root(&self) -> (r: &str)
        ensures
            r@ == self.spec_root(),
    {
        self.root.as_str()
    }

    /// Records the page files found by the last listing, in entry order.
    pub fn set_entries(&mut self, entries: Vec<String>)
        ensures
            final(self).spec_root() == old(self).spec_root(),
            final(self).spec_entries() == entries@,
    {
        self.entries = entries;
    }

    /// The file that holds entry `entry_id`, or the error for an entry the last listing did
    /// not find.
    pub fn entry_path(&self, entry_id: EntryId) -> (r: ReaderResult<&str>)
        ensures
            match r {
                Ok(path) => entry_id.0 < self.spec_entries().len() && path@ == self.spec_entries()[entry_id.0 as int]@,
                Err(e) => entry_id.0 >= self.spec_entries().len() && is_archive_error(
                    e,
                    "folder entry "@ + decimal(entry_id.0 as nat) + " is out of range"@,
                ),
            },
    {
        if entry_id.0 < self.entries.len() {
            Ok(self.entries[entry_id.0].as_str())
        } else {
            let number = decimal_string(entry_id.0);
            let text = join3("folder entry ", number.as_str(), " is out of range");
            Err(ReaderError::Archive(text))
        }
    }
}

/// Which kind of storage holds a comic.
#[derive(Debug, Clone, Copy, PartialEq, Eq, Structural)]
pub enum BackendKind {
    Folder,
    Zip,
}

/// How to read the comic at `path`: a folder as a folder of images, a path with a zip or
/// cbz extension as a zip archive; any other path is refused.
pub fn backend_kind_for_path(path: &str, is_dir: bool) -> (r: ReaderResult<BackendKind>)
    ensures
        match r {
            Ok(kind) => if is_dir {
                kind == BackendKind::Folder
            } else {
                has_archive_extension(path@) && kind == BackendKind::Zip
            },
            Err(e) => !is_dir && !has_archive_extension(path@) && is_archive_error(e, "unsupported comic path "@ + path@),
        },
{
    if is_dir {
        return Ok(BackendKind::Folder);
    }
    if is_archive_name(path) {
        Ok(BackendKind::Zip)
    } else {
        let text = join3("unsupported comic path ", path, "");
        assert(""@.len() == 0) by {
            reveal_strlit("");
        }
        assert(text@ =~= "unsupported comic path "@ + path@);
        Err(ReaderError::Archive(text))
    }
}

/// Whether the reader can open `path`: a folder, or a file with a zip or cbz extension.
pub fn is_supported_open_path(path: &str, is_dir: bool) -> (r: bool)
    ensures
        r == (is_dir || has_archive_extension(path@)),
{
    is_dir || is_archive_name(path)
}

} // verus!
