//! A book's cache as a zip archive: reading its entries and where each one
//! goes under the book's cache directory.
use vstd::prelude::*;
use vstd::string::*;

verus! {

/// What an entry holds: its name when it is a safe relative path, whether it
/// is a directory, its bytes and its unix permissions.
pub type EntryModel = (Option<Seq<char>>, bool, Seq<u8>, Option<u32>);

/// The number of entries that the zip crate finds in an archive; `None`
/// when it cannot read the archive.
pub uninterp spec fn zip_entry_count(data: Seq<u8>) -> Option<usize>;

/// Entry `i` of an archive as the zip crate reads it; `None` when it cannot.
pub uninterp spec fn zip_entry(data: Seq<u8>, i: int) -> Option<EntryModel>;

/// One entry of an archive.
pub struct ArchiveEntry {
    /// The entry's name, when it is a relative path that stays inside the
    /// directory it is extracted to.
    pub name: Option<String>,
    pub is_dir: bool,
    pub data: Vec<u8>,
    pub unix_mode: Option<u32>,
}

impl View for ArchiveEntry {
    type V = EntryModel;

    open spec fn view(&self) -> EntryModel {
        (
            match self.name {
                Some(n) => Some(n@),
                None => None,
            },
            self.is_dir,
            self.data@,
            self.unix_mode,
        )
    }
}

/// Trusted: `zip::ZipArchive::new` on the bytes, then `ZipArchive::len`.
/// The contract names the count; it depends on the bytes alone.
#[verifier::external_body]
fn archive_len(data: &[u8]) -> (r: Option<usize>)
    ensures
        r == zip_entry_count(data@),
{
    zip::ZipArchive::new(std::io::Cursor::new(data)).ok().map(|a| a.len())
}

/// Trusted: `zip::ZipArchive::new` on the bytes, then `by_index(i)`, and of
/// that entry `enclosed_name` (shown as text), `is_dir`, its bytes read to
/// the end and `unix_mode`. The contract names the result; it depends on the
/// bytes and the index alone.
#[verifier::external_body]
fn archive_entry(data: &[u8], i: usize) -> (r: Option<ArchiveEntry>)
    ensures
        match r {
            Some(e) => zip_entry(data@, i as int) == Some(e@),
            None => zip_entry(data@, i as int) is None,
        },
{
    let mut a = zip::ZipArchive::new(std::io::Cursor::new(data)).ok()?;
    let mut f = a.by_index(i).ok()?;
    let name = f.enclosed_name().map(|p| p.display().to_string());
    let (is_dir, unix_mode) = (f.is_dir(), f.unix_mode());
    let mut bytes: Vec<u8> = Vec::new();
    std::io::Read::read_to_end(&mut f, &mut bytes).ok()?;
    Some(ArchiveEntry { name, is_dir, data: bytes, unix_mode })
}

/// Why an archive could not be read.
#[derive(Debug, PartialEq, Eq)]
pub enum ArchiveError {
    /// The bytes are no archive the zip crate can read.
    Unreadable,
    /// The entry at this position cannot be read.
    EntryUnreadable(usize),
}

/// Reads every entry of an archive, in order: an error when the archive
/// cannot be read, or names the first entry that cannot.
pub fn read_archive(data: &[u8]) -> (r: Result<Vec<ArchiveEntry>, ArchiveError>)
    ensures
        match zip_entry_count(data@) {
            None => r matches Err(ArchiveError::Unreadable),
            Some(n) => match r {
                Ok(v) => v.len() == n && forall|k: int|
                    0 <= k < n ==> zip_entry(data@, k) == Some(#[trigger] v@[k]@),
                Err(e) => e matches ArchiveError::EntryUnreadable(k) && k < n && zip_entry(
                    data@,
                    k as int,
                ) is None && forall|j: int| 0 <= j < k ==> #[trigger] zip_entry(data@, j) is Some,
            },
        },
{
    let n = match archive_len(data) {
        Some(n) => n,
        None => {
            return Err(ArchiveError::Unreadable);
        },
    };
    let mut v: Vec<ArchiveEntry> = Vec::new();
    let mut i: usize = 0;
    while i < n
        invariant
            zip_entry_count(data@) == Some(n),
            i <= n,
            v.len() == i,
            forall|k: int| 0 <= k < i ==> zip_entry(data@, k) == Some(#[trigger] v@[k]@),
        decreases n - i,
    {
        match archive_entry(data, i) {
            Some(e) => {
                v.push(e);
            },
            None => {
                assert forall|j: int| 0 <= j < i implies #[trigger] zip_entry(data@, j) is Some by {
                    assert(zip_entry(data@, j) == Some(v@[j]@));
                }
                return Err(ArchiveError::EntryUnreadable(i));
            },
        }
        i = i + 1;
    }
    Ok(v)
}

/// Where the entries with a safe name go under `base`: the entry's position
/// and `{base}/{name}`, in order; entries without one are skipped.
pub open spec fn extract_targets(base: Seq<char>, names: Seq<Option<Seq<char>>>) -> Seq<
    (int, Seq<char>),
>
    decreases names.len(),
{
    if names.len() == 0 {
        seq![]
    } else {
        let r = extract_targets(base, names.drop_last());
        match names.last() {
            Some(n) => r.push(((names.len() - 1) as int, base + "/"@ + n)),
            None => r,
        }
    }
}

/// The entries' names.
pub open spec fn entry_names(entries: Seq<ArchiveEntry>) -> Seq<Option<Seq<char>>> {
    entries.map_values(|e: ArchiveEntry| e@.0)
}

/// Where each entry with a safe name is extracted to under `base_dir`: its
/// position among the entries and its path.
pub fn extract_paths(base_dir: &str, entries: &Vec<ArchiveEntry>) -> (r: Vec<(usize, String)>)
    ensures
        r.len() == extract_targets(base_dir@, entry_names(entries@)).len(),
        forall|k: int|
            0 <= k < r.len() ==> {
                let t = #[trigger] extract_targets(base_dir@, entry_names(entries@))[k];
                &&& r@[k].0 == t.0
                &&& r@[k].1@ == t.1
            },
{
    let mut r: Vec<(usize, String)> = Vec::new();
    let mut i: usize = 0;
    while i < entries.len()
        invariant
            i <= entries.len(),
            r.len() == extract_targets(base_dir@, entry_names(entries@.take(i as int))).len(),
            forall|k: int|
                0 <= k < r.len() ==> {
                    let t = #[trigger] extract_targets(
                        base_dir@,
                        entry_names(entries@.take(i as int)),
                    )[k];
                    &&& r@[k].0 == t.0
                    &&& r@[k].1@ == t.1
                },
        decreases entries.len() - i,
    {
        let ghost before = entry_names(entries@.take(i as int));
        let ghost after = entry_names(entries@.take(i + 1));
        assert(after.drop_last() == before);
        assert(after.last() == entries@[i as int]@.0);
        assert(after.len() == i + 1);
        match &entries[i] {
            ArchiveEntry { name: Some(n), .. } => {
                let mut p = String::from_str(base_dir);
                p.append("/");
                p.append(n.as_str());
                proof {
                    reveal_strlit("/");
                }
                r.push((i, p));
            },
            _ => {},
        }
        i = i + 1;
    }
    assert(entries@.take(entries.len() as int) == entries@);
    r
}

/// Whether a failed cache download only means that there is no cache yet:
/// the store answered 404.
pub fn cache_missing(code: u16) -> (b: bool)
    ensures
        b == (code == 404),
{
    code == 404
}

} // verus!
