//! File discovery: filtering of walked directory entries, assignment of
//! stable identifiers, and the progress denominator.
//!
//! The caller walks the directory tree (following symbolic links) and hands
//! in one [`RawEntry`] per filesystem entry it saw, with the size already
//! read from metadata; a metadata read failure is fatal on the caller's side
//! and never reaches this module. Discovery keeps exactly the entries that
//! are not directories and whose extension is not in the exclusion set,
//! gives each kept file the next free identifier, and sums the sizes.

use vstd::prelude::*;

use crate::model::{last_index_of, lemma_last_index_of};

verus! {

/// One filesystem entry as seen by the directory walk.
pub struct RawEntry {
    /// The path, with `/` separating components.
    pub path: String,
    /// Whether the entry is a directory.
    pub is_dir: bool,
    /// Size in bytes from filesystem metadata (0 for directories).
    pub size: u64,
}

/// A retained file with its stable identifier and size.
#[derive(Clone)]
pub struct FileEntry {
    /// Identifier correlating this file with its task, progress and result.
    pub id: u64,
    /// The file's path as handed in by the walk.
    pub path: String,
    /// Size in bytes, one addend of the progress denominator.
    pub size: u64,
}

/// Result of discovery: the retained files and the progress denominator.
pub struct Discovery {
    /// Retained files; `entries[i].id == i`.
    pub entries: Vec<FileEntry>,
    /// Sum of the sizes of all retained files.
    pub total_size: u64,
}

/// The one way discovery itself can fail once sizes are in hand.
#[derive(Debug)]
pub enum DiscoveryError {
    /// The sizes of the retained files do not sum to a representable total.
    TotalSizeOverflow,
}

/// The extension of the final path component: what follows its last `.`,
/// empty when there is no `.` or when the component only starts with one.
pub open spec fn extension_of(p: Seq<char>) -> Seq<char> {
    let name = p.subrange(last_index_of(p, '/') + 1, p.len() as int);
    let j = last_index_of(name, '.');
    if j <= 0 {
        Seq::empty()
    } else {
        name.subrange(j + 1, name.len() as int)
    }
}

/// Whether the path's extension is one of the excluded ones.
pub open spec fn is_excluded(p: Seq<char>, exclusions: Seq<Seq<char>>) -> bool {
    exists|k: int| 0 <= k < exclusions.len() && exclusions[k] == extension_of(p)
}

/// Whether a walked entry is kept: not a directory, not excluded.
pub open spec fn retained(e: RawEntry, exclusions: Seq<Seq<char>>) -> bool {
    !e.is_dir && !is_excluded(e.path@, exclusions)
}

/// The subsequence of walked entries that discovery keeps, in walk order.
pub open spec fn retained_seq(raw: Seq<RawEntry>, exclusions: Seq<Seq<char>>) -> Seq<RawEntry>
    decreases raw.len(),
{
    if raw.len() == 0 {
        Seq::empty()
    } else {
        let rest = retained_seq(raw.drop_last(), exclusions);
        if retained(raw.last(), exclusions) {
            rest.push(raw.last())
        } else {
            rest
        }
    }
}

/// Sum of the sizes of a sequence of walked entries.
pub open spec fn sum_sizes(s: Seq<RawEntry>) -> int
    decreases s.len(),
{
    if s.len() == 0 {
        0
    } else {
        sum_sizes(s.drop_last()) + s.last().size
    }
}

/// The identifiers of a sequence of retained files.
pub open spec fn ids_of(entries: Seq<FileEntry>) -> Seq<u64> {
    entries.map_values(|e: FileEntry| e.id)
}

/// Identifiers are pairwise distinct.
pub open spec fn ids_distinct(entries: Seq<FileEntry>) -> bool {
    forall|i: int, j: int|
        0 <= i < j < entries.len() ==> entries[i].id != entries[j].id
}

/// The index of the last occurrence of `c` in `s`, if any.
fn last_char_index(s: &str, c: char) -> (r: Option<usize>)
    ensures
        match r {
            Some(i) => i == last_index_of(s@, c),
            None => last_index_of(s@, c) == -1,
        },
{
    let n = s.unicode_len();
    let mut i = n;
    while i > 0
        invariant
            i <= n,
            n == s@.len(),
            forall|k: int| i <= k < s@.len() ==> s@[k] != c,
        decreases i,
    {
        i = i - 1;
        if s.get_char(i) == c {
            proof {
                lemma_last_index_of(s@, c);
            }
            return Some(i);
        }
    }
    proof {
        lemma_last_index_of(s@, c);
    }
    None
}

/// The extension of the final component of `path`, empty when there is none.
pub fn path_extension(path: &str) -> (ext: String)
    ensures
        ext@ == extension_of(path@),
{
    let n = path.unicode_len();
    proof {
        lemma_last_index_of(path@, '/');
    }
    let start: usize = match last_char_index(path, '/') {
        Some(i) => i + 1,
        None => 0,
    };
    let name: &str = path.substring_char(start, n);
    let m = name.unicode_len();
    proof {
        lemma_last_index_of(name@, '.');
    }
    match last_char_index(name, '.') {
        None => String::new(),
        Some(j) => {
            if j == 0 {
                String::new()
            } else {
                String::from_str(name.substring_char(j + 1, m))
            }
        },
    }
}

/// The default exclusion set: extensions of auxiliary release files.
pub fn default_exclusions() -> (v: Vec<String>)
    ensures
        v@.len() == 2,
        v@[0]@ == "sfv"@,
        v@[1]@ == "nfo"@,
{
    let mut v: Vec<String> = Vec::new();
    v.push(String::from_str("sfv"));
    v.push(String::from_str("nfo"));
    v
}

/// The views of the exclusion strings.
pub open spec fn exclusions_view(exclusions: Seq<String>) -> Seq<Seq<char>> {
    exclusions.map_values(|s: String| s@)
}

/// Whether `path`'s extension stands in `exclusions`.
pub fn excluded(path: &str, exclusions: &Vec<String>) -> (b: bool)
    ensures
        b == is_excluded(path@, exclusions_view(exclusions@)),
{
    let ext = path_extension(path);
    let mut k: usize = 0;
    while k < exclusions.len()
        invariant
            k <= exclusions.len(),
            ext@ == extension_of(path@),
            forall|t: int| 0 <= t < k ==> exclusions@[t]@ != ext@,
        decreases exclusions.len() - k,
    {
        if exclusions[k] == ext {
            assert(exclusions_view(exclusions@)[k as int] == extension_of(path@));
            return true;
        }
        k = k + 1;
    }
    false
}

/// Keeping or dropping one more walked entry extends the retained prefix.
proof fn lemma_retained_seq_step(raw: Seq<RawEntry>, exclusions: Seq<Seq<char>>, i: int)
    requires
        0 <= i < raw.len(),
    ensures
        retained_seq(raw.subrange(0, i + 1), exclusions) == if retained(
            raw[i],
            exclusions,
        ) {
            retained_seq(raw.subrange(0, i), exclusions).push(raw[i])
        } else {
            retained_seq(raw.subrange(0, i), exclusions)
        },
{
    let s = raw.subrange(0, i + 1);
    assert(s.drop_last() =~= raw.subrange(0, i));
    assert(s.last() == raw[i]);
}

/// The sizes kept from a prefix of the walk never exceed those of the whole.
proof fn lemma_retained_sum_prefix_le(raw: Seq<RawEntry>, exclusions: Seq<Seq<char>>, i: int)
    requires
        0 <= i <= raw.len(),
    ensures
        sum_sizes(retained_seq(raw.subrange(0, i), exclusions)) <= sum_sizes(
            retained_seq(raw, exclusions),
        ),
    decreases raw.len() - i,
{
    if i == raw.len() {
        assert(raw.subrange(0, i) =~= raw);
    } else {
        lemma_retained_sum_prefix_le(raw, exclusions, i + 1);
        lemma_retained_seq_step(raw, exclusions, i);
        let kept = retained_seq(raw.subrange(0, i), exclusions);
        if retained(raw[i], exclusions) {
            assert(kept.push(raw[i]).drop_last() =~= kept);
        }
    }
}

/// Discover the files to upload: keep every walked entry that is neither a
/// directory nor excluded by extension, give the `i`-th kept file the
/// identifier `i`, and sum the kept sizes into the progress denominator.
/// Fails exactly when that sum does not fit in a byte counter.
pub fn discover(raw: Vec<RawEntry>, exclusions: &Vec<String>) -> (r: Result<
    Discovery,
    DiscoveryError,
>)
    ensures
        ({
            let kept = retained_seq(raw@, exclusions_view(exclusions@));
            match r {
                Ok(d) => {
                    &&& d.entries@.len() == kept.len()
                    &&& forall|i: int|
                        0 <= i < kept.len() ==> {
                            &&& (#[trigger] d.entries@[i]).path@ == kept[i].path@
                            &&& d.entries@[i].size == kept[i].size
                            &&& d.entries@[i].id == i as u64
                        }
                    &&& ids_distinct(d.entries@)
                    &&& d.total_size as int == sum_sizes(kept)
                    &&& sum_sizes(kept) <= u64::MAX as int
                },
                Err(e) => {
                    &&& (e matches DiscoveryError::TotalSizeOverflow)
                    &&& sum_sizes(kept) > u64::MAX as int
                },
            }
        }),
{
    let ghost excl = exclusions_view(exclusions@);
    let mut entries: Vec<FileEntry> = Vec::new();
    let mut total_size: u64 = 0;
    let mut i: usize = 0;
    while i < raw.len()
        invariant
            i <= raw.len(),
            entries@.len() == retained_seq(raw@.subrange(0, i as int), excl).len(),
            forall|t: int|
                0 <= t < entries@.len() ==> {
                    &&& (#[trigger] entries@[t]).path@ == retained_seq(
                        raw@.subrange(0, i as int),
                        excl,
                    )[t].path@
                    &&& entries@[t].size == retained_seq(raw@.subrange(0, i as int), excl)[t].size
                    &&& entries@[t].id == t as u64
                },
            total_size as int == sum_sizes(retained_seq(raw@.subrange(0, i as int), excl)),
            excl == exclusions_view(exclusions@),
        decreases raw.len() - i,
    {
        proof {
            lemma_retained_seq_step(raw@, excl, i as int);
        }
        let ghost kept_before = retained_seq(raw@.subrange(0, i as int), excl);
        let e = &raw[i];
        if !e.is_dir && !excluded(e.path.as_str(), exclusions) {
            proof {
                assert(kept_before.push(raw@[i as int]).drop_last() =~= kept_before);
            }
            match total_size.checked_add(e.size) {
                Some(t) => {
                    total_size = t;
                },
                None => {
                    proof {
                        lemma_retained_sum_prefix_le(raw@, excl, i + 1);
                    }
                    return Err(DiscoveryError::TotalSizeOverflow);
                },
            }
            let id = entries.len() as u64;
            entries.push(FileEntry { id, path: e.path.clone(), size: e.size });
        }
        i = i + 1;
    }
    let n = entries.len();
    proof {
        assert(raw@.subrange(0, i as int) =~= raw@);
        assert(entries@.len() == n);
        assert forall|a: int, b: int|
            0 <= a < b < entries@.len() implies entries@[a].id != entries@[b].id by {
            assert(entries@[a].id == a as u64);
            assert(entries@[b].id == b as u64);
        }
    }
    Ok(Discovery { entries, total_size })
}

} // verus!
