//! Result reporting: join the collected results back to the original paths
//! and produce one line per successfully uploaded file.
//!
//! Lines come out in the order the results were collected — completion
//! order, which no caller may rely on as a filesystem order. Every line
//! pairs the remote reference of one result with the path of the discovered
//! entry carrying that result's identifier, so no line can name a file that
//! discovery never saw.

use vstd::prelude::*;

use crate::discovery::{ids_distinct, ids_of, FileEntry};
use crate::model::{last_index_of, lemma_last_index_of};
use crate::scheduler::UploadResult;

verus! {

/// One line of the final report.
pub struct ReportLine {
    /// The uploaded file's original path.
    pub path: String,
    /// The remote reference under which it can now be reached.
    pub remote_reference: String,
}

/// The entry index a result with identifier `id` refers to.
pub open spec fn entry_index_of(entries: Seq<FileEntry>, id: u64) -> int {
    last_index_of(ids_of(entries), id)
}

/// The index of the entry whose identifier is `id`, if there is one.
fn find_entry(entries: &Vec<FileEntry>, id: u64) -> (r: Option<usize>)
    ensures
        match r {
            Some(i) => i == entry_index_of(entries@, id),
            None => entry_index_of(entries@, id) == -1,
        },
{
    let n = entries.len();
    let mut i = n;
    while i > 0
        invariant
            i <= n,
            n == entries@.len(),
            forall|k: int| i <= k < entries@.len() ==> ids_of(entries@)[k] != id,
        decreases i,
    {
        i = i - 1;
        proof {
            assert(ids_of(entries@)[i as int] == entries@[i as int].id);
        }
        if entries[i].id == id {
            proof {
                lemma_last_index_of(ids_of(entries@), id);
            }
            return Some(i);
        }
    }
    proof {
        lemma_last_index_of(ids_of(entries@), id);
    }
    None
}

/// One report line per result, in result order: the result's remote
/// reference beside the path of the discovered entry with its identifier.
pub fn report(entries: &Vec<FileEntry>, results: &Vec<UploadResult>) -> (lines: Vec<ReportLine>)
    requires
        ids_distinct(entries@),
        forall|i: int|
            0 <= i < results@.len() ==> ids_of(entries@).contains((#[trigger] results@[i]).id),
    ensures
        lines@.len() == results@.len(),
        forall|i: int|
            0 <= i < results@.len() ==> 0 <= entry_index_of(
                entries@,
                (#[trigger] results@[i]).id,
            ) < entries@.len(),
        forall|i: int|
            0 <= i < results@.len() ==> {
                &&& (#[trigger] lines@[i]).path@ == entries@[entry_index_of(
                    entries@,
                    results@[i].id,
                )].path@
                &&& lines@[i].remote_reference@ == results@[i].remote_reference@
            },
{
    proof {
        assert(ids_of(entries@).len() == entries@.len());
        assert forall|t: int|
            0 <= t < results@.len() implies 0 <= entry_index_of(
            entries@,
            (#[trigger] results@[t]).id,
        ) < entries@.len() by {
            lemma_last_index_of(ids_of(entries@), results@[t].id);
            assert(ids_of(entries@).contains(results@[t].id));
        }
    }
    let mut lines: Vec<ReportLine> = Vec::new();
    let mut i: usize = 0;
    while i < results.len()
        invariant
            i <= results.len(),
            lines@.len() == i,
            ids_distinct(entries@),
            forall|t: int|
                0 <= t < results@.len() ==> ids_of(entries@).contains((#[trigger] results@[t]).id),
            forall|t: int|
                0 <= t < results@.len() ==> 0 <= entry_index_of(
                    entries@,
                    (#[trigger] results@[t]).id,
                ) < entries@.len(),
            forall|t: int|
                0 <= t < i ==> {
                    &&& (#[trigger] lines@[t]).path@ == entries@[entry_index_of(
                        entries@,
                        results@[t].id,
                    )].path@
                    &&& lines@[t].remote_reference@ == results@[t].remote_reference@
                },
        decreases results.len() - i,
    {
        let r = &results[i];
        proof {
            lemma_last_index_of(ids_of(entries@), r.id);
        }
        match find_entry(entries, r.id) {
            Some(j) => {
                lines.push(
                    ReportLine {
                        path: entries[j].path.clone(),
                        remote_reference: r.remote_reference.clone(),
                    },
                );
                proof {
                    let t = i as int;
                    assert(ids_of(entries@).len() == entries@.len());
                    assert(entry_index_of(entries@, results@[t].id) == j as int);
                    assert(j < entries.len());
                    assert(lines@[t].path@ == entries@[j as int].path@);
                    assert(lines@[t].remote_reference@ == results@[t].remote_reference@);
                }
            },
            None => {
                proof {
                    assert(ids_of(entries@).contains(results@[i as int].id));
                    assert(false);
                }
            },
        }
        i = i + 1;
    }
    lines
}

} // verus!
