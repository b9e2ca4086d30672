//! A directory tree as it was found, and the walk that gathers the
//! statistics of its files.

use crate::content::{FileContent, ReadError};
use crate::scan::ScanResult;
use vstd::prelude::*;

verus! {

/// What was found at one path.
#[derive(Debug)]
pub enum Entry {
    /// A regular file: its name, where the path has one that is a text, and
    /// what came of analyzing it.
    File { name: Option<String>, outcome: Result<FileContent, ReadError> },
    /// A directory, with what was found at each of its entries, in the order
    /// in which they were listed.
    Directory { entries: Vec<Entry> },
    /// A directory whose entries could not be listed, or an entry of a
    /// directory at which the listing broke off.
    Unlisted,
    /// Neither a file nor a directory, or nothing at all.
    Other,
}

/// The failure of a walk: the entries of a directory could not be listed.
#[derive(Clone, Copy, Debug, PartialEq, Eq, Structural)]
pub struct DirectoryReadError;

/// The statistics found so far, after `entry` of a directory was visited.
///
/// A subdirectory adds what its own scan finds, a file that was analyzed and
/// has a name adds its statistics under that name, and either replaces what
/// was found under the same name before. A file that could not be analyzed
/// adds nothing, and neither does an entry that is no file and no directory.
pub open spec fn record(found: Map<Seq<char>, FileContent>, entry: Entry) -> Map<
    Seq<char>,
    FileContent,
>
    decreases entry, 1nat,
{
    match entry {
        Entry::Directory { .. } => found.union_prefer_right(scan(entry)),
        Entry::File { name: Some(name), outcome: Ok(content) } => found.insert(name@, content),
        _ => found,
    }
}

/// What the entries of a directory add up to, visited from first to last.
pub open spec fn scan_entries(entries: Seq<Entry>) -> Map<Seq<char>, FileContent>
    decreases entries, 0nat,
{
    if entries.len() == 0 {
        Map::empty()
    } else {
        record(scan_entries(entries.drop_last()), entries.last())
    }
}

/// The statistics of the files below `root`, by file name.
///
/// Only a directory is scanned: at a root that is a file, or neither, nothing
/// is found.
pub open spec fn scan(root: Entry) -> Map<Seq<char>, FileContent>
    decreases root, 0nat,
{
    match root {
        Entry::Directory { entries } => scan_entries(entries@),
        _ => Map::empty(),
    }
}

/// Whether a listing failed at `root` or anywhere below it.
pub open spec fn unlisted(root: Entry) -> bool
    decreases root,
{
    match root {
        Entry::Unlisted => true,
        Entry::Directory { entries } => exists|i: int|
            0 <= i < entries@.len() && unlisted(#[trigger] entries@[i]),
        _ => false,
    }
}

/// What a walk from `root` yields: the statistics of the files below it, or,
/// where a listing failed anywhere on the way, the failure and no
/// statistics at all.
pub open spec fn walk(root: Entry) -> Result<Map<Seq<char>, FileContent>, DirectoryReadError> {
    if unlisted(root) {
        Err(DirectoryReadError)
    } else {
        Ok(scan(root))
    }
}

/// Whether `outcome` says what `expected` does: the same failure, or a
/// result with the expected entries.
pub open spec fn yields(
    outcome: Result<ScanResult, DirectoryReadError>,
    expected: Result<Map<Seq<char>, FileContent>, DirectoryReadError>,
) -> bool {
    match outcome {
        Ok(found) => expected == Ok::<Map<Seq<char>, FileContent>, DirectoryReadError>(found@),
        Err(error) => expected == Err::<Map<Seq<char>, FileContent>, DirectoryReadError>(error),
    }
}

/// A directory's entries with one more visited add up to what `record`
/// makes of the sum before and the entry visited.
proof fn lemma_scan_next(entries: Seq<Entry>, n: int)
    requires
        0 <= n < entries.len(),
    ensures
        scan_entries(entries.take(n + 1)) == record(scan_entries(entries.take(n)), entries[n]),
{
    assert(entries.take(n + 1).drop_last() =~= entries.take(n));
}

/// Walks the tree below `root` and gathers the statistics of its files.
///
/// The entries of a directory are visited in their order. What a
/// subdirectory holds is gathered on its own and then merged into what was
/// found before it; a file's statistics are recorded under its name. A file
/// that could not be analyzed is passed over. A directory that could not be
/// listed ends the walk: the failure is returned, and nothing of what was
/// found until then.
pub fn visit_dirs(root: &Entry) -> (outcome: Result<ScanResult, DirectoryReadError>)
    ensures
        yields(outcome, walk(*root)),
    decreases root,
{
    let mut found = ScanResult::new();
    match root {
        Entry::Directory { entries } => {
            for n in 0..entries.len()
                invariant
                    root is Directory,
                    root->entries == *entries,
                    forall|i: int| 0 <= i < n ==> !unlisted(#[trigger] entries@[i]),
                    found@ == scan_entries(entries@.take(n as int)),
            {
                proof {
                    lemma_scan_next(entries@, n as int);
                    assert(decreases_to!(*root => root->entries));
                    assert(decreases_to!(entries@ => entries@[n as int]));
                }
                match &entries[n] {
                    Entry::Directory { .. } => {
                        match visit_dirs(&entries[n]) {
                            Ok(below) => {
                                found.merge(below);
                            },
                            Err(error) => {
                                return Err(error);
                            },
                        }
                    },
                    Entry::Unlisted => {
                        assert(unlisted(entries@[n as int]));
                        return Err(DirectoryReadError);
                    },
                    Entry::File { name: Some(name), outcome: Ok(content) } => {
                        found.insert(name.clone(), *content);
                    },
                    _ => {},
                }
            }
            proof {
                assert(entries@.take(entries@.len() as int) =~= entries@);
            }
            Ok(found)
        },
        Entry::Unlisted => Err(DirectoryReadError),
        _ => Ok(found),
    }
}

/// What one entry of a directory adds by itself.
pub open spec fn found_in(entry: Entry) -> Map<Seq<char>, FileContent> {
    record(Map::empty(), entry)
}

/// Whether a file was found that has no statistics.
pub open spec fn failed(entry: Entry) -> bool {
    entry matches Entry::File { outcome, .. } && outcome is Err
}

/// Visiting an entry puts what it adds by itself over what was found
/// before.
pub proof fn lemma_record_is_union(found: Map<Seq<char>, FileContent>, entry: Entry)
    ensures
        record(found, entry) == found.union_prefer_right(found_in(entry)),
{
    assert(record(found, entry) =~= found.union_prefer_right(found_in(entry)));
}

/// Nothing is found where there is nothing to scan: at a root that is no
/// directory, and in a directory without entries.
pub proof fn lemma_nothing_to_scan(root: Entry)
    requires
        !(root is Unlisted),
        root matches Entry::Directory { entries } ==> entries@.len() == 0,
    ensures
        walk(root) == Ok::<Map<Seq<char>, FileContent>, DirectoryReadError>(Map::empty()),
{
}

/// A walk finds a name exactly when some entry of the directory adds it.
pub proof fn lemma_found_names(root: Entry, name: Seq<char>)
    requires
        root is Directory,
        !unlisted(root),
    ensures
        walk(root) matches Ok(found) && (found.contains_key(name) <==> exists|i: int|
            0 <= i < root->entries@.len() && #[trigger] found_in(root->entries@[i]).contains_key(
                name,
            )),
{
    lemma_names_of_entries(root->entries@, name);
}

/// Files of one name share one entry, and the last one visited stays: where
/// several entries of a directory add statistics under the same name, be it
/// from files of their own or from files below different subdirectories, the
/// walk finds those of the last such entry.
pub proof fn lemma_last_found_stays(root: Entry, i: int, name: Seq<char>)
    requires
        root is Directory,
        !unlisted(root),
        0 <= i < root->entries@.len(),
        found_in(root->entries@[i]).contains_key(name),
        forall|j: int|
            i < j < root->entries@.len() ==> !#[trigger] found_in(root->entries@[j]).contains_key(
                name,
            ),
    ensures
        walk(root) matches Ok(found) && found.contains_key(name) && found[name] == found_in(
            root->entries@[i],
        )[name],
{
    lemma_last_of_entries(root->entries@, i, name);
}

/// A file that has no statistics leaves no trace and stops nothing: the walk
/// of a directory yields the same with the file as without it, so that its
/// siblings are found as if it were not there.
pub proof fn lemma_failed_file_is_passed_over(with: Entry, without: Entry, i: int)
    requires
        with is Directory,
        without is Directory,
        0 <= i < with->entries@.len(),
        failed(with->entries@[i]),
        without->entries@ == with->entries@.remove(i),
    ensures
        walk(with) == walk(without),
{
    let entries = with->entries@;
    let others = without->entries@;
    lemma_entries_without_failed(entries, i);
    if unlisted(with) {
        let j = choose|j: int| 0 <= j < entries.len() && unlisted(#[trigger] entries[j]);
        if j < i {
            assert(unlisted(others[j]));
        } else {
            assert(unlisted(others[j - 1]));
        }
    }
    if unlisted(without) {
        let j = choose|j: int| 0 <= j < others.len() && unlisted(#[trigger] others[j]);
        if j < i {
            assert(unlisted(entries[j]));
        } else {
            assert(unlisted(entries[j + 1]));
        }
    }
}

/// The entries of a directory add a name exactly when one of them does.
proof fn lemma_names_of_entries(entries: Seq<Entry>, name: Seq<char>)
    ensures
        scan_entries(entries).contains_key(name) <==> exists|i: int|
            0 <= i < entries.len() && #[trigger] found_in(entries[i]).contains_key(name),
    decreases entries.len(),
{
    if entries.len() > 0 {
        let before = entries.drop_last();
        let last = entries.len() - 1;
        lemma_record_is_union(scan_entries(before), entries[last]);
        lemma_names_of_entries(before, name);
        if scan_entries(before).contains_key(name) {
            let i = choose|i: int|
                0 <= i < before.len() && #[trigger] found_in(before[i]).contains_key(name);
            assert(found_in(entries[i]).contains_key(name));
        }
        if exists|i: int|
            0 <= i < entries.len() && #[trigger] found_in(entries[i]).contains_key(name) {
            let i = choose|i: int|
                0 <= i < entries.len() && #[trigger] found_in(entries[i]).contains_key(name);
            if i < last {
                assert(found_in(before[i]).contains_key(name));
            }
        }
    }
}

/// Of the entries that add a name, the last one decides what is found
/// under it.
proof fn lemma_last_of_entries(entries: Seq<Entry>, i: int, name: Seq<char>)
    requires
        0 <= i < entries.len(),
        found_in(entries[i]).contains_key(name),
        forall|j: int| i < j < entries.len() ==> !#[trigger] found_in(entries[j]).contains_key(name),
    ensures
        scan_entries(entries).contains_key(name),
        scan_entries(entries)[name] == found_in(entries[i])[name],
    decreases entries.len(),
{
    let before = entries.drop_last();
    let last = entries.len() - 1;
    lemma_record_is_union(scan_entries(before), entries[last]);
    if i < last {
        assert(!found_in(entries[last]).contains_key(name));
        assert(before[i] == entries[i]);
        assert forall|j: int| i < j < before.len() implies !#[trigger] found_in(
            before[j],
        ).contains_key(name) by {
            assert(before[j] == entries[j]);
        }
        lemma_last_of_entries(before, i, name);
    }
}

/// The entries of a directory add up to the same without a file among them
/// that has no statistics.
proof fn lemma_entries_without_failed(entries: Seq<Entry>, i: int)
    requires
        0 <= i < entries.len(),
        failed(entries[i]),
    ensures
        scan_entries(entries) == scan_entries(entries.remove(i)),
    decreases entries.len(),
{
    let before = entries.drop_last();
    let last = entries.len() - 1;
    let without = entries.remove(i);
    if i == last {
        assert(without =~= before);
        assert(record(scan_entries(before), entries[last]) == scan_entries(before));
    } else {
        lemma_entries_without_failed(before, i);
        assert(without.drop_last() =~= before.remove(i));
        assert(without.last() == entries[last]);
        assert(scan_entries(without) == record(scan_entries(without.drop_last()), without.last()));
    }
}

} // verus!
