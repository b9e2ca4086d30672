//! The files of a tree in the order in which a walk comes by them.

use crate::content::FileContent;
use crate::tree::{record, scan, scan_entries, Entry};
use vstd::prelude::*;

verus! {

/// The files that `entry` of a directory holds, each with its name and its
/// statistics, in the order of a walk. Files without a name or without
/// statistics are left out.
pub open spec fn visits_at(entry: Entry) -> Seq<(Seq<char>, FileContent)>
    decreases entry, 1nat,
{
    match entry {
        Entry::Directory { .. } => visits(entry),
        Entry::File { name: Some(name), outcome: Ok(content) } => seq![(name@, content)],
        _ => Seq::empty(),
    }
}

/// The files that the entries of a directory hold, in the order of a walk.
pub open spec fn visits_of(entries: Seq<Entry>) -> Seq<(Seq<char>, FileContent)>
    decreases entries, 0nat,
{
    if entries.len() == 0 {
        Seq::empty()
    } else {
        visits_of(entries.drop_last()) + visits_at(entries.last())
    }
}

/// The files below `root`, in the order of a walk: those of each directory
/// in the order of its entries, and those below a subdirectory where the
/// subdirectory stands.
pub open spec fn visits(root: Entry) -> Seq<(Seq<char>, FileContent)>
    decreases root, 0nat,
{
    match root {
        Entry::Directory { entries } => visits_of(entries@),
        _ => Seq::empty(),
    }
}

/// What is kept of a sequence of files when each is recorded under its name
/// in turn: for each name, the statistics of the last file of that name.
pub open spec fn kept(files: Seq<(Seq<char>, FileContent)>) -> Map<Seq<char>, FileContent>
    decreases files.len(),
{
    if files.len() == 0 {
        Map::empty()
    } else {
        kept(files.drop_last()).insert(files.last().0, files.last().1)
    }
}

/// Recording one sequence of files after another keeps what merging the
/// second's entries into the first's keeps.
pub proof fn lemma_kept_of_both(
    first: Seq<(Seq<char>, FileContent)>,
    second: Seq<(Seq<char>, FileContent)>,
)
    ensures
        kept(first + second) == kept(first).union_prefer_right(kept(second)),
    decreases second.len(),
{
    if second.len() == 0 {
        assert(first + second =~= first);
        assert(kept(first) =~= kept(first).union_prefer_right(kept(second)));
    } else {
        let both = first + second;
        assert(both.drop_last() =~= first + second.drop_last());
        assert(both.last() == second.last());
        lemma_kept_of_both(first, second.drop_last());
        assert(kept(both) =~= kept(first).union_prefer_right(kept(second)));
    }
}

/// A walk that merges what it finds below each subdirectory finds what is
/// kept when every file of the tree is recorded in the order of the walk: of
/// the files of one name, wherever they lie, the one that the walk comes by
/// last.
pub proof fn lemma_scan_keeps_last_visits(root: Entry)
    ensures
        scan(root) == kept(visits(root)),
    decreases root, 1nat,
{
    if let Entry::Directory { entries } = root {
        lemma_entries_keep_last_visits(entries@);
    }
}

/// The entries of a directory add up to what is kept of their files.
proof fn lemma_entries_keep_last_visits(entries: Seq<Entry>)
    ensures
        scan_entries(entries) == kept(visits_of(entries)),
    decreases entries, 0nat,
{
    if entries.len() > 0 {
        let before = entries.drop_last();
        let last = entries.last();
        let nothing = Seq::<(Seq<char>, FileContent)>::empty();
        lemma_entries_keep_last_visits(before);
        lemma_kept_of_both(visits_of(before), visits_at(last));
        assert(kept(nothing) == Map::<Seq<char>, FileContent>::empty());
        assert(scan_entries(entries) == record(scan_entries(before), last));
        assert(visits_of(entries) == visits_of(before) + visits_at(last));
        match last {
            Entry::Directory { .. } => {
                lemma_scan_keeps_last_visits(last);
            },
            Entry::File { name: Some(name), outcome: Ok(content) } => {
                let one = seq![(name@, content)];
                assert(one.drop_last() =~= nothing);
                assert(kept(one) == kept(nothing).insert(name@, content));
                assert(scan_entries(before).insert(name@, content) =~= scan_entries(
                    before,
                ).union_prefer_right(kept(one)));
            },
            _ => {
                assert(scan_entries(before) =~= scan_entries(before).union_prefer_right(
                    kept(nothing),
                ));
            },
        }
    }
}

} // verus!
