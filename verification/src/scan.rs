//! The statistics of many files, kept by file name.

use crate::content::FileContent;
use vstd::hash_map::StringHashMap;
use vstd::prelude::*;

verus! {

/// Whether the entry at position `i` of `entries` is for the file called `name`.
pub open spec fn entry_at(entries: Seq<(String, FileContent)>, i: int, name: Seq<char>) -> bool {
    0 <= i < entries.len() && entries[i].0@ == name
}

/// Whether `entries` holds the entries of `map`, each of them once.
pub open spec fn enumerates(
    entries: Seq<(String, FileContent)>,
    map: Map<Seq<char>, FileContent>,
) -> bool {
    &&& map.dom().finite()
    &&& entries.len() == map.len()
    &&& forall|i: int|
        0 <= i < entries.len() ==> map.contains_key((#[trigger] entries[i]).0@) && map[entries[i].0@]
            == entries[i].1
    &&& forall|i: int, j: int|
        0 <= i < j < entries.len() ==> (#[trigger] entries[i]).0@ != (#[trigger] entries[j]).0@
    &&& forall|name: Seq<char>| #[trigger]
        map.contains_key(name) ==> exists|i: int| entry_at(entries, i, name)
}

/// The statistics of the files found by a scan, one entry for each file name.
///
/// A file name is the last component of a path, so files of the same name in
/// different directories share one entry: the one recorded last stays.
pub struct ScanResult {
    stats: StringHashMap<FileContent>,
    names: Vec<String>,
}

impl View for ScanResult {
    type V = Map<Seq<char>, FileContent>;

    closed spec fn view(&self) -> Map<Seq<char>, FileContent> {
        self.stats@
    }
}

impl ScanResult {
    /// The names list every key of the map once.
    #[verifier::type_invariant]
    spec fn well_formed(&self) -> bool {
        distinct(self.names@) && lists(self.names@, self.stats@)
    }

    /// A result without entries.
    pub fn new() -> (result: ScanResult)
        ensures
            result@ == Map::<Seq<char>, FileContent>::empty(),
    {
        ScanResult { stats: StringHashMap::new(), names: Vec::new() }
    }

    /// The number of entries.
    pub fn len(&self) -> (count: usize)
        ensures
            self@.dom().finite(),
            count == self@.len(),
    {
        proof {
            use_type_invariant(self);
            lemma_listing_counts(self.names@, self.stats@);
        }
        self.names.len()
    }

    /// Whether there is no entry.
    pub fn is_empty(&self) -> (empty: bool)
        ensures
            empty <==> self@ == Map::<Seq<char>, FileContent>::empty(),
    {
        proof {
            use_type_invariant(self);
            lemma_listing_counts(self.names@, self.stats@);
            if self.names@.len() == 0 {
                assert(self@ =~= Map::<Seq<char>, FileContent>::empty());
            }
        }
        self.names.len() == 0
    }

    /// The statistics recorded for the file called `name`, if any are.
    pub fn get(&self, name: &str) -> (found: Option<FileContent>)
        ensures
            found == if self@.contains_key(name@) {
                Some(self@[name@])
            } else {
                None
            },
    {
        match self.stats.get(name) {
            Some(content) => Some(*content),
            None => None,
        }
    }

    /// Records the statistics of the file called `name`, in place of any
    /// recorded under that name before.
    pub fn insert(&mut self, name: String, content: FileContent)
        ensures
            final(self)@ == old(self)@.insert(name@, content),
    {
        let mut taken = ScanResult::new();
        std::mem::swap(self, &mut taken);
        proof {
            use_type_invariant(&taken);
        }
        let ScanResult { mut stats, mut names } = taken;
        proof {
            lemma_insert_keeps_listing(
                names@,
                stats@,
                if stats@.contains_key(name@) {
                    names@
                } else {
                    names@.push(name)
                },
                name,
                content,
            );
        }
        if !stats.contains_key(name.as_str()) {
            names.push(name.clone());
        }
        stats.insert(name, content);
        *self = ScanResult { stats, names };
    }

    /// Takes over every entry of `other`. Where both hold an entry for a
    /// name, the one of `other` stays.
    pub fn merge(&mut self, other: ScanResult)
        ensures
            final(self)@ == old(self)@.union_prefer_right(other@),
    {
        let mut taken = ScanResult::new();
        std::mem::swap(self, &mut taken);
        proof {
            use_type_invariant(&taken);
            use_type_invariant(&other);
        }
        let ScanResult { mut stats, mut names } = taken;
        let ScanResult { stats: other_stats, names: other_names } = other;
        assert(covers(names@, stats@, other_names@, 0)) by {
            assert forall|name: Seq<char>| #[trigger]
                listed(names@, name) <==> stats@.contains_key(name) || named_before(
                    other_names@,
                    0,
                    name,
                ) by {
                assert(stats@.contains_key(name) <==> listed(names@, name));
            }
        }
        for n in 0..other_names.len()
            invariant
                distinct(other_names@),
                distinct(names@),
                covers(names@, stats@, other_names@, n as int),
        {
            proof {
                lemma_merge_step(
                    names@,
                    stats@,
                    other_names@,
                    n as int,
                    if stats@.contains_key(other_names@[n as int]@) {
                        names@
                    } else {
                        names@.push(other_names@[n as int])
                    },
                );
            }
            let name = &other_names[n];
            if !stats.contains_key(name.as_str()) {
                names.push(name.clone());
            }
        }
        proof {
            lemma_merge_done(names@, stats@, other_names@, other_stats@);
        }
        stats.union_prefer_right(other_stats);
        *self = ScanResult { stats, names };
    }

    /// The entries, each file name with its statistics, in no order that
    /// callers may rely on.
    pub fn entries(&self) -> (entries: Vec<(String, FileContent)>)
        ensures
            enumerates(entries@, self@),
    {
        proof {
            use_type_invariant(self);
        }
        let mut entries: Vec<(String, FileContent)> = Vec::new();
        for n in 0..self.names.len()
            invariant
                lists(self.names@, self.stats@),
                entries@.len() == n,
                forall|i: int|
                    #![trigger entries@[i]]
                    0 <= i < entries@.len() ==> {
                        &&& entries@[i].0@ == self.names@[i]@
                        &&& self.stats@.contains_key(self.names@[i]@)
                        &&& entries@[i].1 == self.stats@[self.names@[i]@]
                    },
        {
            let name = &self.names[n];
            proof {
                assert(n < self.names@.len() && named_at(self.names@, n as int, name@));
                assert(self.stats@.contains_key(name@) <==> listed(self.names@, name@));
            }
            if let Some(content) = self.stats.get(name.as_str()) {
                entries.push((name.clone(), *content));
            }
        }
        proof {
            lemma_listing_counts(self.names@, self.stats@);
            assert forall|i: int, j: int| 0 <= i < j < entries@.len() implies (#[trigger] entries@[i]).0@
                != (#[trigger] entries@[j]).0@ by {
                assert(!named_at(self.names@, j, self.names@[i]@));
            }
            assert forall|name: Seq<char>| #[trigger] self@.contains_key(name) implies exists|i: int|
                entry_at(entries@, i, name) by {
                assert(self.stats@.contains_key(name) <==> listed(self.names@, name));
                let i = choose|i: int| i < self.names@.len() && named_at(self.names@, i, name);
                assert(entry_at(entries@, i, name));
            }
        }
        entries
    }
}

/// Whether `name` stands at position `i` of `names`.
spec fn named_at(names: Seq<String>, i: int, name: Seq<char>) -> bool {
    0 <= i < names.len() && names[i]@ == name
}

/// Whether `name` stands among the first `n` of `names`.
spec fn named_before(names: Seq<String>, n: int, name: Seq<char>) -> bool {
    exists|i: int| i < n && named_at(names, i, name)
}

/// Whether `name` stands in `names`.
spec fn listed(names: Seq<String>, name: Seq<char>) -> bool {
    named_before(names, names.len() as int, name)
}

/// Whether no two positions of `names` hold the same name.
spec fn distinct(names: Seq<String>) -> bool {
    forall|i: int, j: int| 0 <= i < j < names.len() ==> !#[trigger] named_at(names, j, names[i]@)
}

/// Whether `names` holds exactly the keys of `stats`.
spec fn lists(names: Seq<String>, stats: Map<Seq<char>, FileContent>) -> bool {
    forall|name: Seq<char>|
        #![trigger stats.contains_key(name)]
        #![trigger listed(names, name)]
        stats.contains_key(name) <==> listed(names, name)
}

/// Whether `names` holds exactly the keys of `stats` and the first `n` names
/// of `other`.
spec fn covers(
    names: Seq<String>,
    stats: Map<Seq<char>, FileContent>,
    other: Seq<String>,
    n: int,
) -> bool {
    forall|name: Seq<char>| #[trigger]
        listed(names, name) <==> stats.contains_key(name) || named_before(other, n, name)
}

/// One more name is among those before the next position: the one that
/// stands at the position.
proof fn lemma_named_before_next(names: Seq<String>, n: int, name: Seq<char>)
    requires
        0 <= n < names.len(),
    ensures
        named_before(names, n + 1, name) <==> named_before(names, n, name) || names[n]@ == name,
{
    if named_before(names, n + 1, name) {
        let i = choose|i: int| i < n + 1 && named_at(names, i, name);
        if i < n {
            assert(named_before(names, n, name));
        }
    }
    if named_before(names, n, name) {
        let i = choose|i: int| i < n && named_at(names, i, name);
        assert(i < n + 1 && named_at(names, i, name));
    }
    if names[n]@ == name {
        assert(n < n + 1 && named_at(names, n, name));
    }
}

/// What a list of names holds after one more name is put at its end.
proof fn lemma_listed_push(names: Seq<String>, added: String, name: Seq<char>)
    ensures
        listed(names.push(added), name) <==> listed(names, name) || added@ == name,
{
    let grown = names.push(added);
    let n = names.len() as int;
    lemma_named_before_next(grown, n, name);
    if named_before(grown, n, name) {
        let i = choose|i: int| i < n && named_at(grown, i, name);
        assert(i < n && named_at(names, i, name));
    }
    if named_before(names, n, name) {
        let i = choose|i: int| i < n && named_at(names, i, name);
        assert(i < n && named_at(grown, i, name));
    }
}

/// A list of distinct names stays one when a name that it lacks is put at its
/// end.
proof fn lemma_distinct_push(names: Seq<String>, added: String)
    requires
        distinct(names),
        !listed(names, added@),
    ensures
        distinct(names.push(added)),
{
    let grown = names.push(added);
    assert forall|i: int, j: int| 0 <= i < j < grown.len() implies !#[trigger] named_at(
        grown,
        j,
        grown[i]@,
    ) by {
        if j == names.len() {
            assert(!(i < names.len() && named_at(names, i, added@)));
        } else {
            assert(!named_at(names, j, names[i]@));
        }
    }
}

/// A listing stays one when an entry is put into the map and its name, if it
/// is new, at the end of the names.
proof fn lemma_insert_keeps_listing(
    names: Seq<String>,
    stats: Map<Seq<char>, FileContent>,
    grown: Seq<String>,
    name: String,
    content: FileContent,
)
    requires
        distinct(names),
        lists(names, stats),
        grown == if stats.contains_key(name@) {
            names
        } else {
            names.push(name)
        },
    ensures
        distinct(grown),
        lists(grown, stats.insert(name@, content)),
{
    if !stats.contains_key(name@) {
        lemma_distinct_push(names, name);
    }
    assert forall|key: Seq<char>|
        stats.insert(name@, content).contains_key(key) <==> listed(grown, key) by {
        assert(stats.contains_key(key) <==> listed(names, key));
        assert(stats.contains_key(name@) <==> listed(names, name@));
        lemma_listed_push(names, name, key);
    }
}

/// While the names of another listing are taken over one by one, each where
/// it is new, the names stay distinct and hold what they held and what was
/// taken over.
proof fn lemma_merge_step(
    names: Seq<String>,
    stats: Map<Seq<char>, FileContent>,
    other: Seq<String>,
    n: int,
    grown: Seq<String>,
)
    requires
        0 <= n < other.len(),
        distinct(names),
        distinct(other),
        covers(names, stats, other, n),
        grown == if stats.contains_key(other[n]@) {
            names
        } else {
            names.push(other[n])
        },
    ensures
        distinct(grown),
        covers(grown, stats, other, n + 1),
{
    let added = other[n];
    assert(listed(names, added@) <==> stats.contains_key(added@) || named_before(
        other,
        n,
        added@,
    ));
    if named_before(other, n, added@) {
        let i = choose|i: int| i < n && named_at(other, i, added@);
        assert(!named_at(other, n, other[i]@));
    }
    if !stats.contains_key(added@) {
        lemma_distinct_push(names, added);
    }
    assert forall|key: Seq<char>| #[trigger]
        listed(grown, key) <==> stats.contains_key(key) || named_before(other, n + 1, key) by {
        assert(listed(names, key) <==> stats.contains_key(key) || named_before(other, n, key));
        lemma_named_before_next(other, n, key);
        lemma_listed_push(names, added, key);
    }
}

/// Once all names of another listing are taken over, the names list the
/// union of the two maps.
proof fn lemma_merge_done(
    names: Seq<String>,
    stats: Map<Seq<char>, FileContent>,
    other: Seq<String>,
    other_stats: Map<Seq<char>, FileContent>,
)
    requires
        covers(names, stats, other, other.len() as int),
        lists(other, other_stats),
    ensures
        lists(names, stats.union_prefer_right(other_stats)),
{
    assert forall|key: Seq<char>|
        stats.union_prefer_right(other_stats).contains_key(key) <==> listed(names, key) by {
        assert(listed(names, key) <==> stats.contains_key(key) || named_before(
            other,
            other.len() as int,
            key,
        ));
        assert(other_stats.contains_key(key) <==> listed(other, key));
    }
}

/// The names as plain texts.
spec fn texts(names: Seq<String>) -> Seq<Seq<char>> {
    names.map_values(|name: String| name@)
}

/// A map whose keys are listed has finitely many keys, as many as there are
/// names.
proof fn lemma_listing_counts(names: Seq<String>, stats: Map<Seq<char>, FileContent>)
    requires
        distinct(names),
        lists(names, stats),
    ensures
        stats.dom().finite(),
        stats.len() == names.len(),
{
    let keys = texts(names);
    assert forall|i: int, j: int|
        0 <= i < keys.len() && 0 <= j < keys.len() && i != j implies keys[i] != keys[j] by {
        if i < j {
            assert(!named_at(names, j, names[i]@));
        } else {
            assert(!named_at(names, i, names[j]@));
        }
    }
    assert forall|key: Seq<char>| stats.dom().contains(key) <==> keys.to_set().contains(key) by {
        assert(stats.contains_key(key) <==> listed(names, key));
        if listed(names, key) {
            let i = choose|i: int| i < names.len() && named_at(names, i, key);
            assert(keys[i] == key);
        }
        if keys.to_set().contains(key) {
            let i = choose|i: int| 0 <= i < keys.len() && keys[i] == key;
            assert(i < names.len() && named_at(names, i, key));
        }
    }
    assert(stats.dom() =~= keys.to_set());
    keys.unique_seq_to_set();
    vstd::seq_lib::seq_to_set_is_finite(keys);
}

} // verus!
