//! A copy, held in memory, of the two tables that the graph view reads.

use vstd::prelude::*;
use crate::order::{bytes_before, compare_bytes, lemma_before_irreflexive, Rank};
use crate::table::{ascending, listed, Entry};

verus! {

/// The table that a list of entries stands for.
pub open spec fn table_of(entries: Seq<Entry>) -> Map<Seq<u8>, Seq<u8>> {
    Map::new(
        |key: Seq<u8>| listed(entries, key) is Some,
        |key: Seq<u8>| listed(entries, key)->0,
    )
}

/// In an ascending list the entry at `i` is the one listed under its key.
pub proof fn lemma_listed_at(entries: Seq<Entry>, i: int)
    requires
        ascending(entries),
        0 <= i < entries.len(),
    ensures
        listed(entries, entries[i].key@) == Some(entries[i].value@),
{
    let key = entries[i].key@;
    let j = choose|j: int| 0 <= j < entries.len() && entries[j].key@ == key;
    lemma_before_irreflexive(key);
    if j < i {
        assert(bytes_before(entries[j].key@, entries[i].key@));
    } else if i < j {
        assert(bytes_before(entries[i].key@, entries[j].key@));
    }
}

/// A list of a table stands for that table.
pub proof fn lemma_lists_table(entries: Seq<Entry>, contents: Map<Seq<u8>, Seq<u8>>)
    requires
        crate::table::lists(entries, contents),
    ensures
        table_of(entries) == contents,
{
    assert forall|key: Seq<u8>| #[trigger]
        table_of(entries).contains_key(key) == contents.contains_key(key) && (contents.contains_key(
            key,
        ) ==> table_of(entries)[key] == contents[key]) by {
        assert(contents.get(key) == listed(entries, key));
    }
    assert(table_of(entries) =~= contents);
}

/// Whether a list of entries is in strictly ascending key order.
pub fn is_ascending(entries: &Vec<Entry>) -> (r: bool)
    ensures
        r == ascending(entries@),
{
    if entries.len() < 2 {
        return true;
    }
    let mut i: usize = 1;
    while i < entries.len()
        invariant
            1 <= i <= entries.len(),
            forall|a: int, b: int|
                0 <= a < b < i ==> bytes_before(
                    #[trigger] entries@[a].key@,
                    #[trigger] entries@[b].key@,
                ),
        decreases entries.len() - i,
    {
        match compare_bytes(entries[i - 1].key.as_slice(), entries[i].key.as_slice()) {
            Rank::Before => {},
            _ => {
                assert(!bytes_before(entries@[i - 1].key@, entries@[i as int].key@));
                return false;
            },
        }
        proof {
            assert forall|a: int, b: int| 0 <= a < b < i + 1 implies bytes_before(
                #[trigger] entries@[a].key@,
                #[trigger] entries@[b].key@,
            ) by {
                if b == i && a < i - 1 {
                    crate::order::lemma_before_transitive(
                        entries@[a].key@,
                        entries@[i - 1].key@,
                        entries@[i as int].key@,
                    );
                }
            }
        }
        i += 1;
    }
    true
}

/// The place of the entry with the given key in an ascending list.
fn find_entry(entries: &Vec<Entry>, key: &[u8]) -> (r: Option<usize>)
    requires
        ascending(entries@),
    ensures
        match r {
            Some(i) => {
                &&& i < entries.len()
                &&& entries@[i as int].key@ == key@
                &&& listed(entries@, key@) == Some(entries@[i as int].value@)
            },
            None => listed(entries@, key@) is None,
        },
{
    let mut i: usize = 0;
    while i < entries.len()
        invariant
            ascending(entries@),
            i <= entries.len(),
            forall|j: int| 0 <= j < i ==> entries@[j].key@ != key@,
        decreases entries.len() - i,
    {
        match compare_bytes(entries[i].key.as_slice(), key) {
            Rank::Same => {
                proof {
                    lemma_listed_at(entries@, i as int);
                }
                return Some(i);
            },
            _ => {},
        }
        i += 1;
    }
    None
}

/// The hash-to-identifier table and the parent-to-children table, as they
/// were when they were read.
#[derive(Debug)]
pub struct GraphTables {
    names: Vec<Entry>,
    children: Vec<Entry>,
}

impl GraphTables {
    #[verifier::type_invariant]
    spec fn well_formed(&self) -> bool {
        ascending(self.names@) && ascending(self.children@)
    }

    /// The identifier bytes of each mapped key.
    pub closed spec fn names(&self) -> Map<Seq<u8>, Seq<u8>> {
        table_of(self.names@)
    }

    /// The stored set of children of each key.
    pub closed spec fn children(&self) -> Map<Seq<u8>, Seq<u8>> {
        table_of(self.children@)
    }

    /// The tables that two lists of entries stand for; none unless both
    /// lists are in strictly ascending key order.
    pub fn new(names: Vec<Entry>, children: Vec<Entry>) -> (r: Option<GraphTables>)
        ensures
            match r {
                Some(tables) => {
                    &&& ascending(names@)
                    &&& ascending(children@)
                    &&& tables.names() == table_of(names@)
                    &&& tables.children() == table_of(children@)
                },
                None => !(ascending(names@) && ascending(children@)),
            },
    {
        if is_ascending(&names) && is_ascending(&children) {
            Some(GraphTables { names, children })
        } else {
            None
        }
    }

    /// The identifier bytes of a key, if it is mapped.
    pub fn name_of(&self, key: &[u8]) -> (r: Option<&Vec<u8>>)
        ensures
            match r {
                Some(bytes) => self.names().get(key@) == Some(bytes@),
                None => self.names().get(key@) is None,
            },
    {
        proof {
            use_type_invariant(self);
        }
        match find_entry(&self.names, key) {
            Some(i) => Some(&self.names[i].value),
            None => None,
        }
    }

    /// The stored set of children of a key, if it has one.
    pub fn children_of(&self, key: &[u8]) -> (r: Option<&Vec<u8>>)
        ensures
            match r {
                Some(bytes) => self.children().get(key@) == Some(bytes@),
                None => self.children().get(key@) is None,
            },
    {
        proof {
            use_type_invariant(self);
        }
        match find_entry(&self.children, key) {
            Some(i) => Some(&self.children[i].value),
            None => None,
        }
    }

    /// How many keys have a stored set of children.
    pub fn parent_count(&self) -> (n: usize)
        ensures
            n == self.parent_keys().len(),
    {
        self.children.len()
    }

    /// The keys that have a stored set of children, in ascending order.
    pub closed spec fn parent_keys(&self) -> Seq<Seq<u8>> {
        self.children@.map_values(|entry: Entry| entry.key@)
    }

    /// The `i`-th key that has a stored set of children.
    pub fn parent_key(&self, i: usize) -> (key: &Vec<u8>)
        requires
            i < self.parent_keys().len(),
        ensures
            key@ == self.parent_keys()[i as int],
            self.children().contains_key(key@),
    {
        proof {
            use_type_invariant(self);
            lemma_listed_at(self.children@, i as int);
        }
        &self.children[i].key
    }

    /// Every key with a stored set of children is among `parent_keys`.
    pub proof fn lemma_parent_listed(&self, key: Seq<u8>)
        requires
            self.children().contains_key(key),
        ensures
            self.parent_keys().contains(key),
    {
        let i = choose|i: int| 0 <= i < self.children@.len() && self.children@[i].key@ == key;
        assert(self.parent_keys()[i] == key);
    }
}

} // verus!
