//! The graph store: three tables keyed by room key, and the operations
//! that read and extend them.

use vstd::prelude::*;
use vstd::string::*;
use tokio::sync::watch::Sender;
use crate::api::{SSEJson, SSEJsonView};
use crate::identity::{
    hash, key_bytes, key_of, lemma_key_of_injective, present_texts, spec_hash,
};
use crate::rooms::{live_update, room_denied, spec_live_update, JoinedRoom, MemberCount};
use crate::snapshot::{lemma_lists_table, GraphTables};
use crate::table::{
    lists, tree_append, tree_contains_key, tree_contents, tree_entries, tree_flush, tree_get,
    tree_insert, Entry,
};
use crate::wire::{
    appended_value, decode_members, decoded_set, encoded_set, has_member, lemma_appended,
    lemma_decode_encode, lemma_encoded_len, lemma_with_member_contains, readable, stored_members,
    with_member,
};

verus! {

/// The sending half of a single-slot channel.
#[verifier::external_type_specification]
#[verifier::external_body]
#[verifier::reject_recursive_types(T)]
pub struct ExSender<T>(Sender<T>);

/// The value that the live update channel currently holds.
pub uninterp spec fn watched(tx: Sender<Option<SSEJson>>) -> Option<SSEJsonView>;

/// Calls `tokio::sync::watch::Sender::send`. With a receiver alive the
/// channel holds the new value afterwards; with none the call fails and the
/// channel holds what it held before.
#[verifier::external_body]
fn watch_send(tx: &mut Sender<Option<SSEJson>>, update: SSEJson) -> (sent: bool)
    ensures
        watched(*final(tx)) == if sent {
            Some(update@)
        } else {
            watched(*old(tx))
        },
{
    tx.send(Some(update)).is_ok()
}

/// Why an operation on the store failed.
#[derive(Clone, Copy, Debug, PartialEq, Eq, Structural)]
pub enum StoreError {
    /// The storage layer reported a failure.
    Storage,
    /// A stored adjacency set is malformed, or holds as many keys as its
    /// length can count.
    Corrupt,
}

/// The two directions in which an edge is stored.
#[derive(Clone, Copy, Debug, PartialEq, Eq, Structural)]
pub enum Direction {
    ParentToChild,
    ChildToParent,
}

impl Direction {
    /// The other direction.
    pub open spec fn reverse(self) -> Direction {
        match self {
            Direction::ParentToChild => Direction::ChildToParent,
            Direction::ChildToParent => Direction::ParentToChild,
        }
    }
}

/// What the store holds: the identifier bytes of each mapped key, the
/// stored set of children and of parents of each key, and the live update
/// that the channel holds.
pub struct GraphState {
    pub names: Map<Seq<u8>, Seq<u8>>,
    pub children: Map<Seq<u8>, Seq<u8>>,
    pub parents: Map<Seq<u8>, Seq<u8>>,
    pub latest: Option<SSEJsonView>,
}

impl GraphState {
    /// Whether a key has an identifier.
    pub open spec fn knows(self, hash: u128) -> bool {
        self.names.contains_key(key_of(hash))
    }

    /// The table of one direction.
    pub open spec fn table(self, direction: Direction) -> Map<Seq<u8>, Seq<u8>> {
        match direction {
            Direction::ParentToChild => self.children,
            Direction::ChildToParent => self.parents,
        }
    }

    /// The children recorded for a key.
    pub open spec fn children_of(self, parent: u128) -> Seq<u128> {
        stored_members(self.children.get(key_of(parent)))
    }

    /// The parents recorded for a key.
    pub open spec fn parents_of(self, child: u128) -> Seq<u128> {
        stored_members(self.parents.get(key_of(child)))
    }

    /// The edge is recorded in both directions.
    pub open spec fn has_edge(self, parent: u128, child: u128) -> bool {
        self.children_of(parent).contains(child) && self.parents_of(child).contains(parent)
    }

    /// The two stored sets that an edge touches can be read.
    pub open spec fn edge_readable(self, parent: u128, child: u128) -> bool {
        readable(self.children.get(key_of(parent))) && readable(self.parents.get(key_of(child)))
    }

    /// Every edge is recorded in both directions or in neither.
    pub open spec fn symmetric(self) -> bool {
        forall|parent: u128, child: u128|
            #[trigger] self.children_of(parent).contains(child) <==> #[trigger] self.parents_of(
                child,
            ).contains(parent)
    }

    /// The state after a key is given an identifier, which happens only if
    /// it has none.
    pub open spec fn with_mapping(self, hash: u128, identifier: Seq<u8>) -> GraphState {
        if self.knows(hash) {
            self
        } else {
            GraphState { names: self.names.insert(key_of(hash), identifier), ..self }
        }
    }

    /// The state after `to` is appended to the set of `from` in one
    /// direction.
    pub open spec fn with_appended(self, direction: Direction, from: u128, to: u128) -> GraphState {
        let key = key_of(from);
        match direction {
            Direction::ParentToChild => GraphState {
                children: self.children.insert(key, appended_value(self.children.get(key), to)),
                ..self
            },
            Direction::ChildToParent => GraphState {
                parents: self.parents.insert(key, appended_value(self.parents.get(key), to)),
                ..self
            },
        }
    }

    /// The state after the edge from `parent` to `child` is recorded: both
    /// rooms are mapped and each is in the other's set.
    pub open spec fn with_edge(self, parent: Seq<char>, child: Seq<char>) -> GraphState {
        let p = spec_hash(parent);
        let c = spec_hash(child);
        self.with_mapping(p, vstd::utf8::encode_utf8(parent)).with_mapping(
            c,
            vstd::utf8::encode_utf8(child),
        ).with_appended(Direction::ParentToChild, p, c).with_appended(
            Direction::ChildToParent,
            c,
            p,
        )
    }

    /// The update that recording the edge announces: none where the edge
    /// is already recorded, else what the rooms' metadata gives.
    pub open spec fn announces(
        self,
        parent: Seq<char>,
        child: Seq<char>,
        joined: Seq<JoinedRoom>,
        counts: Seq<MemberCount>,
    ) -> Option<SSEJsonView> {
        if self.has_edge(spec_hash(parent), spec_hash(child)) {
            None
        } else {
            spec_live_update(parent, child, joined, counts)
        }
    }

    /// The identifiers of those of `hashes` that are mapped, in their
    /// order.
    pub open spec fn identifiers(self, hashes: Seq<u128>) -> Seq<Seq<char>> {
        present_texts(hashes.map_values(|hash: u128| self.names.get(key_of(hash))))
    }

    /// The state with another live update in the channel.
    pub open spec fn with_latest(self, latest: Option<SSEJsonView>) -> GraphState {
        GraphState { latest, ..self }
    }
}

/// The graph store.
#[derive(Debug)]
pub struct GraphDb {
    hash_map: sled::Tree,
    state: sled::Tree,
    parent_child: sled::Tree,
    child_parent: sled::Tree,
    websocket_tx: Sender<Option<SSEJson>>,
}

impl View for GraphDb {
    type V = GraphState;

    closed spec fn view(&self) -> GraphState {
        GraphState {
            names: tree_contents(self.hash_map),
            children: tree_contents(self.parent_child),
            parents: tree_contents(self.child_parent),
            latest: watched(self.websocket_tx),
        }
    }
}

impl GraphDb {
    /// A store over the given tables, publishing to the given channel. The
    /// tables are four different ones, and from now on nothing else writes
    /// to them. `state` is kept open for the rooms' state and is not read.
    pub fn new(
        hash_map: sled::Tree,
        state: sled::Tree,
        parent_child: sled::Tree,
        child_parent: sled::Tree,
        tx: Sender<Option<SSEJson>>,
    ) -> (db: Self)
        ensures
            db@ == (GraphState {
                names: tree_contents(hash_map),
                children: tree_contents(parent_child),
                parents: tree_contents(child_parent),
                latest: watched(tx),
            }),
    {
        GraphDb { hash_map, state, parent_child, child_parent, websocket_tx: tx }
    }

    /// Whether a key has an identifier.
    pub fn has_mapping(&self, hash: u128) -> (r: Result<bool, StoreError>)
        ensures
            match r {
                Ok(mapped) => mapped == self@.knows(hash),
                Err(e) => e == StoreError::Storage,
            },
    {
        let key = key_bytes(hash);
        match tree_contains_key(&self.hash_map, &key) {
            Ok(mapped) => Ok(mapped),
            Err(_) => Err(StoreError::Storage),
        }
    }

    /// The identifier bytes of a key, if it has any.
    pub fn get_identifier(&self, hash: u128) -> (r: Result<Option<Vec<u8>>, StoreError>)
        ensures
            match r {
                Ok(Some(bytes)) => self@.names.get(key_of(hash)) == Some(bytes@),
                Ok(None) => !self@.knows(hash),
                Err(e) => e == StoreError::Storage,
            },
    {
        let key = key_bytes(hash);
        match tree_get(&self.hash_map, &key) {
            Ok(found) => Ok(found),
            Err(_) => Err(StoreError::Storage),
        }
    }

    /// Writes the identifier of a key and makes the write durable. Whether
    /// or not the write succeeds, the two adjacency tables and the live
    /// update channel are left as they are.
    pub fn map_hash_to_room_id(&mut self, hash: u128, alias: &str) -> (r: Result<(), StoreError>)
        ensures
            match r {
                Ok(()) => final(self)@ == (GraphState {
                    names: old(self)@.names.insert(key_of(hash), vstd::utf8::encode_utf8(alias@)),
                    ..old(self)@
                }),
                Err(e) => e == StoreError::Storage,
            },
            final(self)@.children == old(self)@.children,
            final(self)@.parents == old(self)@.parents,
            final(self)@.latest == old(self)@.latest,
    {
        let key = key_bytes(hash);
        match tree_insert(&mut self.hash_map, &key, alias.as_bytes()) {
            Ok(_) => {},
            Err(_) => {
                return Err(StoreError::Storage);
            },
        }
        match tree_flush(&self.hash_map) {
            Ok(_) => Ok(()),
            Err(_) => Err(StoreError::Storage),
        }
    }

    /// The keys stored for `from` in one direction.
    pub fn read_members(&self, direction: Direction, from: u128) -> (r: Result<
        Vec<u128>,
        StoreError,
    >)
        ensures
            match r {
                Ok(members) => {
                    &&& readable(self@.table(direction).get(key_of(from)))
                    &&& members@ == stored_members(self@.table(direction).get(key_of(from)))
                },
                Err(StoreError::Corrupt) => !readable(self@.table(direction).get(key_of(from))),
                Err(StoreError::Storage) => true,
            },
    {
        let key = key_bytes(from);
        let found = match direction {
            Direction::ParentToChild => tree_get(&self.parent_child, &key),
            Direction::ChildToParent => tree_get(&self.child_parent, &key),
        };
        match found {
            Ok(Some(bytes)) => match decode_members(bytes.as_slice()) {
                Some(members) => {
                    assert(members@.len() < u64::MAX) by {
                        assert(bytes@.len() == bytes.len());
                    }
                    Ok(members)
                },
                None => Err(StoreError::Corrupt),
            },
            Ok(None) => Ok(Vec::new()),
            Err(_) => Err(StoreError::Storage),
        }
    }

    /// Appends `to` to the set stored for `from` in one direction, in one
    /// atomic update, and makes it durable. A malformed set is left as it
    /// is. Whether or not the update succeeds, the identifiers, the table
    /// of the other direction and the live update channel are left as they
    /// are.
    pub fn append_edge(&mut self, direction: Direction, from: u128, to: u128) -> (r: Result<
        (),
        StoreError,
    >)
        ensures
            match r {
                Ok(()) => {
                    &&& readable(old(self)@.table(direction).get(key_of(from)))
                    &&& final(self)@ == old(self)@.with_appended(direction, from, to)
                },
                Err(StoreError::Corrupt) => {
                    &&& !readable(old(self)@.table(direction).get(key_of(from)))
                    &&& final(self)@ == old(self)@
                },
                Err(StoreError::Storage) => true,
            },
            final(self)@.names == old(self)@.names,
            final(self)@.latest == old(self)@.latest,
            final(self)@.table(direction.reverse()) == old(self)@.table(direction.reverse()),
    {
        let key = key_bytes(from);
        let ghost before = self@.table(direction).get(key_of(from));
        let stored = match direction {
            Direction::ParentToChild => tree_append(&mut self.parent_child, &key, to),
            Direction::ChildToParent => tree_append(&mut self.child_parent, &key, to),
        };
        match stored {
            Ok(Some(value)) => {
                let decoded = decode_members(value.as_slice());
                proof {
                    let members = with_member(stored_members(before), to);
                    lemma_encoded_len(members);
                    assert(value@.len() == value.len());
                    if before is Some && decoded_set(before->0) is None {
                        assert(old(self)@.table(direction).insert(key@, value@) =~= old(
                            self,
                        )@.table(direction));
                    } else {
                        assert(value@ == encoded_set(members)) by {
                            if before is None {
                                assert(seq![to] =~= Seq::<u128>::empty().push(to));
                            }
                        }
                        lemma_decode_encode(members);
                    }
                }
                match decoded {
                    Some(_) => {
                        let flushed = match direction {
                            Direction::ParentToChild => tree_flush(&self.parent_child),
                            Direction::ChildToParent => tree_flush(&self.child_parent),
                        };
                        match flushed {
                            Ok(_) => Ok(()),
                            Err(_) => Err(StoreError::Storage),
                        }
                    },
                    None => Err(StoreError::Corrupt),
                }
            },
            Ok(None) => Err(StoreError::Storage),
            Err(_) => Err(StoreError::Storage),
        }
    }

    /// Appends `parent` to the parents stored for `child`. Whether or not
    /// the update succeeds, the identifiers, the children and the live
    /// update channel are left as they are.
    pub fn add_parent(&mut self, parent: u128, child: u128) -> (r: Result<(), StoreError>)
        ensures
            match r {
                Ok(()) => {
                    &&& readable(old(self)@.parents.get(key_of(child)))
                    &&& final(self)@ == old(self)@.with_appended(
                        Direction::ChildToParent,
                        child,
                        parent,
                    )
                },
                Err(StoreError::Corrupt) => {
                    &&& !readable(old(self)@.parents.get(key_of(child)))
                    &&& final(self)@ == old(self)@
                },
                Err(StoreError::Storage) => true,
            },
            final(self)@.names == old(self)@.names,
            final(self)@.children == old(self)@.children,
            final(self)@.latest == old(self)@.latest,
    {
        self.append_edge(Direction::ChildToParent, child, parent)
    }

    /// Gives a key its identifier unless it has one.
    fn ensure_mapping(&mut self, hash: u128, identifier: &str) -> (r: Result<(), StoreError>)
        ensures
            match r {
                Ok(()) => final(self)@ == old(self)@.with_mapping(
                    hash,
                    vstd::utf8::encode_utf8(identifier@),
                ),
                Err(e) => e == StoreError::Storage,
            },
            final(self)@.children == old(self)@.children,
            final(self)@.parents == old(self)@.parents,
            final(self)@.latest == old(self)@.latest,
    {
        match self.has_mapping(hash) {
            Ok(true) => Ok(()),
            Ok(false) => self.map_hash_to_room_id(hash, identifier),
            Err(_) => Err(StoreError::Storage),
        }
    }

    /// Records that `child` was discovered in `parent`: maps both rooms,
    /// puts each into the other's set, and announces the edge on the live
    /// update channel if it is new, the child is joined and neither room is
    /// denied. The result says whether the edge was already recorded.
    ///
    /// Nothing is written where one of the two sets cannot be read. Where
    /// the storage layer fails on the way, the edge may be left recorded in
    /// one direction only, and nothing is announced: the channel holds what
    /// it held.
    pub fn add_child(
        &mut self,
        parent: &str,
        child: &str,
        joined_rooms: &Vec<JoinedRoom>,
        joined_members: &Vec<MemberCount>,
    ) -> (r: Result<bool, StoreError>)
        ensures
            match r {
                Ok(known) => {
                    let before = old(self)@;
                    let after = final(self)@;
                    &&& before.edge_readable(spec_hash(parent@), spec_hash(child@))
                    &&& known == before.has_edge(spec_hash(parent@), spec_hash(child@))
                    &&& after.with_latest(None) == before.with_edge(parent@, child@).with_latest(
                        None,
                    )
                    &&& match before.announces(parent@, child@, joined_rooms@, joined_members@) {
                        Some(update) => after.latest == Some(update) || after.latest
                            == before.latest,
                        None => after.latest == before.latest,
                    }
                    &&& after.knows(spec_hash(parent@)) && after.knows(spec_hash(child@))
                    &&& after.has_edge(spec_hash(parent@), spec_hash(child@))
                    &&& before.symmetric() ==> after.symmetric()
                },
                Err(StoreError::Corrupt) => {
                    &&& !old(self)@.edge_readable(spec_hash(parent@), spec_hash(child@))
                    &&& final(self)@ == old(self)@
                },
                Err(StoreError::Storage) => final(self)@.latest == old(self)@.latest,
            },
    {
        let parent_hash = hash(parent);
        let child_hash = hash(child);
        let forward = match self.read_members(Direction::ParentToChild, parent_hash) {
            Ok(members) => members,
            Err(e) => {
                return Err(e);
            },
        };
        let backward = match self.read_members(Direction::ChildToParent, child_hash) {
            Ok(members) => members,
            Err(e) => {
                return Err(e);
            },
        };
        let known = has_member(&forward, child_hash) && has_member(&backward, parent_hash);
        match self.ensure_mapping(parent_hash, parent) {
            Ok(()) => {},
            Err(_) => {
                return Err(StoreError::Storage);
            },
        }
        match self.ensure_mapping(child_hash, child) {
            Ok(()) => {},
            Err(_) => {
                return Err(StoreError::Storage);
            },
        }
        match self.append_edge(Direction::ParentToChild, parent_hash, child_hash) {
            Ok(()) => {},
            Err(_) => {
                return Err(StoreError::Storage);
            },
        }
        match self.add_parent(parent_hash, child_hash) {
            Ok(()) => {},
            Err(_) => {
                return Err(StoreError::Storage);
            },
        }
        if !known {
            match live_update(parent, child, joined_rooms, joined_members) {
                Some(update) => {
                    let _ = watch_send(&mut self.websocket_tx, update);
                },
                None => {},
            }
        }
        proof {
            let recorded = old(self)@.with_edge(parent@, child@);
            lemma_edge_idempotent(old(self)@, parent@, child@);
            lemma_edge_maps_rooms(old(self)@, parent@, child@);
            assert(self@.children == recorded.children && self@.parents == recorded.parents
                && self@.names == recorded.names);
            if old(self)@.symmetric() {
                lemma_edge_keeps_symmetry(old(self)@, parent@, child@);
                assert(self@.with_latest(None) == recorded.with_latest(None));
                assert forall|x: u128, y: u128|
                    #[trigger] self@.children_of(x).contains(y) <==> #[trigger] self@.parents_of(
                        y,
                    ).contains(x) by {
                    assert(recorded.children_of(x).contains(y) <==> recorded.parents_of(
                        y,
                    ).contains(x));
                }
            }
        }
        Ok(known)
    }

    /// Reads the hash-to-identifier table and the parent-to-children table
    /// into memory.
    pub fn tables(&self) -> (r: Result<GraphTables, StoreError>)
        ensures
            match r {
                Ok(tables) => tables.names() == self@.names && tables.children()
                    == self@.children,
                Err(e) => e == StoreError::Storage,
            },
    {
        let names = match tree_entries(&self.hash_map) {
            Ok(entries) => entries,
            Err(_) => {
                return Err(StoreError::Storage);
            },
        };
        let children = match tree_entries(&self.parent_child) {
            Ok(entries) => entries,
            Err(_) => {
                return Err(StoreError::Storage);
            },
        };
        proof {
            lemma_lists_table(names@, self@.names);
            lemma_lists_table(children@, self@.children);
        }
        match GraphTables::new(names, children) {
            Some(tables) => Ok(tables),
            None => Err(StoreError::Storage),
        }
    }

    /// The identifier bytes of every mapped key, in ascending order of the
    /// keys.
    pub fn get_all_room_ids(&self) -> (r: Result<Vec<Vec<u8>>, StoreError>)
        ensures
            match r {
                Ok(ids) => exists|entries: Seq<Entry>|
                    {
                        &&& #[trigger] lists(entries, self@.names)
                        &&& ids@.len() == entries.len()
                        &&& forall|i: int|
                            0 <= i < ids@.len() ==> (#[trigger] ids@[i])@ == entries[i].value@
                    },
                Err(e) => e == StoreError::Storage,
            },
    {
        let mut entries = match tree_entries(&self.hash_map) {
            Ok(entries) => entries,
            Err(_) => {
                return Err(StoreError::Storage);
            },
        };
        let ghost listed_entries = entries@;
        let mut ids: Vec<Vec<u8>> = Vec::new();
        let mut i: usize = 0;
        while i < entries.len()
            invariant
                i <= entries@.len(),
                ids@.len() == i,
                entries@.len() == listed_entries.len(),
                forall|j: int| i <= j < entries@.len() ==> entries@[j] == listed_entries[j],
                forall|j: int| 0 <= j < i ==> (#[trigger] ids@[j])@ == listed_entries[j].value@,
            decreases entries@.len() - i,
        {
            let mut value: Vec<u8> = Vec::new();
            std::mem::swap(&mut value, &mut entries[i].value);
            ids.push(value);
            i += 1;
        }
        assert(lists(listed_entries, self@.names));
        Ok(ids)
    }

    /// Whether a room has been seen: its key has an identifier. A failed
    /// read counts as not seen.
    pub fn knows_room(&self, room_alias: &str) -> (known: bool)
        ensures
            known ==> self@.knows(spec_hash(room_alias@)),
    {
        seen(self.has_mapping(hash(room_alias)))
    }
}

/// Whether a room counts as seen, given what looking its key up came to:
/// it does where the lookup found an identifier, and does not where it
/// found none or failed.
pub fn seen(lookup: Result<bool, StoreError>) -> (known: bool)
    ensures
        known == match lookup {
            Ok(mapped) => mapped,
            Err(_) => false,
        },
{
    match lookup {
        Ok(mapped) => mapped,
        Err(_) => false,
    }
}

/// Recording an edge a second time changes nothing, and once recorded the
/// edge is there in both directions: a second `add_child` leaves the sets as
/// the first left them and reports the edge as known.
pub proof fn lemma_edge_idempotent(state: GraphState, parent: Seq<char>, child: Seq<char>)
    requires
        state.edge_readable(spec_hash(parent), spec_hash(child)),
    ensures
        state.with_edge(parent, child).with_edge(parent, child) == state.with_edge(parent, child),
        state.with_edge(parent, child).has_edge(spec_hash(parent), spec_hash(child)),
{
    let p = spec_hash(parent);
    let c = spec_hash(child);
    let once = state.with_edge(parent, child);
    let twice = once.with_edge(parent, child);
    lemma_appended(state.children.get(key_of(p)), c);
    lemma_appended(state.parents.get(key_of(c)), p);
    lemma_with_member_contains(state.children_of(p), c, c);
    lemma_with_member_contains(state.parents_of(c), p, p);
    assert(once.children.get(key_of(p)) == Some(
        appended_value(state.children.get(key_of(p)), c),
    ));
    assert(once.parents.get(key_of(c)) == Some(appended_value(state.parents.get(key_of(c)), p)));
    assert(twice.names =~= once.names);
    assert(twice.children =~= once.children);
    assert(twice.parents =~= once.parents);
}

/// Recording an edge in a symmetric store keeps the store symmetric.
pub proof fn lemma_edge_keeps_symmetry(state: GraphState, parent: Seq<char>, child: Seq<char>)
    requires
        state.symmetric(),
        state.edge_readable(spec_hash(parent), spec_hash(child)),
    ensures
        state.with_edge(parent, child).symmetric(),
{
    let p = spec_hash(parent);
    let c = spec_hash(child);
    let after = state.with_edge(parent, child);
    lemma_appended(state.children.get(key_of(p)), c);
    lemma_appended(state.parents.get(key_of(c)), p);
    assert forall|x: u128, y: u128|
        #[trigger] after.children_of(x).contains(y) <==> #[trigger] after.parents_of(y).contains(
            x,
        ) by {
        if key_of(x) == key_of(p) {
            lemma_key_of_injective(x, p);
        }
        if key_of(y) == key_of(c) {
            lemma_key_of_injective(y, c);
        }
        lemma_with_member_contains(state.children_of(p), c, y);
        lemma_with_member_contains(state.parents_of(c), p, x);
        assert(state.children_of(x).contains(y) <==> state.parents_of(y).contains(x));
    }
}

/// Recording an edge removes nothing: every key keeps the identifier it
/// had, and every recorded child and parent stays recorded.
pub proof fn lemma_edge_only_adds(
    state: GraphState,
    parent: Seq<char>,
    child: Seq<char>,
    from: u128,
    to: u128,
)
    requires
        state.edge_readable(spec_hash(parent), spec_hash(child)),
    ensures
        state.knows(from) ==> state.with_edge(parent, child).names.get(key_of(from))
            == state.names.get(key_of(from)),
        state.children_of(from).contains(to) ==> state.with_edge(parent, child).children_of(
            from,
        ).contains(to),
        state.parents_of(from).contains(to) ==> state.with_edge(parent, child).parents_of(
            from,
        ).contains(to),
{
    let p = spec_hash(parent);
    let c = spec_hash(child);
    lemma_appended(state.children.get(key_of(p)), c);
    lemma_appended(state.parents.get(key_of(c)), p);
    lemma_with_member_contains(state.children_of(p), c, to);
    lemma_with_member_contains(state.parents_of(c), p, to);
    if key_of(from) == key_of(p) {
        lemma_key_of_injective(from, p);
    }
    if key_of(from) == key_of(c) {
        lemma_key_of_injective(from, c);
    }
}

/// A store without stored sets is symmetric.
pub proof fn lemma_empty_symmetric(state: GraphState)
    requires
        state.children == Map::<Seq<u8>, Seq<u8>>::empty(),
        state.parents == Map::<Seq<u8>, Seq<u8>>::empty(),
    ensures
        state.symmetric(),
{
    assert forall|parent: u128, child: u128|
        #[trigger] state.children_of(parent).contains(child) <==> #[trigger] state.parents_of(
            child,
        ).contains(parent) by {
        assert(state.children_of(parent) =~= Seq::<u128>::empty());
        assert(state.parents_of(child) =~= Seq::<u128>::empty());
    }
}

/// Once an edge is recorded both its rooms are known to the store, whether
/// or not the edge is announced or shown.
pub proof fn lemma_edge_maps_rooms(state: GraphState, parent: Seq<char>, child: Seq<char>)
    ensures
        state.with_edge(parent, child).knows(spec_hash(parent)),
        state.with_edge(parent, child).knows(spec_hash(child)),
{
}

/// An edge with a denied room at either end is never announced.
pub proof fn lemma_denied_not_announced(
    state: GraphState,
    parent: Seq<char>,
    child: Seq<char>,
    joined: Seq<JoinedRoom>,
    counts: Seq<MemberCount>,
)
    requires
        room_denied(spec_hash(parent), parent, joined) || room_denied(
            spec_hash(child),
            child,
            joined,
        ),
    ensures
        state.announces(parent, child, joined, counts) is None,
{
}

} // verus!
