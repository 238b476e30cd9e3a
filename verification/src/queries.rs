//! What the store answers to its readers.

use vstd::prelude::*;
use vstd::string::*;
use crate::api::{RelationsJson, RoomRelation};
use crate::graph::{Direction, GraphDb, GraphState, StoreError};
use crate::identity::{
    decode_id, hash, identifier_of, key_of, present_texts, spec_decode_id, spec_hash,
};
use crate::relations::{
    is_graph_view, materialize, resolve_node, source_of, spec_node, GraphSource,
};
use crate::rooms::{joined_room, JoinedRoom, MemberCount};
use crate::snapshot::GraphTables;
use crate::wire::readable;

verus! {

/// What a list of strings holds.
pub open spec fn texts(list: Seq<String>) -> Seq<Seq<char>> {
    list.map_values(|text: String| text@)
}

impl GraphState {
    /// What the graph view of this state is computed from.
    pub open spec fn source(self, joined: Seq<JoinedRoom>, counts: Seq<MemberCount>) -> GraphSource {
        GraphSource { names: self.names, children: self.children, joined, counts }
    }
}

impl GraphDb {
    /// The identifiers of the rooms in which `child` was discovered, in the
    /// order in which they were recorded; parents without an identifier
    /// are left out. It fails where the stored set of parents cannot be
    /// read, and where the storage layer fails on the set or on one of the
    /// identifiers.
    pub fn read_parents(&self, child: &str) -> (r: Result<Vec<String>, StoreError>)
        ensures
            match r {
                Ok(parents) => {
                    &&& readable(self@.parents.get(key_of(spec_hash(child@))))
                    &&& texts(parents@) == self@.identifiers(self@.parents_of(spec_hash(child@)))
                },
                Err(StoreError::Corrupt) => !readable(
                    self@.parents.get(key_of(spec_hash(child@))),
                ),
                Err(StoreError::Storage) => true,
            },
    {
        let hashes = match self.read_members(Direction::ChildToParent, hash(child)) {
            Ok(hashes) => hashes,
            Err(e) => {
                return Err(e);
            },
        };
        let mut found: Vec<Option<Vec<u8>>> = Vec::new();
        let mut i: usize = 0;
        while i < hashes.len()
            invariant
                i <= hashes@.len(),
                found@.len() == i,
                forall|j: int|
                    0 <= j < i ==> held_each(found@)[j] == self@.names.get(
                        key_of(#[trigger] hashes@[j]),
                    ),
            decreases hashes@.len() - i,
        {
            match self.get_identifier(hashes[i]) {
                Ok(identifier) => {
                    found.push(identifier);
                },
                Err(_) => {
                    return Err(StoreError::Storage);
                },
            }
            i += 1;
        }
        proof {
            assert(held_each(found@) =~= hashes@.map_values(
                |hash: u128| self@.names.get(key_of(hash)),
            ));
        }
        Ok(listed_identifiers(&found))
    }

    /// The identifiers of the rooms in which `child` was discovered; none
    /// where the stored set of parents cannot be read or the storage layer
    /// fails.
    pub fn get_parent(&self, child: &str) -> (parents: Vec<String>)
        ensures
            parents@.len() == 0 || texts(parents@) == self@.identifiers(
                self@.parents_of(spec_hash(child@)),
            ),
            !readable(self@.parents.get(key_of(spec_hash(child@)))) ==> parents@.len() == 0,
    {
        parents_or_none(self.read_parents(child))
    }

    /// Whether the protocol client has joined the room with this canonical
    /// id.
    pub fn is_joined(&self, room_id: &str, joined_rooms: &Vec<JoinedRoom>) -> (r: bool)
        ensures
            r == (joined_room(joined_rooms@, room_id@) is Some),
    {
        crate::rooms::is_joined(room_id, joined_rooms)
    }

    /// What is shown of the room that an external identifier names; nothing
    /// where the identifier names no key, the key is not mapped, the room
    /// is not joined, tombstoned or denied, or the store cannot be read.
    pub fn get_node(
        &self,
        id: String,
        joined_rooms: &Vec<JoinedRoom>,
        joined_members: &Vec<MemberCount>,
    ) -> (r: Option<RoomRelation>)
        ensures
            spec_decode_id(id@) is None ==> r is None,
            match r {
                Some(relation) => {
                    &&& spec_decode_id(id@) is Some
                    &&& spec_node(
                        id@,
                        spec_decode_id(id@)->0,
                        self@.names.get(key_of(spec_decode_id(id@)->0)),
                        joined_rooms@,
                        joined_members@,
                    ) == Some(relation@)
                },
                None => true,
            },
    {
        match decode_id(id.as_str()) {
            Some(hash) => node_from(
                id,
                hash,
                self.get_identifier(hash),
                joined_rooms,
                joined_members,
            ),
            None => None,
        }
    }

    /// The graph view of the store and the joined rooms; an empty view
    /// where the store cannot be read.
    pub fn get_json_relations(
        &self,
        joined_rooms: &Vec<JoinedRoom>,
        joined_members: &Vec<MemberCount>,
    ) -> (out: RelationsJson)
        ensures
            is_graph_view(out, self@.source(joined_rooms@, joined_members@)) || (out.nodes@.len()
                == 0 && out.links@.len() == 0),
    {
        relations_from(self.tables(), joined_rooms, joined_members)
    }
}

/// What a looked-up value holds.
pub open spec fn held_one(one: Option<Vec<u8>>) -> Option<Seq<u8>> {
    match one {
        Some(bytes) => Some(bytes@),
        None => None,
    }
}

/// What each of a list of looked-up values holds.
pub open spec fn held_each(found: Seq<Option<Vec<u8>>>) -> Seq<Option<Seq<u8>>> {
    found.map_values(|one: Option<Vec<u8>>| held_one(one))
}

/// The identifiers, as text, that a list of lookups found, in the order
/// of the lookups; a lookup that found nothing adds nothing.
pub fn listed_identifiers(found: &Vec<Option<Vec<u8>>>) -> (list: Vec<String>)
    ensures
        texts(list@) == present_texts(held_each(found@)),
{
    let mut list: Vec<String> = Vec::new();
    let mut i: usize = 0;
    assert(held_each(found@).take(0) =~= Seq::<Option<Seq<u8>>>::empty());
    assert(texts(list@) =~= Seq::<Seq<char>>::empty());
    while i < found.len()
        invariant
            i <= found@.len(),
            texts(list@) == present_texts(held_each(found@).take(i as int)),
        decreases found@.len() - i,
    {
        let ghost before = list@;
        proof {
            assert(held_each(found@).take(i + 1).drop_last() =~= held_each(found@).take(i as int));
        }
        match &found[i] {
            Some(bytes) => {
                let text = identifier_of(bytes.clone());
                list.push(text);
                assert(texts(list@) =~= texts(before).push(text@));
            },
            None => {},
        }
        i += 1;
    }
    proof {
        assert(held_each(found@).take(i as int) =~= held_each(found@));
    }
    list
}

/// The parents to report, given what reading them came to: those that
/// were read, or none where the read failed.
pub fn parents_or_none(read: Result<Vec<String>, StoreError>) -> (parents: Vec<String>)
    ensures
        match read {
            Ok(list) => parents == list,
            Err(_) => parents@.len() == 0,
        },
{
    match read {
        Ok(list) => list,
        Err(_) => Vec::new(),
    }
}

/// What is shown of the room with key `hash` under the external identifier
/// `id`, given what looking the key up came to: what the identifier found
/// resolves to, and nothing where the lookup failed.
pub fn node_from(
    id: String,
    hash: u128,
    lookup: Result<Option<Vec<u8>>, StoreError>,
    joined_rooms: &Vec<JoinedRoom>,
    joined_members: &Vec<MemberCount>,
) -> (r: Option<RoomRelation>)
    ensures
        match lookup {
            Ok(identifier) => match r {
                Some(relation) => spec_node(
                    id@,
                    hash,
                    held_one(identifier),
                    joined_rooms@,
                    joined_members@,
                ) == Some(relation@),
                None => spec_node(
                    id@,
                    hash,
                    held_one(identifier),
                    joined_rooms@,
                    joined_members@,
                ) is None,
            },
            Err(_) => r is None,
        },
{
    match lookup {
        Ok(identifier) => resolve_node(
            id,
            hash,
            identifier.as_ref(),
            joined_rooms,
            joined_members,
        ),
        Err(_) => None,
    }
}

/// The graph view to hand out, given what reading the tables came to: the
/// view of the tables, or an empty view where the read failed.
pub fn relations_from(
    read: Result<GraphTables, StoreError>,
    joined_rooms: &Vec<JoinedRoom>,
    joined_members: &Vec<MemberCount>,
) -> (out: RelationsJson)
    ensures
        match read {
            Ok(tables) => is_graph_view(out, source_of(tables, joined_rooms@, joined_members@)),
            Err(_) => out.nodes@.len() == 0 && out.links@.len() == 0,
        },
{
    match read {
        Ok(tables) => materialize(&tables, joined_rooms, joined_members),
        Err(_) => RelationsJson { nodes: Vec::new(), links: Vec::new() },
    }
}

} // verus!
