//! Rooms as the protocol client knows them, and what the graph shows of
//! each.

use vstd::prelude::*;
use vstd::string::*;
use std::sync::Arc;
use crate::api::{Link, LinkView, RoomRelation, RoomRelationView, SSEJson, SSEJsonView};
use crate::identity::{encode_id, hash, id_text, spec_hash};
use crate::order::same_text;

verus! {

/// The key of the seed room, which the graph never shows.
pub const SEED_ROOM_HASH: u128 = 0xafe3_ea05_f1fb_e8a7_501a_425d_197c_efe2;

/// The display name of the seed account, whose rooms the graph never shows.
pub open spec fn seed_bot_name() -> Seq<char> {
    "MTRNord"@
}

/// A room that the protocol client has joined, with its current state.
/// `display_name` is `None` where the client could not compute one.
#[derive(Clone, Debug, PartialEq, Eq)]
pub struct JoinedRoom {
    pub room_id: String,
    pub canonical_alias: Option<String>,
    pub display_name: Option<String>,
    pub topic: Option<String>,
    pub avatar_url: Option<String>,
    pub is_space: bool,
    pub is_tombstoned: bool,
}

/// How many members of a room have joined it.
#[derive(Clone, Debug, PartialEq, Eq)]
pub struct MemberCount {
    pub room_id: String,
    pub count: i64,
}

/// The canonical ids of a list of joined rooms, in its order.
pub open spec fn room_ids(joined: Seq<JoinedRoom>) -> Seq<Seq<char>> {
    joined.map_values(|room: JoinedRoom| room.room_id@)
}

/// The canonical ids of a list of member counts, in its order.
pub open spec fn counted_ids(counts: Seq<MemberCount>) -> Seq<Seq<char>> {
    counts.map_values(|entry: MemberCount| entry.room_id@)
}

/// The first joined room with the given canonical id.
pub open spec fn joined_room(joined: Seq<JoinedRoom>, room_id: Seq<char>) -> Option<JoinedRoom> {
    match room_ids(joined).index_of_first(room_id) {
        Some(i) => Some(joined[i]),
        None => None,
    }
}

/// The member count listed first for a room; zero where none is listed.
pub open spec fn member_count(counts: Seq<MemberCount>, room_id: Seq<char>) -> i64 {
    match counted_ids(counts).index_of_first(room_id) {
        Some(i) => counts[i].count,
        None => 0,
    }
}

/// The text of an optional string; the empty text where there is none.
pub open spec fn text_or_empty(text: Option<String>) -> Seq<char> {
    match text {
        Some(t) => t@,
        None => Seq::empty(),
    }
}

/// The name under which a room is shown: its display name, or its id where
/// it has none or an empty one.
pub open spec fn shown_name(room: JoinedRoom) -> Seq<char> {
    match room.display_name {
        Some(name) => if name@.len() == 0 {
            room.room_id@
        } else {
            name@
        },
        None => room.room_id@,
    }
}

/// The alias under which a room is shown: its canonical alias, or its id.
pub open spec fn shown_alias(room: JoinedRoom) -> Seq<char> {
    match room.canonical_alias {
        Some(alias) => alias@,
        None => room.room_id@,
    }
}

/// What the graph shows of a joined room, before its links are counted.
pub open spec fn relation_of(
    id: Seq<char>,
    room: JoinedRoom,
    counts: Seq<MemberCount>,
    weight: Option<i32>,
) -> RoomRelationView {
    RoomRelationView {
        id,
        room_id: room.room_id@,
        name: shown_name(room),
        alias: shown_alias(room),
        avatar: text_or_empty(room.avatar_url),
        members: member_count(counts, room.room_id@),
        topic: text_or_empty(room.topic),
        weight,
        incoming_links: None,
        outgoing_links: None,
        is_space: room.is_space,
    }
}

/// The relation of the room with the given canonical id: none unless the
/// room is joined and not tombstoned.
pub open spec fn spec_room_relation(
    id: Seq<char>,
    room_id: Seq<char>,
    joined: Seq<JoinedRoom>,
    counts: Seq<MemberCount>,
) -> Option<RoomRelationView> {
    match joined_room(joined, room_id) {
        Some(room) => if room.is_tombstoned {
            None
        } else {
            Some(relation_of(id, room, counts, None))
        },
        None => None,
    }
}

/// Whether a room is kept out of every public view: it is the seed room, or
/// it is joined and shown under the seed account's name.
pub open spec fn room_denied(hash: u128, room_id: Seq<char>, joined: Seq<JoinedRoom>) -> bool {
    hash == SEED_ROOM_HASH || match joined_room(joined, room_id) {
        Some(room) => shown_name(room) == seed_bot_name(),
        None => false,
    }
}

/// The live update for a new edge from `parent` to `child`: none unless the
/// child is joined and neither room is denied.
pub open spec fn spec_live_update(
    parent: Seq<char>,
    child: Seq<char>,
    joined: Seq<JoinedRoom>,
    counts: Seq<MemberCount>,
) -> Option<SSEJsonView> {
    match joined_room(joined, child) {
        Some(room) => if room_denied(spec_hash(parent), parent, joined) || room_denied(
            spec_hash(child),
            child,
            joined,
        ) {
            None
        } else {
            Some(
                SSEJsonView {
                    node: relation_of(id_text(spec_hash(child)), room, counts, Some(1i32)),
                    link: LinkView {
                        source: id_text(spec_hash(parent)),
                        target: id_text(spec_hash(child)),
                        value: 1,
                    },
                },
            )
        },
        None => None,
    }
}

/// If `i` is the first place where `key` occurs, it is the place that
/// `index_of_first` gives.
pub proof fn lemma_first_match<K>(keys: Seq<K>, key: K, i: int)
    requires
        0 <= i < keys.len(),
        keys[i] == key,
        forall|j: int| 0 <= j < i ==> keys[j] != key,
    ensures
        keys.index_of_first(key) == Some(i),
{
    keys.index_of_first_ensures(key);
    assert(keys.contains(key));
    let k = keys.index_of_first(key)->0;
    if k < i {
        assert(keys[k] != key);
    } else if i < k {
        assert(keys[i] != key);
    }
}

/// If `key` occurs nowhere, `index_of_first` gives nothing.
pub proof fn lemma_no_match<K>(keys: Seq<K>, key: K)
    requires
        forall|j: int| 0 <= j < keys.len() ==> keys[j] != key,
    ensures
        keys.index_of_first(key) is None,
{
    keys.index_of_first_ensures(key);
}

/// The place of the first joined room with the given canonical id.
pub fn find_room(joined: &Vec<JoinedRoom>, room_id: &str) -> (r: Option<usize>)
    ensures
        match r {
            Some(i) => i < joined.len() && joined_room(joined@, room_id@) == Some(joined@[i as int]),
            None => joined_room(joined@, room_id@) is None,
        },
{
    let mut i: usize = 0;
    while i < joined.len()
        invariant
            i <= joined.len(),
            forall|j: int| 0 <= j < i ==> room_ids(joined@)[j] != room_id@,
        decreases joined.len() - i,
    {
        if same_text(joined[i].room_id.as_str(), room_id) {
            proof {
                lemma_first_match(room_ids(joined@), room_id@, i as int);
            }
            return Some(i);
        }
        i += 1;
    }
    proof {
        lemma_no_match(room_ids(joined@), room_id@);
    }
    None
}

/// Whether the protocol client has joined the room with this canonical id.
pub fn is_joined(room_id: &str, joined_rooms: &Vec<JoinedRoom>) -> (r: bool)
    ensures
        r == (joined_room(joined_rooms@, room_id@) is Some),
{
    find_room(joined_rooms, room_id).is_some()
}

/// The member count of a room; zero where none is listed.
pub fn count_members(counts: &Vec<MemberCount>, room_id: &str) -> (n: i64)
    ensures
        n == member_count(counts@, room_id@),
{
    let mut i: usize = 0;
    while i < counts.len()
        invariant
            i <= counts.len(),
            forall|j: int| 0 <= j < i ==> counted_ids(counts@)[j] != room_id@,
        decreases counts.len() - i,
    {
        if same_text(counts[i].room_id.as_str(), room_id) {
            proof {
                lemma_first_match(counted_ids(counts@), room_id@, i as int);
            }
            return counts[i].count;
        }
        i += 1;
    }
    proof {
        lemma_no_match(counted_ids(counts@), room_id@);
    }
    0
}

/// A copy of an optional text; the empty text where there is none.
fn owned_or_empty(text: &Option<String>) -> (out: String)
    ensures
        out@ == text_or_empty(*text),
{
    match text {
        Some(t) => t.clone(),
        None => String::new(),
    }
}

/// The name under which a room is shown.
pub fn name_of(room: &JoinedRoom) -> (name: String)
    ensures
        name@ == shown_name(*room),
{
    match &room.display_name {
        Some(name) => {
            if name.as_str().unicode_len() == 0 {
                room.room_id.clone()
            } else {
                name.clone()
            }
        },
        None => room.room_id.clone(),
    }
}

/// Builds what the graph shows of a joined room.
fn build_relation(id: String, room: &JoinedRoom, counts: &Vec<MemberCount>, weight: Option<i32>) -> (r:
    RoomRelation)
    ensures
        r@ == relation_of(id@, *room, counts@, weight),
{
    let alias = match &room.canonical_alias {
        Some(alias) => alias.clone(),
        None => room.room_id.clone(),
    };
    RoomRelation {
        id,
        room_id: room.room_id.clone(),
        name: name_of(room),
        alias,
        avatar: owned_or_empty(&room.avatar_url),
        members: count_members(counts, room.room_id.as_str()),
        topic: owned_or_empty(&room.topic),
        weight,
        incoming_links: None,
        outgoing_links: None,
        is_space: room.is_space,
    }
}

/// The relation of the room with canonical id `room_id`, shown under the
/// external identifier `room_hash`: none unless the room is joined and not
/// tombstoned.
pub fn generate_room_relation(
    room_hash: String,
    room_id: &str,
    joined_rooms: &Vec<JoinedRoom>,
    joined_members: &Vec<MemberCount>,
) -> (r: Option<RoomRelation>)
    ensures
        match r {
            Some(relation) => spec_room_relation(
                room_hash@,
                room_id@,
                joined_rooms@,
                joined_members@,
            ) == Some(relation@),
            None => spec_room_relation(room_hash@, room_id@, joined_rooms@, joined_members@) is None,
        },
{
    match find_room(joined_rooms, room_id) {
        Some(i) => {
            let room = &joined_rooms[i];
            if room.is_tombstoned {
                None
            } else {
                Some(build_relation(room_hash, room, joined_members, None))
            }
        },
        None => None,
    }
}

/// Whether a name is the seed account's.
pub fn is_seed_bot_name(name: &str) -> (r: bool)
    ensures
        r == (name@ == seed_bot_name()),
{
    same_text(name, "MTRNord")
}

/// Whether a room is kept out of every public view.
pub fn is_denied(room_hash: u128, room_id: &str, joined_rooms: &Vec<JoinedRoom>) -> (r: bool)
    ensures
        r == room_denied(room_hash, room_id@, joined_rooms@),
{
    if room_hash == SEED_ROOM_HASH {
        return true;
    }
    match find_room(joined_rooms, room_id) {
        Some(i) => {
            let name = name_of(&joined_rooms[i]);
            is_seed_bot_name(name.as_str())
        },
        None => false,
    }
}

/// The live update to publish for a new edge from `parent` to `child`.
pub fn live_update(
    parent: &str,
    child: &str,
    joined_rooms: &Vec<JoinedRoom>,
    joined_members: &Vec<MemberCount>,
) -> (r: Option<SSEJson>)
    ensures
        match r {
            Some(update) => spec_live_update(parent@, child@, joined_rooms@, joined_members@)
                == Some(update@),
            None => spec_live_update(parent@, child@, joined_rooms@, joined_members@) is None,
        },
{
    let parent_hash = hash(parent);
    let child_hash = hash(child);
    match find_room(joined_rooms, child) {
        Some(i) => {
            if is_denied(parent_hash, parent, joined_rooms) || is_denied(
                child_hash,
                child,
                joined_rooms,
            ) {
                None
            } else {
                let node = build_relation(
                    encode_id(child_hash),
                    &joined_rooms[i],
                    joined_members,
                    Some(1),
                );
                let link = Link {
                    source: encode_id(parent_hash),
                    target: encode_id(child_hash),
                    value: 1,
                };
                Some(SSEJson { node: Arc::new(node), link: Arc::new(link) })
            }
        },
        None => None,
    }
}

} // verus!
