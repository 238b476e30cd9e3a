//! The graph as its readers see it: the rooms that resolve, the links
//! between them, and how many links touch each room.

use vstd::prelude::*;
use vstd::string::*;
use crate::api::{Link, LinkView, RelationsJson, RoomRelation, RoomRelationView};
use crate::identity::{
    encode_id, hash_of_key, id_text, identifier_of, identifier_text, key_bytes, key_of,
    lemma_hash_of_key, spec_decode_id,
};
use crate::order::{compare_text, lemma_text_transitive, same_text, text_before, Rank};
use crate::rooms::{
    generate_room_relation, is_denied, room_denied, spec_room_relation, JoinedRoom, MemberCount,
};
use crate::snapshot::GraphTables;
use crate::wire::{decode_members, has_member, stored_members};

verus! {

/// What a graph view is computed from: the two tables and the rooms that
/// the protocol client has joined.
pub struct GraphSource {
    pub names: Map<Seq<u8>, Seq<u8>>,
    pub children: Map<Seq<u8>, Seq<u8>>,
    pub joined: Seq<JoinedRoom>,
    pub counts: Seq<MemberCount>,
}

/// The source that tables read from the store make with the joined rooms.
pub open spec fn source_of(
    tables: GraphTables,
    joined: Seq<JoinedRoom>,
    counts: Seq<MemberCount>,
) -> GraphSource {
    GraphSource { names: tables.names(), children: tables.children(), joined, counts }
}

/// What is shown of the room with key `hash` under the external identifier
/// `id`: nothing unless the key is mapped to the id of a room that is
/// joined, not tombstoned and not denied.
pub open spec fn spec_node(
    id: Seq<char>,
    hash: u128,
    identifier: Option<Seq<u8>>,
    joined: Seq<JoinedRoom>,
    counts: Seq<MemberCount>,
) -> Option<RoomRelationView> {
    match identifier {
        Some(bytes) => {
            let room_id = identifier_text(bytes);
            if room_denied(hash, room_id, joined) {
                None
            } else {
                spec_room_relation(id, room_id, joined, counts)
            }
        },
        None => None,
    }
}

/// The link from one key to another.
pub open spec fn link_of(parent: u128, child: u128) -> LinkView {
    LinkView { source: id_text(parent), target: id_text(child), value: 1 }
}

/// The order of links: by source, then by target.
pub open spec fn link_before(a: LinkView, b: LinkView) -> bool {
    text_before(a.source, b.source) || (a.source == b.source && text_before(a.target, b.target))
}

/// What a list of links holds.
pub open spec fn link_views(links: Seq<Link>) -> Seq<LinkView> {
    links.map_values(|link: Link| link@)
}

/// What a list of rooms holds.
pub open spec fn node_views(nodes: Seq<RoomRelation>) -> Seq<RoomRelationView> {
    nodes.map_values(|node: RoomRelation| node@)
}

/// The three ways in which a link counts for a room.
pub enum Role {
    /// The link leaves or enters the room and is no loop.
    Touching,
    /// The link enters the room.
    Incoming,
    /// The link leaves the room.
    Outgoing,
}

/// Whether a link counts for the room `id` in the given way.
pub open spec fn counts_for(role: Role, link: LinkView, id: Seq<char>) -> bool {
    match role {
        Role::Touching => (link.source == id || link.target == id) && link.source != link.target,
        Role::Incoming => link.target == id,
        Role::Outgoing => link.source == id,
    }
}

/// How many of the links count for the room `id` in the given way.
pub open spec fn tally(role: Role, links: Seq<LinkView>, id: Seq<char>) -> nat
    decreases links.len(),
{
    if links.len() == 0 {
        0
    } else {
        tally(role, links.drop_last(), id) + if counts_for(role, links.last(), id) {
            1nat
        } else {
            0nat
        }
    }
}

/// A count as the view reports it: the largest `i32` stands for all that
/// is larger.
pub open spec fn reported(n: nat) -> i32 {
    if n > i32::MAX {
        i32::MAX
    } else {
        n as i32
    }
}

/// A room with its links counted.
pub open spec fn counted(room: RoomRelationView, links: Seq<LinkView>) -> RoomRelationView {
    RoomRelationView {
        weight: Some(reported(tally(Role::Touching, links, room.id))),
        incoming_links: Some(reported(tally(Role::Incoming, links, room.id))),
        outgoing_links: Some(reported(tally(Role::Outgoing, links, room.id))),
        ..room
    }
}

impl GraphSource {
    /// What is shown of a key, before its links are counted.
    pub open spec fn shown(self, hash: u128) -> Option<RoomRelationView> {
        spec_node(id_text(hash), hash, self.names.get(key_of(hash)), self.joined, self.counts)
    }

    /// The children recorded for a key.
    pub open spec fn kids(self, parent: u128) -> Seq<u128> {
        stored_members(self.children.get(key_of(parent)))
    }

    /// There is a link from `parent` to `child`: the child is recorded for
    /// the parent and both are shown.
    pub open spec fn is_link(self, parent: u128, child: u128) -> bool {
        &&& self.kids(parent).contains(child)
        &&& self.shown(parent) is Some
        &&& self.shown(child) is Some
    }

    /// A key is a node: it is shown, and it has a stored set of children
    /// or is the child of a link.
    pub open spec fn is_node(self, hash: u128) -> bool {
        &&& self.shown(hash) is Some
        &&& (self.children.contains_key(key_of(hash)) || exists|parent: u128|
            self.is_link(parent, hash))
    }
}

/// `out` is the view of `source` whose rooms have the keys `hashes` and
/// whose links join the pairs `edges`, each in the order of `out`.
pub open spec fn describes(
    out: RelationsJson,
    source: GraphSource,
    hashes: Seq<u128>,
    edges: Seq<(u128, u128)>,
) -> bool {
    let links = link_views(out.links@);
    &&& hashes.len() == out.nodes@.len()
    &&& edges.len() == out.links@.len()
    &&& forall|i: int|
        0 <= i < hashes.len() ==> {
            &&& source.is_node(#[trigger] hashes[i])
            &&& spec_decode_id(out.nodes@[i].id@) == Some(hashes[i])
            &&& source.shown(hashes[i]) is Some
            &&& out.nodes@[i]@ == counted(source.shown(hashes[i])->0, links)
        }
    &&& forall|hash: u128| source.is_node(hash) ==> hashes.contains(hash)
    &&& forall|i: int, j: int|
        0 <= i < j < out.nodes@.len() ==> text_before(
            #[trigger] out.nodes@[i].id@,
            #[trigger] out.nodes@[j].id@,
        )
    &&& forall|k: int|
        0 <= k < edges.len() ==> {
            &&& source.is_link((#[trigger] edges[k]).0, edges[k].1)
            &&& out.links@[k]@ == link_of(edges[k].0, edges[k].1)
        }
    &&& forall|parent: u128, child: u128| #[trigger]
        source.is_link(parent, child) ==> edges.contains((parent, child))
    &&& forall|a: int, b: int|
        0 <= a < b < out.links@.len() ==> link_before(
            #[trigger] out.links@[a]@,
            #[trigger] out.links@[b]@,
        )
}

/// `out` is the graph view of `source`: its rooms are the nodes, each once
/// and with its links counted, in ascending order of `id`; its links are
/// the links, each once, in ascending order of source and target.
pub open spec fn is_graph_view(out: RelationsJson, source: GraphSource) -> bool {
    exists|hashes: Seq<u128>, edges: Seq<(u128, u128)>| describes(out, source, hashes, edges)
}

/// What is shown of a key carries the key's external identifier.
pub proof fn lemma_shown_id(source: GraphSource, hash: u128)
    requires
        source.shown(hash) is Some,
    ensures
        source.shown(hash)->0.id == id_text(hash),
{
}

/// What optional stored bytes hold.
pub open spec fn held(stored: Option<&Vec<u8>>) -> Option<Seq<u8>> {
    match stored {
        Some(bytes) => Some(bytes@),
        None => None,
    }
}

/// What is shown of the room with key `hash` under the external identifier
/// `id`, given the identifier bytes that the key is mapped to.
pub fn resolve_node(
    id: String,
    hash: u128,
    identifier: Option<&Vec<u8>>,
    joined_rooms: &Vec<JoinedRoom>,
    joined_members: &Vec<MemberCount>,
) -> (r: Option<RoomRelation>)
    ensures
        match r {
            Some(relation) => spec_node(
                id@,
                hash,
                held(identifier),
                joined_rooms@,
                joined_members@,
            ) == Some(relation@),
            None => spec_node(id@, hash, held(identifier), joined_rooms@, joined_members@) is None,
        },
{
    match identifier {
        Some(bytes) => {
            let room_id = identifier_of(bytes.clone());
            if is_denied(hash, room_id.as_str(), joined_rooms) {
                None
            } else {
                generate_room_relation(id, room_id.as_str(), joined_rooms, joined_members)
            }
        },
        None => None,
    }
}

/// A room of the view under construction, with its key.
struct Slot {
    hash: u128,
    relation: RoomRelation,
}

/// The slot holds what is shown of a node, under an identifier that names
/// its key.
spec fn slot_ok(source: GraphSource, slot: Slot) -> bool {
    &&& source.is_node(slot.hash)
    &&& source.shown(slot.hash) == Some(slot.relation@)
    &&& spec_decode_id(slot.relation.id@) == Some(slot.hash)
}

/// Every slot is sound and the slots ascend by identifier.
spec fn slots_ok(source: GraphSource, slots: Seq<Slot>) -> bool {
    &&& forall|k: int| 0 <= k < slots.len() ==> slot_ok(source, #[trigger] slots[k])
    &&& forall|i: int, j: int|
        0 <= i < j < slots.len() ==> text_before(
            #[trigger] slots[i].relation.id@,
            #[trigger] slots[j].relation.id@,
        )
}

/// Some slot holds the key.
spec fn has_slot(slots: Seq<Slot>, hash: u128) -> bool {
    exists|k: int| 0 <= k < slots.len() && (#[trigger] slots[k]).hash == hash
}

/// What is shown of a key of the tables.
fn resolve(
    tables: &GraphTables,
    hash: u128,
    joined_rooms: &Vec<JoinedRoom>,
    joined_members: &Vec<MemberCount>,
) -> (r: Option<RoomRelation>)
    ensures
        match r {
            Some(relation) => {
                &&& source_of(*tables, joined_rooms@, joined_members@).shown(hash) == Some(
                    relation@,
                )
                &&& spec_decode_id(relation.id@) == Some(hash)
            },
            None => source_of(*tables, joined_rooms@, joined_members@).shown(hash) is None,
        },
{
    let key = key_bytes(hash);
    let identifier = tables.name_of(key.as_slice());
    resolve_node(encode_id(hash), hash, identifier, joined_rooms, joined_members)
}

/// Where a room with the given identifier stands among the slots, or
/// where it would go.
fn place(slots: &Vec<Slot>, id: &str) -> (r: (usize, bool))
    requires
        forall|i: int, j: int|
            0 <= i < j < slots@.len() ==> text_before(
                #[trigger] slots@[i].relation.id@,
                #[trigger] slots@[j].relation.id@,
            ),
    ensures
        r.0 <= slots@.len(),
        r.1 ==> r.0 < slots@.len() && slots@[r.0 as int].relation.id@ == id@,
        !r.1 ==> forall|k: int| 0 <= k < r.0 ==> text_before(#[trigger] slots@[k].relation.id@, id@),
        !r.1 ==> forall|k: int|
            r.0 <= k < slots@.len() ==> text_before(id@, #[trigger] slots@[k].relation.id@),
{
    let mut i: usize = 0;
    while i < slots.len()
        invariant
            i <= slots@.len(),
            forall|a: int, b: int|
                0 <= a < b < slots@.len() ==> text_before(
                    #[trigger] slots@[a].relation.id@,
                    #[trigger] slots@[b].relation.id@,
                ),
            forall|k: int| 0 <= k < i ==> text_before(#[trigger] slots@[k].relation.id@, id@),
        decreases slots@.len() - i,
    {
        match compare_text(slots[i].relation.id.as_str(), id) {
            Rank::Before => {},
            Rank::Same => {
                return (i, true);
            },
            Rank::After => {
                proof {
                    assert forall|k: int| i <= k < slots@.len() implies text_before(
                        id@,
                        #[trigger] slots@[k].relation.id@,
                    ) by {
                        if i < k {
                            lemma_text_transitive(
                                id@,
                                slots@[i as int].relation.id@,
                                slots@[k].relation.id@,
                            );
                        }
                    }
                }
                return (i, false);
            },
        }
        i += 1;
    }
    (i, false)
}

/// Puts what is shown of a key among the slots, unless nothing is shown of
/// it or it is there already.
fn add_node(
    slots: &mut Vec<Slot>,
    tables: &GraphTables,
    hash: u128,
    joined_rooms: &Vec<JoinedRoom>,
    joined_members: &Vec<MemberCount>,
)
    requires
        slots_ok(source_of(*tables, joined_rooms@, joined_members@), old(slots)@),
        source_of(*tables, joined_rooms@, joined_members@).shown(hash) is Some ==> source_of(
            *tables,
            joined_rooms@,
            joined_members@,
        ).is_node(hash),
    ensures
        slots_ok(source_of(*tables, joined_rooms@, joined_members@), final(slots)@),
        forall|other: u128| has_slot(old(slots)@, other) ==> has_slot(final(slots)@, other),
        source_of(*tables, joined_rooms@, joined_members@).shown(hash) is Some ==> has_slot(
            final(slots)@,
            hash,
        ),
{
    let ghost source = source_of(*tables, joined_rooms@, joined_members@);
    match resolve(tables, hash, joined_rooms, joined_members) {
        Some(relation) => {
            let (at, found) = place(slots, relation.id.as_str());
            if found {
                assert(slot_ok(source, slots@[at as int]));
                assert(slots@[at as int].hash == hash);
            } else {
                let ghost before = slots@;
                let slot = Slot { hash, relation };
                slots.insert(at, slot);
                proof {
                    let after = slots@;
                    assert(after == before.insert(at as int, slot));
                    assert forall|k: int| 0 <= k < after.len() implies slot_ok(
                        source,
                        #[trigger] after[k],
                    ) by {
                        if k < at {
                            assert(after[k] == before[k]);
                        } else if k > at {
                            assert(after[k] == before[k - 1]);
                        }
                    }
                    assert forall|i: int, j: int| 0 <= i < j < after.len() implies text_before(
                        #[trigger] after[i].relation.id@,
                        #[trigger] after[j].relation.id@,
                    ) by {
                        let x = if i < at { before[i] } else if i == at { slot } else { before[i - 1] };
                        let y = if j < at { before[j] } else if j == at { slot } else { before[j - 1] };
                        assert(after[i] == x);
                        assert(after[j] == y);
                    }
                    assert forall|other: u128| has_slot(before, other) implies has_slot(
                        after,
                        other,
                    ) by {
                        let k = choose|k: int| 0 <= k < before.len() && (#[trigger] before[k]).hash
                            == other;
                        if k < at {
                            assert(after[k].hash == other);
                        } else {
                            assert(after[k + 1].hash == other);
                        }
                    }
                    assert(after[at as int].hash == hash);
                }
            }
        },
        None => {},
    }
}

/// The place of the slot that holds a key.
fn find_slot(slots: &Vec<Slot>, hash: u128) -> (r: Option<usize>)
    ensures
        match r {
            Some(k) => k < slots@.len() && slots@[k as int].hash == hash,
            None => !has_slot(slots@, hash),
        },
{
    let mut k: usize = 0;
    while k < slots.len()
        invariant
            k <= slots@.len(),
            forall|j: int| 0 <= j < k ==> (#[trigger] slots@[j]).hash != hash,
        decreases slots@.len() - k,
    {
        if slots[k].hash == hash {
            return Some(k);
        }
        k += 1;
    }
    None
}

/// The slots of the keys that have a stored set of children and are shown.
fn collect_parents(
    tables: &GraphTables,
    joined_rooms: &Vec<JoinedRoom>,
    joined_members: &Vec<MemberCount>,
) -> (slots: Vec<Slot>)
    ensures
        slots_ok(source_of(*tables, joined_rooms@, joined_members@), slots@),
        forall|hash: u128|
            tables.children().contains_key(#[trigger] key_of(hash)) && source_of(
                *tables,
                joined_rooms@,
                joined_members@,
            ).shown(hash) is Some ==> has_slot(slots@, hash),
{
    let ghost source = source_of(*tables, joined_rooms@, joined_members@);
    let mut slots: Vec<Slot> = Vec::new();
    let n = tables.parent_count();
    let mut i: usize = 0;
    while i < n
        invariant
            n == tables.parent_keys().len(),
            i <= n,
            source == source_of(*tables, joined_rooms@, joined_members@),
            slots_ok(source, slots@),
            forall|j: int, hash: u128|
                0 <= j < i && #[trigger] key_of(hash) == #[trigger] tables.parent_keys()[j]
                    && source.shown(hash) is Some ==> has_slot(slots@, hash),
        decreases n - i,
    {
        let key = tables.parent_key(i);
        proof {
            lemma_hash_of_key(key@);
        }
        match hash_of_key(key) {
            Some(hash) => {
                add_node(&mut slots, tables, hash, joined_rooms, joined_members);
            },
            None => {},
        }
        i += 1;
    }
    proof {
        assert forall|hash: u128|
            tables.children().contains_key(#[trigger] key_of(hash)) && source.shown(
                hash,
            ) is Some implies has_slot(slots@, hash) by {
            tables.lemma_parent_listed(key_of(hash));
            let j = choose|j: int|
                0 <= j < tables.parent_keys().len() && tables.parent_keys()[j] == key_of(hash);
            assert(key_of(hash) == tables.parent_keys()[j]);
        }
    }
    slots
}

/// The keys that stored bytes hold; none where there are no bytes or they
/// are malformed.
fn members_of(stored: Option<&Vec<u8>>) -> (members: Vec<u128>)
    ensures
        members@ == stored_members(held(stored)),
{
    match stored {
        Some(bytes) => match decode_members(bytes.as_slice()) {
            Some(members) => members,
            None => Vec::new(),
        },
        None => Vec::new(),
    }
}

/// Adds the slots of the children, where they are shown, of every parent
/// that has a slot.
fn collect_children(
    slots: &mut Vec<Slot>,
    tables: &GraphTables,
    joined_rooms: &Vec<JoinedRoom>,
    joined_members: &Vec<MemberCount>,
)
    requires
        slots_ok(source_of(*tables, joined_rooms@, joined_members@), old(slots)@),
        forall|hash: u128|
            tables.children().contains_key(#[trigger] key_of(hash)) && source_of(
                *tables,
                joined_rooms@,
                joined_members@,
            ).shown(hash) is Some ==> has_slot(old(slots)@, hash),
    ensures
        slots_ok(source_of(*tables, joined_rooms@, joined_members@), final(slots)@),
        forall|hash: u128|
            source_of(*tables, joined_rooms@, joined_members@).is_node(hash) ==> has_slot(
                final(slots)@,
                hash,
            ),
{
    let ghost source = source_of(*tables, joined_rooms@, joined_members@);
    let n = tables.parent_count();
    let mut i: usize = 0;
    while i < n
        invariant
            n == tables.parent_keys().len(),
            i <= n,
            source == source_of(*tables, joined_rooms@, joined_members@),
            slots_ok(source, slots@),
            forall|hash: u128|
                tables.children().contains_key(#[trigger] key_of(hash)) && source.shown(
                    hash,
                ) is Some ==> has_slot(slots@, hash),
            forall|j: int, parent: u128, child: u128|
                0 <= j < i && #[trigger] key_of(parent) == #[trigger] tables.parent_keys()[j]
                    && #[trigger] source.is_link(parent, child) ==> has_slot(slots@, child),
        decreases n - i,
    {
        let key = tables.parent_key(i);
        proof {
            lemma_hash_of_key(key@);
        }
        match hash_of_key(key) {
            Some(parent) => {
                if find_slot(slots, parent).is_some() {
                    let kids = members_of(tables.children_of(key.as_slice()));
                    let mut m: usize = 0;
                    while m < kids.len()
                        invariant
                            n == tables.parent_keys().len(),
                            i < n,
                            m <= kids@.len(),
                            source == source_of(*tables, joined_rooms@, joined_members@),
                            kids@ == source.kids(parent),
                            source.shown(parent) is Some,
                            slots_ok(source, slots@),
                            forall|hash: u128|
                                tables.children().contains_key(#[trigger] key_of(hash))
                                    && source.shown(hash) is Some ==> has_slot(slots@, hash),
                            forall|j: int, parent: u128, child: u128|
                                0 <= j < i && #[trigger] key_of(parent)
                                    == #[trigger] tables.parent_keys()[j]
                                    && #[trigger] source.is_link(parent, child) ==> has_slot(
                                    slots@,
                                    child,
                                ),
                            forall|q: int|
                                0 <= q < m && source.shown(#[trigger] kids@[q]) is Some
                                    ==> has_slot(slots@, kids@[q]),
                        decreases kids@.len() - m,
                    {
                        let child = kids[m];
                        proof {
                            if source.shown(child) is Some {
                                assert(source.is_link(parent, child));
                            }
                        }
                        add_node(slots, tables, child, joined_rooms, joined_members);
                        m += 1;
                    }
                    proof {
                        assert forall|child: u128| #[trigger]
                            source.is_link(parent, child) implies has_slot(slots@, child) by {
                            let q = choose|q: int| 0 <= q < kids@.len() && kids@[q] == child;
                            assert(source.shown(kids@[q]) is Some);
                        }
                    }
                } else {
                    assert(source.shown(parent) is None);
                }
            },
            None => {},
        }
        i += 1;
    }
    proof {
        assert forall|hash: u128| source.is_node(hash) implies has_slot(slots@, hash) by {
            if tables.children().contains_key(key_of(hash)) {
            } else {
                let parent = choose|parent: u128| source.is_link(parent, hash);
                assert(source.kids(parent).contains(hash));
                assert(tables.children().contains_key(key_of(parent)));
                tables.lemma_parent_listed(key_of(parent));
                let j = choose|j: int|
                    0 <= j < tables.parent_keys().len() && tables.parent_keys()[j] == key_of(
                        parent,
                    );
                assert(key_of(parent) == tables.parent_keys()[j]);
                assert(source.is_link(parent, hash));
            }
        }
    }
}

/// The link between two slots.
spec fn slot_link(slots: Seq<Slot>, pair: (int, int)) -> LinkView {
    LinkView {
        source: slots[pair.0].relation.id@,
        target: slots[pair.1].relation.id@,
        value: 1,
    }
}

/// `pair` comes before the slot pair `(s, t)`.
spec fn pair_before(pair: (int, int), s: int, t: int) -> bool {
    pair.0 < s || (pair.0 == s && pair.1 < t)
}

/// The links made so far are those between the slot pairs that come before
/// `(s, t)`, in their order.
spec fn links_so_far(
    source: GraphSource,
    slots: Seq<Slot>,
    links: Seq<Link>,
    pairs: Seq<(int, int)>,
    s: int,
    t: int,
) -> bool {
    &&& pairs.len() == links.len()
    &&& forall|k: int|
        0 <= k < pairs.len() ==> {
            &&& 0 <= (#[trigger] pairs[k]).0 < slots.len()
            &&& 0 <= pairs[k].1 < slots.len()
            &&& pair_before(pairs[k], s, t)
            &&& links[k]@ == slot_link(slots, pairs[k])
            &&& source.kids(slots[pairs[k].0].hash).contains(slots[pairs[k].1].hash)
        }
    &&& forall|a: int, b: int|
        0 <= a < b < links.len() ==> link_before(#[trigger] links[a]@, #[trigger] links[b]@)
    &&& forall|a: int, b: int|
        0 <= a < slots.len() && 0 <= b < slots.len() && pair_before((a, b), s, t)
            && #[trigger] source.kids(slots[a].hash).contains(slots[b].hash)
            ==> pairs.contains((a, b))
}

/// A link between slots comes after every link between slot pairs that
/// come before it.
proof fn lemma_pair_order(slots: Seq<Slot>, earlier: (int, int), s: int, t: int)
    requires
        forall|i: int, j: int|
            0 <= i < j < slots.len() ==> text_before(
                #[trigger] slots[i].relation.id@,
                #[trigger] slots[j].relation.id@,
            ),
        0 <= earlier.0 < slots.len(),
        0 <= earlier.1 < slots.len(),
        0 <= s < slots.len(),
        0 <= t < slots.len(),
        pair_before(earlier, s, t),
    ensures
        link_before(slot_link(slots, earlier), slot_link(slots, (s, t))),
{
    if earlier.0 < s {
        assert(text_before(slots[earlier.0].relation.id@, slots[s].relation.id@));
    } else {
        assert(text_before(slots[earlier.1].relation.id@, slots[t].relation.id@));
    }
}

/// The links between the slots: one for each pair of which the second is
/// recorded as a child of the first, in the order of the pairs.
fn collect_links(
    slots: &Vec<Slot>,
    tables: &GraphTables,
    joined_rooms: &Vec<JoinedRoom>,
    joined_members: &Vec<MemberCount>,
) -> (r: (Vec<Link>, Ghost<Seq<(int, int)>>))
    requires
        slots_ok(source_of(*tables, joined_rooms@, joined_members@), slots@),
    ensures
        links_so_far(
            source_of(*tables, joined_rooms@, joined_members@),
            slots@,
            r.0@,
            r.1@,
            slots@.len() as int,
            0,
        ),
{
    let ghost source = source_of(*tables, joined_rooms@, joined_members@);
    let mut links: Vec<Link> = Vec::new();
    let ghost mut pairs: Seq<(int, int)> = Seq::empty();
    let n = slots.len();
    let mut s: usize = 0;
    while s < n
        invariant
            n == slots@.len(),
            s <= n,
            source == source_of(*tables, joined_rooms@, joined_members@),
            slots_ok(source, slots@),
            links_so_far(source, slots@, links@, pairs, s as int, 0),
        decreases n - s,
    {
        let parent = slots[s].hash;
        let key = key_bytes(parent);
        let kids = members_of(tables.children_of(key.as_slice()));
        let mut t: usize = 0;
        while t < n
            invariant
                n == slots@.len(),
                s < n,
                t <= n,
                parent == slots@[s as int].hash,
                kids@ == source.kids(parent),
                source == source_of(*tables, joined_rooms@, joined_members@),
                slots_ok(source, slots@),
                links_so_far(source, slots@, links@, pairs, s as int, t as int),
            decreases n - t,
        {
            let ghost before = links@;
            let ghost pairs_before = pairs;
            if has_member(&kids, slots[t].hash) {
                let link = Link {
                    source: slots[s].relation.id.clone(),
                    target: slots[t].relation.id.clone(),
                    value: 1,
                };
                links.push(link);
                proof {
                    pairs = pairs.push((s as int, t as int));
                    assert(links@[before.len() as int]@ == slot_link(slots@, (s as int, t as int)));
                    assert forall|a: int, b: int| 0 <= a < b < links@.len() implies link_before(
                        #[trigger] links@[a]@,
                        #[trigger] links@[b]@,
                    ) by {
                        if b == before.len() {
                            assert(links@[a] == before[a]);
                            lemma_pair_order(slots@, pairs_before[a], s as int, t as int);
                        } else {
                            assert(links@[a] == before[a]);
                            assert(links@[b] == before[b]);
                        }
                    }
                    assert forall|a: int, b: int|
                        0 <= a < slots@.len() && 0 <= b < slots@.len() && pair_before(
                            (a, b),
                            s as int,
                            t + 1,
                        ) && #[trigger] source.kids(slots@[a].hash).contains(
                            slots@[b].hash,
                        ) implies pairs.contains((a, b)) by {
                        if a == s && b == t {
                            assert(pairs[pairs_before.len() as int] == (a, b));
                        } else {
                            assert(pair_before((a, b), s as int, t as int));
                            assert(pairs_before.contains((a, b)));
                            let k = choose|k: int|
                                0 <= k < pairs_before.len() && pairs_before[k] == (a, b);
                            assert(pairs[k] == (a, b));
                        }
                    }
                    assert forall|k: int| 0 <= k < pairs.len() implies {
                        &&& 0 <= (#[trigger] pairs[k]).0 < slots@.len()
                        &&& 0 <= pairs[k].1 < slots@.len()
                        &&& pair_before(pairs[k], s as int, t + 1)
                        &&& links@[k]@ == slot_link(slots@, pairs[k])
                        &&& source.kids(slots@[pairs[k].0].hash).contains(slots@[pairs[k].1].hash)
                    } by {
                        if k < pairs_before.len() {
                            assert(pairs[k] == pairs_before[k]);
                            assert(links@[k] == before[k]);
                        }
                    }
                }
            } else {
                proof {
                    assert forall|k: int| 0 <= k < pairs.len() implies pair_before(
                        #[trigger] pairs[k],
                        s as int,
                        t + 1,
                    ) by {}
                }
            }
            t += 1;
        }
        proof {
            assert forall|k: int| 0 <= k < pairs.len() implies pair_before(
                #[trigger] pairs[k],
                s + 1,
                0,
            ) by {}
        }
        s += 1;
    }
    (links, Ghost(pairs))
}

/// Whether a link counts for the room `id` in the given way.
fn link_counts(role: &Role, link: &Link, id: &str) -> (r: bool)
    ensures
        r == counts_for(*role, link@, id@),
{
    match role {
        Role::Touching => (same_text(link.source.as_str(), id) || same_text(
            link.target.as_str(),
            id,
        )) && !same_text(link.source.as_str(), link.target.as_str()),
        Role::Incoming => same_text(link.target.as_str(), id),
        Role::Outgoing => same_text(link.source.as_str(), id),
    }
}

/// How many of the links count for the room `id` in the given way, as the
/// view reports it.
pub fn count_links(role: Role, links: &Vec<Link>, id: &str) -> (n: i32)
    ensures
        n == reported(tally(role, link_views(links@), id@)),
{
    let ghost views = link_views(links@);
    let mut count: usize = 0;
    let mut k: usize = 0;
    while k < links.len()
        invariant
            views == link_views(links@),
            k <= links@.len(),
            count <= k,
            count == tally(role, views.take(k as int), id@),
        decreases links@.len() - k,
    {
        proof {
            assert(views.take(k + 1).drop_last() =~= views.take(k as int));
            assert(views.take(k + 1).last() == links@[k as int]@);
        }
        if link_counts(&role, &links[k], id) {
            count += 1;
        }
        k += 1;
    }
    proof {
        assert(views.take(k as int) =~= views);
    }
    if count > 0x7fff_ffff {
        0x7fff_ffff
    } else {
        count as i32
    }
}

/// The rooms of the slots, each with its links counted.
fn emit_nodes(slots: &Vec<Slot>, links: &Vec<Link>) -> (nodes: Vec<RoomRelation>)
    ensures
        nodes@.len() == slots@.len(),
        forall|i: int|
            0 <= i < nodes@.len() ==> (#[trigger] nodes@[i])@ == counted(
                slots@[i].relation@,
                link_views(links@),
            ),
{
    let mut nodes: Vec<RoomRelation> = Vec::new();
    let mut i: usize = 0;
    while i < slots.len()
        invariant
            i <= slots@.len(),
            nodes@.len() == i,
            forall|j: int|
                0 <= j < i ==> (#[trigger] nodes@[j])@ == counted(
                    slots@[j].relation@,
                    link_views(links@),
                ),
        decreases slots@.len() - i,
    {
        let room = &slots[i].relation;
        let id = room.id.clone();
        let weight = count_links(Role::Touching, links, id.as_str());
        let incoming = count_links(Role::Incoming, links, id.as_str());
        let outgoing = count_links(Role::Outgoing, links, id.as_str());
        nodes.push(
            RoomRelation {
                id,
                room_id: room.room_id.clone(),
                name: room.name.clone(),
                alias: room.alias.clone(),
                avatar: room.avatar.clone(),
                members: room.members,
                topic: room.topic.clone(),
                weight: Some(weight),
                incoming_links: Some(incoming),
                outgoing_links: Some(outgoing),
                is_space: room.is_space,
            },
        );
        i += 1;
    }
    nodes
}

/// The graph view of the tables and the joined rooms.
pub fn materialize(
    tables: &GraphTables,
    joined_rooms: &Vec<JoinedRoom>,
    joined_members: &Vec<MemberCount>,
) -> (out: RelationsJson)
    ensures
        is_graph_view(out, source_of(*tables, joined_rooms@, joined_members@)),
{
    let ghost source = source_of(*tables, joined_rooms@, joined_members@);
    let mut slots = collect_parents(tables, joined_rooms, joined_members);
    collect_children(&mut slots, tables, joined_rooms, joined_members);
    let (links, Ghost(pairs)) = collect_links(&slots, tables, joined_rooms, joined_members);
    let nodes = emit_nodes(&slots, &links);
    let out = RelationsJson { nodes, links };
    proof {
        let hashes = slots@.map_values(|slot: Slot| slot.hash);
        let edges = pairs.map_values(
            |pair: (int, int)| (slots@[pair.0].hash, slots@[pair.1].hash),
        );
        assert forall|i: int| 0 <= i < hashes.len() implies {
            &&& source.is_node(#[trigger] hashes[i])
            &&& spec_decode_id(out.nodes@[i].id@) == Some(hashes[i])
            &&& source.shown(hashes[i]) is Some
            &&& out.nodes@[i]@ == counted(source.shown(hashes[i])->0, link_views(out.links@))
        } by {
            assert(slot_ok(source, slots@[i]));
            assert(out.nodes@[i]@ == counted(slots@[i].relation@, link_views(out.links@)));
        }
        assert forall|hash: u128| source.is_node(hash) implies hashes.contains(hash) by {
            assert(has_slot(slots@, hash));
            let k = choose|k: int| 0 <= k < slots@.len() && (#[trigger] slots@[k]).hash == hash;
            assert(hashes[k] == hash);
        }
        assert forall|i: int, j: int| 0 <= i < j < out.nodes@.len() implies text_before(
            #[trigger] out.nodes@[i].id@,
            #[trigger] out.nodes@[j].id@,
        ) by {
            assert(out.nodes@[i]@.id == slots@[i].relation.id@);
            assert(out.nodes@[j]@.id == slots@[j].relation.id@);
        }
        assert forall|k: int| 0 <= k < edges.len() implies {
            &&& source.is_link((#[trigger] edges[k]).0, edges[k].1)
            &&& out.links@[k]@ == link_of(edges[k].0, edges[k].1)
        } by {
            let pair = pairs[k];
            assert(slot_ok(source, slots@[pair.0]));
            assert(slot_ok(source, slots@[pair.1]));
            lemma_shown_id(source, slots@[pair.0].hash);
            lemma_shown_id(source, slots@[pair.1].hash);
        }
        assert forall|parent: u128, child: u128| #[trigger]
            source.is_link(parent, child) implies edges.contains((parent, child)) by {
            assert(source.kids(parent).contains(child));
            assert(tables.children().contains_key(key_of(parent)));
            assert(source.is_node(parent));
            assert(source.is_node(child));
            assert(has_slot(slots@, parent));
            assert(has_slot(slots@, child));
            let a = choose|a: int| 0 <= a < slots@.len() && (#[trigger] slots@[a]).hash == parent;
            let b = choose|b: int| 0 <= b < slots@.len() && (#[trigger] slots@[b]).hash == child;
            assert(pair_before((a, b), slots@.len() as int, 0));
            assert(source.kids(slots@[a].hash).contains(slots@[b].hash));
            assert(pairs.contains((a, b)));
            let k = choose|k: int| 0 <= k < pairs.len() && pairs[k] == (a, b);
            assert(edges[k] == (parent, child));
        }
        assert(describes(out, source, hashes, edges));
    }
    out
}

} // verus!
