//! The servers that host the rooms of the graph.

use vstd::prelude::*;
use vstd::string::*;
use crate::api::ServersJson;
use crate::graph::{GraphDb, StoreError};
use crate::identity::{hash_of_key, identifier_of, identifier_text, key_bytes, key_of, lemma_hash_of_key};
use crate::order::{compare_text, lemma_text_transitive, text_before, Rank};
use crate::queries::texts;
use crate::relations::{source_of, GraphSource};
use crate::rooms::{is_joined, joined_room, JoinedRoom, SEED_ROOM_HASH};
use crate::snapshot::GraphTables;
use crate::wire::decode_members;

verus! {

/// Where the first colon at or after `from` stands in a text; the length
/// of the text where there is none.
pub open spec fn colon_from(text: Seq<char>, from: int) -> int
    decreases text.len() - from,
{
    if from < 0 || from >= text.len() {
        text.len() as int
    } else if text[from] == ':' {
        from
    } else {
        colon_from(text, from + 1)
    }
}

/// The server part of a room identifier: what stands between its first
/// colon and its second, or its end; none where it has no colon.
pub open spec fn server_of(room_id: Seq<char>) -> Option<Seq<char>> {
    let first = colon_from(room_id, 0);
    if first >= room_id.len() {
        None
    } else {
        Some(room_id.subrange(first + 1, colon_from(room_id, first + 1)))
    }
}

/// Finds the first colon at or after `from`.
fn find_colon(text: &str, len: usize, from: usize) -> (at: usize)
    requires
        len == text@.len(),
        from <= len,
    ensures
        at == colon_from(text@, from as int),
        from <= at <= len,
{
    let mut i: usize = from;
    while i < len
        invariant
            len == text@.len(),
            from <= i <= len,
            colon_from(text@, from as int) == colon_from(text@, i as int),
        decreases len - i,
    {
        if text.get_char(i) == ':' {
            return i;
        }
        i += 1;
    }
    i
}

/// The server part of a room identifier.
pub fn server_name(room_id: &str) -> (r: Option<String>)
    ensures
        match r {
            Some(server) => server_of(room_id@) == Some(server@),
            None => server_of(room_id@) is None,
        },
{
    let len = room_id.unicode_len();
    let first = find_colon(room_id, len, 0);
    if first >= len {
        None
    } else {
        let second = find_colon(room_id, len, first + 1);
        Some(room_id.substring_char(first + 1, second).to_owned())
    }
}

/// The texts ascend strictly.
pub open spec fn ascending_texts(list: Seq<Seq<char>>) -> bool {
    forall|i: int, j: int| 0 <= i < j < list.len() ==> text_before(list[i], list[j])
}

/// Where a text stands in an ascending list, or where it would go.
fn place_text(list: &Vec<String>, text: &str) -> (r: (usize, bool))
    requires
        ascending_texts(texts(list@)),
    ensures
        r.0 <= list@.len(),
        r.1 ==> r.0 < list@.len() && list@[r.0 as int]@ == text@,
        !r.1 ==> forall|k: int| 0 <= k < r.0 ==> text_before(texts(list@)[k], text@),
        !r.1 ==> forall|k: int| r.0 <= k < list@.len() ==> text_before(text@, texts(list@)[k]),
{
    let ghost items = texts(list@);
    let mut i: usize = 0;
    while i < list.len()
        invariant
            i <= list@.len(),
            items == texts(list@),
            ascending_texts(items),
            forall|k: int| 0 <= k < i ==> text_before(items[k], text@),
        decreases list@.len() - i,
    {
        match compare_text(list[i].as_str(), text) {
            Rank::Before => {},
            Rank::Same => {
                return (i, true);
            },
            Rank::After => {
                proof {
                    assert forall|k: int| i <= k < list@.len() implies text_before(
                        text@,
                        items[k],
                    ) by {
                        if i < k {
                            assert(text_before(items[i as int], items[k]));
                            lemma_text_transitive(text@, items[i as int], items[k]);
                        }
                    }
                }
                return (i, false);
            },
        }
        i += 1;
    }
    (i, false)
}

/// Puts a text into an ascending list, unless it is there.
fn insert_text(list: &mut Vec<String>, text: String)
    requires
        ascending_texts(texts(old(list)@)),
    ensures
        ascending_texts(texts(final(list)@)),
        forall|other: Seq<char>|
            texts(final(list)@).contains(other) <==> texts(old(list)@).contains(other) || other
                == text@,
{
    let ghost before = texts(list@);
    let (i, found) = place_text(list, text.as_str());
    if found {
        proof {
            assert(before[i as int] == text@);
        }
        return ;
    }
    list.insert(i, text);
    proof {
        let after = texts(list@);
        assert(after =~= before.insert(i as int, text@));
        assert forall|a: int, b: int| 0 <= a < b < after.len() implies text_before(
            after[a],
            after[b],
        ) by {
            let x = if a < i { a } else { a - 1 };
            let y = if b < i { b } else { b - 1 };
            if a != i && b != i {
                assert(text_before(before[x], before[y]));
            }
        }
        assert forall|other: Seq<char>|
            after.contains(other) <==> before.contains(other) || other == text@ by {
            if before.contains(other) {
                let k = choose|k: int| 0 <= k < before.len() && before[k] == other;
                if k < i {
                    assert(after[k] == other);
                } else {
                    assert(after[k + 1] == other);
                }
            }
            if other == text@ {
                assert(after[i as int] == other);
            }
            if after.contains(other) {
                let k = choose|k: int| 0 <= k < after.len() && after[k] == other;
                if k < i {
                    assert(before[k] == other);
                } else if k > i {
                    assert(before[k - 1] == other);
                }
            }
        }
    }
}

impl GraphSource {
    /// The canonical id of a key's room, if the room counts for the server
    /// list: the key is mapped, the room is joined, and it is not the seed
    /// room.
    pub open spec fn hosted(self, hash: u128) -> Option<Seq<char>> {
        match self.names.get(key_of(hash)) {
            Some(bytes) => if hash != SEED_ROOM_HASH && joined_room(
                self.joined,
                identifier_text(bytes),
            ) is Some {
                Some(identifier_text(bytes))
            } else {
                None
            },
            None => None,
        }
    }

    /// A key counts for the server list: its room does, and it has a stored
    /// set of children or is recorded as a child of a room that counts.
    pub open spec fn is_hosted_room(self, hash: u128) -> bool {
        &&& self.hosted(hash) is Some
        &&& (self.children.contains_key(key_of(hash)) || exists|parent: u128|
            self.hosted(parent) is Some && #[trigger] self.kids(parent).contains(hash))
    }

    /// A server hosts a room that counts.
    pub open spec fn is_room_server(self, server: Seq<char>) -> bool {
        exists|hash: u128| #[trigger]
            self.is_hosted_room(hash) && server_of(self.hosted(hash)->0) == Some(server)
    }

    /// The server of a key's room, where it has one, is in the list.
    pub open spec fn server_listed(self, hash: u128, list: Seq<Seq<char>>) -> bool {
        match self.hosted(hash) {
            Some(room_id) => match server_of(room_id) {
                Some(server) => list.contains(server),
                None => true,
            },
            None => true,
        }
    }
}

/// `out` is the server list of `source`: in ascending order and without
/// repetition, the servers of the rooms that count and, where asked for,
/// the servers of their members.
pub open spec fn is_server_list(
    out: ServersJson,
    source: GraphSource,
    include_members: bool,
    member_servers: Seq<String>,
) -> bool {
    &&& ascending_texts(texts(out.servers@))
    &&& forall|server: Seq<char>|
        texts(out.servers@).contains(server) <==> source.is_room_server(server) || (include_members
            && texts(member_servers).contains(server))
}

/// A text is in `list` exactly if it is in `rooms` or in `members`.
spec fn merged(
    list: Seq<Seq<char>>,
    rooms: Seq<Seq<char>>,
    members: Seq<Seq<char>>,
    server: Seq<char>,
) -> bool {
    list.contains(server) <==> rooms.contains(server) || members.contains(server)
}

/// Every text of the list is the server of a room that counts.
spec fn all_hosts(source: GraphSource, list: Seq<Seq<char>>) -> bool {
    forall|server: Seq<char>| list.contains(server) ==> source.is_room_server(server)
}

/// Puts the server of a key's room into the list, if the room counts and
/// has a server.
fn add_server(
    servers: &mut Vec<String>,
    tables: &GraphTables,
    hash: u128,
    joined_rooms: &Vec<JoinedRoom>,
)
    requires
        ascending_texts(texts(old(servers)@)),
        all_hosts(source_of(*tables, joined_rooms@, Seq::empty()), texts(old(servers)@)),
        source_of(*tables, joined_rooms@, Seq::empty()).hosted(hash) is Some ==> source_of(
            *tables,
            joined_rooms@,
            Seq::empty(),
        ).is_hosted_room(hash),
    ensures
        ascending_texts(texts(final(servers)@)),
        all_hosts(source_of(*tables, joined_rooms@, Seq::empty()), texts(final(servers)@)),
        forall|other: Seq<char>|
            texts(old(servers)@).contains(other) ==> texts(final(servers)@).contains(other),
        source_of(*tables, joined_rooms@, Seq::empty()).server_listed(hash, texts(final(servers)@)),
{
    let ghost source = source_of(*tables, joined_rooms@, Seq::empty());
    if hash == SEED_ROOM_HASH {
        return ;
    }
    let key = key_bytes(hash);
    match tables.name_of(key.as_slice()) {
        Some(bytes) => {
            let room_id = identifier_of(bytes.clone());
            if is_joined(room_id.as_str(), joined_rooms) {
                match server_name(room_id.as_str()) {
                    Some(server) => {
                        proof {
                            assert(source.is_hosted_room(hash) && server_of(source.hosted(hash)->0)
                                == Some(server@));
                            assert(source.is_room_server(server@));
                        }
                        insert_text(servers, server);
                    },
                    None => {},
                }
            }
        },
        None => {},
    }
}

/// Whether a key's room counts for the server list.
fn is_hosted(tables: &GraphTables, hash: u128, joined_rooms: &Vec<JoinedRoom>) -> (r: bool)
    ensures
        r == (source_of(*tables, joined_rooms@, Seq::empty()).hosted(hash) is Some),
{
    if hash == SEED_ROOM_HASH {
        return false;
    }
    let key = key_bytes(hash);
    match tables.name_of(key.as_slice()) {
        Some(bytes) => {
            let room_id = identifier_of(bytes.clone());
            is_joined(room_id.as_str(), joined_rooms)
        },
        None => false,
    }
}

/// The server list of the tables and the joined rooms.
pub fn servers_of(
    tables: &GraphTables,
    include_members: bool,
    joined_rooms: &Vec<JoinedRoom>,
    member_servers: &Vec<String>,
) -> (out: ServersJson)
    ensures
        is_server_list(
            out,
            source_of(*tables, joined_rooms@, Seq::empty()),
            include_members,
            member_servers@,
        ),
{
    let ghost source = source_of(*tables, joined_rooms@, Seq::empty());
    let mut servers: Vec<String> = Vec::new();
    let n = tables.parent_count();
    let mut i: usize = 0;
    while i < n
        invariant
            n == tables.parent_keys().len(),
            i <= n,
            source == source_of(*tables, joined_rooms@, Seq::empty()),
            ascending_texts(texts(servers@)),
            all_hosts(source, texts(servers@)),
            forall|j: int, hash: u128|
                0 <= j < i && #[trigger] key_of(hash) == #[trigger] tables.parent_keys()[j]
                    ==> source.server_listed(hash, texts(servers@)),
            forall|j: int, parent: u128, child: u128|
                0 <= j < i && #[trigger] key_of(parent) == #[trigger] tables.parent_keys()[j]
                    && source.hosted(parent) is Some && #[trigger] source.kids(parent).contains(
                    child,
                ) ==> source.server_listed(child, texts(servers@)),
        decreases n - i,
    {
        let key = tables.parent_key(i);
        proof {
            lemma_hash_of_key(key@);
        }
        match hash_of_key(key) {
            Some(parent) => {
                add_server(&mut servers, tables, parent, joined_rooms);
                if is_hosted(tables, parent, joined_rooms) {
                    let kids = match tables.children_of(key.as_slice()) {
                        Some(bytes) => match decode_members(bytes.as_slice()) {
                            Some(kids) => kids,
                            None => Vec::new(),
                        },
                        None => Vec::new(),
                    };
                    let mut m: usize = 0;
                    while m < kids.len()
                        invariant
                            n == tables.parent_keys().len(),
                            i < n,
                            m <= kids@.len(),
                            source == source_of(*tables, joined_rooms@, Seq::empty()),
                            kids@ == source.kids(parent),
                            source.hosted(parent) is Some,
                            ascending_texts(texts(servers@)),
                            all_hosts(source, texts(servers@)),
                            source.server_listed(parent, texts(servers@)),
                            forall|j: int, hash: u128|
                                0 <= j < i && #[trigger] key_of(hash)
                                    == #[trigger] tables.parent_keys()[j] ==> source.server_listed(
                                    hash,
                                    texts(servers@),
                                ),
                            forall|j: int, parent: u128, child: u128|
                                0 <= j < i && #[trigger] key_of(parent)
                                    == #[trigger] tables.parent_keys()[j] && source.hosted(
                                    parent,
                                ) is Some && #[trigger] source.kids(parent).contains(child)
                                    ==> source.server_listed(child, texts(servers@)),
                            forall|q: int|
                                0 <= q < m ==> source.server_listed(
                                    #[trigger] kids@[q],
                                    texts(servers@),
                                ),
                        decreases kids@.len() - m,
                    {
                        proof {
                            if source.hosted(kids@[m as int]) is Some {
                                assert(source.kids(parent).contains(kids@[m as int]));
                            }
                        }
                        add_server(&mut servers, tables, kids[m], joined_rooms);
                        m += 1;
                    }
                    proof {
                        assert forall|child: u128| #[trigger]
                            source.kids(parent).contains(child) implies source.server_listed(
                            child,
                            texts(servers@),
                        ) by {
                            let q = choose|q: int| 0 <= q < kids@.len() && kids@[q] == child;
                            assert(source.server_listed(kids@[q], texts(servers@)));
                        }
                    }
                }
            },
            None => {},
        }
        i += 1;
    }
    proof {
        assert forall|server: Seq<char>| source.is_room_server(server) implies texts(
            servers@,
        ).contains(server) by {
            let hash = choose|hash: u128| #[trigger]
                source.is_hosted_room(hash) && server_of(source.hosted(hash)->0) == Some(server);
            if tables.children().contains_key(key_of(hash)) {
                tables.lemma_parent_listed(key_of(hash));
                let j = choose|j: int|
                    0 <= j < tables.parent_keys().len() && tables.parent_keys()[j] == key_of(hash);
                assert(key_of(hash) == tables.parent_keys()[j]);
                assert(source.server_listed(hash, texts(servers@)));
            } else {
                let parent = choose|parent: u128|
                    source.hosted(parent) is Some && #[trigger] source.kids(parent).contains(hash);
                assert(tables.children().contains_key(key_of(parent)));
                tables.lemma_parent_listed(key_of(parent));
                let j = choose|j: int|
                    0 <= j < tables.parent_keys().len() && tables.parent_keys()[j] == key_of(
                        parent,
                    );
                assert(key_of(parent) == tables.parent_keys()[j]);
                assert(source.kids(parent).contains(hash));
                assert(source.server_listed(hash, texts(servers@)));
            }
        }
    }
    if include_members {
        let ghost rooms = texts(servers@);
        let mut k: usize = 0;
        while k < member_servers.len()
            invariant
                k <= member_servers@.len(),
                ascending_texts(texts(servers@)),
                forall|server: Seq<char>| #[trigger]
                    merged(
                        texts(servers@),
                        rooms,
                        texts(member_servers@).take(k as int),
                        server,
                    ),
            decreases member_servers@.len() - k,
        {
            let ghost before = texts(servers@);
            let member = member_servers[k].clone();
            let ghost item = member@;
            insert_text(&mut servers, member);
            proof {
                let members = texts(member_servers@);
                assert(item == members[k as int]);
                assert(members.take(k + 1) =~= members.take(k as int).push(item));
                assert forall|server: Seq<char>| #[trigger]
                    merged(texts(servers@), rooms, members.take(k + 1), server) by {
                    lemma_push_contains(members.take(k as int), item, server);
                    assert(texts(servers@).contains(server) <==> before.contains(server) || server
                        == item);
                    assert(merged(before, rooms, members.take(k as int), server));
                }
            }
            k += 1;
        }
        proof {
            assert(texts(member_servers@).take(k as int) =~= texts(member_servers@));
            assert forall|server: Seq<char>|
                texts(servers@).contains(server) <==> source.is_room_server(server) || texts(
                    member_servers@,
                ).contains(server) by {
                assert(merged(texts(servers@), rooms, texts(member_servers@), server));
            }
        }
    }
    ServersJson { servers }
}

/// A text is in a list with one more item if it was in the list or is
/// that item.
proof fn lemma_push_contains(list: Seq<Seq<char>>, item: Seq<char>, other: Seq<char>)
    ensures
        list.push(item).contains(other) <==> list.contains(other) || other == item,
{
    let grown = list.push(item);
    assert(grown[list.len() as int] == item);
    if list.contains(other) {
        let i = choose|i: int| 0 <= i < list.len() && list[i] == other;
        assert(grown[i] == other);
    }
    if grown.contains(other) {
        let i = choose|i: int| 0 <= i < grown.len() && grown[i] == other;
        if i < list.len() {
            assert(list[i] == other);
        }
    }
}

impl GraphDb {
    /// The server list of the store and the joined rooms; an empty list
    /// where the store cannot be read.
    pub fn get_servers_json(
        &self,
        include_members: bool,
        joined_rooms: &Vec<JoinedRoom>,
        member_servers: &Vec<String>,
    ) -> (out: ServersJson)
        ensures
            is_server_list(
                out,
                self@.source(joined_rooms@, Seq::empty()),
                include_members,
                member_servers@,
            ) || out.servers@.len() == 0,
    {
        servers_from(self.tables(), include_members, joined_rooms, member_servers)
    }
}

/// The server list to hand out, given what reading the tables came to: the
/// list of the tables, or an empty list where the read failed.
pub fn servers_from(
    read: Result<GraphTables, StoreError>,
    include_members: bool,
    joined_rooms: &Vec<JoinedRoom>,
    member_servers: &Vec<String>,
) -> (out: ServersJson)
    ensures
        match read {
            Ok(tables) => is_server_list(
                out,
                source_of(tables, joined_rooms@, Seq::empty()),
                include_members,
                member_servers@,
            ),
            Err(_) => out.servers@.len() == 0,
        },
{
    match read {
        Ok(tables) => servers_of(&tables, include_members, joined_rooms, member_servers),
        Err(_) => ServersJson { servers: Vec::new() },
    }
}

} // verus!
