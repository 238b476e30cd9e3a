use server_stats::identity::{hash, key_bytes};
use server_stats::rooms::JoinedRoom;
use server_stats::servers::{server_name, servers_of};
use server_stats::snapshot::GraphTables;
use server_stats::table::Entry;
use server_stats::wire::encode_members;

fn joined(room_id: &str) -> JoinedRoom {
    JoinedRoom {
        room_id: room_id.to_string(),
        canonical_alias: None,
        display_name: None,
        topic: None,
        avatar_url: None,
        is_space: false,
        is_tombstoned: true,
    }
}

fn tables_of(rooms: &[&str], edges: &[(&str, &[&str])]) -> GraphTables {
    let mut names: Vec<Entry> = rooms
        .iter()
        .map(|room| Entry { key: key_bytes(hash(room)), value: room.as_bytes().to_vec() })
        .collect();
    names.sort_by(|a, b| a.key.cmp(&b.key));
    let mut children: Vec<Entry> = edges
        .iter()
        .map(|(parent, kids)| Entry {
            key: key_bytes(hash(parent)),
            value: encode_members(&kids.iter().map(|kid| hash(kid)).collect()),
        })
        .collect();
    children.sort_by(|a, b| a.key.cmp(&b.key));
    GraphTables::new(names, children).unwrap()
}

#[test]
fn server_is_what_follows_the_first_colon() {
    assert_eq!(server_name("!abc:example.org"), Some("example.org".to_string()));
    assert_eq!(server_name("#room:example.org:8448"), Some("example.org".to_string()));
    assert_eq!(server_name("#caf\u{e9}:\u{e9}x.org"), Some("\u{e9}x.org".to_string()));
    assert_eq!(server_name("nocolon"), None);
    assert_eq!(server_name(""), None);
    assert_eq!(server_name("a:"), Some("".to_string()));
    assert_eq!(server_name(":b"), Some("b".to_string()));
    assert_eq!(server_name("::"), Some("".to_string()));
}

#[test]
fn member_servers_are_listed_ascending_and_once() {
    let tables = GraphTables::new(vec![], vec![]).unwrap();
    let members: Vec<String> =
        ["m", "b", "z", "m", "a", "b", "ma"].iter().map(|text| text.to_string()).collect();
    assert_eq!(servers_of(&tables, true, &vec![], &members).servers, vec!["a", "b", "m", "ma", "z"]);
    assert_eq!(servers_of(&tables, false, &vec![], &members).servers, Vec::<String>::new());
}

#[test]
fn servers_of_joined_rooms() {
    let tables = tables_of(
        &["!a:one.org", "!b:two.org", "!c:one.org", "!d:three.org", "!e:four.org"],
        &[
            ("!a:one.org", &["!b:two.org", "!d:three.org", "!x:unmapped.org"]),
            ("!e:four.org", &["!c:one.org"]),
        ],
    );
    let rooms = vec![joined("!a:one.org"), joined("!b:two.org"), joined("!c:one.org")];
    let servers = servers_of(&tables, false, &rooms, &vec!["members.org".to_string()]);
    assert_eq!(servers.servers, vec!["one.org", "two.org"]);
    let with_members = servers_of(
        &tables,
        true,
        &rooms,
        &vec!["two.org".to_string(), "members.org".to_string(), "a.org".to_string()],
    );
    assert_eq!(with_members.servers, vec!["a.org", "members.org", "one.org", "two.org"]);
}

#[test]
fn seed_room_hosts_nothing() {
    let seed = 0xafe3_ea05_f1fb_e8a7_501a_425d_197c_efe2_u128;
    let names = vec![Entry { key: key_bytes(seed), value: b"!seed:seed.org".to_vec() }];
    let children = vec![Entry { key: key_bytes(seed), value: encode_members(&vec![]) }];
    let tables = GraphTables::new(names, children).unwrap();
    let servers = servers_of(&tables, false, &vec![joined("!seed:seed.org")], &vec![]);
    assert_eq!(servers.servers, Vec::<String>::new());
}
