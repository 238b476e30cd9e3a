use server_stats::api::{Link, RelationsJson};
use server_stats::identity::{encode_id, hash, key_bytes};
use server_stats::relations::{count_links, materialize, resolve_node, Role};
use server_stats::rooms::{JoinedRoom, MemberCount};
use server_stats::snapshot::GraphTables;
use server_stats::table::Entry;
use server_stats::wire::encode_members;

fn joined(room_id: &str, name: &str) -> JoinedRoom {
    JoinedRoom {
        room_id: room_id.to_string(),
        canonical_alias: None,
        display_name: Some(name.to_string()),
        topic: Some(format!("about {}", name)),
        avatar_url: None,
        is_space: false,
        is_tombstoned: false,
    }
}

fn tables_of(rooms: &[&str], edges: &[(&str, &[&str])]) -> GraphTables {
    let mut names: Vec<Entry> = rooms
        .iter()
        .map(|room| Entry { key: key_bytes(hash(room)), value: room.as_bytes().to_vec() })
        .collect();
    names.sort_by(|a, b| a.key.cmp(&b.key));
    let mut children: Vec<Entry> = edges
        .iter()
        .map(|(parent, kids)| Entry {
            key: key_bytes(hash(parent)),
            value: encode_members(&kids.iter().map(|kid| hash(kid)).collect()),
        })
        .collect();
    children.sort_by(|a, b| a.key.cmp(&b.key));
    GraphTables::new(names, children).unwrap()
}

fn link(source: &str, target: &str) -> Link {
    Link { source: encode_id(hash(source)), target: encode_id(hash(target)), value: 1 }
}

fn sorted_links(mut links: Vec<Link>) -> Vec<Link> {
    links.sort();
    links
}

#[test]
fn view_counts_links_of_each_room() {
    let tables = tables_of(
        &["!a:x", "!b:x", "!c:x"],
        &[("!a:x", &["!b:x", "!c:x", "!a:x"]), ("!b:x", &["!c:x"])],
    );
    let rooms = vec![joined("!a:x", "A"), joined("!b:x", "B"), joined("!c:x", "C")];
    let counts = vec![MemberCount { room_id: "!c:x".to_string(), count: 3 }];
    let view = materialize(&tables, &rooms, &counts);
    assert_eq!(
        view.links,
        sorted_links(vec![
            link("!a:x", "!b:x"),
            link("!a:x", "!c:x"),
            link("!a:x", "!a:x"),
            link("!b:x", "!c:x"),
        ])
    );
    assert_eq!(view.nodes.len(), 3);
    let mut ids: Vec<String> = view.nodes.iter().map(|node| node.id.clone()).collect();
    let listed = ids.clone();
    ids.sort();
    assert_eq!(listed, ids);
    let a = view.nodes.iter().find(|node| node.room_id == "!a:x").unwrap();
    assert_eq!(a.id, encode_id(hash("!a:x")));
    assert_eq!(a.name, "A");
    assert_eq!(a.alias, "!a:x");
    assert_eq!(a.topic, "about A");
    assert_eq!(a.avatar, "");
    assert_eq!(a.members, 0);
    assert_eq!(a.weight, Some(2));
    assert_eq!(a.incoming_links, Some(1));
    assert_eq!(a.outgoing_links, Some(3));
    let b = view.nodes.iter().find(|node| node.room_id == "!b:x").unwrap();
    assert_eq!((b.weight, b.incoming_links, b.outgoing_links), (Some(2), Some(1), Some(1)));
    let c = view.nodes.iter().find(|node| node.room_id == "!c:x").unwrap();
    assert_eq!((c.weight, c.incoming_links, c.outgoing_links), (Some(2), Some(2), Some(0)));
    assert_eq!(c.members, 3);
}

#[test]
fn view_omits_links_to_rooms_that_do_not_resolve() {
    let tables = tables_of(
        &["!a:x", "!b:x", "!left:x"],
        &[("!a:x", &["!b:x", "!left:x", "!unmapped:x"]), ("!left:x", &["!a:x"])],
    );
    let mut gone = joined("!b:x", "B");
    gone.is_tombstoned = true;
    let rooms = vec![joined("!a:x", "A"), gone];
    let view = materialize(&tables, &rooms, &vec![]);
    assert_eq!(view.links, vec![]);
    assert_eq!(view.nodes.len(), 1);
    assert_eq!(view.nodes[0].room_id, "!a:x");
    assert_eq!(view.nodes[0].weight, Some(0));
}

#[test]
fn view_tolerates_malformed_sets_and_keys() {
    let mut children = vec![
        Entry { key: key_bytes(hash("!a:x")), value: vec![7, 7, 7] },
        Entry { key: vec![1, 2, 3], value: encode_members(&vec![hash("!a:x")]) },
    ];
    children.sort_by(|a, b| a.key.cmp(&b.key));
    let names = vec![Entry { key: key_bytes(hash("!a:x")), value: b"!a:x".to_vec() }];
    let tables = GraphTables::new(names, children).unwrap();
    let view = materialize(&tables, &vec![joined("!a:x", "A")], &vec![]);
    assert_eq!(view.links, vec![]);
    assert_eq!(view.nodes.len(), 1);
}

#[test]
fn view_is_the_same_on_every_call() {
    let tables = tables_of(
        &["!a:x", "!b:x", "!c:x", "!d:x"],
        &[("!a:x", &["!b:x", "!c:x"]), ("!c:x", &["!d:x", "!a:x"]), ("!d:x", &["!d:x"])],
    );
    let rooms =
        vec![joined("!d:x", "D"), joined("!a:x", "A"), joined("!b:x", "B"), joined("!c:x", "C")];
    let first: RelationsJson = materialize(&tables, &rooms, &vec![]);
    let second: RelationsJson = materialize(&tables, &rooms, &vec![]);
    assert_eq!(first, second);
    assert_eq!(first.nodes.len(), 4);
    assert_eq!(first.links.len(), 5);
}

#[test]
fn view_hides_the_seed_account() {
    let tables = tables_of(
        &["!a:x", "!bot:x", "!c:x"],
        &[("!a:x", &["!bot:x", "!c:x"]), ("!bot:x", &["!c:x"])],
    );
    let rooms = vec![joined("!a:x", "A"), joined("!bot:x", "MTRNord"), joined("!c:x", "C")];
    let view = materialize(&tables, &rooms, &vec![]);
    assert_eq!(view.links, vec![link("!a:x", "!c:x")]);
    assert!(view.nodes.iter().all(|node| node.name != "MTRNord"));
    assert_eq!(view.nodes.len(), 2);
}

#[test]
fn tables_must_ascend() {
    let one = Entry { key: vec![1], value: vec![] };
    let two = Entry { key: vec![2], value: vec![] };
    assert!(GraphTables::new(vec![one.clone(), two.clone()], vec![]).is_some());
    assert!(GraphTables::new(vec![two.clone(), one.clone()], vec![]).is_none());
    assert!(GraphTables::new(vec![], vec![one.clone(), one.clone()]).is_none());
}

#[test]
fn resolve_node_applies_the_denylist() {
    let rooms = vec![joined("!a:x", "A"), joined("!bot:x", "MTRNord")];
    let id = encode_id(hash("!a:x"));
    let shown =
        resolve_node(id.clone(), hash("!a:x"), Some(&b"!a:x".to_vec()), &rooms, &vec![]).unwrap();
    assert_eq!(shown.id, id);
    assert_eq!(shown.weight, None);
    assert_eq!(shown.incoming_links, None);
    assert!(resolve_node(id.clone(), hash("!a:x"), None, &rooms, &vec![]).is_none());
    assert!(resolve_node(
        encode_id(hash("!bot:x")),
        hash("!bot:x"),
        Some(&b"!bot:x".to_vec()),
        &rooms,
        &vec![]
    )
    .is_none());
    let seed = 0xafe3_ea05_f1fb_e8a7_501a_425d_197c_efe2u128;
    assert_eq!(encode_id(seed), "4u98GV1CGlCn6PvxBerjrw==");
    assert!(resolve_node(encode_id(seed), seed, Some(&b"!a:x".to_vec()), &rooms, &vec![]).is_none());
}

#[test]
fn count_links_by_role() {
    let links = vec![link("!a:x", "!b:x"), link("!a:x", "!a:x"), link("!b:x", "!a:x")];
    let a = encode_id(hash("!a:x"));
    assert_eq!(count_links(Role::Touching, &links, &a), 2);
    assert_eq!(count_links(Role::Incoming, &links, &a), 2);
    assert_eq!(count_links(Role::Outgoing, &links, &a), 2);
    assert_eq!(count_links(Role::Outgoing, &links, "none"), 0);
}
