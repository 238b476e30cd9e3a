use server_stats::api::{Link, SSEJson};
use server_stats::graph::{seen, GraphDb, StoreError};
use server_stats::queries::{listed_identifiers, node_from, parents_or_none, relations_from};
use server_stats::servers::servers_from;
use server_stats::snapshot::GraphTables;
use server_stats::table::Entry;
use server_stats::identity::{encode_id, hash, key_bytes};
use server_stats::rooms::{
    generate_room_relation, is_joined, live_update, JoinedRoom, MemberCount,
};
use tokio::sync::watch::{channel, Receiver};

fn open_graph() -> (GraphDb, sled::Db, Receiver<Option<SSEJson>>) {
    let db = sled::Config::new().temporary(true).open().unwrap();
    let (tx, rx) = channel(None);
    let graph = GraphDb::new(
        db.open_tree(b"hash_map").unwrap(),
        db.open_tree(b"state").unwrap(),
        db.open_tree(b"parent_child").unwrap(),
        db.open_tree(b"child_parent").unwrap(),
        tx,
    );
    (graph, db, rx)
}

fn room(room_id: &str, name: &str) -> JoinedRoom {
    JoinedRoom {
        room_id: room_id.to_string(),
        canonical_alias: Some(format!("#{}:x", name)),
        display_name: Some(name.to_string()),
        topic: None,
        avatar_url: Some(format!("mxc://x/{}", name)),
        is_space: true,
        is_tombstoned: false,
    }
}

#[test]
fn relations_of_a_store() {
    let (mut graph, _db, _rx) = open_graph();
    let joined = vec![room("!a:x", "a"), room("!b:x", "b"), room("!c:x", "c")];
    graph.add_child("!a:x", "!b:x", &joined, &vec![]).unwrap();
    graph.add_child("!a:x", "!c:x", &joined, &vec![]).unwrap();
    graph.add_child("!c:x", "!gone:x", &joined, &vec![]).unwrap();
    let view = graph.get_json_relations(&joined, &vec![]);
    let mut expected = vec![
        Link { source: encode_id(hash("!a:x")), target: encode_id(hash("!b:x")), value: 1 },
        Link { source: encode_id(hash("!a:x")), target: encode_id(hash("!c:x")), value: 1 },
    ];
    expected.sort();
    assert_eq!(view.links, expected);
    assert_eq!(view.nodes.len(), 3);
    let a = view.nodes.iter().find(|node| node.room_id == "!a:x").unwrap();
    assert_eq!(a.alias, "#a:x");
    assert_eq!(a.avatar, "mxc://x/a");
    assert!(a.is_space);
    assert_eq!((a.weight, a.incoming_links, a.outgoing_links), (Some(2), Some(0), Some(2)));
    assert_eq!(view, graph.get_json_relations(&joined, &vec![]));
}

#[test]
fn one_directional_edge_to_unresolved_room_is_pruned() {
    let (mut graph, db, _rx) = open_graph();
    let joined = vec![room("!a:x", "a")];
    graph.add_child("!a:x", "!b:x", &joined, &vec![]).unwrap();
    db.open_tree(b"child_parent").unwrap().remove(key_bytes(hash("!b:x"))).unwrap();
    let view = graph.get_json_relations(&joined, &vec![]);
    assert_eq!(view.links, vec![]);
    assert_eq!(view.nodes.len(), 1);
    assert!(graph.knows_room("!b:x"));
}

#[test]
fn denied_rooms_stay_in_the_store_only() {
    let (mut graph, _db, mut rx) = open_graph();
    let joined = vec![room("!a:x", "a"), room("!bot:x", "MTRNord")];
    assert_eq!(graph.add_child("!a:x", "!bot:x", &joined, &vec![]), Ok(false));
    assert_eq!(graph.add_child("!bot:x", "!a:x", &joined, &vec![]), Ok(false));
    assert!(!rx.has_changed().unwrap());
    assert!(rx.borrow_and_update().is_none());
    assert!(graph.knows_room("!bot:x"));
    let view = graph.get_json_relations(&joined, &vec![]);
    assert_eq!(view.links, vec![]);
    assert_eq!(view.nodes.len(), 1);
    assert_eq!(view.nodes[0].room_id, "!a:x");
    assert_eq!(graph.get_node(encode_id(hash("!bot:x")), &joined, &vec![]), None);
    assert!(graph.get_node(encode_id(hash("!a:x")), &joined, &vec![]).is_some());
}

#[test]
fn node_of_an_external_identifier() {
    let (mut graph, _db, _rx) = open_graph();
    let joined = vec![room("!a:x", "a")];
    let counts = vec![
        MemberCount { room_id: "!z:x".to_string(), count: 1 },
        MemberCount { room_id: "!a:x".to_string(), count: 42 },
        MemberCount { room_id: "!a:x".to_string(), count: 43 },
    ];
    graph.add_child("!a:x", "!b:x", &joined, &counts).unwrap();
    let node = graph.get_node(encode_id(hash("!a:x")), &joined, &counts).unwrap();
    assert_eq!(node.id, encode_id(hash("!a:x")));
    assert_eq!(node.room_id, "!a:x");
    assert_eq!(node.name, "a");
    assert_eq!(node.members, 42);
    assert_eq!(node.weight, None);
    assert_eq!(graph.get_node(encode_id(hash("!b:x")), &joined, &counts), None);
    assert_eq!(graph.get_node(encode_id(hash("!never:x")), &joined, &counts), None);
    assert_eq!(graph.get_node("garbage".to_string(), &joined, &counts), None);
    assert_eq!(graph.get_node("AAAA".to_string(), &joined, &counts), None);
}

#[test]
fn parents_and_identifiers_of_a_store() {
    let (mut graph, _db, _rx) = open_graph();
    graph.add_child("!p:x", "!c:x", &vec![], &vec![]).unwrap();
    graph.add_child("!q:x", "!c:x", &vec![], &vec![]).unwrap();
    graph.add_parent(hash("!unmapped:x"), hash("!c:x")).unwrap();
    assert_eq!(graph.read_parents("!c:x"), Ok(vec!["!p:x".to_string(), "!q:x".to_string()]));
    assert_eq!(graph.get_parent("!c:x"), vec!["!p:x", "!q:x"]);
    assert_eq!(graph.get_parent("!p:x"), Vec::<String>::new());
    assert_eq!(graph.get_identifier(hash("!p:x")), Ok(Some(b"!p:x".to_vec())));
    assert_eq!(graph.get_identifier(hash("!unmapped:x")), Ok(None));
    assert_eq!(graph.has_mapping(hash("!q:x")), Ok(true));
    assert_eq!(graph.has_mapping(hash("!unmapped:x")), Ok(false));
    let mut ids = graph.get_all_room_ids().unwrap();
    ids.sort();
    assert_eq!(ids, vec![b"!c:x".to_vec(), b"!p:x".to_vec(), b"!q:x".to_vec()]);
    let tables = graph.tables().unwrap();
    assert_eq!(tables.parent_count(), 2);
    assert_eq!(tables.name_of(&key_bytes(hash("!c:x"))), Some(&b"!c:x".to_vec()));
    assert_eq!(tables.name_of(&key_bytes(hash("!unmapped:x"))), None);
    assert!(tables.children_of(&key_bytes(hash("!p:x"))).is_some());
    assert!(tables.children_of(&key_bytes(hash("!c:x"))).is_none());
}

#[test]
fn mapping_is_written_once() {
    let (mut graph, _db, _rx) = open_graph();
    graph.map_hash_to_room_id(7, "first").unwrap();
    assert_eq!(graph.get_identifier(7), Ok(Some(b"first".to_vec())));
    graph.add_child("!p:x", "!c:x", &vec![], &vec![]).unwrap();
    graph.map_hash_to_room_id(hash("!p:x"), "!p:x").unwrap();
    assert_eq!(graph.get_identifier(hash("!p:x")), Ok(Some(b"!p:x".to_vec())));
}

#[test]
fn servers_of_a_store() {
    let (mut graph, _db, _rx) = open_graph();
    let joined = vec![room("!a:one.org", "a"), room("!b:two.org", "b")];
    graph.add_child("!a:one.org", "!b:two.org", &joined, &vec![]).unwrap();
    graph.add_child("!a:one.org", "!c:three.org", &joined, &vec![]).unwrap();
    let servers = graph.get_servers_json(false, &joined, &vec![]);
    assert_eq!(servers.servers, vec!["one.org", "two.org"]);
    let all = graph.get_servers_json(true, &joined, &vec!["zero.org".to_string()]);
    assert_eq!(all.servers, vec!["one.org", "two.org", "zero.org"]);
    assert!(graph.is_joined("!a:one.org", &joined));
    assert!(!graph.is_joined("!c:three.org", &joined));
}

#[test]
fn relation_of_a_joined_room() {
    let mut plain = room("!a:x", "a");
    plain.canonical_alias = None;
    plain.display_name = Some("".to_string());
    plain.topic = Some("talk".to_string());
    plain.avatar_url = None;
    plain.is_space = false;
    let mut gone = room("!t:x", "t");
    gone.is_tombstoned = true;
    let joined = vec![plain, gone, room("!n:x", "n")];
    let shown = generate_room_relation("ID".to_string(), "!a:x", &joined, &vec![]).unwrap();
    assert_eq!(shown.id, "ID");
    assert_eq!(shown.room_id, "!a:x");
    assert_eq!(shown.name, "!a:x");
    assert_eq!(shown.alias, "!a:x");
    assert_eq!(shown.topic, "talk");
    assert_eq!(shown.avatar, "");
    assert_eq!(shown.members, 0);
    assert!(!shown.is_space);
    assert_eq!((shown.weight, shown.incoming_links, shown.outgoing_links), (None, None, None));
    assert_eq!(generate_room_relation("ID".to_string(), "!t:x", &joined, &vec![]), None);
    assert_eq!(generate_room_relation("ID".to_string(), "!other:x", &joined, &vec![]), None);
    let mut unnamed = room("!u:x", "u");
    unnamed.display_name = None;
    let relation =
        generate_room_relation("ID".to_string(), "!u:x", &vec![unnamed], &vec![]).unwrap();
    assert_eq!(relation.name, "!u:x");
    assert!(is_joined("!n:x", &joined));
    assert!(!is_joined("#n:x", &joined));
}

#[test]
fn live_update_of_a_new_edge() {
    let joined = vec![room("!a:x", "a"), room("!b:x", "b")];
    let update = live_update("!a:x", "!b:x", &joined, &vec![]).unwrap();
    assert_eq!(update.link.source, encode_id(hash("!a:x")));
    assert_eq!(update.link.target, encode_id(hash("!b:x")));
    assert_eq!(update.node.alias, "#b:x");
    assert_eq!(update.node.weight, Some(1));
    assert!(live_update("!a:x", "!c:x", &joined, &vec![]).is_none());
    assert!(live_update("!c:x", "!a:x", &joined, &vec![]).is_some());
    let bots = vec![room("!a:x", "MTRNord"), room("!b:x", "b")];
    assert!(live_update("!a:x", "!b:x", &bots, &vec![]).is_none());
    assert!(live_update("!b:x", "!a:x", &bots, &vec![]).is_none());
}

#[test]
fn answers_follow_the_outcome_of_the_read() {
    assert!(seen(Ok(true)));
    assert!(!seen(Ok(false)));
    assert!(!seen(Err(StoreError::Storage)));
    assert!(!seen(Err(StoreError::Corrupt)));

    let found = vec![Some(b"!p:x".to_vec()), None, Some(vec![0xff]), Some(b"!q:x".to_vec())];
    assert_eq!(listed_identifiers(&found), vec!["!p:x", "", "!q:x"]);
    assert_eq!(listed_identifiers(&vec![]), Vec::<String>::new());
    assert_eq!(parents_or_none(Ok(vec!["!p:x".to_string()])), vec!["!p:x"]);
    assert_eq!(parents_or_none(Err(StoreError::Storage)), Vec::<String>::new());
    assert_eq!(parents_or_none(Err(StoreError::Corrupt)), Vec::<String>::new());

    let joined = vec![room("!a:x", "a")];
    let id = encode_id(hash("!a:x"));
    let shown =
        node_from(id.clone(), hash("!a:x"), Ok(Some(b"!a:x".to_vec())), &joined, &vec![]).unwrap();
    assert_eq!(shown.id, id);
    assert_eq!(shown.room_id, "!a:x");
    assert_eq!(node_from(id.clone(), hash("!a:x"), Ok(None), &joined, &vec![]), None);
    assert_eq!(
        node_from(id.clone(), hash("!a:x"), Err(StoreError::Storage), &joined, &vec![]),
        None
    );

    let names = vec![Entry { key: key_bytes(hash("!a:x")), value: b"!a:x".to_vec() }];
    let children = vec![Entry { key: key_bytes(hash("!a:x")), value: vec![0; 8] }];
    let tables = || GraphTables::new(names.clone(), children.clone()).unwrap();
    let view = relations_from(Ok(tables()), &joined, &vec![]);
    assert_eq!(view.nodes.len(), 1);
    assert_eq!(view.nodes[0].room_id, "!a:x");
    let none = relations_from(Err(StoreError::Storage), &joined, &vec![]);
    assert!(none.nodes.is_empty() && none.links.is_empty());
    let members = vec!["m.org".to_string()];
    assert_eq!(servers_from(Ok(tables()), true, &joined, &members).servers, vec!["m.org", "x"]);
    assert_eq!(
        servers_from(Err(StoreError::Storage), true, &joined, &members).servers,
        Vec::<String>::new()
    );
}

#[test]
fn malformed_parents_give_no_parent() {
    let (graph, db, _rx) = open_graph();
    db.open_tree(b"child_parent").unwrap().insert(key_bytes(hash("!c:x")), vec![1u8, 2]).unwrap();
    assert_eq!(graph.read_parents("!c:x"), Err(StoreError::Corrupt));
    assert_eq!(graph.get_parent("!c:x"), Vec::<String>::new());
}
