use server_stats::api::SSEJson;
use server_stats::graph::{Direction, GraphDb, StoreError};
use server_stats::identity::{encode_id, hash, key_bytes};
use server_stats::rooms::{JoinedRoom, MemberCount};
use tokio::sync::watch::{channel, Receiver};

fn open_graph() -> (GraphDb, sled::Db, Receiver<Option<SSEJson>>) {
    let db = sled::Config::new().temporary(true).open().unwrap();
    let (tx, rx) = channel(None);
    let graph = GraphDb::new(
        db.open_tree(b"hash_map").unwrap(),
        db.open_tree(b"state").unwrap(),
        db.open_tree(b"parent_child").unwrap(),
        db.open_tree(b"child_parent").unwrap(),
        tx,
    );
    (graph, db, rx)
}

fn room(room_id: &str, name: &str) -> JoinedRoom {
    JoinedRoom {
        room_id: room_id.to_string(),
        canonical_alias: None,
        display_name: Some(name.to_string()),
        topic: None,
        avatar_url: None,
        is_space: false,
        is_tombstoned: false,
    }
}

#[test]
fn add_child_records_both_directions() {
    let (mut graph, db, _rx) = open_graph();
    let known = graph.add_child("!a:x", "!b:x", &vec![], &vec![]);
    assert_eq!(known, Ok(false));
    assert!(graph.knows_room("!a:x"));
    assert!(graph.knows_room("!b:x"));
    assert!(!graph.knows_room("!c:x"));
    assert_eq!(
        graph.read_members(Direction::ParentToChild, hash("!a:x")),
        Ok(vec![hash("!b:x")])
    );
    assert_eq!(
        graph.read_members(Direction::ChildToParent, hash("!b:x")),
        Ok(vec![hash("!a:x")])
    );
    let stored = db
        .open_tree(b"parent_child")
        .unwrap()
        .get(key_bytes(hash("!a:x")))
        .unwrap()
        .unwrap();
    let mut expected = vec![1u8, 0, 0, 0, 0, 0, 0, 0];
    expected.extend_from_slice(&hash("!b:x").to_le_bytes());
    assert_eq!(stored.to_vec(), expected);
}

#[test]
fn add_child_twice_is_idempotent() {
    let (mut graph, _db, _rx) = open_graph();
    assert_eq!(graph.add_child("!a:x", "!b:x", &vec![], &vec![]), Ok(false));
    let children = graph.read_members(Direction::ParentToChild, hash("!a:x"));
    let parents = graph.read_members(Direction::ChildToParent, hash("!b:x"));
    assert_eq!(graph.add_child("!a:x", "!b:x", &vec![], &vec![]), Ok(true));
    assert_eq!(graph.read_members(Direction::ParentToChild, hash("!a:x")), children);
    assert_eq!(graph.read_members(Direction::ChildToParent, hash("!b:x")), parents);
}

#[test]
fn live_update_appears_once_for_new_edge() {
    let (mut graph, _db, mut rx) = open_graph();
    let joined = vec![room("!a:x", "A"), room("!b:x", "B")];
    let counts = vec![MemberCount { room_id: "!b:x".to_string(), count: 7 }];
    assert!(!rx.has_changed().unwrap());
    assert_eq!(graph.add_child("!a:x", "!b:x", &joined, &counts), Ok(false));
    assert!(rx.has_changed().unwrap());
    let update = rx.borrow_and_update().clone().unwrap();
    assert_eq!(update.link.source, encode_id(hash("!a:x")));
    assert_eq!(update.link.target, encode_id(hash("!b:x")));
    assert_eq!(update.link.value, 1);
    assert_eq!(update.node.id, encode_id(hash("!b:x")));
    assert_eq!(update.node.room_id, "!b:x");
    assert_eq!(update.node.name, "B");
    assert_eq!(update.node.alias, "!b:x");
    assert_eq!(update.node.members, 7);
    assert_eq!(update.node.weight, Some(1));
    assert!(!rx.has_changed().unwrap());
    assert_eq!(graph.add_child("!a:x", "!b:x", &joined, &counts), Ok(true));
    assert!(!rx.has_changed().unwrap());
}

#[test]
fn malformed_set_is_reported_and_left_alone() {
    let (mut graph, db, _rx) = open_graph();
    let tree = db.open_tree(b"parent_child").unwrap();
    tree.insert(key_bytes(hash("!a:x")), vec![9u8, 9, 9]).unwrap();
    assert_eq!(
        graph.add_child("!a:x", "!b:x", &vec![], &vec![]),
        Err(StoreError::Corrupt)
    );
    assert_eq!(
        graph.append_edge(Direction::ParentToChild, hash("!a:x"), hash("!b:x")),
        Err(StoreError::Corrupt)
    );
    assert_eq!(tree.get(key_bytes(hash("!a:x"))).unwrap().unwrap().to_vec(), vec![9u8, 9, 9]);
    assert!(!graph.knows_room("!a:x"));
}
