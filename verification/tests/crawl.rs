use server_stats::api::SSEJson;
use server_stats::crawl::{
    already_joined, edge_decision, save_to_db, search_new_room, step, CrawlAction, CrawlEvent,
    CrawlState, EdgeDecision, Page, Saved, MAX_JOIN_ATTEMPTS, MAX_PAGE_ATTEMPTS, PAGE_SIZE,
};
use server_stats::graph::{Direction, GraphDb};
use server_stats::identity::hash;
use server_stats::rooms::JoinedRoom;
use tokio::sync::watch::{channel, Receiver};

fn open_graph() -> (GraphDb, sled::Db, Receiver<Option<SSEJson>>) {
    let db = sled::Config::new().temporary(true).open().unwrap();
    let (tx, rx) = channel(None);
    let graph = GraphDb::new(
        db.open_tree(b"hash_map").unwrap(),
        db.open_tree(b"state").unwrap(),
        db.open_tree(b"parent_child").unwrap(),
        db.open_tree(b"child_parent").unwrap(),
        tx,
    );
    (graph, db, rx)
}

fn room(room_id: &str, alias: Option<&str>) -> JoinedRoom {
    JoinedRoom {
        room_id: room_id.to_string(),
        canonical_alias: alias.map(|a| a.to_string()),
        display_name: None,
        topic: None,
        avatar_url: None,
        is_space: false,
        is_tombstoned: false,
    }
}

fn page(end: &str, is_empty: bool) -> CrawlEvent {
    CrawlEvent::PageResult { page: Some(Page { end: end.to_string(), is_empty }) }
}

fn fetch(from: &str, scan_first: bool) -> CrawlAction {
    CrawlAction::FetchPage { from: from.to_string(), scan_first }
}

#[test]
fn join_retry_exhaustion() {
    let (mut graph, _db, _rx) = open_graph();
    let (mut state, mut action) = search_new_room("#never:example.org", &vec![]);
    let mut attempts = 0;
    while action != CrawlAction::Stop {
        match action {
            CrawlAction::Join { retry } => {
                assert_eq!(retry, attempts > 0);
                attempts += 1;
                let next = step(state, CrawlEvent::JoinResult { joined: false });
                state = next.0;
                action = next.1;
            }
            other => panic!("unexpected action {:?}", other),
        }
    }
    assert_eq!(attempts, 5);
    assert_eq!(state, CrawlState::JoinFailed);
    assert!(!graph.knows_room("#never:example.org"));
    assert_eq!(graph.get_all_room_ids(), Ok(vec![]));
    assert_eq!(graph.tables().unwrap().parent_count(), 0);
    assert_eq!(graph.add_child("!p:x", "!c:x", &vec![], &vec![]), Ok(false));
}

#[test]
fn constants_of_the_crawl() {
    assert_eq!(MAX_JOIN_ATTEMPTS, 5);
    assert_eq!(MAX_PAGE_ATTEMPTS, 5);
    assert_eq!(PAGE_SIZE, 60);
}

#[test]
fn known_bad_reference_is_dropped() {
    let joined = vec![room("!TEwfEWdDwdaFazXmwD:matrix.org", Some("#emacs:matrix.org"))];
    assert_eq!(
        search_new_room("#emacs:matrix.org", &joined),
        (CrawlState::JoinFailed, CrawlAction::Stop)
    );
}

#[test]
fn joined_room_is_not_joined_again() {
    let joined = vec![room("!a:x", None), room("!b:x", Some("#b:x"))];
    assert_eq!(already_joined(&joined, "!a:x"), Some(0));
    assert_eq!(already_joined(&joined, "#b:x"), Some(1));
    assert_eq!(already_joined(&joined, "!b:x"), Some(1));
    assert_eq!(already_joined(&joined, "#a:x"), None);
    assert_eq!(search_new_room("#b:x", &joined), (CrawlState::Joined, CrawlAction::RecordEdge));
    assert_eq!(
        search_new_room("#c:x", &joined),
        (CrawlState::JoinAttempt { made: 1 }, CrawlAction::Join { retry: false })
    );
}

#[test]
fn join_succeeds_on_a_later_try() {
    let (state, _) = search_new_room("#c:x", &vec![]);
    let (state, action) = step(state, CrawlEvent::JoinResult { joined: false });
    assert_eq!(state, CrawlState::JoinAttempt { made: 2 });
    assert_eq!(action, CrawlAction::Join { retry: true });
    let (state, action) = step(state, CrawlEvent::JoinResult { joined: true });
    assert_eq!((state, action), (CrawlState::Joined, CrawlAction::RecordEdge));
}

#[test]
fn known_room_is_not_read_again() {
    assert_eq!(
        step(CrawlState::Joined, CrawlEvent::EdgeResult { exit_early: true }),
        (CrawlState::BackfillDone, CrawlAction::Stop)
    );
    assert_eq!(
        step(CrawlState::Joined, CrawlEvent::EdgeResult { exit_early: false }),
        (CrawlState::EdgeRecorded, fetch("", false))
    );
}

#[test]
fn backfill_follows_the_end_token() {
    let (state, action) = step(CrawlState::EdgeRecorded, page("t1", false));
    assert_eq!(state, CrawlState::BackfillPage { end: "t1".to_string(), failures: 0 });
    assert_eq!(action, fetch("t1", true));
    let (state, action) = step(state, page("t2", false));
    assert_eq!(state, CrawlState::BackfillPage { end: "t2".to_string(), failures: 0 });
    assert_eq!(action, fetch("t2", true));
    let (state, action) = step(state, page("t3", true));
    assert_eq!((state, action), (CrawlState::BackfillDone, CrawlAction::Purge));
}

#[test]
fn first_page_decides() {
    assert_eq!(
        step(CrawlState::EdgeRecorded, CrawlEvent::PageResult { page: None }),
        (CrawlState::BackfillDone, CrawlAction::Stop)
    );
    assert_eq!(
        step(CrawlState::EdgeRecorded, page("t1", true)),
        (CrawlState::BackfillDone, CrawlAction::Purge)
    );
    assert_eq!(
        step(CrawlState::EdgeRecorded, page("", false)),
        (CrawlState::BackfillDone, CrawlAction::Purge)
    );
}

#[test]
fn backfill_without_progress_is_exhausted() {
    let mut state = CrawlState::BackfillPage { end: "t1".to_string(), failures: 0 };
    let mut requests = 0;
    loop {
        let event =
            if requests % 2 == 0 { page("t1", false) } else { CrawlEvent::PageResult { page: None } };
        let (next, action) = step(state, event);
        requests += 1;
        state = next;
        if action == CrawlAction::Purge {
            break;
        }
        assert_eq!(action, fetch("t1", false));
        assert_eq!(state, CrawlState::BackfillPage { end: "t1".to_string(), failures: requests });
    }
    assert_eq!(requests, 5);
    assert_eq!(state, CrawlState::BackfillDone);
}

#[test]
fn progress_resets_the_count() {
    let state = CrawlState::BackfillPage { end: "t1".to_string(), failures: 4 };
    let (state, action) = step(state, page("t2", false));
    assert_eq!(state, CrawlState::BackfillPage { end: "t2".to_string(), failures: 0 });
    assert_eq!(action, fetch("t2", true));
}

#[test]
fn unexpected_event_ends_the_crawl() {
    assert_eq!(
        step(CrawlState::Discovered, CrawlEvent::JoinResult { joined: true }),
        (CrawlState::BackfillDone, CrawlAction::Stop)
    );
    assert_eq!(
        step(CrawlState::BackfillDone, page("t", false)),
        (CrawlState::BackfillDone, CrawlAction::Stop)
    );
    assert_eq!(
        step(CrawlState::JoinFailed, CrawlEvent::JoinResult { joined: true }),
        (CrawlState::JoinFailed, CrawlAction::Stop)
    );
    assert_eq!(
        step(CrawlState::JoinAttempt { made: 200 }, CrawlEvent::JoinResult { joined: false }),
        (CrawlState::JoinFailed, CrawlAction::Stop)
    );
    assert_eq!(
        step(
            CrawlState::BackfillPage { end: "t".to_string(), failures: 255 },
            CrawlEvent::PageResult { page: None }
        ),
        (CrawlState::BackfillDone, CrawlAction::Purge)
    );
}

#[test]
fn edge_decisions() {
    let parents = vec!["!p:x".to_string(), "!q:x".to_string()];
    assert_eq!(edge_decision("", false, &vec![]), EdgeDecision::Skip);
    assert_eq!(edge_decision("", true, &parents), EdgeDecision::Skip);
    assert_eq!(edge_decision("!p:x", false, &vec![]), EdgeDecision::RecordAndBackfill);
    assert_eq!(edge_decision("!p:x", false, &parents), EdgeDecision::RecordAndBackfill);
    assert_eq!(edge_decision("!q:x", true, &parents), EdgeDecision::Skip);
    assert_eq!(edge_decision("!r:x", true, &parents), EdgeDecision::RecordAndStop);
    assert_eq!(edge_decision("!r:x", true, &vec![]), EdgeDecision::RecordAndStop);
}

#[test]
fn saving_records_new_rooms_and_new_parents() {
    let (mut graph, _db, _rx) = open_graph();
    let first = save_to_db(&mut graph, "!c:x", "!p:x", &vec![], &vec![]);
    assert_eq!(first, Saved { exit_early: false, recorded: Some(Ok(false)) });
    let again = save_to_db(&mut graph, "!c:x", "!p:x", &vec![], &vec![]);
    assert_eq!(again, Saved { exit_early: true, recorded: None });
    let other = save_to_db(&mut graph, "!c:x", "!q:x", &vec![], &vec![]);
    assert_eq!(other, Saved { exit_early: true, recorded: Some(Ok(false)) });
    assert_eq!(
        graph.read_members(Direction::ChildToParent, hash("!c:x")),
        Ok(vec![hash("!p:x"), hash("!q:x")])
    );
    assert_eq!(graph.get_parent("!c:x"), vec!["!p:x", "!q:x"]);
    let orphan = save_to_db(&mut graph, "!d:x", "", &vec![], &vec![]);
    assert_eq!(orphan, Saved { exit_early: true, recorded: None });
    assert!(!graph.knows_room("!d:x"));
}
