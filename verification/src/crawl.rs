//! The decisions of a crawl: what to do with a discovered room reference,
//! when to give up joining, and how far to read a room's history back.
//!
//! The crawl itself waits on the network. It is driven from outside: the
//! driver performs each `CrawlAction` and hands the outcome back as a
//! `CrawlEvent`.

use vstd::prelude::*;
use vstd::string::*;
use crate::graph::{GraphDb, StoreError};
use crate::identity::spec_hash;
use crate::order::same_text;
use crate::queries::texts;
use crate::rooms::{lemma_first_match, lemma_no_match, JoinedRoom, MemberCount};
use crate::scan::{is_known_bad, known_bad};

verus! {

/// How often joining a room is tried before the crawl gives up.
pub const MAX_JOIN_ATTEMPTS: u8 = 5;

/// How often a page of history is asked for without progress before the
/// history counts as exhausted.
pub const MAX_PAGE_ATTEMPTS: u8 = 5;

/// How many messages one page of history holds at most.
pub const PAGE_SIZE: u32 = 60;

/// How many seconds pass between two pages of one room.
pub const PAGE_DELAY_SECONDS: u64 = 2;

/// How many days of history a purge leaves in a crawled room.
pub const PURGE_KEEP_DAYS: i64 = 2;

/// Where the crawl of one discovered reference stands.
#[derive(Clone, Debug, PartialEq, Eq)]
pub enum CrawlState {
    /// The reference was found and nothing has been done yet.
    Discovered,
    /// Joining was asked for `made` times and the last answer is awaited.
    JoinAttempt { made: u8 },
    /// The room is joined and the edge is being recorded.
    Joined,
    /// Joining failed too often, or the reference is never crawled.
    JoinFailed,
    /// The edge is recorded and the newest page of history is awaited.
    EdgeRecorded,
    /// The page before the token `end` is awaited, after `failures` tries
    /// that brought no progress.
    BackfillPage { end: String, failures: u8 },
    /// The crawl is over.
    BackfillDone,
}

/// What a `CrawlState` holds.
pub enum CrawlStateView {
    Discovered,
    JoinAttempt { made: u8 },
    Joined,
    JoinFailed,
    EdgeRecorded,
    BackfillPage { end: Seq<char>, failures: u8 },
    BackfillDone,
}

impl View for CrawlState {
    type V = CrawlStateView;

    open spec fn view(&self) -> CrawlStateView {
        match self {
            CrawlState::Discovered => CrawlStateView::Discovered,
            CrawlState::JoinAttempt { made } => CrawlStateView::JoinAttempt { made: *made },
            CrawlState::Joined => CrawlStateView::Joined,
            CrawlState::JoinFailed => CrawlStateView::JoinFailed,
            CrawlState::EdgeRecorded => CrawlStateView::EdgeRecorded,
            CrawlState::BackfillPage { end, failures } => CrawlStateView::BackfillPage {
                end: end@,
                failures: *failures,
            },
            CrawlState::BackfillDone => CrawlStateView::BackfillDone,
        }
    }
}

/// One page of a room's history, as far as the crawl decides by it: the
/// token at which the next older page starts, and whether the page holds
/// no message.
#[derive(Clone, Debug, PartialEq, Eq)]
pub struct Page {
    pub end: String,
    pub is_empty: bool,
}

/// What a `Page` holds.
pub struct PageView {
    pub end: Seq<char>,
    pub is_empty: bool,
}

impl View for Page {
    type V = PageView;

    open spec fn view(&self) -> PageView {
        PageView { end: self.end@, is_empty: self.is_empty }
    }
}

/// What happened to the action that the crawl last asked for.
#[derive(Clone, Debug, PartialEq, Eq)]
pub enum CrawlEvent {
    /// The reference is taken up; `already_joined` says whether its room is
    /// among the joined rooms.
    Begin { known_bad: bool, already_joined: bool },
    /// Joining succeeded or failed.
    JoinResult { joined: bool },
    /// The edge was handed to the store; `exit_early` says that the room
    /// had been seen before.
    EdgeResult { exit_early: bool },
    /// A page of history arrived, or the request failed.
    PageResult { page: Option<Page> },
}

/// What an event holds.
pub enum CrawlEventView {
    Begin { known_bad: bool, already_joined: bool },
    JoinResult { joined: bool },
    EdgeResult { exit_early: bool },
    PageResult { page: Option<PageView> },
}

impl View for CrawlEvent {
    type V = CrawlEventView;

    open spec fn view(&self) -> CrawlEventView {
        match self {
            CrawlEvent::Begin { known_bad, already_joined } => CrawlEventView::Begin {
                known_bad: *known_bad,
                already_joined: *already_joined,
            },
            CrawlEvent::JoinResult { joined } => CrawlEventView::JoinResult { joined: *joined },
            CrawlEvent::EdgeResult { exit_early } => CrawlEventView::EdgeResult {
                exit_early: *exit_early,
            },
            CrawlEvent::PageResult { page } => CrawlEventView::PageResult {
                page: match page {
                    Some(p) => Some(p@),
                    None => None,
                },
            },
        }
    }
}

/// What the driver is to do next.
#[derive(Clone, Debug, PartialEq, Eq)]
pub enum CrawlAction {
    /// Ask the protocol client to join the room; after a short delay if
    /// this is not the first try.
    Join { retry: bool },
    /// Hand the edge from the parent to the joined room to the store.
    RecordEdge,
    /// Take a permit and ask for the page of `PAGE_SIZE` messages before
    /// the token `from`. With `scan_first`, first search the page that has
    /// just arrived for room references and wait `PAGE_DELAY_SECONDS`.
    FetchPage { from: String, scan_first: bool },
    /// The history is read: ask the server to purge what is older than
    /// `PURGE_KEEP_DAYS` days, and stop.
    Purge,
    /// Stop.
    Stop,
}

/// What an action holds.
pub enum CrawlActionView {
    Join { retry: bool },
    RecordEdge,
    FetchPage { from: Seq<char>, scan_first: bool },
    Purge,
    Stop,
}

impl View for CrawlAction {
    type V = CrawlActionView;

    open spec fn view(&self) -> CrawlActionView {
        match self {
            CrawlAction::Join { retry } => CrawlActionView::Join { retry: *retry },
            CrawlAction::RecordEdge => CrawlActionView::RecordEdge,
            CrawlAction::FetchPage { from, scan_first } => CrawlActionView::FetchPage {
                from: from@,
                scan_first: *scan_first,
            },
            CrawlAction::Purge => CrawlActionView::Purge,
            CrawlAction::Stop => CrawlActionView::Stop,
        }
    }
}

/// The attempt counters of a state are within their bounds.
pub open spec fn state_ok(state: CrawlStateView) -> bool {
    match state {
        CrawlStateView::JoinAttempt { made } => 1 <= made <= MAX_JOIN_ATTEMPTS,
        CrawlStateView::BackfillPage { end, failures } => failures < MAX_PAGE_ATTEMPTS,
        _ => true,
    }
}

/// Whether the crawl is over in a state.
pub open spec fn is_terminal(state: CrawlStateView) -> bool {
    state is JoinFailed || state is BackfillDone
}

/// The state and the action that follow a page of history which arrived
/// while the page before `awaited` was awaited (`None`: the newest page),
/// after `failures` tries without progress.
pub open spec fn after_page(
    awaited: Option<Seq<char>>,
    failures: u8,
    page: Option<PageView>,
) -> (CrawlStateView, CrawlActionView) {
    match awaited {
        None => match page {
            None => (CrawlStateView::BackfillDone, CrawlActionView::Stop),
            Some(first) => if first.is_empty || first.end.len() == 0 {
                (CrawlStateView::BackfillDone, CrawlActionView::Purge)
            } else {
                (
                    CrawlStateView::BackfillPage { end: first.end, failures: 0 },
                    CrawlActionView::FetchPage { from: first.end, scan_first: true },
                )
            },
        },
        Some(old_end) => {
            let progress = page is Some && page->0.end != old_end;
            if !progress {
                if failures + 1 >= MAX_PAGE_ATTEMPTS {
                    (CrawlStateView::BackfillDone, CrawlActionView::Purge)
                } else {
                    (
                        CrawlStateView::BackfillPage {
                            end: old_end,
                            failures: (failures + 1) as u8,
                        },
                        CrawlActionView::FetchPage { from: old_end, scan_first: false },
                    )
                }
            } else if page->0.is_empty {
                (CrawlStateView::BackfillDone, CrawlActionView::Purge)
            } else {
                (
                    CrawlStateView::BackfillPage { end: page->0.end, failures: 0 },
                    CrawlActionView::FetchPage { from: page->0.end, scan_first: true },
                )
            }
        },
    }
}

/// The state and the action that follow an event in a state. An event that
/// the state does not wait for ends the crawl.
pub open spec fn spec_step(state: CrawlStateView, event: CrawlEventView) -> (
    CrawlStateView,
    CrawlActionView,
) {
    match (state, event) {
        (CrawlStateView::Discovered, CrawlEventView::Begin { known_bad, already_joined }) => {
            if known_bad {
                (CrawlStateView::JoinFailed, CrawlActionView::Stop)
            } else if already_joined {
                (CrawlStateView::Joined, CrawlActionView::RecordEdge)
            } else {
                (CrawlStateView::JoinAttempt { made: 1 }, CrawlActionView::Join { retry: false })
            }
        },
        (CrawlStateView::JoinAttempt { made }, CrawlEventView::JoinResult { joined }) => {
            if joined {
                (CrawlStateView::Joined, CrawlActionView::RecordEdge)
            } else if made < MAX_JOIN_ATTEMPTS {
                (
                    CrawlStateView::JoinAttempt { made: (made + 1) as u8 },
                    CrawlActionView::Join { retry: true },
                )
            } else {
                (CrawlStateView::JoinFailed, CrawlActionView::Stop)
            }
        },
        (CrawlStateView::Joined, CrawlEventView::EdgeResult { exit_early }) => {
            if exit_early {
                (CrawlStateView::BackfillDone, CrawlActionView::Stop)
            } else {
                (
                    CrawlStateView::EdgeRecorded,
                    CrawlActionView::FetchPage { from: Seq::empty(), scan_first: false },
                )
            }
        },
        (CrawlStateView::EdgeRecorded, CrawlEventView::PageResult { page }) => after_page(
            None,
            0,
            page,
        ),
        (
            CrawlStateView::BackfillPage { end, failures },
            CrawlEventView::PageResult { page },
        ) => after_page(Some(end), failures, page),
        (CrawlStateView::JoinFailed, _) => (CrawlStateView::JoinFailed, CrawlActionView::Stop),
        _ => (CrawlStateView::BackfillDone, CrawlActionView::Stop),
    }
}

/// What follows a page of history that made progress or was the first.
fn next_page(page: Page) -> (r: (CrawlState, CrawlAction))
    ensures
        r.0@ == (if page.is_empty {
            CrawlStateView::BackfillDone
        } else {
            CrawlStateView::BackfillPage { end: page.end@, failures: 0 }
        }),
        r.1@ == (if page.is_empty {
            CrawlActionView::Purge
        } else {
            CrawlActionView::FetchPage { from: page.end@, scan_first: true }
        }),
{
    if page.is_empty {
        (CrawlState::BackfillDone, CrawlAction::Purge)
    } else {
        let from = page.end.clone();
        (
            CrawlState::BackfillPage { end: page.end, failures: 0 },
            CrawlAction::FetchPage { from, scan_first: true },
        )
    }
}

/// Decides what follows an event: the next state and the action that the
/// driver is to perform.
pub fn step(state: CrawlState, event: CrawlEvent) -> (r: (CrawlState, CrawlAction))
    ensures
        (r.0@, r.1@) == spec_step(state@, event@),
        state_ok(r.0@),
{
    match (state, event) {
        (CrawlState::Discovered, CrawlEvent::Begin { known_bad, already_joined }) => {
            if known_bad {
                (CrawlState::JoinFailed, CrawlAction::Stop)
            } else if already_joined {
                (CrawlState::Joined, CrawlAction::RecordEdge)
            } else {
                (CrawlState::JoinAttempt { made: 1 }, CrawlAction::Join { retry: false })
            }
        },
        (CrawlState::JoinAttempt { made }, CrawlEvent::JoinResult { joined }) => {
            if joined {
                (CrawlState::Joined, CrawlAction::RecordEdge)
            } else if made < MAX_JOIN_ATTEMPTS {
                (CrawlState::JoinAttempt { made: made + 1 }, CrawlAction::Join { retry: true })
            } else {
                (CrawlState::JoinFailed, CrawlAction::Stop)
            }
        },
        (CrawlState::Joined, CrawlEvent::EdgeResult { exit_early }) => {
            if exit_early {
                (CrawlState::BackfillDone, CrawlAction::Stop)
            } else {
                (
                    CrawlState::EdgeRecorded,
                    CrawlAction::FetchPage { from: String::new(), scan_first: false },
                )
            }
        },
        (CrawlState::EdgeRecorded, CrawlEvent::PageResult { page }) => match page {
            None => (CrawlState::BackfillDone, CrawlAction::Stop),
            Some(page) => {
                if page.end.as_str().unicode_len() == 0 {
                    (CrawlState::BackfillDone, CrawlAction::Purge)
                } else {
                    next_page(page)
                }
            },
        },
        (CrawlState::BackfillPage { end, failures }, CrawlEvent::PageResult { page }) => {
            let progress = match &page {
                Some(p) => !same_text(p.end.as_str(), end.as_str()),
                None => false,
            };
            match page {
                Some(page) if progress => next_page(page),
                _ => {
                    if failures >= MAX_PAGE_ATTEMPTS - 1 {
                        (CrawlState::BackfillDone, CrawlAction::Purge)
                    } else {
                        let from = end.clone();
                        (
                            CrawlState::BackfillPage { end, failures: failures + 1 },
                            CrawlAction::FetchPage { from, scan_first: false },
                        )
                    }
                },
            }
        },
        (CrawlState::JoinFailed, _) => (CrawlState::JoinFailed, CrawlAction::Stop),
        _ => (CrawlState::BackfillDone, CrawlAction::Stop),
    }
}

/// Whether a joined room is the one that a reference names: by its
/// canonical id or by its current canonical alias.
pub open spec fn answers_to(room: JoinedRoom, reference: Seq<char>) -> bool {
    room.room_id@ == reference || match room.canonical_alias {
        Some(alias) => alias@ == reference,
        None => false,
    }
}

/// For each joined room, whether a reference names it.
pub open spec fn answering(joined: Seq<JoinedRoom>, reference: Seq<char>) -> Seq<bool> {
    joined.map_values(|room: JoinedRoom| answers_to(room, reference))
}

/// The place of the first joined room that a reference names.
pub fn already_joined(joined_rooms: &Vec<JoinedRoom>, room_alias: &str) -> (r: Option<usize>)
    ensures
        match r {
            Some(i) => answering(joined_rooms@, room_alias@).index_of_first(true) == Some(
                i as int,
            ),
            None => answering(joined_rooms@, room_alias@).index_of_first(true) is None,
        },
{
    let mut i: usize = 0;
    while i < joined_rooms.len()
        invariant
            i <= joined_rooms@.len(),
            forall|j: int| 0 <= j < i ==> !answering(joined_rooms@, room_alias@)[j],
        decreases joined_rooms@.len() - i,
    {
        let room = &joined_rooms[i];
        let by_alias = match &room.canonical_alias {
            Some(alias) => same_text(alias.as_str(), room_alias),
            None => false,
        };
        if by_alias || same_text(room.room_id.as_str(), room_alias) {
            proof {
                lemma_first_match(answering(joined_rooms@, room_alias@), true, i as int);
            }
            return Some(i);
        }
        i += 1;
    }
    proof {
        lemma_no_match(answering(joined_rooms@, room_alias@), true);
    }
    None
}

/// Takes up a discovered reference: a reference that is known to break
/// the backfill is dropped, a room that is joined already goes on to have
/// its edge recorded, and any other is to be joined.
pub fn search_new_room(room_alias: &str, joined_rooms: &Vec<JoinedRoom>) -> (r: (
    CrawlState,
    CrawlAction,
))
    ensures
        (r.0@, r.1@) == spec_step(
            CrawlStateView::Discovered,
            CrawlEventView::Begin {
                known_bad: known_bad(room_alias@),
                already_joined: answering(joined_rooms@, room_alias@).index_of_first(
                    true,
                ) is Some,
            },
        ),
        state_ok(r.0@),
{
    let known_bad = is_known_bad(room_alias);
    let already_joined = already_joined(joined_rooms, room_alias).is_some();
    step(CrawlState::Discovered, CrawlEvent::Begin { known_bad, already_joined })
}

/// What the crawl does about the edge to a room it has just joined.
#[derive(Clone, Copy, Debug, PartialEq, Eq, Structural)]
pub enum EdgeDecision {
    /// Nothing is recorded and the crawl stops.
    Skip,
    /// The edge is recorded and the crawl stops: the room was seen before.
    RecordAndStop,
    /// The edge is recorded and the room's history is read.
    RecordAndBackfill,
}

/// The decision about an edge: without a parent nothing is recorded; a
/// room that was seen before is not read again, and its edge is recorded
/// only if this parent is new to it; a room seen for the first time is
/// recorded and read.
pub open spec fn spec_edge_decision(
    parent_id: Seq<char>,
    known: bool,
    parents: Seq<Seq<char>>,
) -> EdgeDecision {
    if parent_id.len() == 0 {
        EdgeDecision::Skip
    } else if known {
        if parents.contains(parent_id) {
            EdgeDecision::Skip
        } else {
            EdgeDecision::RecordAndStop
        }
    } else {
        EdgeDecision::RecordAndBackfill
    }
}

/// Decides about the edge from `parent_id` to a room, given whether the
/// room is known to the store and which parents the store lists for it.
pub fn edge_decision(parent_id: &str, known: bool, parents: &Vec<String>) -> (r: EdgeDecision)
    ensures
        r == spec_edge_decision(parent_id@, known, texts(parents@)),
{
    if parent_id.unicode_len() == 0 {
        return EdgeDecision::Skip;
    }
    if !known {
        return EdgeDecision::RecordAndBackfill;
    }
    let mut i: usize = 0;
    while i < parents.len()
        invariant
            known,
            parent_id@.len() != 0,
            i <= parents@.len(),
            forall|j: int| 0 <= j < i ==> texts(parents@)[j] != parent_id@,
        decreases parents@.len() - i,
    {
        if same_text(parents[i].as_str(), parent_id) {
            assert(texts(parents@)[i as int] == parent_id@);
            assert(texts(parents@).contains(parent_id@));
            return EdgeDecision::Skip;
        }
        i += 1;
    }
    EdgeDecision::RecordAndStop
}

/// What saving an edge came to.
#[derive(Clone, Copy, Debug, PartialEq, Eq)]
pub struct Saved {
    /// The crawl of the room stops here.
    pub exit_early: bool,
    /// What the store answered, where it was asked to record the edge.
    pub recorded: Option<Result<bool, StoreError>>,
}

/// Saves the edge from the parent room to a room that has just been
/// joined, as `edge_decision` decides by what the store knows of the room.
/// A store that cannot be read counts as knowing nothing. Where the store
/// fails to record the edge, nothing is announced.
pub fn save_to_db(
    graph: &mut GraphDb,
    room_id: &str,
    parent_id: &str,
    joined_rooms: &Vec<JoinedRoom>,
    joined_members: &Vec<MemberCount>,
) -> (saved: Saved)
    ensures
        parent_id@.len() == 0 ==> saved.exit_early && saved.recorded is None,
        saved.recorded is None ==> saved.exit_early && final(graph)@ == old(graph)@,
        saved.recorded is None && parent_id@.len() != 0 ==> old(graph)@.identifiers(
            old(graph)@.parents_of(spec_hash(room_id@)),
        ).contains(parent_id@),
        saved.exit_early && parent_id@.len() != 0 ==> old(graph)@.knows(spec_hash(room_id@)),
        !saved.exit_early ==> saved.recorded is Some,
        match saved.recorded {
            Some(Ok(known)) => {
                let before = old(graph)@;
                let after = final(graph)@;
                &&& known == before.has_edge(spec_hash(parent_id@), spec_hash(room_id@))
                &&& after.with_latest(None) == before.with_edge(parent_id@, room_id@).with_latest(
                    None,
                )
                &&& match before.announces(parent_id@, room_id@, joined_rooms@, joined_members@) {
                    Some(update) => after.latest == Some(update) || after.latest == before.latest,
                    None => after.latest == before.latest,
                }
                &&& before.edge_readable(spec_hash(parent_id@), spec_hash(room_id@))
                &&& after.knows(spec_hash(parent_id@)) && after.knows(spec_hash(room_id@))
                &&& after.has_edge(spec_hash(parent_id@), spec_hash(room_id@))
                &&& before.symmetric() ==> after.symmetric()
            },
            Some(Err(StoreError::Corrupt)) => {
                &&& !old(graph)@.edge_readable(spec_hash(parent_id@), spec_hash(room_id@))
                &&& final(graph)@ == old(graph)@
            },
            Some(Err(StoreError::Storage)) => final(graph)@.latest == old(graph)@.latest,
            None => true,
        },
{
    let known = graph.knows_room(room_id);
    let parents = if known {
        graph.get_parent(room_id)
    } else {
        Vec::new()
    };
    match edge_decision(parent_id, known, &parents) {
        EdgeDecision::Skip => Saved { exit_early: true, recorded: None },
        EdgeDecision::RecordAndStop => {
            let recorded = graph.add_child(parent_id, room_id, joined_rooms, joined_members);
            Saved { exit_early: true, recorded: Some(recorded) }
        },
        EdgeDecision::RecordAndBackfill => {
            let recorded = graph.add_child(parent_id, room_id, joined_rooms, joined_members);
            Saved { exit_early: false, recorded: Some(recorded) }
        },
    }
}

/// A reference that cannot be joined is given up after
/// `MAX_JOIN_ATTEMPTS` tries: every failure before the last asks for one
/// more try, the last ends the crawl, and no edge is recorded on the way.
pub proof fn lemma_join_gives_up(made: u8)
    requires
        1 <= made <= MAX_JOIN_ATTEMPTS,
    ensures
        spec_step(
            CrawlStateView::JoinAttempt { made },
            CrawlEventView::JoinResult { joined: false },
        ) == if made < MAX_JOIN_ATTEMPTS {
            (
                CrawlStateView::JoinAttempt { made: (made + 1) as u8 },
                CrawlActionView::Join { retry: true },
            )
        } else {
            (CrawlStateView::JoinFailed, CrawlActionView::Stop)
        },
        failed_joins(CrawlStateView::JoinAttempt { made }, (MAX_JOIN_ATTEMPTS - made + 1) as nat)
            == CrawlStateView::JoinFailed,
    decreases MAX_JOIN_ATTEMPTS - made,
{
    let state = CrawlStateView::JoinAttempt { made };
    let left = (MAX_JOIN_ATTEMPTS - made + 1) as nat;
    let next = spec_step(state, CrawlEventView::JoinResult { joined: false }).0;
    assert(failed_joins(state, left) == failed_joins(next, (left - 1) as nat));
    if made < MAX_JOIN_ATTEMPTS {
        lemma_join_gives_up((made + 1) as u8);
    } else {
        assert(failed_joins(next, 0) == next);
    }
}

/// The state after `n` failed tries to join in a row.
pub open spec fn failed_joins(state: CrawlStateView, n: nat) -> CrawlStateView
    decreases n,
{
    if n == 0 {
        state
    } else {
        failed_joins(spec_step(state, CrawlEventView::JoinResult { joined: false }).0, (n - 1) as nat)
    }
}

/// A crawl that is over stays over: whatever happens next, it asks for
/// nothing more.
pub proof fn lemma_terminal_stays(state: CrawlStateView, event: CrawlEventView)
    requires
        is_terminal(state),
    ensures
        is_terminal(spec_step(state, event).0),
        spec_step(state, event).1 == CrawlActionView::Stop,
{
}

/// The counters of a crawl stay within their bounds: joining is tried at
/// most `MAX_JOIN_ATTEMPTS` times and a page is asked for without progress
/// at most `MAX_PAGE_ATTEMPTS` times.
pub proof fn lemma_step_keeps_bounds(state: CrawlStateView, event: CrawlEventView)
    ensures
        state_ok(spec_step(state, event).0),
{
}

/// A room's history is asked for again without progress at most
/// `MAX_PAGE_ATTEMPTS` times: each fruitless try counts up, and the one
/// that reaches the bound ends the crawl.
pub proof fn lemma_backfill_gives_up(end: Seq<char>, failures: u8, page: Option<PageView>)
    requires
        failures < MAX_PAGE_ATTEMPTS,
        page is None || page->0.end == end,
    ensures
        spec_step(
            CrawlStateView::BackfillPage { end, failures },
            CrawlEventView::PageResult { page },
        ) == if failures + 1 < MAX_PAGE_ATTEMPTS {
            (
                CrawlStateView::BackfillPage { end, failures: (failures + 1) as u8 },
                CrawlActionView::FetchPage { from: end, scan_first: false },
            )
        } else {
            (CrawlStateView::BackfillDone, CrawlActionView::Purge)
        },
{
}

} // verus!
