//! The values that the graph view hands to its readers.

use vstd::prelude::*;
use std::sync::Arc;

verus! {

/// A directed relation between two rooms, each named by its external
/// identifier.
#[derive(Clone, Debug, PartialEq, Eq, PartialOrd, Ord, Hash)]
pub struct Link {
    pub source: String,
    pub target: String,
    pub value: i32,
}

/// What a `Link` holds.
pub struct LinkView {
    pub source: Seq<char>,
    pub target: Seq<char>,
    pub value: i32,
}

impl View for Link {
    type V = LinkView;

    open spec fn view(&self) -> LinkView {
        LinkView { source: self.source@, target: self.target@, value: self.value }
    }
}

/// A room as the graph view shows it.
#[derive(Clone, Debug, PartialEq, Eq, PartialOrd, Ord, Hash)]
pub struct RoomRelation {
    pub id: String,
    pub room_id: String,
    pub name: String,
    pub alias: String,
    pub avatar: String,
    pub members: i64,
    pub topic: String,
    pub weight: Option<i32>,
    pub incoming_links: Option<i32>,
    pub outgoing_links: Option<i32>,
    pub is_space: bool,
}

/// What a `RoomRelation` holds.
pub struct RoomRelationView {
    pub id: Seq<char>,
    pub room_id: Seq<char>,
    pub name: Seq<char>,
    pub alias: Seq<char>,
    pub avatar: Seq<char>,
    pub members: i64,
    pub topic: Seq<char>,
    pub weight: Option<i32>,
    pub incoming_links: Option<i32>,
    pub outgoing_links: Option<i32>,
    pub is_space: bool,
}

impl View for RoomRelation {
    type V = RoomRelationView;

    open spec fn view(&self) -> RoomRelationView {
        RoomRelationView {
            id: self.id@,
            room_id: self.room_id@,
            name: self.name@,
            alias: self.alias@,
            avatar: self.avatar@,
            members: self.members,
            topic: self.topic@,
            weight: self.weight,
            incoming_links: self.incoming_links,
            outgoing_links: self.outgoing_links,
            is_space: self.is_space,
        }
    }
}

/// The whole graph: rooms in ascending order of `id`, links in ascending
/// order of `source` and then `target`.
#[derive(Clone, Debug, PartialEq, Eq)]
pub struct RelationsJson {
    pub nodes: Vec<RoomRelation>,
    pub links: Vec<Link>,
}

/// One live update: a new link and the room it leads to.
#[derive(Clone, Debug, PartialEq, Eq)]
pub struct SSEJson {
    pub node: Arc<RoomRelation>,
    pub link: Arc<Link>,
}

/// What an `SSEJson` holds.
pub struct SSEJsonView {
    pub node: RoomRelationView,
    pub link: LinkView,
}

impl View for SSEJson {
    type V = SSEJsonView;

    open spec fn view(&self) -> SSEJsonView {
        SSEJsonView { node: (*self.node)@, link: (*self.link)@ }
    }
}

/// One line of a streamed graph.
#[derive(Clone, Debug, PartialEq, Eq)]
pub enum Jsonline {
    RoomRelation(RoomRelation),
    Links(Vec<Link>),
}

/// The servers that host the rooms of the graph, in ascending order.
#[derive(Clone, Debug, PartialEq, Eq)]
pub struct ServersJson {
    pub servers: Vec<String>,
}

} // verus!
