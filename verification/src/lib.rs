//! Room relation graph for a federated messaging network: content-addressed
//! room keys, a persistent adjacency store, the mutation engine, the crawl
//! decisions and the read-side graph view.

pub mod api;
pub mod config;
pub mod consistency;
pub mod crawl;
pub mod gate;
pub mod graph;
pub mod identity;
pub mod matrix;
pub mod order;
pub mod queries;
pub mod relations;
pub mod rooms;
pub mod scan;
pub mod servers;
pub mod snapshot;
pub mod table;
pub mod wire;
