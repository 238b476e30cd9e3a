//! The settings of a deployment.

use vstd::prelude::*;

verus! {

/// Everything a deployment configures.
#[derive(Clone, Debug, PartialEq)]
pub struct Config {
    pub postgres: Postgres,
    pub influxdb: InfluxDb,
    pub bot: Bot,
    pub api: Api,
}

/// The relational database that lists federation destinations.
#[derive(Clone, Debug, PartialEq)]
pub struct Postgres {
    pub url: String,
    pub query: String,
}

/// The time-series sink for server versions.
#[derive(Clone, Debug, PartialEq)]
pub struct InfluxDb {
    pub host: String,
    pub token: String,
    pub org: String,
    pub bucket: String,
}

/// The crawling account and the server it lives on.
#[derive(Clone, Debug, PartialEq)]
pub struct Bot {
    pub homeserver_url: String,
    pub server_name: String,
    pub mxid: String,
    pub password: String,
    pub force_cleanup: bool,
    pub force_reindex_of_joined_rooms: bool,
    pub admin_access_token: String,
}

/// Where the query interface listens and what it serves.
#[derive(Clone, Debug, PartialEq)]
pub struct Api {
    pub ip: String,
    pub webpage_path: String,
    pub port: u16,
}

} // verus!
