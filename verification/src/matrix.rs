//! Answers of federation endpoints.

use vstd::prelude::*;

verus! {

/// The answer of a server's version endpoint.
#[derive(Clone, Debug, PartialEq, Eq)]
pub struct MatrixVersion {
    pub server: MatrixVersionServer,
}

/// The software a server runs.
#[derive(Clone, Debug, PartialEq, Eq)]
pub struct MatrixVersionServer {
    pub name: String,
    pub version: String,
}

/// The delegation that a server publishes under its well-known path.
#[derive(Clone, Debug, PartialEq, Eq)]
pub struct MatrixSsWellKnown {
    pub server: String,
}

} // verus!
