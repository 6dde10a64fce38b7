//! The answer of the health endpoint.

use vstd::prelude::*;

verus! {

/// What the health endpoint reports: a status word and the version of the
/// running server.
#[derive(Debug, Clone, Copy)]
pub struct HealthResponse {
    status: &'static str,
    version: &'static str,
}

impl HealthResponse {
    /// The reported status, as a sequence of characters.
    pub closed spec fn status_text(&self) -> Seq<char> {
        self.status@
    }

    /// The reported version, as a sequence of characters.
    pub closed spec fn version_text(&self) -> Seq<char> {
        self.version@
    }

    /// The report of a server that is up: status `ok` and the given
    /// version.
    #[must_use]
    pub fn ok(version: &'static str) -> (response: Self)
        ensures
            response.status_text() == "ok"@,
            response.version_text() == version@,
    {
        HealthResponse { status: "ok", version }
    }

    /// The reported status.
    pub fn status(&self) -> (status: &'static str)
        ensures
            status@ == self.status_text(),
    {
        self.status
    }

    /// The reported version.
    pub fn version(&self) -> (version: &'static str)
        ensures
            version@ == self.version_text(),
    {
        self.version
    }
}

} // verus!
