//! The settings that the rules read.

use vstd::prelude::*;

verus! {

/// Where the entries of a project live.
#[derive(Clone, Copy, PartialEq, Eq, Structural, Debug)]
pub enum SyncMode {
    /// In the local store, with a server kept in step.
    LocalFirst,
    /// On the server.
    CloudFirst,
    /// In the local store alone.
    Offline,
}

impl SyncMode {
    /// The name of the mode.
    pub open spec fn name(&self) -> Seq<char> {
        match self {
            SyncMode::LocalFirst => "local_first"@,
            SyncMode::CloudFirst => "cloud_first"@,
            SyncMode::Offline => "offline"@,
        }
    }

    /// The name of the mode.
    pub fn as_str(&self) -> (r: &'static str)
        ensures
            r@ == self.name(),
    {
        match self {
            SyncMode::LocalFirst => "local_first",
            SyncMode::CloudFirst => "cloud_first",
            SyncMode::Offline => "offline",
        }
    }
}

/// The settings of a project, with the sync mode as it was resolved.
pub struct Config {
    pub server_url: Option<String>,
    pub project_id: Option<String>,
    pub mode: SyncMode,
}

impl Default for Config {
    fn default() -> (r: Self)
        ensures
            r.server_url is None,
            r.project_id is None,
            r.mode is LocalFirst,
    {
        Config { server_url: None, project_id: None, mode: SyncMode::LocalFirst }
    }
}

impl Config {
    /// Whether entries are kept on a server and not in the local store.
    pub open spec fn kept_remotely(&self) -> bool {
        self.mode is CloudFirst && self.server_url is Some
    }

    /// Whether entries are kept on a server and not in the local store.
    pub fn routes_remote(&self) -> (r: bool)
        ensures
            r == self.kept_remotely(),
    {
        matches!(self.mode, SyncMode::CloudFirst) && self.server_url.is_some()
    }
}

/// Entries are kept on a server if and only if the mode says so and there is one.
pub proof fn law_entries_are_remote_only_with_a_server(c: Config)
    ensures
        c.kept_remotely() <==> c.mode == SyncMode::CloudFirst && c.server_url is Some,
{
}

/// Modes have different names.
pub proof fn law_modes_are_told_apart(a: SyncMode, b: SyncMode)
    ensures
        a.name() == b.name() ==> a == b,
{
    reveal_strlit("local_first");
    reveal_strlit("cloud_first");
    reveal_strlit("offline");
    assert("local_first"@[0] != "cloud_first"@[0]);
    assert("local_first"@[0] != "offline"@[0]);
    assert("cloud_first"@[0] != "offline"@[0]);
}

} // verus!
