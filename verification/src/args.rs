//! The arguments of the commands, as plain values.

use vstd::prelude::*;

verus! {

// ---- memory ----------------------------------------------------------------

/// `inkentry memory`.
#[derive(Debug)]
pub struct MemoryArgs {
    pub command: MemoryCommand,
    /// The memory database, in place of the one that is found.
    pub db: Option<String>,
    /// The storage backend: `sqlite` or `git-notes`.
    pub backend: String,
}

/// The subcommands of `inkentry memory`.
#[derive(Debug)]
pub enum MemoryCommand {
    Add(MemoryAddArgs),
    List(MemoryListArgs),
    Show(MemoryShowArgs),
    Harvest(MemoryHarvestArgs),
    Archive(MemoryArchiveArgs),
    Supersede(MemorySupersededArgs),
    Sync(MemorySyncArgs),
    Timeline(MemoryTimelineArgs),
    Graph(MemoryGraphArgs),
    Failures(MemoryFailuresArgs),
    Reconcile(MemoryReconcileArgs),
    Reindex(MemoryReindexArgs),
    Dedupe(MemoryDedupeArgs),
    Tags(MemoryTagsArgs),
    Anchor(MemoryAnchorArgs),
}

#[derive(Debug)]
pub struct MemoryGraphArgs {
    pub id: String,
    pub format: String,
}

#[derive(Debug)]
pub struct MemoryTimelineArgs {
    pub query: String,
    pub limit: usize,
    pub format: String,
}

#[derive(Debug)]
pub struct MemoryAddArgs {
    pub title: Option<String>,
    pub body: Option<String>,
    pub from_url: Option<String>,
    pub kind: String,
    pub tags: Option<String>,
    pub files: Option<String>,
    pub valid_at: Option<String>,
    pub supersedes: Option<String>,
    pub relates_to: Option<String>,
    pub commit: Option<String>,
    pub format: String,
}

#[derive(Debug)]
pub struct MemoryAnchorArgs {
    pub commit: String,
    pub ids: Vec<String>,
}

#[derive(Debug)]
pub struct MemoryListArgs {
    pub kind: Option<String>,
    pub source_ref: Option<String>,
    pub limit: usize,
    pub format: String,
    pub archived: bool,
    pub as_of: Option<String>,
    pub local_only: bool,
    pub tag: Option<String>,
    pub file: Option<String>,
}

#[derive(Debug)]
pub struct MemoryTagsArgs {
    pub format: String,
}

#[derive(Debug)]
pub struct MemoryShowArgs {
    pub id: String,
    pub format: String,
}

#[derive(Debug)]
pub struct MemoryHarvestArgs {
    pub git_range: String,
    pub branch: Option<String>,
    pub batch_size: usize,
    pub source: String,
    pub history_file: Option<String>,
    pub since: Option<String>,
    pub confirm: bool,
    pub detach: bool,
}

#[derive(Debug)]
pub struct MemorySyncArgs {
    pub source: Option<String>,
    pub include_archived: bool,
    pub project: Option<String>,
}

#[derive(Debug)]
pub struct MemoryArchiveArgs {
    pub id: String,
}

#[derive(Debug)]
pub struct MemorySupersededArgs {
    pub old_id: String,
    pub new_id: String,
}

#[derive(Debug)]
pub struct MemoryFailuresArgs {
    pub limit: usize,
    pub format: String,
    pub as_of: Option<String>,
}

#[derive(Debug)]
pub struct MemoryReconcileArgs {
    pub source_db: Option<String>,
    pub dry_run: bool,
    pub all_projects: bool,
    pub format: String,
}

#[derive(Debug)]
pub struct MemoryReindexArgs {
    pub force: bool,
    pub include_archived: bool,
    pub dry_run: bool,
    pub format: String,
}

#[derive(Debug)]
pub struct MemoryDedupeArgs {
    pub dry_run: bool,
    pub format: String,
}

impl MemoryCommand {
    /// Whether a command may ride on git notes where there is no project:
    /// recording and listing may, and every other command needs a project.
    pub fn may_ride_on_notes(&self) -> (r: bool)
        ensures
            r == (self is Add || self is List),
    {
        matches!(self, MemoryCommand::Add(_) | MemoryCommand::List(_))
    }

    /// Whether a command runs from a git hook: it then never fails and never
    /// prints, as a hook's exit decides over the commit.
    pub fn is_hook(&self) -> (r: bool)
        ensures
            r == self is Anchor,
    {
        matches!(self, MemoryCommand::Anchor(_))
    }
}

/// What is said before the old name of `inkentry harvest` runs.
pub fn deprecation_warning(command: &MemoryCommand) -> (r: Option<&'static str>)
    ensures
        crate::text::opt_str(r) == if command is Harvest {
            Some(
                "warning: 'inkentry memory harvest' is deprecated; use 'inkentry harvest' instead."@,
            )
        } else {
            None
        },
{
    if matches!(command, MemoryCommand::Harvest(_)) {
        Some("warning: 'inkentry memory harvest' is deprecated; use 'inkentry harvest' instead.")
    } else {
        None
    }
}

// ---- metrics ---------------------------------------------------------------

#[derive(Debug)]
pub struct MetricsArgs {
    pub command: MetricsCommand,
}

#[derive(Debug)]
pub enum MetricsCommand {
    Snapshot(MetricsSnapshotArgs),
    Clear,
}

#[derive(Debug)]
pub struct MetricsSnapshotArgs {
    pub window_days: u32,
    pub json: bool,
}

// ---- organisations ---------------------------------------------------------

#[derive(Debug)]
pub struct OrgArgs {
    pub cloud_url: Option<String>,
    pub command: OrgCommand,
}

#[derive(Debug)]
pub enum OrgCommand {
    Switch(OrgSwitchArgs),
    List,
}

#[derive(Debug)]
pub struct OrgSwitchArgs {
    pub org: String,
}

// ---- plumbing --------------------------------------------------------------

#[derive(Debug)]
pub struct PlumbingCatChunksArgs {
    pub file: String,
}

#[derive(Debug)]
pub struct PlumbingLsFilesArgs {
    pub prefix: Option<String>,
    pub stale: bool,
    pub root: Option<String>,
}

#[derive(Debug)]
pub struct PlumbingParseFileArgs {
    pub file: String,
}

#[derive(Debug)]
pub struct PlumbingHashFileArgs {
    pub file: String,
}

#[derive(Debug)]
pub struct PlumbingEmbedArgs {
    pub query: bool,
}

#[derive(Debug)]
pub struct PlumbingGraphEdgesArgs {
    pub file: Option<String>,
    pub symbol: Option<String>,
}

#[derive(Debug)]
pub struct PlumbingReadMemoryArgs {
    pub kind: Option<String>,
    pub id: Option<String>,
    pub limit: usize,
}

#[derive(Debug)]
pub struct PlumbingPushArgs {
    pub source: Option<String>,
    pub include_archived: bool,
}

#[derive(Debug)]
pub struct PlumbingPullArgs {}

#[derive(Debug)]
pub struct PlumbingPublishNotesArgs {
    pub remote: Option<String>,
    pub url: Option<String>,
    pub best_effort: bool,
}

// ---- the rest --------------------------------------------------------------

#[derive(Debug)]
pub struct ChunksArgs {
    pub path: String,
    pub format: String,
    pub db: Option<String>,
}

#[derive(Debug)]
pub struct SearchArgs {
    pub query: String,
    pub limit: usize,
    pub budget: Option<usize>,
    pub format: String,
    pub graph: bool,
    pub graph_limit: usize,
    pub db: Option<String>,
    pub no_stale_check: bool,
    pub local_only: bool,
    pub only_code: bool,
    pub only_memory: bool,
    pub only_text: bool,
    pub as_of: Option<String>,
    pub expand_graph: bool,
}

#[derive(Debug)]
pub struct ServerArgs {
    pub command: ServerCommand,
}

#[derive(Debug)]
pub enum ServerCommand {
    Start(ServerStartArgs),
    Stop,
    Status,
    Logs(ServerLogsArgs),
}

#[derive(Debug)]
pub struct ServerStartArgs {
    pub port: u16,
    pub bin: Option<String>,
    pub db: Option<String>,
    pub llm_url: Option<String>,
    pub llm_model: Option<String>,
}

#[derive(Debug)]
pub struct ServerLogsArgs {
    pub lines: usize,
}

#[derive(Debug)]
pub struct StatusArgs {
    pub all: bool,
    pub list: bool,
    pub format: String,
}

} // verus!
