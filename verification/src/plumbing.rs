//! The commands for programs: what each needs, and how a transfer ends.

use crate::config::Config;
use crate::memory::sync::pull::PullSummary;
use crate::memory::sync::push::PushSummary;
use crate::text::{dec, dec_u64, dec_usize, opt_text};
use vstd::prelude::*;
use vstd::string::*;

verus! {

// ---- what a command needs --------------------------------------------------

/// A command for programs.
#[derive(Clone, Copy, PartialEq, Eq, Structural, Debug)]
pub enum PlumbingKind {
    CatChunks,
    LsFiles,
    ParseFile,
    HashFile,
    Knn,
    Embed,
    GraphEdges,
    ReadMemory,
    PublishNotes,
    Push,
    Pull,
}

/// What a command needs before it runs.
#[derive(Clone, Copy, PartialEq, Eq, Structural, Debug)]
pub enum PlumbingNeed {
    Nothing,
    /// The index of the project.
    Index,
    /// A memory store; one that is missing is made.
    Store,
    /// A memory store that is there.
    ExistingStore,
}

/// What a command needs before it runs. Those on memory need no index. One that
/// only reads or sends needs a store that is there, as a store that is missing
/// is no empty one; one that receives may make it.
pub fn plumbing(kind: PlumbingKind) -> (r: PlumbingNeed)
    ensures
        r == match kind {
            PlumbingKind::ParseFile => PlumbingNeed::Nothing,
            PlumbingKind::Embed => PlumbingNeed::Nothing,
            PlumbingKind::PublishNotes => PlumbingNeed::Nothing,
            PlumbingKind::Push => PlumbingNeed::ExistingStore,
            PlumbingKind::ReadMemory => PlumbingNeed::ExistingStore,
            PlumbingKind::Pull => PlumbingNeed::Store,
            _ => PlumbingNeed::Index,
        },
{
    match kind {
        PlumbingKind::ParseFile => PlumbingNeed::Nothing,
        PlumbingKind::Embed => PlumbingNeed::Nothing,
        PlumbingKind::PublishNotes => PlumbingNeed::Nothing,
        PlumbingKind::Push => PlumbingNeed::ExistingStore,
        PlumbingKind::ReadMemory => PlumbingNeed::ExistingStore,
        PlumbingKind::Pull => PlumbingNeed::Store,
        _ => PlumbingNeed::Index,
    }
}

/// The error of a command that needs an index where there is none.
pub fn no_index_error() -> (r: String)
    ensures
        r@ == "No index found (checked current directory and parents).\nRun `inkentry index <path>` inside your project first."@,
{
    "No index found (checked current directory and parents).\nRun `inkentry index <path>` inside your project first.".to_owned()
}

/// Which memory store a command acts on.
pub enum MemoryPath {
    /// The one beside the database that was given.
    BesideGiven,
    /// That of the project.
    InProject,
    /// That of the machine, and what is said of it.
    Global(String),
}

/// Which memory store a command acts on: by the directory of a project and not
/// by its index, which a project may not have yet. Outside any project the
/// store of the machine is acted on, and named.
pub fn resolve_memory_path(db_given: bool, in_project: bool, global: &str) -> (r: MemoryPath)
    ensures
        match r {
            MemoryPath::BesideGiven => db_given,
            MemoryPath::InProject => !db_given && in_project,
            MemoryPath::Global(note) => !db_given && !in_project && note@
                == "note: no inkentry project here (no .inkentry/ directory found); acting on the global memory store at "@
                + global@,
        },
{
    if db_given {
        return MemoryPath::BesideGiven;
    }
    if in_project {
        return MemoryPath::InProject;
    }
    MemoryPath::Global(
        "note: no inkentry project here (no .inkentry/ directory found); acting on the global memory store at ".to_owned().concat(
            global,
        ),
    )
}

/// Refuses a memory store that is not there, unless entries are kept on a
/// server and the path only stands in for it.
pub fn require_memory_store(mem_path: &str, exists: bool, cfg: &Config) -> (r: Result<(), String>)
    ensures
        r is Ok <==> cfg.kept_remotely() || exists,
        r is Err ==> r->Err_0@ == "No memory store found at "@ + mem_path@
            + ".\nRun `inkentry init` in your project first, or pass an explicit --db."@,
{
    if cfg.routes_remote() || exists {
        return Ok(());
    }
    Err(
        "No memory store found at ".to_owned().concat(mem_path).concat(
            ".\nRun `inkentry init` in your project first, or pass an explicit --db.",
        ),
    )
}

/// The project that a transfer works for, which must be set.
pub fn require_project_id(cfg: &Config) -> (r: Result<String, String>)
    ensures
        match r {
            Ok(p) => opt_text(cfg.project_id) == Some(p@),
            Err(e) => cfg.project_id is None && e@
                == "`project_id` is not configured. Set it in `.inkentry/config.toml` or via `INKENTRY_PROJECT_ID`."@,
        },
{
    match &cfg.project_id {
        Some(p) => Ok(p.clone()),
        None => Err(
            "`project_id` is not configured. Set it in `.inkentry/config.toml` or via `INKENTRY_PROJECT_ID`.".to_owned(),
        ),
    }
}

// ---- push ------------------------------------------------------------------

/// What a push reports. A push that was interrupted reports nothing, so the
/// last field is never set.
#[derive(Clone, Copy, PartialEq, Eq, Structural, Debug)]
pub struct PushReport {
    pub attempted: usize,
    pub created: u32,
    pub skipped: u32,
    pub failed: u32,
    pub already_synced: usize,
    pub edges_pushed: usize,
    pub without_local_vector: usize,
    pub embedded_locally: usize,
    pub interrupted: bool,
}

/// A report, and the status that the program exits with.
#[derive(Clone, Copy, PartialEq, Eq, Structural, Debug)]
pub struct PushEnd {
    pub report: PushReport,
    pub exit_code: u8,
}

/// Whether a push did not complete: it was interrupted, or entries failed and
/// none reached the server.
pub open spec fn push_incomplete(s: PushSummary) -> bool {
    s.interrupted is Some || (s.created == 0 && s.skipped == 0 && s.failed > 0)
}

/// How a push ends. One that completed reports, and exits with one where it
/// created nothing; one that did not is an error, which no one can take for
/// having had nothing to do.
pub fn push(summary: &PushSummary) -> (r: Result<PushEnd, String>)
    ensures
        match r {
            Ok(end) => !push_incomplete(*summary) && end == (PushEnd {
                report: PushReport {
                    attempted: summary.attempted,
                    created: summary.created,
                    skipped: summary.skipped,
                    failed: summary.failed,
                    already_synced: summary.already_synced,
                    edges_pushed: summary.edges_pushed,
                    without_local_vector: summary.without_local_vector,
                    embedded_locally: summary.embedded_locally,
                    interrupted: false,
                },
                exit_code: if summary.created == 0 {
                    1
                } else {
                    0
                },
            }),
            Err(e) => push_incomplete(*summary) && e@ == if summary.interrupted is Some {
                "pushed "@ + dec((summary.created + summary.skipped) as nat) + " of "@ + dec(
                    summary.attempted as nat,
                ) + " entries, then stopped: "@ + summary.interrupted->0@
                    + ". Re-run to resume (already-pushed entries are skipped)."@
            } else {
                "push failed: 0 of "@ + dec(summary.attempted as nat)
                    + " entries reached the server ("@ + dec(summary.failed as nat) + " failed)."@
            },
        },
{
    if let Some(reason) = &summary.interrupted {
        let landed: u64 = summary.created as u64 + summary.skipped as u64;
        return Err(
            "pushed ".to_owned().concat(dec_u64(landed).as_str()).concat(" of ").concat(
                dec_usize(summary.attempted).as_str(),
            ).concat(" entries, then stopped: ").concat(reason.as_str()).concat(
                ". Re-run to resume (already-pushed entries are skipped).",
            ),
        );
    }
    if summary.created == 0 && summary.skipped == 0 && summary.failed > 0 {
        return Err(
            "push failed: 0 of ".to_owned().concat(dec_usize(summary.attempted).as_str()).concat(
                " entries reached the server (",
            ).concat(dec_u64(summary.failed as u64).as_str()).concat(" failed)."),
        );
    }
    Ok(
        PushEnd {
            report: PushReport {
                attempted: summary.attempted,
                created: summary.created,
                skipped: summary.skipped,
                failed: summary.failed,
                already_synced: summary.already_synced,
                edges_pushed: summary.edges_pushed,
                without_local_vector: summary.without_local_vector,
                embedded_locally: summary.embedded_locally,
                interrupted: false,
            },
            exit_code: if summary.created == 0 {
                1
            } else {
                0
            },
        },
    )
}

// ---- pull ------------------------------------------------------------------

/// The status that a pull exits with: one where nothing was new. Its report is
/// printed either way.
pub fn pull(summary: &PullSummary) -> (r: u8)
    ensures
        r == if summary.applied == 0 {
            1
        } else {
            0int
        },
{
    if summary.applied == 0 {
        1
    } else {
        0
    }
}

// ---- publishing notes ------------------------------------------------------

/// How publishing ended.
pub enum PublishOutcome {
    /// Published, after this many attempts.
    Published { attempts: u32 },
    /// Nothing was done, for this reason; whether that is because another
    /// process holds the lock.
    Skipped { reason: String, lock_unavailable: bool },
    Failed(String),
}

/// What is reported of it.
pub struct PublishReport {
    pub published: bool,
    pub remote: String,
    pub attempts: Option<u32>,
    pub skipped: Option<String>,
    pub error: Option<String>,
}

/// A report, and the lines that are said beside it.
pub struct PublishEnd {
    pub report: PublishReport,
    pub lines: Vec<String>,
}

/// The remote that is published to.
pub fn publish_remote(given: Option<&str>) -> (r: String)
    ensures
        r@ == match given {
            Some(g) => g@,
            None => "origin"@,
        },
{
    match given {
        Some(g) => g.to_owned(),
        None => "origin".to_owned(),
    }
}

/// The lines that are said beside a report. A hook drops what is reported, so a
/// lock that was held is said as well; other reasons had nothing to publish.
pub open spec fn publish_lines(outcome: PublishOutcome, remote: Seq<char>) -> Seq<Seq<char>> {
    match outcome {
        PublishOutcome::Published { .. } => Seq::<Seq<char>>::empty(),
        PublishOutcome::Skipped { lock_unavailable, .. } => if lock_unavailable {
            seq![
                "inkentry: memory not published: another inkentry process holds the notes lock."@,
                "inkentry: your code push is unaffected; your next push publishes it."@,
            ]
        } else {
            Seq::<Seq<char>>::empty()
        },
        PublishOutcome::Failed(e) => seq![
            "inkentry: "@ + e@,
            "inkentry: your code push is unaffected. Retry with: git push "@ + remote
                + " refs/notes/inkentry"@,
        ],
    }
}

/// How publishing ends. A failure is an error, unless the command runs from a
/// hook, where an error would end the push of code.
pub fn publish_notes(outcome: PublishOutcome, remote: &str, best_effort: bool) -> (r: Result<
    PublishEnd,
    String,
>)
    ensures
        match r {
            Ok(end) => (!(outcome is Failed) || best_effort) && end.report.remote@ == remote@
                && end.report.published == outcome is Published && crate::text::texts(end.lines@)
                == publish_lines(outcome, remote@) && (match outcome {
                PublishOutcome::Published { attempts } => end.report.attempts == Some(attempts)
                    && end.report.skipped is None && end.report.error is None,
                PublishOutcome::Skipped { reason, .. } => end.report.attempts is None && opt_text(
                    end.report.skipped,
                ) == Some(reason@) && end.report.error is None,
                PublishOutcome::Failed(e) => end.report.attempts is None && end.report.skipped
                    is None && opt_text(end.report.error) == Some(e@),
            }),
            Err(e) => outcome is Failed && !best_effort && e@ == outcome->Failed_0@,
        },
{
    let mut lines: Vec<String> = Vec::new();
    let ghost want = publish_lines(outcome, remote@);
    match outcome {
        PublishOutcome::Published { attempts } => {
            assert(crate::text::texts(lines@) =~= want);
            Ok(
                PublishEnd {
                    report: PublishReport {
                        published: true,
                        remote: remote.to_owned(),
                        attempts: Some(attempts),
                        skipped: None,
                        error: None,
                    },
                    lines,
                },
            )
        },
        PublishOutcome::Skipped { reason, lock_unavailable } => {
            if lock_unavailable {
                lines.push(
                    "inkentry: memory not published: another inkentry process holds the notes lock.".to_owned(),
                );
                lines.push(
                    "inkentry: your code push is unaffected; your next push publishes it.".to_owned(),
                );
            }
            assert(crate::text::texts(lines@) =~= want);
            Ok(
                PublishEnd {
                    report: PublishReport {
                        published: false,
                        remote: remote.to_owned(),
                        attempts: None,
                        skipped: Some(reason),
                        error: None,
                    },
                    lines,
                },
            )
        },
        PublishOutcome::Failed(e) => {
            if !best_effort {
                return Err(e);
            }
            lines.push("inkentry: ".to_owned().concat(e.as_str()));
            lines.push(
                "inkentry: your code push is unaffected. Retry with: git push ".to_owned().concat(
                    remote,
                ).concat(" refs/notes/inkentry"),
            );
            assert(crate::text::texts(lines@) =~= want);
            Ok(
                PublishEnd {
                    report: PublishReport {
                        published: false,
                        remote: remote.to_owned(),
                        attempts: None,
                        skipped: None,
                        error: Some(e),
                    },
                    lines,
                },
            )
        },
    }
}

/// A push is incomplete if and only if it was interrupted, or entries failed and
/// none reached the server. One that had nothing to do is complete.
pub proof fn law_a_push_with_nothing_to_do_is_complete(s: PushSummary)
    ensures
        push_incomplete(s) <==> s.interrupted is Some || (s.failed > 0 && s.created == 0
            && s.skipped == 0),
        s.interrupted is None && s.failed == 0 ==> !push_incomplete(s),
{
}

/// Nothing is said where notes were published; of a failure the cause is told and
/// how to try again, and of a held lock that it was held.
pub proof fn law_what_was_not_published_is_told(outcome: PublishOutcome, remote: Seq<char>)
    ensures
        outcome is Published ==> publish_lines(outcome, remote).len() == 0,
        outcome is Skipped ==> (publish_lines(outcome, remote).len() == 2
            <==> outcome->lock_unavailable),
        outcome is Skipped && !outcome->lock_unavailable ==> publish_lines(outcome, remote).len()
            == 0,
        outcome is Failed ==> publish_lines(outcome, remote).len() == 2
            && outcome->Failed_0@.is_suffix_of(publish_lines(outcome, remote)[0])
            && crate::text::occurs(publish_lines(outcome, remote)[1], "git push "@ + remote),
{
    if let PublishOutcome::Failed(e) = outcome {
        let ls = publish_lines(outcome, remote);
        assert(ls[0].subrange(ls[0].len() - e@.len(), ls[0].len() as int) =~= e@);
        reveal_strlit("inkentry: your code push is unaffected. Retry with: git push ");
        reveal_strlit("inkentry: your code push is unaffected. Retry with: ");
        reveal_strlit("git push ");
        let front = "inkentry: your code push is unaffected. Retry with: "@;
        assert("inkentry: your code push is unaffected. Retry with: git push "@ =~= front
            + "git push "@);
        crate::text::lemma_occurs_between(front, "git push "@ + remote, " refs/notes/inkentry"@);
        assert(ls[1] =~= front + ("git push "@ + remote) + " refs/notes/inkentry"@);
    }
}

} // verus!
