//! Keeping a local store in step with a server: push, pull, and a full round.

use crate::config::Config;
use crate::memory::sync::local_embed::{
    local_embed_clause, local_embed_summary, pending_embedding_warning, pending_warning_text,
    pull_embed_clause, pull_embed_summary,
};
use crate::memory::sync::pull::PullSummary;
use crate::memory::sync::push::PushSummary;
use crate::text::{
    begins, dec, dec_u64, dec_usize, is_blank, opt_str, opt_text, trimmed,
};
use vstd::prelude::*;
use vstd::string::*;

pub mod local_embed;
pub mod pull;
pub mod push;
pub mod round;

verus! {

/// What is said when no project is named.
pub open spec fn no_project_text() -> Seq<char> {
    "No project specified. Re-run as `inkentry sync --project <slug>` to choose the cloud project to sync into.\n(The project is created on first sync from the slug you pass; the slug is never guessed from the folder or git remote.)"@
}

/// The project named on the command line, or else the configured one.
pub open spec fn named_project(cli: Option<Seq<char>>, configured: Option<Seq<char>>) -> Option<
    Seq<char>,
> {
    if cli is Some {
        cli
    } else {
        configured
    }
}

/// The project to sync into: the one named on the command line, or else the
/// configured one. A blank name is no name, and none is ever guessed.
pub fn resolve_sync_project(cli_project: Option<&str>, cfg: &Config) -> (r: Result<String, String>)
    ensures
        match named_project(opt_str(cli_project), opt_text(cfg.project_id)) {
            Some(p) => if trimmed(p).len() > 0 {
                r is Ok && r->Ok_0@ == p
            } else {
                r is Err && r->Err_0@ == no_project_text()
            },
            None => r is Err && r->Err_0@ == no_project_text(),
        },
{
    let named: Option<String> = match cli_project {
        Some(p) => Some(p.to_owned()),
        None => cfg.project_id.clone(),
    };
    match named {
        Some(p) => {
            if !is_blank(p.as_str()) {
                return Ok(p);
            }
        },
        None => {},
    }
    Err(
        "No project specified. Re-run as `inkentry sync --project <slug>` to choose the cloud project to sync into.\n(The project is created on first sync from the slug you pass; the slug is never guessed from the folder or git remote.)".to_owned(),
    )
}

/// The number of entries whose vector is still to be made. A push moves its
/// rows into the scope of the pull that follows, so both may count the same
/// row: the pull's count, taken last, stands, and the push's only where the
/// pull counts none.
pub open spec fn pending_count(pushed: PushSummary, pulled: PullSummary) -> usize {
    if pulled.without_local_vector > 0 {
        pulled.without_local_vector
    } else {
        pushed.without_local_vector
    }
}

/// The warning of a sync, where entries are left without a vector.
pub fn sync_warning(pushed: &PushSummary, pulled: &PullSummary) -> (r: Option<String>)
    ensures
        match r {
            Some(s) => pending_count(*pushed, *pulled) > 0 && s@ == pending_warning_text(
                pending_count(*pushed, *pulled) as nat,
            ),
            None => pending_count(*pushed, *pulled) == 0,
        },
{
    let pending: usize = if pulled.without_local_vector > 0 {
        pulled.without_local_vector
    } else {
        pushed.without_local_vector
    };
    if pending > 0 {
        Some(pending_embedding_warning(pending))
    } else {
        None
    }
}

/// What a sync says of the edges and anchors it sent.
pub open spec fn edges_clause(pushed: PushSummary) -> Seq<char> {
    (if pushed.edges_pushed > 0 {
        " Linked "@ + dec(pushed.edges_pushed as nat) + " relationship edge(s)."@
    } else {
        Seq::<char>::empty()
    }) + (if pushed.anchors_pushed > 0 {
        " Sent "@ + dec(pushed.anchors_pushed as nat) + " anchor update(s)."@
    } else {
        Seq::<char>::empty()
    })
}

fn edges_note(pushed: &PushSummary) -> (r: String)
    ensures
        r@ == edges_clause(*pushed),
{
    let first = if pushed.edges_pushed > 0 {
        " Linked ".to_owned().concat(dec_usize(pushed.edges_pushed).as_str()).concat(
            " relationship edge(s).",
        )
    } else {
        String::new()
    };
    let second = if pushed.anchors_pushed > 0 {
        " Sent ".to_owned().concat(dec_usize(pushed.anchors_pushed).as_str()).concat(
            " anchor update(s).",
        )
    } else {
        String::new()
    };
    first.concat(second.as_str())
}

/// Whether a sync counts as failed: the push stopped midway, or nothing that
/// was pushed reached the server.
pub open spec fn sync_fails(pushed: PushSummary) -> bool {
    pushed.attempted > 0 && (pushed.interrupted is Some || (pushed.created == 0 && pushed.skipped
        == 0))
}

/// What a sync says at its end, as output or as the error it ends with.
pub open spec fn sync_text(pushed: PushSummary, pulled: PullSummary) -> Seq<char> {
    if pushed.attempted == 0 {
        "Nothing to push: "@ + dec(pushed.already_synced as nat)
            + " entries already synced. Applied "@ + dec(pulled.applied as nat)
            + " new remote entries."@ + pull_embed_clause(pulled)
    } else if pushed.interrupted is Some {
        "Pushed "@ + dec((pushed.created + pushed.skipped) as nat) + " of "@ + dec(
            pushed.attempted as nat,
        ) + " entries, then stopped: "@ + pushed.interrupted->0@
            + ". Re-run to resume (already-pushed entries are skipped). Pull applied "@ + dec(
            pulled.applied as nat,
        ) + " new remote entries."@
    } else if pushed.created == 0 && pushed.skipped == 0 {
        "Sync failed: 0 of "@ + dec(pushed.attempted as nat)
            + " push entries reached the server ("@ + dec(pushed.failed as nat)
            + " failed); pull still applied "@ + dec(pulled.applied as nat)
            + " new remote entries."@
    } else if pushed.failed > 0 {
        "Sync complete. Pushed "@ + dec(pushed.attempted as nat) + " entries (created "@ + dec(
            pushed.created as nat,
        ) + ", skipped "@ + dec(pushed.skipped as nat) + ", "@ + dec(pushed.failed as nat)
            + " failed), applied "@ + dec(pulled.applied as nat) + " new remote entries."@
            + local_embed_clause(pushed) + pull_embed_clause(pulled) + edges_clause(pushed)
    } else {
        "Sync complete. Pushed "@ + dec(pushed.attempted as nat) + " entries (created "@ + dec(
            pushed.created as nat,
        ) + ", skipped "@ + dec(pushed.skipped as nat) + "), applied "@ + dec(
            pulled.applied as nat,
        ) + " new remote entries."@ + local_embed_clause(pushed) + pull_embed_clause(pulled)
            + edges_clause(pushed)
    }
}

/// How a sync ends: with a line of output, or with an error where the push
/// stopped midway or nothing of it reached the server. The pull has run by then
/// either way.
pub fn memory_sync(pushed: &PushSummary, pulled: &PullSummary) -> (r: Result<String, String>)
    ensures
        match r {
            Ok(s) => !sync_fails(*pushed) && s@ == sync_text(*pushed, *pulled),
            Err(s) => sync_fails(*pushed) && s@ == sync_text(*pushed, *pulled),
        },
{
    let applied = dec_usize(pulled.applied);
    if pushed.attempted == 0 {
        return Ok(
            "Nothing to push: ".to_owned().concat(
                dec_usize(pushed.already_synced).as_str(),
            ).concat(" entries already synced. Applied ").concat(applied.as_str()).concat(
                " new remote entries.",
            ).concat(pull_embed_summary(pulled).as_str()),
        );
    }
    if let Some(reason) = &pushed.interrupted {
        let landed: u64 = pushed.created as u64 + pushed.skipped as u64;
        return Err(
            "Pushed ".to_owned().concat(dec_u64(landed).as_str()).concat(" of ").concat(
                dec_usize(pushed.attempted).as_str(),
            ).concat(" entries, then stopped: ").concat(reason.as_str()).concat(
                ". Re-run to resume (already-pushed entries are skipped). Pull applied ",
            ).concat(applied.as_str()).concat(" new remote entries."),
        );
    }
    if pushed.created == 0 && pushed.skipped == 0 {
        return Err(
            "Sync failed: 0 of ".to_owned().concat(dec_usize(pushed.attempted).as_str()).concat(
                " push entries reached the server (",
            ).concat(dec_u64(pushed.failed as u64).as_str()).concat(
                " failed); pull still applied ",
            ).concat(applied.as_str()).concat(" new remote entries."),
        );
    }
    let head = "Sync complete. Pushed ".to_owned().concat(
        dec_usize(pushed.attempted).as_str(),
    ).concat(" entries (created ").concat(dec_u64(pushed.created as u64).as_str()).concat(
        ", skipped ",
    ).concat(dec_u64(pushed.skipped as u64).as_str());
    let counts = if pushed.failed > 0 {
        head.concat(", ").concat(dec_u64(pushed.failed as u64).as_str()).concat(
            " failed), applied ",
        )
    } else {
        head.concat("), applied ")
    };
    Ok(
        counts.concat(applied.as_str()).concat(" new remote entries.").concat(
            local_embed_summary(pushed).as_str(),
        ).concat(pull_embed_summary(pulled).as_str()).concat(edges_note(pushed).as_str()),
    )
}

/// How many entries a sync moved: those that were applied here, and those that
/// were created on the server.
pub fn synced_count(pushed: &PushSummary, pulled: &PullSummary) -> (r: i64)
    requires
        pulled.applied + pushed.created <= i64::MAX,
    ensures
        r == pulled.applied + pushed.created,
{
    pulled.applied as i64 + pushed.created as i64
}

/// A sync that tried to push and is not an error landed at least one entry.
pub proof fn law_success_means_something_landed(pushed: PushSummary)
    requires
        pushed.attempted > 0,
        !sync_fails(pushed),
    ensures
        pushed.created > 0 || pushed.skipped > 0,
        pushed.interrupted is None,
{
}

/// The command line goes before the settings.
pub proof fn law_the_command_line_names_the_project(
    cli: Option<Seq<char>>,
    configured: Option<Seq<char>>,
)
    ensures
        cli is Some ==> named_project(cli, configured) == cli,
        cli is None ==> named_project(cli, configured) == configured,
{
}

/// A sync warns of missing vectors if and only if either count says that some are,
/// and never by the sum of the two.
pub proof fn law_missing_vectors_are_counted_once(pushed: PushSummary, pulled: PullSummary)
    ensures
        pending_count(pushed, pulled) == 0 <==> pushed.without_local_vector == 0
            && pulled.without_local_vector == 0,
        pending_count(pushed, pulled) == pulled.without_local_vector
            || pulled.without_local_vector == 0,
        pending_count(pushed, pulled) == pulled.without_local_vector || pending_count(
            pushed,
            pulled,
        ) == pushed.without_local_vector,
{
}

/// A sync fails if and only if it had something to push and the push stopped midway
/// or nothing of it reached the server.
pub proof fn law_a_sync_fails_where_nothing_landed(pushed: PushSummary)
    ensures
        pushed.attempted == 0 ==> !sync_fails(pushed),
        pushed.attempted > 0 && pushed.interrupted is Some ==> sync_fails(pushed),
        pushed.attempted > 0 && pushed.created == 0 && pushed.skipped == 0 ==> sync_fails(pushed),
        sync_fails(pushed) ==> pushed.interrupted is Some || (pushed.created == 0 && pushed.skipped
            == 0),
{
}

proof fn lemma_begins(a: Seq<char>, b: Seq<char>)
    ensures
        begins(a + b, a),
{
    assert((a + b).subrange(0, a.len() as int) =~= a);
}

/// Where nothing was pushed, a sync says what was synced already and what was
/// applied.
pub proof fn law_a_sync_without_a_push_names_its_counts(pushed: PushSummary, pulled: PullSummary)
    requires
        pushed.attempted == 0,
    ensures
        begins(
            sync_text(pushed, pulled),
            "Nothing to push: "@ + dec(pushed.already_synced as nat)
                + " entries already synced. Applied "@ + dec(pulled.applied as nat)
                + " new remote entries."@,
        ),
{
    lemma_begins(
        "Nothing to push: "@ + dec(pushed.already_synced as nat)
            + " entries already synced. Applied "@ + dec(pulled.applied as nat)
            + " new remote entries."@,
        pull_embed_clause(pulled),
    );
}

/// Where a push stopped midway, a sync says what landed, of how many, and why it
/// stopped; where nothing landed, how many there were and how many failed.
pub proof fn law_a_failed_sync_names_its_counts(pushed: PushSummary, pulled: PullSummary)
    requires
        pushed.attempted > 0,
    ensures
        pushed.interrupted is Some ==> begins(
            sync_text(pushed, pulled),
            "Pushed "@ + dec((pushed.created + pushed.skipped) as nat) + " of "@ + dec(
                pushed.attempted as nat,
            ) + " entries, then stopped: "@ + pushed.interrupted->0@,
        ),
        pushed.interrupted is None && pushed.created == 0 && pushed.skipped == 0 ==> begins(
            sync_text(pushed, pulled),
            "Sync failed: 0 of "@ + dec(pushed.attempted as nat)
                + " push entries reached the server ("@ + dec(pushed.failed as nat),
        ),
{
    let t = sync_text(pushed, pulled);
    if pushed.interrupted is Some {
        let told = "Pushed "@ + dec((pushed.created + pushed.skipped) as nat) + " of "@ + dec(
            pushed.attempted as nat,
        ) + " entries, then stopped: "@ + pushed.interrupted->0@;
        let rest = ". Re-run to resume (already-pushed entries are skipped). Pull applied "@ + dec(
            pulled.applied as nat,
        ) + " new remote entries."@;
        lemma_begins(told, rest);
        assert(t =~= told + rest);
    } else if pushed.created == 0 && pushed.skipped == 0 {
        let told = "Sync failed: 0 of "@ + dec(pushed.attempted as nat)
            + " push entries reached the server ("@ + dec(pushed.failed as nat);
        let rest = " failed); pull still applied "@ + dec(pulled.applied as nat)
            + " new remote entries."@;
        lemma_begins(told, rest);
        assert(t =~= told + rest);
    }
}

/// Where a sync ended well, it says what was pushed, created, skipped and, where any
/// did, failed, and what was applied.
pub proof fn law_a_complete_sync_names_its_counts(pushed: PushSummary, pulled: PullSummary)
    requires
        pushed.attempted > 0,
        pushed.interrupted is None,
        pushed.created + pushed.skipped > 0,
    ensures
        begins(
            sync_text(pushed, pulled),
            "Sync complete. Pushed "@ + dec(pushed.attempted as nat) + " entries (created "@ + dec(
                pushed.created as nat,
            ) + ", skipped "@ + dec(pushed.skipped as nat) + (if pushed.failed > 0 {
                ", "@ + dec(pushed.failed as nat) + " failed), applied "@
            } else {
                "), applied "@
            }) + dec(pulled.applied as nat) + " new remote entries."@,
        ),
{
    let t = sync_text(pushed, pulled);
    let head = "Sync complete. Pushed "@ + dec(pushed.attempted as nat) + " entries (created "@
        + dec(pushed.created as nat) + ", skipped "@ + dec(pushed.skipped as nat);
    let mid = if pushed.failed > 0 {
        ", "@ + dec(pushed.failed as nat) + " failed), applied "@
    } else {
        "), applied "@
    };
    let told = head + mid + dec(pulled.applied as nat) + " new remote entries."@;
    let rest = local_embed_clause(pushed) + pull_embed_clause(pulled) + edges_clause(pushed);
    lemma_begins(told, rest);
    assert(t =~= told + rest);
}

/// Relations and anchors are told where any were sent, and with how many.
pub proof fn law_what_was_linked_is_told(pushed: PushSummary)
    ensures
        edges_clause(pushed).len() == 0 <==> pushed.edges_pushed == 0 && pushed.anchors_pushed
            == 0,
        pushed.edges_pushed > 0 ==> begins(
            edges_clause(pushed),
            " Linked "@ + dec(pushed.edges_pushed as nat) + " relationship edge(s)."@,
        ),
        pushed.anchors_pushed > 0 ==> crate::text::ends(
            edges_clause(pushed),
            " Sent "@ + dec(pushed.anchors_pushed as nat) + " anchor update(s)."@,
        ),
{
    reveal_strlit(" Linked ");
    reveal_strlit(" Sent ");
    let t = edges_clause(pushed);
    if pushed.edges_pushed > 0 {
        let a = " Linked "@ + dec(pushed.edges_pushed as nat) + " relationship edge(s)."@;
        assert(t.subrange(0, a.len() as int) =~= a);
    }
    if pushed.anchors_pushed > 0 {
        let b = " Sent "@ + dec(pushed.anchors_pushed as nat) + " anchor update(s)."@;
        assert(t.subrange(t.len() - b.len(), t.len() as int) =~= b);
    }
}

} // verus!
