//! Making the vectors that entries lack.

use crate::config::Config;
use crate::memory::{
    document_text, embed_document, is_git_notes, sqlite_only_text, wants_git_notes,
};
use crate::text::{begins, dec, dec_usize, opt_str, opt_text};
use vstd::prelude::*;
use vstd::string::*;

verus! {

/// What a reindex found and did.
#[derive(Clone, Copy, PartialEq, Eq, Structural, Debug)]
pub struct ReindexSummary {
    pub total_active: usize,
    pub missing_before: usize,
    pub already_embedded: usize,
    pub embedded: usize,
    pub remaining: usize,
    /// Set by a dry run only.
    pub would_embed: usize,
    pub include_archived: bool,
    pub force: bool,
}

/// How a reindex ended.
#[derive(Clone, Copy, PartialEq, Eq, Structural, Debug)]
pub enum Outcome {
    DryRun,
    NothingToDo,
    Done,
}

/// Why a reindex is refused: git notes hold no vectors, and entries kept on a
/// server are not in the local store. Without a server the local store is the
/// one, whatever the mode.
pub open spec fn refusal_text(git_notes: bool, kept_remotely: bool) -> Option<Seq<char>> {
    if git_notes {
        Some(sqlite_only_text())
    } else if kept_remotely {
        Some(
            "'inkentry memory reindex' is not applicable in cloud_first mode with server_url set: memory.db is not the store of record there (server_url owns memory), so there is nothing local to re-embed."@,
        )
    } else {
        None
    }
}

/// Why a reindex is refused.
pub fn reindex_refusal(backend: Option<&str>, cfg: &Config) -> (r: Option<String>)
    ensures
        opt_text(r) == refusal_text(is_git_notes(opt_str(backend)), cfg.kept_remotely()),
{
    if wants_git_notes(backend) {
        return Some(
            "This operation requires the sqlite backend. Re-run without --backend git-notes.".to_owned(),
        );
    }
    if cfg.routes_remote() {
        return Some(
            "'inkentry memory reindex' is not applicable in cloud_first mode with server_url set: memory.db is not the store of record there (server_url owns memory), so there is nothing local to re-embed.".to_owned(),
        );
    }
    None
}

/// What a reindex does with the entries it finds.
pub struct ReindexStart {
    pub summary: ReindexSummary,
    /// How it ends, where it ends before any entry is embedded. Neither of
    /// these ends needs an embedder.
    pub ended: Option<Outcome>,
}

/// Begins a reindex: the counts are those of active entries whatever else is
/// asked for, so that they always partition.
pub fn memory_reindex(
    total_active: usize,
    missing_before: usize,
    candidates: usize,
    dry_run: bool,
    include_archived: bool,
    force: bool,
) -> (r: ReindexStart)
    ensures
        r.summary == (ReindexSummary {
            total_active,
            missing_before,
            already_embedded: if missing_before <= total_active {
                (total_active - missing_before) as usize
            } else {
                0
            },
            embedded: 0,
            remaining: 0,
            would_embed: if dry_run {
                candidates
            } else {
                0
            },
            include_archived,
            force,
        }),
        missing_before <= total_active ==> r.summary.total_active == r.summary.already_embedded
            + r.summary.missing_before,
        r.ended == if dry_run {
            Some(Outcome::DryRun)
        } else if candidates == 0 {
            Some(Outcome::NothingToDo)
        } else {
            None
        },
{
    let already: usize = if missing_before <= total_active {
        total_active - missing_before
    } else {
        0
    };
    let summary = ReindexSummary {
        total_active,
        missing_before,
        already_embedded: already,
        embedded: 0,
        remaining: 0,
        would_embed: if dry_run {
            candidates
        } else {
            0
        },
        include_archived,
        force,
    };
    let ended = if dry_run {
        Some(Outcome::DryRun)
    } else if candidates == 0 {
        Some(Outcome::NothingToDo)
    } else {
        None
    };
    ReindexStart { summary, ended }
}

/// An entry to be embedded.
pub struct ReindexCandidate {
    pub id: String,
    pub title: String,
    pub body: String,
}

/// A reindex under way: the entries, and how many of them are embedded and
/// stored. They are taken in order, so what is done is always a front part.
pub struct ReindexRun {
    pub candidates: Vec<ReindexCandidate>,
    pub embedded: usize,
}

/// How far a reindex has come, as a line.
pub open spec fn progress_text(embedded: nat, total: nat) -> Seq<char> {
    "[inkentry] embedded "@ + dec(embedded) + "/"@ + dec(total) + "…"@
}

/// The error of an entry that could not be embedded. Those before it stay
/// embedded, so that running again does the rest.
pub open spec fn embed_error_text(
    id: Seq<char>,
    embedded: nat,
    total: nat,
    cause: Seq<char>,
) -> Seq<char> {
    "embedding note "@ + id + " ("@ + dec(embedded) + " of "@ + dec(total)
        + " done and durably stored; re-run 'inkentry memory reindex' to resume the rest): "@
        + cause
}

impl ReindexRun {
    pub open spec fn wf(self) -> bool {
        self.embedded <= self.candidates@.len()
    }

    /// A reindex of some entries, about to begin.
    pub fn new(candidates: Vec<ReindexCandidate>) -> (r: Self)
        ensures
            r.wf(),
            r.candidates == candidates,
            r.embedded == 0,
    {
        ReindexRun { candidates, embedded: 0 }
    }

    /// The document of the entry that is due; none once all are done. It is the
    /// same that recording the entry embeds.
    pub fn next(&self) -> (r: Option<String>)
        requires
            self.wf(),
        ensures
            opt_text(r) == if self.embedded < self.candidates@.len() {
                Some(
                    document_text(
                        self.candidates@[self.embedded as int].title@,
                        self.candidates@[self.embedded as int].body@,
                    ),
                )
            } else {
                None
            },
    {
        if self.embedded < self.candidates.len() {
            let c = &self.candidates[self.embedded];
            Some(embed_document(c.title.as_str(), c.body.as_str()))
        } else {
            None
        }
    }

    /// The vector of the entry that was due is stored.
    pub fn stored(&mut self) -> (r: String)
        requires
            old(self).wf(),
            old(self).embedded < old(self).candidates@.len(),
        ensures
            final(self).wf(),
            final(self).embedded == old(self).embedded + 1,
            final(self).candidates == old(self).candidates,
            r@ == progress_text(final(self).embedded as nat, final(self).candidates@.len()),
    {
        let total: usize = self.candidates.len();
        self.embedded = self.embedded + 1;
        "[inkentry] embedded ".to_owned().concat(dec_usize(self.embedded).as_str()).concat(
            "/",
        ).concat(dec_usize(total).as_str()).concat("…")
    }

    /// The error of the entry that was due and could not be embedded.
    pub fn embed_error(&self, cause: &str) -> (r: String)
        requires
            self.embedded < self.candidates@.len(),
        ensures
            r@ == embed_error_text(
                self.candidates@[self.embedded as int].id@,
                self.embedded as nat,
                self.candidates@.len(),
                cause@,
            ),
    {
        "embedding note ".to_owned().concat(self.candidates[self.embedded].id.as_str()).concat(
            " (",
        ).concat(dec_usize(self.embedded).as_str()).concat(" of ").concat(
            dec_usize(self.candidates.len()).as_str(),
        ).concat(
            " done and durably stored; re-run 'inkentry memory reindex' to resume the rest): ",
        ).concat(cause)
    }

    /// The error of the entry that was due and whose vector could not be stored.
    pub fn store_error(&self, cause: &str) -> (r: String)
        requires
            self.embedded < self.candidates@.len(),
        ensures
            r@ == "storing embedding for note "@ + self.candidates@[self.embedded as int].id@
                + ": "@ + cause@,
    {
        "storing embedding for note ".to_owned().concat(
            self.candidates[self.embedded].id.as_str(),
        ).concat(": ").concat(cause)
    }

    /// The summary of what was done.
    pub fn finish(&self, summary: ReindexSummary) -> (r: ReindexSummary)
        requires
            self.wf(),
        ensures
            r == (ReindexSummary {
                embedded: self.embedded,
                remaining: (self.candidates@.len() - self.embedded) as usize,
                ..summary
            }),
    {
        ReindexSummary {
            embedded: self.embedded,
            remaining: self.candidates.len() - self.embedded,
            ..summary
        }
    }
}

/// A reindex in words.
pub open spec fn reindex_text(s: ReindexSummary, outcome: Outcome) -> Seq<char> {
    match outcome {
        Outcome::DryRun => "Dry run: "@ + dec(s.would_embed as nat)
            + " note(s) would be embedded ("@ + dec(s.total_active as nat) + " active total, "@
            + dec(s.already_embedded as nat) + " already embedded). Nothing written."@,
        Outcome::NothingToDo => "Nothing to reindex: all "@ + dec(s.total_active as nat)
            + " active note(s) already embedded."@,
        Outcome::Done => "Reindex complete: "@ + dec(s.embedded as nat) + " embedded, "@ + dec(
            s.remaining as nat,
        ) + " remaining ("@ + dec(s.missing_before as nat) + " missing before, "@ + dec(
            s.total_active as nat,
        ) + " active total)."@,
    }
}

/// A reindex in words; nothing where it finishes another command.
pub fn emit_summary(s: &ReindexSummary, outcome: Outcome, suppressed: bool) -> (r: Option<String>)
    ensures
        opt_text(r) == if suppressed {
            None
        } else {
            Some(reindex_text(*s, outcome))
        },
{
    if suppressed {
        return None;
    }
    Some(
        match outcome {
            Outcome::DryRun => "Dry run: ".to_owned().concat(
                dec_usize(s.would_embed).as_str(),
            ).concat(" note(s) would be embedded (").concat(
                dec_usize(s.total_active).as_str(),
            ).concat(" active total, ").concat(dec_usize(s.already_embedded).as_str()).concat(
                " already embedded). Nothing written.",
            ),
            Outcome::NothingToDo => "Nothing to reindex: all ".to_owned().concat(
                dec_usize(s.total_active).as_str(),
            ).concat(" active note(s) already embedded."),
            Outcome::Done => "Reindex complete: ".to_owned().concat(
                dec_usize(s.embedded).as_str(),
            ).concat(" embedded, ").concat(dec_usize(s.remaining).as_str()).concat(
                " remaining (",
            ).concat(dec_usize(s.missing_before).as_str()).concat(" missing before, ").concat(
                dec_usize(s.total_active).as_str(),
            ).concat(" active total)."),
        },
    )
}

/// A reindex is refused if and only if git notes are the backend or the entries are
/// kept on a server.
pub proof fn law_only_a_local_store_is_reindexed(git_notes: bool, kept_remotely: bool)
    ensures
        refusal_text(git_notes, kept_remotely) is None <==> !git_notes && !kept_remotely,
{
}

/// What a reindex says names its counts: what would be embedded, or what was and
/// what remains.
pub proof fn law_a_reindex_names_its_counts(s: ReindexSummary)
    ensures
        begins(
            reindex_text(s, Outcome::DryRun),
            "Dry run: "@ + dec(s.would_embed as nat) + " note(s) would be embedded ("@ + dec(
                s.total_active as nat,
            ) + " active total, "@ + dec(s.already_embedded as nat),
        ),
        begins(
            reindex_text(s, Outcome::NothingToDo),
            "Nothing to reindex: all "@ + dec(s.total_active as nat),
        ),
        begins(
            reindex_text(s, Outcome::Done),
            "Reindex complete: "@ + dec(s.embedded as nat) + " embedded, "@ + dec(
                s.remaining as nat,
            ) + " remaining ("@ + dec(s.missing_before as nat) + " missing before, "@ + dec(
                s.total_active as nat,
            ),
        ),
{
    let a = "Dry run: "@ + dec(s.would_embed as nat) + " note(s) would be embedded ("@ + dec(
        s.total_active as nat,
    ) + " active total, "@ + dec(s.already_embedded as nat);
    let b = "Nothing to reindex: all "@ + dec(s.total_active as nat);
    let c = "Reindex complete: "@ + dec(s.embedded as nat) + " embedded, "@ + dec(
        s.remaining as nat,
    ) + " remaining ("@ + dec(s.missing_before as nat) + " missing before, "@ + dec(
        s.total_active as nat,
    );
    assert(reindex_text(s, Outcome::DryRun).subrange(0, a.len() as int) =~= a);
    assert(reindex_text(s, Outcome::NothingToDo).subrange(0, b.len() as int) =~= b);
    assert(reindex_text(s, Outcome::Done).subrange(0, c.len() as int) =~= c);
}

/// The error of an entry names it and says how many are done, of how many, and why.
pub proof fn law_an_entry_that_could_not_be_embedded_is_named(
    id: Seq<char>,
    embedded: nat,
    total: nat,
    cause: Seq<char>,
)
    ensures
        begins(
            embed_error_text(id, embedded, total, cause),
            "embedding note "@ + id + " ("@ + dec(embedded) + " of "@ + dec(total),
        ),
        cause.is_suffix_of(embed_error_text(id, embedded, total, cause)),
        begins(
            progress_text(embedded, total),
            "[inkentry] embedded "@ + dec(embedded) + "/"@ + dec(total),
        ),
{
    let t = embed_error_text(id, embedded, total, cause);
    let a = "embedding note "@ + id + " ("@ + dec(embedded) + " of "@ + dec(total);
    let p = "[inkentry] embedded "@ + dec(embedded) + "/"@ + dec(total);
    assert(t.subrange(0, a.len() as int) =~= a);
    assert(t.subrange(t.len() - cause.len(), t.len() as int) =~= cause);
    assert(progress_text(embedded, total).subrange(0, p.len() as int) =~= p);
}

} // verus!
