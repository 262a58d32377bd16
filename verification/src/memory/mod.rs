//! Project memory: the entries a project records, and how they are kept in
//! step with the stores that hold copies of them.

use crate::config::Config;
use crate::text::{
    begins, join, joined, lemma_joined_pieces, lines, lines_of, opt_str, same, starts_with, texts,
    trim, trimmed, without_cr,
};
use vstd::prelude::*;
use vstd::string::*;

pub mod add;
pub mod anchor;
pub mod archive;
pub mod corpus;
pub mod cross_project;
pub mod fetch;
pub mod import;
pub mod list;
pub mod note;
pub mod outbox;
pub mod reconcile;
pub mod reindex;
pub mod resolve;
pub mod supersede;
pub mod sync;
pub mod tags;

verus! {

/// The document that is embedded for an entry, wherever its vector is made.
pub open spec fn document_text(title: Seq<char>, body: Seq<char>) -> Seq<char> {
    "title: "@ + title + " | text: "@ + body
}

/// The document that is embedded for an entry, wherever its vector is made.
pub fn embed_document(title: &str, body: &str) -> (r: String)
    ensures
        r@ == document_text(title@, body@),
        r@ == "title: "@ + title@ + " | text: "@ + body@,
{
    "title: ".to_owned().concat(title).concat(" | text: ").concat(body)
}

/// The backend that an argument asks for in place of the usual one.
pub fn backend_override(s: &str) -> (r: Option<&'static str>)
    ensures
        opt_str(r) == if s@ == "git-notes"@ {
            Some("git-notes"@)
        } else {
            None
        },
{
    if same(s, "git-notes") {
        Some("git-notes")
    } else {
        None
    }
}

/// Whether the backend asked for is git notes.
pub open spec fn is_git_notes(backend: Option<Seq<char>>) -> bool {
    backend == Some("git-notes"@)
}

/// Whether the backend asked for is git notes.
pub fn wants_git_notes(backend: Option<&str>) -> (r: bool)
    ensures
        r == is_git_notes(opt_str(backend)),
{
    match backend {
        Some(b) => same(b, "git-notes"),
        None => false,
    }
}

/// What is said where an operation needs the usual backend.
pub open spec fn sqlite_only_text() -> Seq<char> {
    "This operation requires the sqlite backend. Re-run without --backend git-notes."@
}

/// The error that a command ends with: an operation that the backend does not
/// support is told in the command's own words, any other error as it is.
pub fn backend_err(unsupported: bool, cause: &str) -> (r: String)
    ensures
        r@ == if unsupported {
            sqlite_only_text()
        } else {
            cause@
        },
{
    if unsupported {
        "This operation requires the sqlite backend. Re-run without --backend git-notes.".to_owned()
    } else {
        cause.to_owned()
    }
}

/// Where a command finds its entries.
pub enum StorePath {
    /// In this store.
    Given(String),
    /// In the project's own store.
    Project,
    /// Not in a local store; a path stands in for it. Entries ride on git notes
    /// where `carrier` is set.
    Placeholder { carrier: bool },
    /// Nowhere: there is no project, and the command needs one.
    NoProject,
    /// Nowhere, with what is said of it.
    Nowhere(String),
}

/// Where a command finds its entries: in the store that was given, or the
/// project's. Without either, a command that may ride on git notes does so in a
/// repository, unless the entries are kept on a server. Git notes asked for as
/// the backend are the store already, and then carry nothing twice.
pub fn resolve_store_path(
    given: Option<&str>,
    has_project: bool,
    may_ride_on_notes: bool,
    cfg: &Config,
    backend: Option<&str>,
    in_git_repo: bool,
) -> (r: StorePath)
    ensures
        match r {
            StorePath::Given(p) => given is Some && p@ == given->0@,
            StorePath::Project => given is None && has_project,
            StorePath::NoProject => given is None && !has_project && !may_ride_on_notes,
            StorePath::Placeholder { carrier } => given is None && !has_project
                && may_ride_on_notes && (cfg.kept_remotely() || in_git_repo) && carrier == (
            !cfg.kept_remotely() && !is_git_notes(opt_str(backend))),
            StorePath::Nowhere(e) => given is None && !has_project && may_ride_on_notes
                && !cfg.kept_remotely() && !in_git_repo && e@
                == "no inkentry project here, and not inside a git repo. Run 'inkentry init' first, or run inside a git repository."@,
        },
{
    if let Some(p) = given {
        return StorePath::Given(p.to_owned());
    }
    if has_project {
        return StorePath::Project;
    }
    if !may_ride_on_notes {
        return StorePath::NoProject;
    }
    if cfg.routes_remote() {
        return StorePath::Placeholder { carrier: false };
    }
    if in_git_repo {
        return StorePath::Placeholder { carrier: !wants_git_notes(backend) };
    }
    StorePath::Nowhere(
        "no inkentry project here, and not inside a git repo. Run 'inkentry init' first, or run inside a git repository.".to_owned(),
    )
}

// ---- writing a body in an editor -------------------------------------------

/// What an editor is opened on.
pub open spec fn draft_of(title: Seq<char>) -> Seq<char> {
    "# "@ + title
        + "\n\n# Write your memory entry below. Lines starting with # are ignored.\n# Save and close the editor when done.\n\n"@
}

/// What an editor is opened on.
pub fn draft_text(title: &str) -> (r: String)
    ensures
        r@ == draft_of(title@),
{
    "# ".to_owned().concat(title).concat(
        "\n\n# Write your memory entry below. Lines starting with # are ignored.\n# Save and close the editor when done.\n\n",
    )
}

/// The body that was written into a draft: its lines but those that start with
/// a hash, without whitespace at either end.
pub open spec fn draft_body(content: Seq<char>) -> Seq<char> {
    trimmed(joined(lines_of(content).filter(|l: Seq<char>| !begins(l, "#"@)), "\n"@))
}

/// The body that was written into a draft. An editor that failed saves nothing,
/// and neither does an empty body.
pub fn body_from_draft(content: &str, editor_succeeded: bool) -> (r: Result<String, String>)
    ensures
        match r {
            Ok(b) => editor_succeeded && b@ == draft_body(content@) && b@.len() > 0,
            Err(e) => ({
                ||| !editor_succeeded && e@
                    == "Editor exited with a non-zero status; entry not saved."@
                ||| editor_succeeded && draft_body(content@).len() == 0 && e@
                    == "Body is empty; entry not saved."@
            }),
        },
{
    if !editor_succeeded {
        return Err("Editor exited with a non-zero status; entry not saved.".to_owned());
    }
    let ls = lines(content);
    let ghost all = lines_of(content@);
    let ghost keep = |l: Seq<char>| !begins(l, "#"@);
    let mut kept: Vec<String> = Vec::new();
    let mut i: usize = 0;
    proof {
        reveal(Seq::filter);
        assert(texts(kept@) =~= all.take(0).filter(keep));
    }
    while i < ls.len()
        invariant
            i <= ls.len(),
            texts(ls@) == all,
            keep == (|l: Seq<char>| !begins(l, "#"@)),
            texts(kept@) == all.take(i as int).filter(keep),
        decreases ls.len() - i,
    {
        proof {
            reveal(Seq::filter);
            assert(all[i as int] == ls@[i as int]@);
            assert(all.take(i + 1).drop_last() =~= all.take(i as int));
            assert(all.take(i + 1).last() == ls@[i as int]@);
        }
        if !starts_with(ls[i].as_str(), "#") {
            crate::text::push_text(&mut kept, ls[i].clone());
        }
        i = i + 1;
    }
    assert(all.take(i as int) =~= all);
    let body = trim(join(&kept, "\n").as_str());
    if body.as_str().is_empty() {
        return Err("Body is empty; entry not saved.".to_owned());
    }
    Ok(body)
}

/// The lines that an editor is opened on, below the title.
spec fn draft_hint() -> Seq<Seq<char>> {
    seq![
        "# Write your memory entry below. Lines starting with # are ignored."@,
        "# Save and close the editor when done."@,
    ]
}

/// A draft that is left as it was saves nothing, whatever the title, so long as
/// the title is one line.
pub proof fn law_an_unchanged_draft_saves_nothing(title: Seq<char>)
    requires
        !title.contains('\n'),
    ensures
        draft_body(draft_of(title)).len() == 0,
{
    let none = Seq::<char>::empty();
    let first = "# "@ + title;
    let write = draft_hint()[0];
    let save = draft_hint()[1];
    let tail =
        "\n\n# Write your memory entry below. Lines starting with # are ignored.\n# Save and close the editor when done.\n\n"@;
    let nl = seq!['\n'];
    let text = first + tail;
    let parts = seq![first, none, write, save, none, none];
    reveal_strlit("# ");
    reveal_strlit("#");
    reveal_strlit("# Write your memory entry below. Lines starting with # are ignored.");
    reveal_strlit("# Save and close the editor when done.");
    reveal_strlit("\n");
    reveal_strlit(
        "\n\n# Write your memory entry below. Lines starting with # are ignored.\n# Save and close the editor when done.\n\n",
    );
    assert("\n"@ =~= nl);
    assert(tail =~= nl + nl + write + nl + save + nl + nl);
    assert(!first.contains('\n')) by {
        if first.contains('\n') {
            let k = choose|k: int| 0 <= k < first.len() && first[k] == '\n';
            assert(title[k - 2] == '\n');
        }
    }
    assert(!write.contains('\n'));
    assert(!save.contains('\n'));
    assert(joined(parts, nl) =~= text) by {
        let p5 = parts.drop_last();
        let p4 = p5.drop_last();
        let p3 = p4.drop_last();
        let p2 = p3.drop_last();
        let p1 = p2.drop_last();
        assert(joined(p1, nl) =~= first);
        assert(joined(p2, nl) =~= first + nl);
        assert(joined(p3, nl) =~= first + nl + nl + write);
        assert(joined(p4, nl) =~= first + nl + nl + write + nl + save);
        assert(joined(p5, nl) =~= first + nl + nl + write + nl + save + nl);
    }
    lemma_joined_pieces(parts, '\n');
    let ls = lines_of(text);
    let keep = |l: Seq<char>| !begins(l, "#"@);
    assert(ls =~= seq![without_cr(first), none, without_cr(write), without_cr(save), none]);
    assert(ls[0][0] == '#' && ls[2][0] == '#' && ls[3][0] == '#');
    assert(ls[0].subrange(0, 1) =~= "#"@);
    assert(ls[2].subrange(0, 1) =~= "#"@);
    assert(ls[3].subrange(0, 1) =~= "#"@);
    assert(begins(ls[0], "#"@) && begins(ls[2], "#"@) && begins(ls[3], "#"@));
    assert(!begins(ls[1], "#"@) && !begins(ls[4], "#"@));
    assert(ls.filter(keep) =~= seq![none, none]) by {
        reveal(Seq::filter);
        let l4 = ls.drop_last();
        let l3 = l4.drop_last();
        let l2 = l3.drop_last();
        let l1 = l2.drop_last();
        let l0 = l1.drop_last();
        assert(l0.filter(keep) =~= Seq::<Seq<char>>::empty());
        assert(l1.filter(keep) =~= Seq::<Seq<char>>::empty());
        assert(l2.filter(keep) =~= seq![none]);
        assert(l3.filter(keep) =~= seq![none]);
        assert(l4.filter(keep) =~= seq![none]);
    }
    let body = nl;
    let two = seq![none, none];
    assert(two.drop_last() =~= seq![none]);
    assert(joined(two.drop_last(), nl) =~= none);
    assert(joined(two, nl) =~= nl);
    assert(body.skip(1) =~= none);
    assert(crate::text::white('\n'));
    assert(crate::text::trimmed_start(none) =~= none);
    assert(crate::text::trimmed_start(body) =~= none);
    assert(trimmed(body) =~= none);
}

/// Only git notes that were asked for are git notes.
pub proof fn law_git_notes_are_asked_for_by_name(backend: Option<Seq<char>>)
    ensures
        is_git_notes(backend) <==> backend is Some && backend->0 == "git-notes"@,
{
}

/// Of a draft without lines that start with a hash every line is kept.
pub proof fn law_what_is_written_below_the_draft_is_kept(content: Seq<char>)
    requires
        forall|i: int|
            0 <= i < lines_of(content).len() ==> !((#[trigger] lines_of(content)[i]).len() > 0
                && lines_of(content)[i][0] == '#'),
    ensures
        draft_body(content) == trimmed(joined(lines_of(content), "\n"@)),
{
    let ls = lines_of(content);
    let keep = |l: Seq<char>| !begins(l, "#"@);
    reveal_strlit("#");
    assert forall|i: int| 0 <= i < ls.len() implies keep(#[trigger] ls[i]) by {
        if begins(ls[i], "#"@) {
            assert(ls[i].subrange(0, 1)[0] == "#"@[0]);
            assert(ls[i][0] == '#');
        }
    }
    lemma_all_kept(ls, keep);
}

proof fn lemma_all_kept(ls: Seq<Seq<char>>, keep: spec_fn(Seq<char>) -> bool)
    requires
        forall|i: int| 0 <= i < ls.len() ==> keep(#[trigger] ls[i]),
    ensures
        ls.filter(keep) == ls,
    decreases ls.len(),
{
    reveal(Seq::filter);
    if ls.len() > 0 {
        let d = ls.drop_last();
        assert forall|i: int| 0 <= i < d.len() implies keep(#[trigger] d[i]) by {
            assert(d[i] == ls[i]);
        }
        lemma_all_kept(d, keep);
        assert(ls[ls.len() - 1] == ls.last());
        assert(d.push(ls.last()) =~= ls);
    }
}

} // verus!
