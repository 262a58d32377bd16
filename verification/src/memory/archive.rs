//! Archiving an entry.

use crate::memory::{is_git_notes, wants_git_notes};
use crate::text::{lemma_occurs_between, occurs, opt_str, opt_text};
use vstd::prelude::*;
use vstd::string::*;

verus! {

/// The error for an id that names no active entry.
pub open spec fn no_active_text(id: Seq<char>) -> Seq<char> {
    "No active memory entry with id "@ + id + "."@
}

/// How archiving ended: what is said, or the error for an id that names no
/// active entry. `handle` is that of the entry that was found.
pub fn memory_archive(id: &str, handle: Option<&str>, archived: bool) -> (r: Result<String, String>)
    ensures
        match r {
            Ok(s) => handle is Some && archived && s@ == "Archived memory entry #"@ + handle->0@
                + "."@,
            Err(e) => (handle is None || !archived) && e@ == no_active_text(id@),
        },
{
    if let Some(h) = handle {
        if archived {
            return Ok("Archived memory entry #".to_owned().concat(h).concat("."));
        }
    }
    Err("No active memory entry with id ".to_owned().concat(id).concat("."))
}

/// Whether a change of state is put on git notes too: where entries are copied
/// there, and git notes are not the store already.
pub fn writes_through(store_in_git_notes: bool, backend: Option<&str>) -> (r: bool)
    ensures
        r == (store_in_git_notes && !is_git_notes(opt_str(backend))),
{
    store_in_git_notes && !wants_git_notes(backend)
}

/// What became of the copy on git notes.
pub enum CarryResult {
    Carried,
    /// The copy could not be written.
    NotCarried(String),
    /// The entry was gone when it was read again.
    Gone,
    /// The entry could not be read again.
    Unreadable(String),
}

/// The warning of a copy that was not made. The entry is archived all the same.
pub open spec fn carry_warning_text(handle: Seq<char>, c: CarryResult) -> Option<Seq<char>> {
    match c {
        CarryResult::Carried => None,
        CarryResult::NotCarried(e) => Some(
            "Warning: #"@ + handle
                + " archived locally, but the git-notes carry failed, so it will not travel with the repo: "@
                + e@,
        ),
        CarryResult::Gone => Some(
            "Warning: could not re-read #"@ + handle
                + " after archiving it, so it was not carried to git notes."@,
        ),
        CarryResult::Unreadable(e) => Some(
            "Warning: could not re-read #"@ + handle
                + " after archiving it, so it was not carried to git notes: "@ + e@,
        ),
    }
}

/// The warning of a copy that was not made.
pub fn carry_warning(handle: &str, c: &CarryResult) -> (r: Option<String>)
    ensures
        opt_text(r) == carry_warning_text(handle@, *c),
{
    match c {
        CarryResult::Carried => None,
        CarryResult::NotCarried(e) => Some(
            "Warning: #".to_owned().concat(handle).concat(
                " archived locally, but the git-notes carry failed, so it will not travel with the repo: ",
            ).concat(e.as_str()),
        ),
        CarryResult::Gone => Some(
            "Warning: could not re-read #".to_owned().concat(handle).concat(
                " after archiving it, so it was not carried to git notes.",
            ),
        ),
        CarryResult::Unreadable(e) => Some(
            "Warning: could not re-read #".to_owned().concat(handle).concat(
                " after archiving it, so it was not carried to git notes: ",
            ).concat(e.as_str()),
        ),
    }
}

/// Nothing is said of a copy that was made; of one that was not, the entry is named,
/// and why where that is known.
pub proof fn law_a_copy_that_was_not_made_is_told(handle: Seq<char>, c: CarryResult)
    ensures
        carry_warning_text(handle, c) is None <==> c is Carried,
        c is NotCarried ==> c->NotCarried_0@.is_suffix_of(carry_warning_text(handle, c)->0),
        c is Unreadable ==> c->Unreadable_0@.is_suffix_of(carry_warning_text(handle, c)->0),
        !(c is Carried) ==> occurs(carry_warning_text(handle, c)->0, "#"@ + handle),
{
    reveal_strlit("#");
    reveal_strlit("Warning: #");
    reveal_strlit("Warning: could not re-read #");
    reveal_strlit("Warning: ");
    reveal_strlit("Warning: could not re-read ");
    assert("Warning: #"@ =~= "Warning: "@ + "#"@);
    assert("Warning: could not re-read #"@ =~= "Warning: could not re-read "@ + "#"@);
    match c {
        CarryResult::Carried => {},
        CarryResult::NotCarried(e) => {
            let t = carry_warning_text(handle, c)->0;
            let rest = " archived locally, but the git-notes carry failed, so it will not travel with the repo: "@
                + e@;
            assert(t.subrange(t.len() - e@.len(), t.len() as int) =~= e@);
            lemma_occurs_between("Warning: "@, "#"@ + handle, rest);
            assert(t =~= "Warning: "@ + ("#"@ + handle) + rest);
        },
        CarryResult::Gone => {
            let t = carry_warning_text(handle, c)->0;
            let rest = " after archiving it, so it was not carried to git notes."@;
            lemma_occurs_between("Warning: could not re-read "@, "#"@ + handle, rest);
            assert(t =~= "Warning: could not re-read "@ + ("#"@ + handle) + rest);
        },
        CarryResult::Unreadable(e) => {
            let t = carry_warning_text(handle, c)->0;
            let rest = " after archiving it, so it was not carried to git notes: "@ + e@;
            assert(t.subrange(t.len() - e@.len(), t.len() as int) =~= e@);
            lemma_occurs_between("Warning: could not re-read "@, "#"@ + handle, rest);
            assert(t =~= "Warning: could not re-read "@ + ("#"@ + handle) + rest);
        },
    }
}

/// The error for an id that names no active entry names the id.
pub proof fn law_an_id_that_names_no_entry_is_named(id: Seq<char>)
    ensures
        no_active_text(id) == "No active memory entry with id "@ + id + "."@,
{
}

} // verus!
