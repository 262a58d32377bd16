//! Replacing an entry by another.

use crate::memory::archive::CarryResult;
use crate::text::{opt_text, same};
use vstd::prelude::*;
use vstd::string::*;

verus! {

/// An entry that a token was resolved to.
pub struct Target {
    pub id: String,
    pub handle: String,
}

/// The error for a new entry that is not there.
pub open spec fn no_new_text(new_id: Seq<char>) -> Seq<char> {
    "No memory entry with id "@ + new_id + " (new)."@
}

/// The error for an old entry that is not there or not active.
pub open spec fn no_old_text(old_id: Seq<char>) -> Seq<char> {
    "No active memory entry with id "@ + old_id + " (old)."@
}

/// The error for an entry that would replace itself.
pub open spec fn same_entry_text(
    old_id: Seq<char>,
    new_id: Seq<char>,
    handle: Seq<char>,
) -> Seq<char> {
    "'"@ + old_id + "' and '"@ + new_id + "' name the same memory entry (#"@ + handle
        + "), so it would supersede itself. Give the id of the entry that replaces it; `inkentry memory add` prints one for a new entry."@
}

/// Whether one entry may replace another. Several tokens name one entry, so
/// what is compared is what they were resolved to: an entry must not be
/// archived in favour of itself.
pub fn check_supersede(
    old_id: &str,
    new_id: &str,
    old: &Option<Target>,
    new: &Option<Target>,
) -> (r: Result<(), String>)
    ensures
        r is Ok <==> old is Some && new is Some && old->0.id@ != new->0.id@,
        r is Err ==> r->Err_0@ == if new is None {
            no_new_text(new_id@)
        } else if old is None {
            no_old_text(old_id@)
        } else {
            same_entry_text(old_id@, new_id@, old->0.handle@)
        },
{
    match new {
        None => Err("No memory entry with id ".to_owned().concat(new_id).concat(" (new).")),
        Some(n) => match old {
            None => Err(
                "No active memory entry with id ".to_owned().concat(old_id).concat(" (old)."),
            ),
            Some(o) => {
                if same(o.id.as_str(), n.id.as_str()) {
                    return Err(
                        "'".to_owned().concat(old_id).concat("' and '").concat(new_id).concat(
                            "' name the same memory entry (#",
                        ).concat(o.handle.as_str()).concat(
                            "), so it would supersede itself. Give the id of the entry that replaces it; `inkentry memory add` prints one for a new entry.",
                        ),
                    );
                }
                Ok(())
            },
        },
    }
}

/// How replacing ended: what is said, or the error for an old entry that was
/// not active.
pub fn memory_supersede(old_id: &str, old: &Target, new: &Target, superseded: bool) -> (r: Result<
    String,
    String,
>)
    ensures
        match r {
            Ok(s) => superseded && s@ == "Archived #"@ + old.handle@ + " → superseded by #"@
                + new.handle@ + "."@,
            Err(e) => !superseded && e@ == no_old_text(old_id@),
        },
{
    if superseded {
        Ok(
            "Archived #".to_owned().concat(old.handle.as_str()).concat(
                " → superseded by #",
            ).concat(new.handle.as_str()).concat("."),
        )
    } else {
        Err("No active memory entry with id ".to_owned().concat(old_id).concat(" (old)."))
    }
}

/// The warning of a replacement that was not put on git notes. The store holds
/// it all the same.
pub open spec fn edge_warning_text(handle: Seq<char>, c: CarryResult) -> Option<Seq<char>> {
    match c {
        CarryResult::Carried => None,
        CarryResult::NotCarried(e) => Some(
            "Warning: #"@ + handle
                + " archived locally, but carrying its supersede edge to git notes failed, so it will not travel with the repo: "@
                + e@,
        ),
        CarryResult::Gone => Some(
            "Warning: could not re-read #"@ + handle
                + " after archiving it, so its supersede edge was not carried to git notes."@,
        ),
        CarryResult::Unreadable(e) => Some(
            "Warning: could not re-read #"@ + handle
                + " after archiving it, so its supersede edge was not carried to git notes: "@ + e@,
        ),
    }
}

/// The warning of a replacement that was not put on git notes.
pub fn edge_warning(handle: &str, c: &CarryResult) -> (r: Option<String>)
    ensures
        opt_text(r) == edge_warning_text(handle@, *c),
{
    match c {
        CarryResult::Carried => None,
        CarryResult::NotCarried(e) => Some(
            "Warning: #".to_owned().concat(handle).concat(
                " archived locally, but carrying its supersede edge to git notes failed, so it will not travel with the repo: ",
            ).concat(e.as_str()),
        ),
        CarryResult::Gone => Some(
            "Warning: could not re-read #".to_owned().concat(handle).concat(
                " after archiving it, so its supersede edge was not carried to git notes.",
            ),
        ),
        CarryResult::Unreadable(e) => Some(
            "Warning: could not re-read #".to_owned().concat(handle).concat(
                " after archiving it, so its supersede edge was not carried to git notes: ",
            ).concat(e.as_str()),
        ),
    }
}

/// Nothing is said of a replacement that was put on git notes; of one that was not,
/// something is, and why where that is known.
pub proof fn law_a_replacement_that_was_not_carried_is_told(handle: Seq<char>, c: CarryResult)
    ensures
        edge_warning_text(handle, c) is None <==> c is Carried,
        c is NotCarried ==> c->NotCarried_0@.is_suffix_of(edge_warning_text(handle, c)->0),
        c is Unreadable ==> c->Unreadable_0@.is_suffix_of(edge_warning_text(handle, c)->0),
{
    if let CarryResult::NotCarried(e) = c {
        let t = edge_warning_text(handle, c)->0;
        assert(t.subrange(t.len() - e@.len(), t.len() as int) =~= e@);
    }
    if let CarryResult::Unreadable(e) = c {
        let t = edge_warning_text(handle, c)->0;
        assert(t.subrange(t.len() - e@.len(), t.len() as int) =~= e@);
    }
}

/// An error of a replacement names the entry it is about: the new one, the old one,
/// or both where they are one.
pub proof fn law_an_entry_that_cannot_be_replaced_is_named(
    old_id: Seq<char>,
    new_id: Seq<char>,
    handle: Seq<char>,
)
    ensures
        no_new_text(new_id) == "No memory entry with id "@ + new_id + " (new)."@,
        no_old_text(old_id) == "No active memory entry with id "@ + old_id + " (old)."@,
        crate::text::begins(
            same_entry_text(old_id, new_id, handle),
            "'"@ + old_id + "' and '"@ + new_id + "' name the same memory entry (#"@ + handle,
        ),
{
    let a = "'"@ + old_id + "' and '"@ + new_id + "' name the same memory entry (#"@ + handle;
    assert(same_entry_text(old_id, new_id, handle).subrange(0, a.len() as int) =~= a);
}

} // verus!
