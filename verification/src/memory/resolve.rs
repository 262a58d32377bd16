//! Which entry a token names: an id of this store, or the beginning of an
//! identity.

use crate::text::{dec, dec_usize};
use vstd::prelude::*;
use vstd::string::*;

verus! {

/// Which entry a token names.
pub enum Resolution {
    /// The entry with the token as its id.
    Direct,
    /// The entry with this id.
    ById(String),
    /// None.
    Missing,
}

/// The error for a token that was looked for in the newest entries only.
pub open spec fn not_examined_text(token: Seq<char>, examined: nat) -> Seq<char> {
    "'"@ + token + "' is not among the "@ + dec(examined)
        + " most recent memory entries, and this server offers no lookup by entity id, so older entries were not searched. Run `inkentry memory list --archived --limit N` with a larger N to reach further back."@
}

/// The error for a token that names several entries.
pub open spec fn ambiguous_text(token: Seq<char>, n: nat) -> Seq<char> {
    "'"@ + token + "' matches "@ + dec(n)
        + " memory entries. Give more characters of the entity id to pick one; `inkentry memory list` shows them."@
}

/// Which entry a token names: the one with that id, or else the only one whose
/// identity begins with it. Where an answer would be a guess there is an error:
/// for a token that several entries match, and where not all were looked at.
pub fn resolve_note(
    token: &str,
    direct: bool,
    is_lookup: bool,
    matches: &Vec<String>,
    examined: Option<usize>,
) -> (r: Result<Resolution, String>)
    ensures
        match r {
            Ok(Resolution::Direct) => direct,
            Ok(Resolution::ById(id)) => !direct && is_lookup && matches.len() == 1 && id@
                == matches@[0]@,
            Ok(Resolution::Missing) => !direct && (!is_lookup || (matches.len() == 0 && examined
                is None)),
            Err(e) => !direct && is_lookup && ({
                ||| matches.len() == 0 && examined is Some && e@ == not_examined_text(
                    token@,
                    examined->0 as nat,
                )
                ||| matches.len() > 1 && e@ == ambiguous_text(token@, matches.len() as nat)
            }),
        },
{
    if direct {
        return Ok(Resolution::Direct);
    }
    if !is_lookup {
        return Ok(Resolution::Missing);
    }
    if matches.len() == 0 {
        return match examined {
            None => Ok(Resolution::Missing),
            Some(n) => Err(
                "'".to_owned().concat(token).concat("' is not among the ").concat(
                    dec_usize(n).as_str(),
                ).concat(
                    " most recent memory entries, and this server offers no lookup by entity id, so older entries were not searched. Run `inkentry memory list --archived --limit N` with a larger N to reach further back.",
                ),
            ),
        };
    }
    if matches.len() == 1 {
        return Ok(Resolution::ById(matches[0].clone()));
    }
    Err(
        "'".to_owned().concat(token).concat("' matches ").concat(
            dec_usize(matches.len()).as_str(),
        ).concat(
            " memory entries. Give more characters of the entity id to pick one; `inkentry memory list` shows them.",
        ),
    )
}

/// An error about a token names the token, and how many entries it is about.
pub proof fn law_an_unclear_token_is_named(token: Seq<char>, n: nat)
    ensures
        crate::text::begins(not_examined_text(token, n), "'"@ + token + "' is not among the "@ + dec(n)),
        crate::text::begins(ambiguous_text(token, n), "'"@ + token + "' matches "@ + dec(n)),
{
    let a = "'"@ + token + "' is not among the "@ + dec(n);
    let b = "'"@ + token + "' matches "@ + dec(n);
    assert(not_examined_text(token, n).subrange(0, a.len() as int) =~= a);
    assert(ambiguous_text(token, n).subrange(0, b.len() as int) =~= b);
}

} // verus!
