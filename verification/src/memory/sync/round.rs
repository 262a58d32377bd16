//! One full round: what is pulled and pushed, and in which order.

use crate::memory::sync::push::PushSummary;
use crate::text::{dec, dec_u64, dec_usize, opt_text};
use vstd::prelude::*;
use vstd::string::*;

verus! {

/// One step of a round.
pub enum RoundStep {
    /// Pull what follows this cursor; nothing is the beginning.
    Pull(Option<String>),
    Push,
}

/// A step as what it does.
pub open spec fn step_is(s: RoundStep, cursor: Option<Seq<char>>, pull: bool) -> bool {
    match s {
        RoundStep::Pull(c) => pull && opt_text(c) == cursor,
        RoundStep::Push => !pull,
    }
}

/// The steps of a round. A store that was never synced pushes first, as its
/// project may not be on the server before that. Any other pulls, pushes and
/// pulls again from the same cursor: one taken after the push would include
/// the ids just pushed, and hide what others pushed in between.
pub fn sync_round(cursor: &Option<String>) -> (r: Vec<RoundStep>)
    ensures
        match cursor {
            None => r@.len() == 2 && step_is(r@[0], None, false) && step_is(r@[1], None, true),
            Some(c) => r@.len() == 3 && step_is(r@[0], Some(c@), true) && step_is(
                r@[1],
                None,
                false,
            ) && step_is(r@[2], Some(c@), true),
        },
        cursor is None ==> r@[0] is Push && r@[1] is Pull && r@[1]->Pull_0 is None,
        cursor is Some ==> r@[0] is Pull && r@[1] is Push && r@[2] is Pull && opt_text(
            r@[0]->Pull_0,
        ) == opt_text(*cursor) && opt_text(r@[2]->Pull_0) == opt_text(*cursor),
{
    let mut steps: Vec<RoundStep> = Vec::new();
    match cursor {
        None => {
            steps.push(RoundStep::Push);
            steps.push(RoundStep::Pull(None));
        },
        Some(c) => {
            steps.push(RoundStep::Pull(Some(c.clone())));
            steps.push(RoundStep::Push);
            steps.push(RoundStep::Pull(Some(c.clone())));
        },
    }
    steps
}

/// What is said before the cause when the pull after a push fails: the push
/// has reached the server all the same.
pub open spec fn pull_failure_text(first_sync: bool, pushed: PushSummary) -> Seq<char> {
    (if first_sync {
        "post-push pull failed on this project's first sync, after the push already reached the server ("@
    } else {
        "confirmation pull failed after this round's push already reached the server ("@
    }) + dec(pushed.attempted as nat) + " attempted: "@ + dec(pushed.created as nat)
        + " created, "@ + dec(pushed.skipped as nat) + " skipped, "@ + dec(pushed.failed as nat)
        + " failed) - the push is not affected by this error; re-running sync will retry the pull without re-pushing already-landed entries"@
}

/// What is said before the cause when the pull after a push fails.
pub fn pull_failure_context(first_sync: bool, pushed: &PushSummary) -> (r: String)
    ensures
        r@ == pull_failure_text(first_sync, *pushed),
{
    let head = if first_sync {
        "post-push pull failed on this project's first sync, after the push already reached the server ("
    } else {
        "confirmation pull failed after this round's push already reached the server ("
    };
    head.to_owned().concat(dec_usize(pushed.attempted).as_str()).concat(" attempted: ").concat(
        dec_u64(pushed.created as u64).as_str(),
    ).concat(" created, ").concat(dec_u64(pushed.skipped as u64).as_str()).concat(
        " skipped, ",
    ).concat(dec_u64(pushed.failed as u64).as_str()).concat(
        " failed) - the push is not affected by this error; re-running sync will retry the pull without re-pushing already-landed entries",
    )
}

/// A step that pulls pulls from the cursor it names; one that pushes does not pull.
pub proof fn law_a_step_pulls_or_pushes(s: RoundStep, cursor: Option<Seq<char>>)
    ensures
        step_is(s, cursor, true) ==> s is Pull && opt_text(s->Pull_0) == cursor,
        step_is(s, cursor, false) <==> s is Push,
{
}

/// The error of a pull after a push tells what the push did.
#[verifier::rlimit(60)]
pub proof fn law_a_failed_pull_tells_what_was_pushed(first_sync: bool, pushed: PushSummary)
    ensures
        crate::text::occurs(
            pull_failure_text(first_sync, pushed),
            dec(pushed.attempted as nat) + " attempted: "@ + dec(pushed.created as nat)
                + " created, "@ + dec(pushed.skipped as nat) + " skipped, "@ + dec(
                pushed.failed as nat,
            ) + " failed)"@,
        ),
{
    let head = if first_sync {
        "post-push pull failed on this project's first sync, after the push already reached the server ("@
    } else {
        "confirmation pull failed after this round's push already reached the server ("@
    };
    let tail = " - the push is not affected by this error; re-running sync will retry the pull without re-pushing already-landed entries"@;
    let told = dec(pushed.attempted as nat) + " attempted: "@ + dec(pushed.created as nat)
        + " created, "@ + dec(pushed.skipped as nat) + " skipped, "@ + dec(pushed.failed as nat)
        + " failed)"@;
    reveal_strlit(" failed)");
    reveal_strlit(
        " - the push is not affected by this error; re-running sync will retry the pull without re-pushing already-landed entries",
    );
    reveal_strlit(
        " failed) - the push is not affected by this error; re-running sync will retry the pull without re-pushing already-landed entries",
    );
    assert(" failed) - the push is not affected by this error; re-running sync will retry the pull without re-pushing already-landed entries"@
        =~= " failed)"@ + tail);
    crate::text::lemma_occurs_between(head, told, tail);
    assert(pull_failure_text(first_sync, pushed) =~= head + told + tail);
}

} // verus!
