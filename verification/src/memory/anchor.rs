//! Anchoring entries to the commits they were written for.

use crate::order::positions;
use crate::text::{opt_text, same, texts, trim, trimmed};
use crate::textmap::has_text;
use vstd::prelude::*;
use vstd::string::*;

verus! {

/// The entry that a token names, where it is not an id itself: the only one
/// whose identity begins with it. A token that several match names none; it is
/// not guessed.
pub fn resolve_note(is_lookup: bool, matches: &Vec<String>) -> (r: Option<String>)
    ensures
        opt_text(r) == if is_lookup && matches.len() == 1 {
            Some(matches@[0]@)
        } else {
            None
        },
{
    if is_lookup && matches.len() == 1 {
        Some(matches[0].clone())
    } else {
        None
    }
}

/// What git printed for a revision: its commit, where the call succeeded and
/// printed one.
pub fn rev_parse(succeeded: bool, printed: &str) -> (r: Option<String>)
    ensures
        opt_text(r) == if succeeded && trimmed(printed@).len() > 0 {
            Some(trimmed(printed@))
        } else {
            None
        },
{
    if !succeeded {
        return None;
    }
    let sha = trim(printed);
    if sha.as_str().is_empty() {
        None
    } else {
        Some(sha)
    }
}

/// What git is asked for the commit that a name stands for.
pub fn commit_revision(name: &str) -> (r: String)
    ensures
        r@ == name@ + "^{commit}"@,
{
    name.to_owned().concat("^{commit}")
}

/// What git is asked for the first parent of a commit.
pub fn first_parent_revision(commit: &str) -> (r: String)
    ensures
        r@ == commit@ + "~1"@,
{
    commit.to_owned().concat("~1")
}

/// An entry that waits for its commit.
pub struct PendingAnchor {
    pub entity_id: String,
    /// The commit that it was written from.
    pub head_at_write: String,
}

/// Whether a commit claims an entry that waits for one: the entry was written
/// from an ancestor of the commit's first parent, or from the commit that this
/// one replaced. Never by age, branch or session.
pub open spec fn claimed(
    head_at_write: Seq<char>,
    ancestor_of_first_parent: Option<bool>,
    amend_replaced: Option<Seq<char>>,
) -> bool {
    ancestor_of_first_parent == Some(true) || amend_replaced == Some(head_at_write)
}

/// Whether a commit claims an entry that waits for one.
pub fn claims(
    head_at_write: &str,
    ancestor_of_first_parent: Option<bool>,
    amend_replaced: &Option<String>,
) -> (r: bool)
    ensures
        r == claimed(head_at_write@, ancestor_of_first_parent, opt_text(*amend_replaced)),
{
    if let Some(true) = ancestor_of_first_parent {
        return true;
    }
    match amend_replaced {
        Some(old) => same(old.as_str(), head_at_write),
        None => false,
    }
}

/// The positions below `n` of the entries that a commit claims.
pub open spec fn claimed_upto(
    pending: Seq<PendingAnchor>,
    ancestors: Seq<Option<bool>>,
    amend_replaced: Option<Seq<char>>,
    n: int,
) -> Seq<int>
    decreases n,
{
    if n <= 0 {
        Seq::<int>::empty()
    } else {
        let before = claimed_upto(pending, ancestors, amend_replaced, n - 1);
        if claimed(pending[n - 1].head_at_write@, ancestors[n - 1], amend_replaced) {
            before.push(n - 1)
        } else {
            before
        }
    }
}

/// The entries that a commit claims, by their positions. `ancestors` says of each
/// whether it was written from an ancestor of the commit's first parent; nothing
/// where the commit has no parent.
pub fn claim_pending(
    pending: &Vec<PendingAnchor>,
    ancestors: &Vec<Option<bool>>,
    amend_replaced: &Option<String>,
) -> (r: Vec<usize>)
    requires
        ancestors.len() == pending.len(),
    ensures
        positions(r@) == claimed_upto(
            pending@,
            ancestors@,
            opt_text(*amend_replaced),
            pending.len() as int,
        ),
{
    let mut out: Vec<usize> = Vec::new();
    let mut i: usize = 0;
    assert(positions(out@) =~= Seq::<int>::empty());
    while i < pending.len()
        invariant
            i <= pending.len(),
            ancestors.len() == pending.len(),
            positions(out@) == claimed_upto(
                pending@,
                ancestors@,
                opt_text(*amend_replaced),
                i as int,
            ),
        decreases pending.len() - i,
    {
        if claims(pending[i].head_at_write.as_str(), ancestors[i], amend_replaced) {
            let ghost before = positions(out@);
            out.push(i);
            assert(positions(out@) =~= before.push(i as int));
        }
        i = i + 1;
    }
    out
}

/// A commit claims an entry if and only if the entry was written from an ancestor of
/// its first parent, or from the commit that it replaced; the claimed entries keep
/// their order.
pub proof fn law_a_commit_claims_what_was_written_before_it(
    pending: Seq<PendingAnchor>,
    ancestors: Seq<Option<bool>>,
    amend_replaced: Option<Seq<char>>,
    n: int,
    p: int,
)
    requires
        0 <= n <= pending.len(),
        ancestors.len() == pending.len(),
    ensures
        claimed_upto(pending, ancestors, amend_replaced, n).contains(p) <==> 0 <= p < n && (
        ancestors[p] == Some(true) || amend_replaced == Some(pending[p].head_at_write@)),
        forall|a: int|
            0 <= a < claimed_upto(pending, ancestors, amend_replaced, n).len()
                ==> 0 <= #[trigger] claimed_upto(pending, ancestors, amend_replaced, n)[a] < n,
        forall|a: int, b: int|
            0 <= a < b < claimed_upto(pending, ancestors, amend_replaced, n).len()
                ==> #[trigger] claimed_upto(pending, ancestors, amend_replaced, n)[a]
                < #[trigger] claimed_upto(pending, ancestors, amend_replaced, n)[b],
    decreases n,
{
    if n > 0 {
        law_a_commit_claims_what_was_written_before_it(
            pending,
            ancestors,
            amend_replaced,
            n - 1,
            p,
        );
        let before = claimed_upto(pending, ancestors, amend_replaced, n - 1);
        let now = claimed_upto(pending, ancestors, amend_replaced, n);
        if before.contains(p) {
            let k = choose|k: int| 0 <= k < before.len() && before[k] == p;
            assert(now[k] == p);
        }
        if now.contains(p) {
            let k = choose|k: int| 0 <= k < now.len() && now[k] == p;
            if k < before.len() {
                assert(before[k] == p);
            }
        }
        if claimed(pending[n - 1].head_at_write@, ancestors[n - 1], amend_replaced) {
            assert(now[before.len() as int] == n - 1);
        }
        assert forall|a: int| 0 <= a < now.len() implies 0 <= #[trigger] now[a] < n by {
            if a < before.len() {
                assert(now[a] == before[a]);
            }
        }
        assert forall|a: int, b: int| 0 <= a < b < now.len() implies #[trigger] now[a]
            < #[trigger] now[b] by {
            assert(now[a] == before[a]);
            if b < before.len() {
                assert(now[b] == before[b]);
            }
        }
    }
}

// ---- anchoring one entry ---------------------------------------------------

/// The first of the first `n` positions that is reachable.
pub open spec fn first_reachable(reachable: Seq<bool>, n: int) -> Option<int>
    decreases n,
{
    if n <= 0 {
        None
    } else if first_reachable(reachable, n - 1) is Some {
        first_reachable(reachable, n - 1)
    } else if reachable[n - 1] {
        Some(n - 1)
    } else {
        None
    }
}

/// Which of an entry's anchors, earliest first, is its source: the earliest that
/// can be reached, or else the earliest; none where there is no anchor.
pub open spec fn source_position(reachable: Seq<bool>) -> Option<int> {
    if reachable.len() == 0 {
        None
    } else if first_reachable(reachable, reachable.len() as int) is Some {
        first_reachable(reachable, reachable.len() as int)
    } else {
        Some(0)
    }
}

/// Which of an entry's anchors, earliest first, is its source. `reachable` says
/// of each whether it can be reached.
pub fn source_of(anchors: &Vec<String>, reachable: &Vec<bool>) -> (r: Option<usize>)
    requires
        anchors.len() == reachable.len(),
    ensures
        match r {
            Some(i) => i < anchors.len() && source_position(reachable@) == Some(i as int),
            None => source_position(reachable@) is None,
        },
{
    let mut i: usize = 0;
    while i < reachable.len()
        invariant
            i <= reachable.len(),
            anchors.len() == reachable.len(),
            first_reachable(reachable@, i as int) is None,
        decreases reachable.len() - i,
    {
        if reachable[i] {
            proof {
                lemma_first_stays(reachable@, i + 1, reachable.len() as int);
            }
            return Some(i);
        }
        i = i + 1;
    }
    if anchors.len() == 0 {
        None
    } else {
        Some(0)
    }
}

proof fn lemma_first_stays(reachable: Seq<bool>, i: int, n: int)
    requires
        0 <= i <= n,
        first_reachable(reachable, i) is Some,
    ensures
        first_reachable(reachable, n) == first_reachable(reachable, i),
    decreases n - i,
{
    if i < n {
        lemma_first_stays(reachable, i, n - 1);
    }
}

proof fn lemma_first_reachable(reachable: Seq<bool>, n: int)
    requires
        0 <= n <= reachable.len(),
    ensures
        match first_reachable(reachable, n) {
            Some(i) => 0 <= i < n && reachable[i] && forall|k: int|
                0 <= k < i ==> !#[trigger] reachable[k],
            None => forall|k: int| 0 <= k < n ==> !#[trigger] reachable[k],
        },
    decreases n,
{
    if n > 0 {
        lemma_first_reachable(reachable, n - 1);
    }
}

/// The source can be reached where any anchor can, and no anchor before it can.
/// Where none can, it is the earliest.
pub proof fn law_the_source_is_the_earliest_that_can_be_reached(reachable: Seq<bool>, k: int)
    requires
        0 <= k < reachable.len(),
    ensures
        source_position(reachable) is Some,
        0 <= source_position(reachable)->0 < reachable.len(),
        reachable[k] ==> reachable[source_position(reachable)->0] && source_position(reachable)->0
            <= k,
        !reachable[source_position(reachable)->0] ==> source_position(reachable)->0 == 0,
{
    lemma_first_reachable(reachable, reachable.len() as int);
}

/// What anchoring an entry to a commit is about to do.
#[derive(Clone, Copy, PartialEq, Eq, Structural, Debug)]
pub enum AnchorStep {
    /// Put the record on the commit.
    WriteRecord,
    /// Read the entry's anchors, and which of them can be reached.
    ReadAnchors,
    /// Make the anchor at this position the entry's source.
    SetSource(usize),
    /// Drop the row that waits for a commit.
    DropPending,
    /// Nothing more.
    Over,
}

/// What came of a step, but for reading the anchors.
#[derive(Clone, Copy, PartialEq, Eq, Structural, Debug)]
pub enum AnchorEvent {
    Done,
    Failed,
}

/// What follows a step; after anchors that were read, `anchor_step_read`. Without
/// the record, or without the anchors, nothing more is done; a source that could
/// not be set is passed over.
pub open spec fn anchor_step_after(step: AnchorStep, event: AnchorEvent) -> AnchorStep {
    match step {
        AnchorStep::WriteRecord => if event is Done {
            AnchorStep::ReadAnchors
        } else {
            AnchorStep::Over
        },
        AnchorStep::ReadAnchors => AnchorStep::Over,
        AnchorStep::SetSource(_) => AnchorStep::DropPending,
        AnchorStep::DropPending => AnchorStep::Over,
        AnchorStep::Over => AnchorStep::Over,
    }
}

/// What follows once the anchors were read: the source is set, where there is an
/// anchor.
pub open spec fn anchor_step_read(reachable: Seq<bool>) -> AnchorStep {
    match source_position(reachable) {
        Some(i) => AnchorStep::SetSource(i as usize),
        None => AnchorStep::DropPending,
    }
}

/// An anchoring under way.
pub struct AnchorRun {
    pub step: AnchorStep,
}

impl AnchorRun {
    /// A step that was due is done, or failed. Anchors that were read are handed
    /// to `anchors_read`.
    pub fn after(&mut self, event: AnchorEvent)
        requires
            old(self).step is ReadAnchors ==> event is Failed,
        ensures
            final(self).step == anchor_step_after(old(self).step, event),
    {
        let failed = event == AnchorEvent::Failed;
        self.step = match self.step {
            AnchorStep::WriteRecord => if failed {
                AnchorStep::Over
            } else {
                AnchorStep::ReadAnchors
            },
            AnchorStep::ReadAnchors => AnchorStep::Over,
            AnchorStep::SetSource(_) => AnchorStep::DropPending,
            AnchorStep::DropPending => AnchorStep::Over,
            AnchorStep::Over => AnchorStep::Over,
        };
    }

    /// The anchors were read, earliest first.
    pub fn anchors_read(&mut self, anchors: &Vec<String>, reachable: &Vec<bool>)
        requires
            old(self).step is ReadAnchors,
            anchors.len() == reachable.len(),
        ensures
            final(self).step == anchor_step_read(reachable@),
    {
        self.step = match source_of(anchors, reachable) {
            Some(i) => AnchorStep::SetSource(i),
            None => AnchorStep::DropPending,
        };
    }
}

/// The anchoring of an entry, about to begin.
pub fn anchor_note_now() -> (r: AnchorRun)
    ensures
        r.step is WriteRecord,
{
    AnchorRun { step: AnchorStep::WriteRecord }
}

/// Where an anchoring stands whose record was written as `written` says, and
/// whose anchors, where they could be read, can be reached as `read` says, after
/// further steps that ended as `events` say.
pub open spec fn anchor_course(
    written: AnchorEvent,
    read: Option<Seq<bool>>,
    events: Seq<AnchorEvent>,
) -> AnchorStep
    decreases events.len(),
{
    if events.len() > 0 {
        anchor_step_after(anchor_course(written, read, events.drop_last()), events.last())
    } else {
        match anchor_step_after(AnchorStep::WriteRecord, written) {
            AnchorStep::ReadAnchors => match read {
                Some(reachable) => anchor_step_read(reachable),
                None => anchor_step_after(AnchorStep::ReadAnchors, AnchorEvent::Failed),
            },
            step => step,
        }
    }
}

/// An entry whose record could not be written, or whose anchors could not be
/// read, keeps its source and its waiting row: nothing further is done.
pub proof fn law_a_failed_anchor_changes_nothing(
    written: AnchorEvent,
    read: Option<Seq<bool>>,
    events: Seq<AnchorEvent>,
)
    requires
        written is Failed || read is None,
    ensures
        anchor_course(written, read, events) is Over,
    decreases events.len(),
{
    if events.len() > 0 {
        law_a_failed_anchor_changes_nothing(written, read, events.drop_last());
    }
}

/// A waiting row is dropped once its entry is anchored, whether or not the
/// source could be set.
pub proof fn law_an_anchored_entry_waits_no_more(reachable: Seq<bool>, event: AnchorEvent)
    ensures
        anchor_step_read(reachable) is DropPending || anchor_step_after(
            anchor_step_read(reachable),
            event,
        ) is DropPending,
{
}

// ---- after history was rewritten -------------------------------------------

/// How many of the first `n` candidates have this patch id.
pub open spec fn with_patch(patches: Seq<Option<String>>, patch: Seq<char>, n: int) -> nat
    decreases n,
{
    if n <= 0 {
        0
    } else {
        with_patch(patches, patch, n - 1) + if opt_text(patches[n - 1]) == Some(patch) {
            1nat
        } else {
            0nat
        }
    }
}

/// The first of the first `n` candidates with this patch id.
pub open spec fn first_with(patches: Seq<Option<String>>, patch: Seq<char>, n: int) -> Option<int>
    decreases n,
{
    if n <= 0 {
        None
    } else if first_with(patches, patch, n - 1) is Some {
        first_with(patches, patch, n - 1)
    } else if opt_text(patches[n - 1]) == Some(patch) {
        Some(n - 1)
    } else {
        None
    }
}

/// The only candidate that makes the same change: none where none does, and
/// none where several do.
pub open spec fn only_match(patches: Seq<Option<String>>, patch: Seq<char>) -> Option<int> {
    if with_patch(patches, patch, patches.len() as int) == 1 {
        first_with(patches, patch, patches.len() as int)
    } else {
        None
    }
}

/// The only candidate that makes the same change.
pub fn find_unique_match(patches: &Vec<Option<String>>, patch_id: &str) -> (r: Option<usize>)
    ensures
        match r {
            Some(i) => only_match(patches@, patch_id@) == Some(i as int) && i < patches.len(),
            None => only_match(patches@, patch_id@) is None,
        },
{
    let mut found: Option<usize> = None;
    let mut i: usize = 0;
    while i < patches.len()
        invariant
            i <= patches.len(),
            match found {
                Some(k) => k < i && first_with(patches@, patch_id@, i as int) == Some(k as int)
                    && with_patch(patches@, patch_id@, i as int) == 1,
                None => with_patch(patches@, patch_id@, i as int) == 0 && first_with(
                    patches@,
                    patch_id@,
                    i as int,
                ) is None,
            },
        decreases patches.len() - i,
    {
        if let Some(p) = &patches[i] {
            if same(p.as_str(), patch_id) {
                if found.is_some() {
                    proof {
                        lemma_with_patch_grows(patches@, patch_id@, i + 1, patches.len() as int);
                    }
                    return None;
                }
                found = Some(i);
            }
        }
        i = i + 1;
    }
    found
}

proof fn lemma_with_patch_grows(patches: Seq<Option<String>>, patch: Seq<char>, i: int, n: int)
    requires
        0 <= i <= n,
    ensures
        with_patch(patches, patch, i) <= with_patch(patches, patch, n),
    decreases n - i,
{
    if i < n {
        lemma_with_patch_grows(patches, patch, i, n - 1);
    }
}

/// A change is followed only to a commit that makes it, and only where no other
/// commit does.
pub proof fn law_a_match_is_the_only_one(patches: Seq<Option<String>>, patch: Seq<char>, k: int)
    requires
        only_match(patches, patch) is Some,
        0 <= k < patches.len(),
    ensures
        0 <= only_match(patches, patch)->0 < patches.len(),
        opt_text(patches[k]) == Some(patch) <==> k == only_match(patches, patch)->0,
{
    let n = patches.len() as int;
    let m = only_match(patches, patch)->0;
    lemma_first_with(patches, patch, n);
    if k != m && opt_text(patches[k]) == Some(patch) {
        if k < m {
            lemma_two_matches(patches, patch, k, m, n);
        } else {
            lemma_two_matches(patches, patch, m, k, n);
        }
    }
}

proof fn lemma_first_with(patches: Seq<Option<String>>, patch: Seq<char>, n: int)
    requires
        first_with(patches, patch, n) is Some,
    ensures
        0 <= first_with(patches, patch, n)->0 < n,
        opt_text(patches[first_with(patches, patch, n)->0]) == Some(patch),
    decreases n,
{
    if first_with(patches, patch, n - 1) is Some {
        lemma_first_with(patches, patch, n - 1);
    }
}

proof fn lemma_two_matches(patches: Seq<Option<String>>, patch: Seq<char>, a: int, b: int, n: int)
    requires
        0 <= a < b < n,
        opt_text(patches[a]) == Some(patch),
        opt_text(patches[b]) == Some(patch),
    ensures
        with_patch(patches, patch, n) >= 2,
{
    lemma_with_patch_grows(patches, patch, a + 1, b);
    lemma_with_patch_grows(patches, patch, b + 1, n);
}

/// Where just one candidate makes a change, it is the match.
pub proof fn law_the_only_candidate_is_found(
    patches: Seq<Option<String>>,
    patch: Seq<char>,
    m: int,
)
    requires
        0 <= m < patches.len(),
        opt_text(patches[m]) == Some(patch),
        forall|k: int|
            0 <= k < patches.len() && k != m ==> opt_text(#[trigger] patches[k]) != Some(patch),
    ensures
        only_match(patches, patch) == Some(m),
{
    lemma_one_candidate(patches, patch, m, patches.len() as int);
}

proof fn lemma_one_candidate(patches: Seq<Option<String>>, patch: Seq<char>, m: int, n: int)
    requires
        0 <= m < patches.len(),
        0 <= n <= patches.len(),
        opt_text(patches[m]) == Some(patch),
        forall|k: int|
            0 <= k < patches.len() && k != m ==> opt_text(#[trigger] patches[k]) != Some(patch),
    ensures
        with_patch(patches, patch, n) == if m < n {
            1nat
        } else {
            0nat
        },
        first_with(patches, patch, n) == if m < n {
            Some(m)
        } else {
            None
        },
    decreases n,
{
    if n > 0 {
        lemma_one_candidate(patches, patch, m, n - 1);
        if n - 1 != m {
            assert(opt_text(patches[n - 1]) != Some(patch));
        }
    }
}

/// A record on a commit.
pub struct NotedRecord {
    pub commit: String,
    pub op: Option<String>,
    pub patch_id: Option<String>,
}

/// What follows a commit that cannot be reached any more: the record or the
/// waiting entry, and the reachable commit that makes the same change, each by
/// its position.
#[derive(Clone, Copy, PartialEq, Eq, Structural, Debug)]
pub struct Replacement {
    pub row: usize,
    pub commit: usize,
}

/// The replacements of a sequence, as pairs.
pub open spec fn pairs_of(v: Seq<Replacement>) -> Seq<(int, int)> {
    v.map_values(|r: Replacement| (r.row as int, r.commit as int))
}

/// The reachable commit that a record moves to: the record anchors an entry to a
/// commit that no ref leads to any more, says which change the commit made, and
/// just one reachable commit makes it.
pub open spec fn moves_to(
    r: NotedRecord,
    reachable: Seq<Seq<char>>,
    patches: Seq<Option<String>>,
) -> Option<int> {
    if !reachable.contains(r.commit@) && opt_text(r.op) == Some("anchor"@) && r.patch_id is Some {
        only_match(patches, r.patch_id->0@)
    } else {
        None
    }
}

/// The replacements of the first `n` records.
pub open spec fn record_moves(
    records: Seq<NotedRecord>,
    reachable: Seq<Seq<char>>,
    patches: Seq<Option<String>>,
    n: int,
) -> Seq<(int, int)>
    decreases n,
{
    if n <= 0 {
        Seq::<(int, int)>::empty()
    } else {
        let before = record_moves(records, reachable, patches, n - 1);
        match moves_to(records[n - 1], reachable, patches) {
            Some(c) => before.push((n - 1, c)),
            None => before,
        }
    }
}

/// The records whose commit is gone, each with the reachable commit that takes
/// its place. `patches` holds the patch ids of the reachable commits. A record
/// is not removed: the entry gets a second anchor.
pub fn reconcile_orphaned_anchors(
    records: &Vec<NotedRecord>,
    reachable: &Vec<String>,
    patches: &Vec<Option<String>>,
) -> (r: Vec<Replacement>)
    requires
        patches.len() == reachable.len(),
    ensures
        pairs_of(r@) == record_moves(records@, texts(reachable@), patches@, records.len() as int),
{
    let mut out: Vec<Replacement> = Vec::new();
    let mut i: usize = 0;
    assert(pairs_of(out@) =~= Seq::<(int, int)>::empty());
    while i < records.len()
        invariant
            i <= records.len(),
            pairs_of(out@) == record_moves(records@, texts(reachable@), patches@, i as int),
        decreases records.len() - i,
    {
        let rec = &records[i];
        let is_anchor = match &rec.op {
            Some(op) => same(op.as_str(), "anchor"),
            None => false,
        };
        if !has_text(reachable, rec.commit.as_str()) && is_anchor {
            if let Some(patch) = &rec.patch_id {
                if let Some(c) = find_unique_match(patches, patch.as_str()) {
                    let ghost before = pairs_of(out@);
                    out.push(Replacement { row: i, commit: c });
                    assert(pairs_of(out@) =~= before.push((i as int, c as int)));
                }
            }
        }
        i = i + 1;
    }
    out
}

/// The reachable commit that a waiting entry moves to: the commit that it was
/// written from cannot be reached any more, its change is known, and just one
/// reachable commit makes it.
pub open spec fn waits_for(
    p: PendingAnchor,
    patch: Option<String>,
    reachable: Seq<Seq<char>>,
    patches: Seq<Option<String>>,
) -> Option<int> {
    if !reachable.contains(p.head_at_write@) && patch is Some {
        only_match(patches, patch->0@)
    } else {
        None
    }
}

/// The replacements of the first `n` waiting entries.
pub open spec fn pending_moves(
    pending: Seq<PendingAnchor>,
    own: Seq<Option<String>>,
    reachable: Seq<Seq<char>>,
    patches: Seq<Option<String>>,
    n: int,
) -> Seq<(int, int)>
    decreases n,
{
    if n <= 0 {
        Seq::<(int, int)>::empty()
    } else {
        let before = pending_moves(pending, own, reachable, patches, n - 1);
        match waits_for(pending[n - 1], own[n - 1], reachable, patches) {
            Some(c) => before.push((n - 1, c)),
            None => before,
        }
    }
}

/// The waiting entries whose commit is gone, each with the reachable commit that
/// takes its place, so that the next commit can claim it. `own` holds the patch
/// ids of the commits they were written from.
pub fn reconcile_pending_rows(
    pending: &Vec<PendingAnchor>,
    own: &Vec<Option<String>>,
    reachable: &Vec<String>,
    patches: &Vec<Option<String>>,
) -> (r: Vec<Replacement>)
    requires
        own.len() == pending.len(),
        patches.len() == reachable.len(),
    ensures
        pairs_of(r@) == pending_moves(
            pending@,
            own@,
            texts(reachable@),
            patches@,
            pending.len() as int,
        ),
{
    let mut out: Vec<Replacement> = Vec::new();
    let mut i: usize = 0;
    assert(pairs_of(out@) =~= Seq::<(int, int)>::empty());
    while i < pending.len()
        invariant
            i <= pending.len(),
            own.len() == pending.len(),
            pairs_of(out@) == pending_moves(
                pending@,
                own@,
                texts(reachable@),
                patches@,
                i as int,
            ),
        decreases pending.len() - i,
    {
        if !has_text(reachable, pending[i].head_at_write.as_str()) {
            if let Some(patch) = &own[i] {
                if let Some(c) = find_unique_match(patches, patch.as_str()) {
                    let ghost before = pairs_of(out@);
                    out.push(Replacement { row: i, commit: c });
                    assert(pairs_of(out@) =~= before.push((i as int, c as int)));
                }
            }
        }
        i = i + 1;
    }
    out
}

/// The errors of anchoring an entry at once.
pub fn anchor_now_error(id: &str, target: &str, entry_found: bool) -> (r: String)
    ensures
        r@ == if entry_found {
            "could not resolve '"@ + target@ + "' to a commit"@
        } else {
            "entry "@ + id@ + " vanished before it could be anchored"@
        },
{
    if entry_found {
        "could not resolve '".to_owned().concat(target).concat("' to a commit")
    } else {
        "entry ".to_owned().concat(id).concat(" vanished before it could be anchored")
    }
}

/// Whether `c` is the only commit that makes the change `patch`.
pub open spec fn alone_makes(patches: Seq<Option<String>>, patch: Seq<char>, c: int) -> bool {
    0 <= c < patches.len() && opt_text(patches[c]) == Some(patch) && forall|k: int|
        0 <= k < patches.len() && k != c ==> opt_text(#[trigger] patches[k]) != Some(patch)
}

proof fn lemma_alone(patches: Seq<Option<String>>, patch: Seq<char>, c: int)
    ensures
        only_match(patches, patch) == Some(c) <==> alone_makes(patches, patch, c),
{
    if only_match(patches, patch) == Some(c) {
        lemma_first_with(patches, patch, patches.len() as int);
        assert forall|k: int| 0 <= k < patches.len() && k != c implies opt_text(
            #[trigger] patches[k],
        ) != Some(patch) by {
            law_a_match_is_the_only_one(patches, patch, k);
        }
        law_a_match_is_the_only_one(patches, patch, c);
    }
    if alone_makes(patches, patch, c) {
        law_the_only_candidate_is_found(patches, patch, c);
    }
}

/// A record moves to a commit if and only if it anchors an entry to a commit that
/// cannot be reached, and that commit alone makes the change the record tells of.
pub proof fn law_a_record_moves_to_the_same_change(
    records: Seq<NotedRecord>,
    reachable: Seq<Seq<char>>,
    patches: Seq<Option<String>>,
    n: int,
    i: int,
    c: int,
)
    requires
        0 <= n <= records.len(),
    ensures
        record_moves(records, reachable, patches, n).contains((i, c)) <==> 0 <= i < n
            && !reachable.contains(records[i].commit@) && opt_text(records[i].op) == Some(
            "anchor"@,
        ) && records[i].patch_id is Some && alone_makes(patches, records[i].patch_id->0@, c),
    decreases n,
{
    if n > 0 {
        law_a_record_moves_to_the_same_change(records, reachable, patches, n - 1, i, c);
        let before = record_moves(records, reachable, patches, n - 1);
        let now = record_moves(records, reachable, patches, n);
        let r = records[n - 1];
        if r.patch_id is Some {
            lemma_alone(patches, r.patch_id->0@, c);
        }
        if before.contains((i, c)) {
            let k = choose|k: int| 0 <= k < before.len() && before[k] == (i, c);
            assert(now[k] == (i, c));
        }
        if now.contains((i, c)) && !before.contains((i, c)) {
            let k = choose|k: int| 0 <= k < now.len() && now[k] == (i, c);
            if k < before.len() {
                assert(before[k] == (i, c));
            }
            assert(now[k] == (n - 1, moves_to(r, reachable, patches)->0));
        }
        if i == n - 1 && moves_to(r, reachable, patches) == Some(c) {
            assert(now[before.len() as int] == (i, c));
        }
    }
}

/// A waiting entry moves to a commit if and only if the commit it was written from
/// cannot be reached, its change is known, and that commit alone makes it.
pub proof fn law_a_waiting_entry_moves_to_the_same_change(
    pending: Seq<PendingAnchor>,
    own: Seq<Option<String>>,
    reachable: Seq<Seq<char>>,
    patches: Seq<Option<String>>,
    n: int,
    i: int,
    c: int,
)
    requires
        0 <= n <= pending.len(),
        own.len() == pending.len(),
    ensures
        pending_moves(pending, own, reachable, patches, n).contains((i, c)) <==> 0 <= i < n
            && !reachable.contains(pending[i].head_at_write@) && own[i] is Some && alone_makes(
            patches,
            own[i]->0@,
            c,
        ),
    decreases n,
{
    if n > 0 {
        law_a_waiting_entry_moves_to_the_same_change(
            pending,
            own,
            reachable,
            patches,
            n - 1,
            i,
            c,
        );
        let before = pending_moves(pending, own, reachable, patches, n - 1);
        let now = pending_moves(pending, own, reachable, patches, n);
        let to = waits_for(pending[n - 1], own[n - 1], reachable, patches);
        if own[n - 1] is Some {
            lemma_alone(patches, own[n - 1]->0@, c);
        }
        if before.contains((i, c)) {
            let k = choose|k: int| 0 <= k < before.len() && before[k] == (i, c);
            assert(now[k] == (i, c));
        }
        if now.contains((i, c)) && !before.contains((i, c)) {
            let k = choose|k: int| 0 <= k < now.len() && now[k] == (i, c);
            if k < before.len() {
                assert(before[k] == (i, c));
            }
            assert(now[k] == (n - 1, to->0));
        }
        if i == n - 1 && to == Some(c) {
            assert(now[before.len() as int] == (i, c));
        }
    }
}

/// A replacement is its row and its commit, in this order.
pub proof fn law_a_replacement_is_a_row_and_a_commit(v: Seq<Replacement>, i: int)
    ensures
        pairs_of(v).len() == v.len(),
        0 <= i < v.len() ==> pairs_of(v)[i].0 == v[i].row && pairs_of(v)[i].1 == v[i].commit,
{
}

/// An anchoring that goes well writes the record, reads the anchors, sets the source
/// where there is one, drops the waiting row, and is over.
pub proof fn law_an_anchoring_takes_its_steps_in_order(reachable: Seq<bool>, i: usize)
    ensures
        anchor_step_after(AnchorStep::WriteRecord, AnchorEvent::Done) is ReadAnchors,
        reachable.len() == 0 ==> anchor_step_read(reachable) is DropPending,
        anchor_step_after(AnchorStep::SetSource(i), AnchorEvent::Done) is DropPending,
        anchor_step_after(AnchorStep::DropPending, AnchorEvent::Done) is Over,
        0 < reachable.len() <= usize::MAX ==> anchor_step_read(reachable) is SetSource
            && Some(anchor_step_read(reachable)->0 as int) == source_position(reachable),
{
    if 0 < reachable.len() <= usize::MAX {
        law_the_source_is_the_earliest_that_can_be_reached(reachable, 0);
    }
}

} // verus!
