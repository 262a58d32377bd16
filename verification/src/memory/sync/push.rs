//! Pushing: local rows to the server in batches, and what the server's answers
//! mean for the rows.

use crate::memory::sync::local_embed::RepairCounts;
use crate::order::positions;
use crate::text::{
    dec, dec_u64, dec_usize, lemma_occurs_between, lemma_texts_push, occurs, opt_text, same, texts,
};
use crate::textmap::has_text;
use vstd::prelude::*;
use vstd::string::*;

verus! {

/// How many rows one batch carries: few enough that a batch the server must
/// embed itself stays well under the request timeout.
pub const PUSH_BATCH_CHUNK_SIZE: usize = 50;

/// A row of the local store as a sync sees it.
pub struct SyncRow {
    pub id: String,
    pub kind: String,
    pub title: String,
    pub body: String,
    pub source_ref: Option<String>,
    pub archived: bool,
    /// The server's id for the row, once it was synced.
    pub remote_id: Option<String>,
}

/// What a push did.
pub struct PushSummary {
    /// Rows sent, without those synced already.
    pub attempted: usize,
    pub created: u32,
    pub skipped: u32,
    /// Any answer that is neither of the two.
    pub failed: u32,
    pub already_synced: usize,
    /// Why the rest was not sent, where a batch failed.
    pub interrupted: Option<String>,
    pub embedded_locally: usize,
    pub without_local_vector: usize,
    pub edges_pushed: usize,
    pub anchors_pushed: usize,
}

// ---- which rows are sent ---------------------------------------------------

/// Whether a push sends a row: an active one that was never synced, or any
/// active one where the push is forced.
pub open spec fn is_live(r: SyncRow, force: bool) -> bool {
    !r.archived && (force || r.remote_id is None)
}

/// The positions below `n` of the rows that a push sends.
pub open spec fn live_upto(rows: Seq<SyncRow>, force: bool, n: int) -> Seq<int>
    decreases n,
{
    if n <= 0 {
        Seq::<int>::empty()
    } else {
        let before = live_upto(rows, force, n - 1);
        if is_live(rows[n - 1], force) {
            before.push(n - 1)
        } else {
            before
        }
    }
}

/// How many of the first `n` rows are active and synced already.
pub open spec fn synced_active_upto(rows: Seq<SyncRow>, n: int) -> nat
    decreases n,
{
    if n <= 0 {
        0
    } else {
        synced_active_upto(rows, n - 1) + if !rows[n - 1].archived && rows[n - 1].remote_id is Some {
            1nat
        } else {
            0nat
        }
    }
}

/// How many of the first `n` rows are active.
pub open spec fn active_upto(rows: Seq<SyncRow>, n: int) -> nat
    decreases n,
{
    if n <= 0 {
        0
    } else {
        active_upto(rows, n - 1) + if rows[n - 1].archived {
            0nat
        } else {
            1nat
        }
    }
}

/// The rows a push sends, and how many it leaves as synced already.
pub struct PushPlan {
    pub live: Vec<usize>,
    pub already_synced: usize,
}

/// The rows a push sends. A forced push offers every active row again, so that
/// a server that lost its database is restored, and counts none as synced.
pub fn plan_push(rows: &Vec<SyncRow>, force: bool) -> (r: PushPlan)
    ensures
        positions(r.live@) == live_upto(rows@, force, rows.len() as int),
        r.already_synced == if force {
            0
        } else {
            synced_active_upto(rows@, rows.len() as int)
        },
        forall|i: int| 0 <= i < r.live.len() ==> (#[trigger] r.live@[i]) < rows.len(),
        r.live.len() + r.already_synced == active_upto(rows@, rows.len() as int),
{
    let mut live: Vec<usize> = Vec::new();
    let mut synced: usize = 0;
    let mut i: usize = 0;
    assert(positions(live@) =~= Seq::<int>::empty());
    while i < rows.len()
        invariant
            i <= rows.len(),
            synced <= i,
            positions(live@) == live_upto(rows@, force, i as int),
            synced == synced_active_upto(rows@, i as int),
            forall|k: int| 0 <= k < live.len() ==> (#[trigger] live@[k]) < i,
            force ==> live.len() == active_upto(rows@, i as int),
            !force ==> live.len() + synced == active_upto(rows@, i as int),
        decreases rows.len() - i,
    {
        let r = &rows[i];
        if !r.archived && (force || r.remote_id.is_none()) {
            let ghost before = positions(live@);
            live.push(i);
            assert(positions(live@) =~= before.push(i as int));
        }
        if !r.archived && r.remote_id.is_some() {
            synced = synced + 1;
        }
        i = i + 1;
    }
    let already_synced: usize = if force {
        0
    } else {
        synced
    };
    PushPlan { live, already_synced }
}

proof fn lemma_live(rows: Seq<SyncRow>, force: bool, n: int)
    requires
        0 <= n <= rows.len(),
    ensures
        forall|p: int|
            #![trigger live_upto(rows, force, n).contains(p)]
            live_upto(rows, force, n).contains(p) <==> 0 <= p < n && is_live(rows[p], force),
    decreases n,
{
    if n > 0 {
        lemma_live(rows, force, n - 1);
        let before = live_upto(rows, force, n - 1);
        let now = live_upto(rows, force, n);
        assert forall|p: int| #[trigger] now.contains(p) <==> 0 <= p < n && is_live(
            rows[p],
            force,
        ) by {
            assert(before.contains(p) <==> 0 <= p < n - 1 && is_live(rows[p], force));
            if before.contains(p) {
                let k = choose|k: int| 0 <= k < before.len() && before[k] == p;
                assert(now[k] == p);
            }
            if now.contains(p) {
                let k = choose|k: int| 0 <= k < now.len() && now[k] == p;
                if k < before.len() {
                    assert(before[k] == p);
                }
            }
            if is_live(rows[n - 1], force) {
                assert(now[before.len() as int] == n - 1);
            }
        }
    }
}

/// An ordinary push sends a row if and only if it is active and was never
/// synced; a forced one if and only if it is active. Rows go in their own order.
pub proof fn law_a_push_sends_what_the_server_lacks(rows: Seq<SyncRow>, force: bool, p: int)
    requires
        0 <= p < rows.len(),
    ensures
        live_upto(rows, false, rows.len() as int).contains(p) <==> !rows[p].archived
            && rows[p].remote_id is None,
        live_upto(rows, true, rows.len() as int).contains(p) <==> !rows[p].archived,
        forall|a: int, b: int|
            0 <= a < b < live_upto(rows, force, rows.len() as int).len() ==> #[trigger] live_upto(
                rows,
                force,
                rows.len() as int,
            )[a] < #[trigger] live_upto(rows, force, rows.len() as int)[b],
{
    lemma_live(rows, false, rows.len() as int);
    lemma_live(rows, true, rows.len() as int);
    lemma_live_ascends(rows, force, rows.len() as int);
}

proof fn lemma_live_ascends(rows: Seq<SyncRow>, force: bool, n: int)
    requires
        0 <= n <= rows.len(),
    ensures
        forall|a: int|
            0 <= a < live_upto(rows, force, n).len() ==> #[trigger] live_upto(rows, force, n)[a] < n,
        forall|a: int, b: int|
            0 <= a < b < live_upto(rows, force, n).len() ==> #[trigger] live_upto(rows, force, n)[a]
                < #[trigger] live_upto(rows, force, n)[b],
    decreases n,
{
    if n > 0 {
        lemma_live_ascends(rows, force, n - 1);
        let before = live_upto(rows, force, n - 1);
        let now = live_upto(rows, force, n);
        assert forall|a: int| 0 <= a < now.len() implies #[trigger] now[a] < n by {
            if a < before.len() {
                assert(now[a] == before[a]);
            }
        }
        assert forall|a: int, b: int| 0 <= a < b < now.len() implies #[trigger] now[a]
            < #[trigger] now[b] by {
            assert(now[a] == before[a]);
            if b < before.len() {
                assert(now[b] == before[b]);
            }
        }
    }
}

/// What is counted as synced already, and as active, are the rows that are.
pub proof fn law_synced_rows_are_counted(rows: Seq<SyncRow>, n: int)
    requires
        0 <= n <= rows.len(),
    ensures
        synced_active_upto(rows, n) == rows.take(n).filter(
            |r: SyncRow| !r.archived && r.remote_id is Some,
        ).len(),
        active_upto(rows, n) == rows.take(n).filter(|r: SyncRow| !r.archived).len(),
    decreases n,
{
    reveal(Seq::filter);
    if n > 0 {
        law_synced_rows_are_counted(rows, n - 1);
        assert(rows.take(n).drop_last() =~= rows.take(n - 1));
        assert(rows.take(n).last() == rows[n - 1]);
    }
}

/// The vectors of a push and of a pull are made for different rows: no row that
/// an ordinary push sends was synced.
pub proof fn law_push_and_pull_scopes_are_disjoint(rows: Seq<SyncRow>, p: int)
    requires
        live_upto(rows, false, rows.len() as int).contains(p),
    ensures
        0 <= p < rows.len(),
        rows[p].remote_id is None,
        !rows[p].archived,
{
    lemma_live(rows, false, rows.len() as int);
}

/// A row that was stamped with a server id is not sent by the next ordinary
/// push.
pub proof fn law_a_stamped_row_is_not_sent_again(rows: Seq<SyncRow>, p: int)
    requires
        0 <= p < rows.len(),
        rows[p].remote_id is Some,
    ensures
        !live_upto(rows, false, rows.len() as int).contains(p),
{
    lemma_live(rows, false, rows.len() as int);
}

/// Once every active row was stamped, a push sends nothing and counts all of
/// them as synced already.
pub proof fn law_pushing_again_sends_nothing(rows: Seq<SyncRow>, n: int)
    requires
        0 <= n <= rows.len(),
        forall|p: int|
            0 <= p < rows.len() && !(#[trigger] rows[p]).archived ==> rows[p].remote_id is Some,
    ensures
        live_upto(rows, false, n).len() == 0,
        synced_active_upto(rows, n) == active_upto(rows, n),
    decreases n,
{
    if n > 0 {
        law_pushing_again_sends_nothing(rows, n - 1);
        assert(!rows[n - 1].archived ==> rows[n - 1].remote_id is Some);
    }
}

// ---- batches ---------------------------------------------------------------

/// The end of the batch that starts at `from`.
pub open spec fn chunk_end(from: int, attempted: int) -> int {
    if from + PUSH_BATCH_CHUNK_SIZE < attempted {
        from + PUSH_BATCH_CHUNK_SIZE
    } else {
        attempted
    }
}

/// Where the batch with this number starts, counted from zero.
pub open spec fn chunk_start(k: nat, attempted: int) -> int
    decreases k,
{
    if k == 0 {
        0
    } else {
        chunk_end(chunk_start((k - 1) as nat, attempted), attempted)
    }
}

/// The batches follow one another without a gap, and after as many as the rows
/// need every row is in one.
pub proof fn law_batches_cover_the_rows(k: nat, attempted: int)
    requires
        attempted >= 0,
    ensures
        chunk_start(k, attempted) == if k * PUSH_BATCH_CHUNK_SIZE < attempted {
            (k * PUSH_BATCH_CHUNK_SIZE) as int
        } else {
            attempted
        },
    decreases k,
{
    if k > 0 {
        law_batches_cover_the_rows((k - 1) as nat, attempted);
    }
}

/// Whether a push takes more than one batch, and so reports its progress.
pub fn is_multi_chunk(attempted: usize) -> (r: bool)
    ensures
        r == (attempted > PUSH_BATCH_CHUNK_SIZE),
{
    attempted > PUSH_BATCH_CHUNK_SIZE
}

/// How far a push has come, in words.
pub open spec fn progress_text(done: nat, total: nat) -> Seq<char> {
    "Pushed "@ + dec(done) + "/"@ + dec(total) + "…"@
}

/// How far a push has come, as a line.
pub fn progress_line(done: u64, total: usize) -> (r: String)
    ensures
        r@ == progress_text(done as nat, total as nat),
{
    "Pushed ".to_owned().concat(dec_u64(done).as_str()).concat("/").concat(
        dec_usize(total).as_str(),
    ).concat("…")
}

/// One row as it is sent.
pub struct BatchPushItem {
    pub id: Option<String>,
    pub kind: String,
    pub title: String,
    pub body: Option<String>,
    pub external_id: String,
    pub source_commit: Option<String>,
    /// Whether the row's own vector goes along.
    pub with_vector: bool,
}

/// A body as it is sent: an empty one is left out.
pub open spec fn sent_body(body: Seq<char>) -> Option<Seq<char>> {
    if body.len() == 0 {
        None
    } else {
        Some(body)
    }
}

/// Whether `item` is what a push sends for `r`. The server's own id goes along
/// only where the push is forced, so that a reset server takes the row back
/// under its identity.
pub open spec fn item_for(
    item: BatchPushItem,
    r: SyncRow,
    force: bool,
    accepts_vectors: bool,
    usable: bool,
) -> bool {
    &&& opt_text(item.id) == if force {
        opt_text(r.remote_id)
    } else {
        None
    }
    &&& item.kind@ == r.kind@
    &&& item.title@ == r.title@
    &&& opt_text(item.body) == sent_body(r.body@)
    &&& item.external_id@ == r.id@
    &&& opt_text(item.source_commit) == opt_text(r.source_ref)
    &&& item.with_vector == (accepts_vectors && usable)
}

/// A body as it is sent: an empty one is left out.
pub fn body_to_send(body: &String) -> (r: Option<String>)
    ensures
        opt_text(r) == sent_body(body@),
{
    if body.as_str().is_empty() {
        None
    } else {
        Some(body.clone())
    }
}

/// One row as it is sent.
pub fn push_item(r: &SyncRow, force: bool, accepts_vectors: bool, usable: bool) -> (item:
    BatchPushItem)
    ensures
        item_for(item, *r, force, accepts_vectors, usable),
        item.kind@ == r.kind@,
        item.title@ == r.title@,
        opt_text(item.body) == (if r.body@.len() == 0 {
            None
        } else {
            Some(r.body@)
        }),
        item.external_id@ == r.id@,
        opt_text(item.source_commit) == opt_text(r.source_ref),
        item.id is Some ==> force,
        force ==> opt_text(item.id) == opt_text(r.remote_id),
        item.with_vector ==> accepts_vectors && usable,
{
    BatchPushItem {
        id: if force {
            r.remote_id.clone()
        } else {
            None
        },
        kind: r.kind.clone(),
        title: r.title.clone(),
        body: body_to_send(&r.body),
        external_id: r.id.clone(),
        source_commit: r.source_ref.clone(),
        with_vector: accepts_vectors && usable,
    }
}

/// What a push sends for a row says what the row says: its kind, its title, its
/// commit, and its body unless that is empty. The row's own id goes as the id
/// that the answer names it by.
pub proof fn law_a_row_is_sent_as_it_is(
    item: BatchPushItem,
    r: SyncRow,
    force: bool,
    accepts_vectors: bool,
    usable: bool,
)
    requires
        item_for(item, r, force, accepts_vectors, usable),
    ensures
        item.kind@ == r.kind@,
        item.title@ == r.title@,
        item.body is Some ==> item.body->0@ == r.body@,
        item.body is None <==> r.body@.len() == 0,
        item.external_id@ == r.id@,
        r.source_ref is Some ==> item.source_commit is Some && item.source_commit->0@
            == r.source_ref->0@,
        r.source_ref is None ==> item.source_commit is None,
        item.id is Some <==> force && r.remote_id is Some,
        item.id is Some ==> item.id->0@ == r.remote_id->0@,
        item.with_vector <==> accepts_vectors && usable,
{
}

/// Two rows that differ in kind, title, body, commit or id are sent differently.
pub proof fn law_rows_that_differ_are_sent_differently(
    a: BatchPushItem,
    b: BatchPushItem,
    r: SyncRow,
    q: SyncRow,
    force: bool,
    accepts_vectors: bool,
    usable: bool,
)
    requires
        item_for(a, r, force, accepts_vectors, usable),
        item_for(b, q, force, accepts_vectors, usable),
        a.kind@ == b.kind@,
        a.title@ == b.title@,
        opt_text(a.body) == opt_text(b.body),
        a.external_id@ == b.external_id@,
        opt_text(a.source_commit) == opt_text(b.source_commit),
    ensures
        r.kind@ == q.kind@,
        r.title@ == q.title@,
        r.body@ == q.body@,
        r.id@ == q.id@,
        opt_text(r.source_ref) == opt_text(q.source_ref),
{
    if r.body@.len() == 0 {
        assert(r.body@ =~= q.body@);
    }
}

/// The batch of the rows `live[from..to]`. `usable` says of each row that is
/// sent whether it has a vector of the right length.
pub fn batch_items(
    rows: &Vec<SyncRow>,
    live: &Vec<usize>,
    from: usize,
    to: usize,
    force: bool,
    accepts_vectors: bool,
    usable: &Vec<bool>,
) -> (r: Vec<BatchPushItem>)
    requires
        from <= to <= live.len(),
        usable.len() == live.len(),
        forall|i: int| 0 <= i < live.len() ==> (#[trigger] live@[i]) < rows.len(),
    ensures
        r.len() == to - from,
        forall|k: int|
            0 <= k < r.len() ==> item_for(
                #[trigger] r@[k],
                rows@[live@[from + k] as int],
                force,
                accepts_vectors,
                usable@[from + k],
            ),
        forall|k: int|
            0 <= k < r.len() ==> {
                let row = rows@[live@[from + k] as int];
                &&& (#[trigger] r@[k]).kind@ == row.kind@
                &&& r@[k].title@ == row.title@
                &&& opt_text(r@[k].body) == (if row.body@.len() == 0 {
                    None
                } else {
                    Some(row.body@)
                })
                &&& r@[k].external_id@ == row.id@
                &&& opt_text(r@[k].source_commit) == opt_text(row.source_ref)
            },
{
    let mut out: Vec<BatchPushItem> = Vec::new();
    let mut i: usize = from;
    while i < to
        invariant
            from <= i <= to <= live.len(),
            usable.len() == live.len(),
            forall|i: int| 0 <= i < live.len() ==> (#[trigger] live@[i]) < rows.len(),
            out.len() == i - from,
            forall|k: int|
                0 <= k < out.len() ==> item_for(
                    #[trigger] out@[k],
                    rows@[live@[from + k] as int],
                    force,
                    accepts_vectors,
                    usable@[from + k],
                ),
        decreases to - i,
    {
        out.push(push_item(&rows[live[i]], force, accepts_vectors, usable[i]));
        i = i + 1;
    }
    out
}

// ---- what the server answers -----------------------------------------------

/// The server's answer for one row.
pub struct ItemResult {
    pub status: String,
    pub external_id: Option<String>,
    pub id: Option<String>,
}

/// The server's answer to a batch.
pub struct BatchResult {
    pub created: u32,
    pub skipped: u32,
    pub failed: u32,
    pub results: Vec<ItemResult>,
}

/// Whether an answer means that the server keeps the row.
pub open spec fn durably_persisted(status: Seq<char>) -> bool {
    status == "created"@ || status == "skipped"@
}

/// Whether an answer means that the server keeps the row.
pub fn is_durably_persisted(status: &str) -> (r: bool)
    ensures
        r == durably_persisted(status@),
{
    same(status, "created") || same(status, "skipped")
}

/// How many of the first `n` answers have this status.
pub open spec fn with_status(results: Seq<ItemResult>, status: Seq<char>, n: int) -> nat
    decreases n,
{
    if n <= 0 {
        0
    } else {
        with_status(results, status, n - 1) + if results[n - 1].status@ == status {
            1nat
        } else {
            0nat
        }
    }
}

/// How many of the first `n` answers are neither that a row was created nor
/// that it was skipped.
pub open spec fn not_persisted(results: Seq<ItemResult>, n: int) -> nat
    decreases n,
{
    if n <= 0 {
        0
    } else {
        not_persisted(results, n - 1) + if durably_persisted(results[n - 1].status@) {
            0nat
        } else {
            1nat
        }
    }
}

/// What a batch adds to the counts. The answers per row count; the totals,
/// which a server was seen to get wrong, only where there are none.
pub ghost struct Tally {
    pub created: nat,
    pub skipped: nat,
    pub failed: nat,
}

/// What a batch adds to the counts.
pub open spec fn tally_of(res: BatchResult) -> Tally {
    if res.results@.len() == 0 {
        Tally { created: res.created as nat, skipped: res.skipped as nat, failed: res.failed as nat }
    } else {
        let n = res.results@.len() as int;
        Tally {
            created: with_status(res.results@, "created"@, n),
            skipped: with_status(res.results@, "skipped"@, n),
            failed: not_persisted(res.results@, n),
        }
    }
}

proof fn lemma_statuses_differ()
    ensures
        "created"@ != "skipped"@,
{
    reveal_strlit("created");
    reveal_strlit("skipped");
    assert("created"@[0] != "skipped"@[0]);
}

/// The counts of the answers per row add up to the answers.
pub proof fn law_answers_are_each_counted_once(results: Seq<ItemResult>, n: int)
    requires
        0 <= n <= results.len(),
    ensures
        with_status(results, "created"@, n) + with_status(results, "skipped"@, n) + not_persisted(
            results,
            n,
        ) == n,
    decreases n,
{
    if n > 0 {
        lemma_statuses_differ();
        law_answers_are_each_counted_once(results, n - 1);
    }
}

/// Only an answer that a row was created, or that it was skipped as there
/// already, means that the server keeps it.
pub proof fn law_other_answers_do_not_persist(status: Seq<char>)
    ensures
        durably_persisted(status) <==> status == "created"@ || status == "skipped"@,
        !durably_persisted("failed"@),
{
    reveal_strlit("created");
    reveal_strlit("skipped");
    reveal_strlit("failed");
    assert("created"@[0] != "failed"@[0]);
    assert("skipped"@[0] != "failed"@[0]);
}

/// Where the server answers per row, each count is of the answers that say so;
/// where it does not, its totals are the counts.
pub proof fn law_the_answers_per_row_count(res: BatchResult)
    ensures
        res.results@.len() > 0 ==> tally_of(res).created == res.results@.filter(
            |i: ItemResult| i.status@ == "created"@,
        ).len(),
        res.results@.len() > 0 ==> tally_of(res).skipped == res.results@.filter(
            |i: ItemResult| i.status@ == "skipped"@,
        ).len(),
        res.results@.len() > 0 ==> tally_of(res).failed == res.results@.filter(
            |i: ItemResult| i.status@ != "created"@ && i.status@ != "skipped"@,
        ).len(),
        res.results@.len() == 0 ==> tally_of(res).created == res.created && tally_of(res).skipped
            == res.skipped && tally_of(res).failed == res.failed,
{
    let n = res.results@.len() as int;
    assert(res.results@.take(n) =~= res.results@);
    lemma_counted(res.results@, n);
}

proof fn lemma_counted(results: Seq<ItemResult>, n: int)
    requires
        0 <= n <= results.len(),
    ensures
        with_status(results, "created"@, n) == results.take(n).filter(
            |i: ItemResult| i.status@ == "created"@,
        ).len(),
        with_status(results, "skipped"@, n) == results.take(n).filter(
            |i: ItemResult| i.status@ == "skipped"@,
        ).len(),
        not_persisted(results, n) == results.take(n).filter(
            |i: ItemResult| i.status@ != "created"@ && i.status@ != "skipped"@,
        ).len(),
    decreases n,
{
    reveal(Seq::filter);
    if n > 0 {
        lemma_counted(results, n - 1);
        assert(results.take(n).drop_last() =~= results.take(n - 1));
        assert(results.take(n).last() == results[n - 1]);
    }
}

/// The server's id for a row that it keeps.
pub struct Stamp {
    pub id: String,
    pub remote_id: String,
}

/// A stamp as a pair.
pub open spec fn stamp_pairs(v: Seq<Stamp>) -> Seq<(Seq<char>, Seq<char>)> {
    v.map_values(|s: Stamp| (s.id@, s.remote_id@))
}

/// Whether an answer stamps its row: the server keeps the row, names it and its
/// own id, and the row is of this batch. An id that rides along with another
/// answer must not stamp, or the row is never sent again.
pub open spec fn stamps_row(item: ItemResult, sent: Seq<Seq<char>>) -> bool {
    durably_persisted(item.status@) && item.external_id is Some && item.id is Some && sent.contains(
        item.external_id->0@,
    )
}

/// The stamps of the first `n` answers, in order.
pub open spec fn stamps_upto(results: Seq<ItemResult>, sent: Seq<Seq<char>>, n: int) -> Seq<
    (Seq<char>, Seq<char>),
>
    decreases n,
{
    if n <= 0 {
        Seq::<(Seq<char>, Seq<char>)>::empty()
    } else {
        let before = stamps_upto(results, sent, n - 1);
        let item = results[n - 1];
        if stamps_row(item, sent) {
            before.push((item.external_id->0@, item.id->0@))
        } else {
            before
        }
    }
}

/// The line for a row that failed.
pub open spec fn failure_line(item: ItemResult) -> Seq<char> {
    "  [push-fail] "@ + match item.external_id {
        Some(e) => e@,
        None => "<unknown>"@,
    }
}

/// The lines of the rows that failed, among the first `n` answers.
pub open spec fn failures_upto(results: Seq<ItemResult>, n: int) -> Seq<Seq<char>>
    decreases n,
{
    if n <= 0 {
        Seq::<Seq<char>>::empty()
    } else {
        let before = failures_upto(results, n - 1);
        if results[n - 1].status@ == "failed"@ {
            before.push(failure_line(results[n - 1]))
        } else {
            before
        }
    }
}

/// How far a push has come.
pub struct PushRun {
    /// The next row to send, as a position among those that are sent.
    pub next: usize,
    pub created: u32,
    pub skipped: u32,
    pub failed: u32,
    /// The ids of the rows stamped so far.
    pub just_synced: Vec<String>,
    pub interrupted: Option<String>,
}

/// What follows from the answer to a batch: the rows to stamp and the lines to
/// print.
pub struct BatchOutcome {
    pub stamps: Vec<Stamp>,
    pub lines: Vec<String>,
}

/// The ids of a sequence of stamps.
pub open spec fn stamped_ids(pairs: Seq<(Seq<char>, Seq<char>)>) -> Seq<Seq<char>> {
    pairs.map_values(|p: (Seq<char>, Seq<char>)| p.0)
}

impl PushRun {
    pub fn new() -> (r: Self)
        ensures
            r.next == 0,
            r.created == 0 && r.skipped == 0 && r.failed == 0,
            r.just_synced@.len() == 0,
            r.interrupted is None,
    {
        PushRun {
            next: 0,
            created: 0,
            skipped: 0,
            failed: 0,
            just_synced: Vec::new(),
            interrupted: None,
        }
    }

    /// The next batch, as a range of positions among the rows that are sent;
    /// none once all are sent or a batch failed.
    pub fn next_chunk(&self, attempted: usize) -> (r: Option<(usize, usize)>)
        ensures
            match r {
                Some((from, to)) => self.interrupted is None && self.next < attempted && from
                    == self.next && to == chunk_end(self.next as int, attempted as int) && from < to
                    && to - from <= PUSH_BATCH_CHUNK_SIZE,
                None => self.interrupted is Some || self.next >= attempted,
            },
    {
        if self.interrupted.is_some() || self.next >= attempted {
            return None;
        }
        let left: usize = attempted - self.next;
        let to: usize = if left > PUSH_BATCH_CHUNK_SIZE {
            self.next + PUSH_BATCH_CHUNK_SIZE
        } else {
            attempted
        };
        Some((self.next, to))
    }

    /// A batch could not be sent: the rest is not sent either, as a failing
    /// batch mostly means a server under load. Rows stamped so far are no
    /// longer sent, so that running again goes on from here.
    pub fn batch_failed(&mut self, reason: &str)
        ensures
            opt_text(final(self).interrupted) == Some(reason@),
            final(self).next == old(self).next,
            final(self).created == old(self).created,
            final(self).skipped == old(self).skipped,
            final(self).failed == old(self).failed,
            final(self).just_synced == old(self).just_synced,
    {
        self.interrupted = Some(reason.to_owned());
    }

    /// Whether the counts have room for an answer, whatever it says of its rows.
    pub fn has_room(&self, res: &BatchResult) -> (r: bool)
        ensures
            r ==> self.created + tally_of(*res).created <= u32::MAX,
            r ==> self.skipped + tally_of(*res).skipped <= u32::MAX,
            r ==> self.failed + tally_of(*res).failed <= u32::MAX,
            r == ({
                let n = res.results@.len();
                &&& self.created + (if n == 0 {
                    res.created as nat
                } else {
                    n
                }) <= u32::MAX
                &&& self.skipped + (if n == 0 {
                    res.skipped as nat
                } else {
                    n
                }) <= u32::MAX
                &&& self.failed + (if n == 0 {
                    res.failed as nat
                } else {
                    n
                }) <= u32::MAX
            }),
    {
        proof {
            law_answers_are_each_counted_once(res.results@, res.results@.len() as int);
        }
        let n: usize = res.results.len();
        if n == 0 {
            return res.created <= u32::MAX - self.created && res.skipped <= u32::MAX - self.skipped
                && res.failed <= u32::MAX - self.failed;
        }
        n <= (u32::MAX - self.created) as usize && n <= (u32::MAX - self.skipped) as usize && n <= (
        u32::MAX - self.failed) as usize
    }

    /// Takes in the server's answer to the batch of the rows `sent`.
    pub fn batch_answered(&mut self, res: &BatchResult, sent: &Vec<String>, to: usize) -> (r:
        BatchOutcome)
        requires
            old(self).created + tally_of(*res).created <= u32::MAX,
            old(self).skipped + tally_of(*res).skipped <= u32::MAX,
            old(self).failed + tally_of(*res).failed <= u32::MAX,
        ensures
            final(self).next == to,
            final(self).created == old(self).created + tally_of(*res).created,
            final(self).skipped == old(self).skipped + tally_of(*res).skipped,
            final(self).failed == old(self).failed + tally_of(*res).failed,
            final(self).interrupted == old(self).interrupted,
            stamp_pairs(r.stamps@) == stamps_upto(
                res.results@,
                texts(sent@),
                res.results@.len() as int,
            ),
            texts(final(self).just_synced@) == texts(old(self).just_synced@) + stamped_ids(
                stamp_pairs(r.stamps@),
            ),
            texts(r.lines@) == failures_upto(res.results@, res.results@.len() as int),
    {
        let ghost t = tally_of(*res);
        let ghost first = texts(self.just_synced@);
        let mut stamps: Vec<Stamp> = Vec::new();
        let mut lines: Vec<String> = Vec::new();
        let n: usize = res.results.len();
        let mut created: u32 = 0;
        let mut skipped: u32 = 0;
        let mut failed: u32 = 0;
        let mut i: usize = 0;
        proof {
            assert(stamp_pairs(stamps@) =~= Seq::<(Seq<char>, Seq<char>)>::empty());
            assert(texts(lines@) =~= Seq::<Seq<char>>::empty());
            assert(first =~= first + stamped_ids(stamp_pairs(stamps@)));
        }
        while i < n
            invariant
                i <= n,
                n == res.results.len(),
                n > 0 ==> t == (Tally {
                    created: with_status(res.results@, "created"@, n as int),
                    skipped: with_status(res.results@, "skipped"@, n as int),
                    failed: not_persisted(res.results@, n as int),
                }),
                t.created <= u32::MAX,
                t.skipped <= u32::MAX,
                t.failed <= u32::MAX,
                created == with_status(res.results@, "created"@, i as int),
                skipped == with_status(res.results@, "skipped"@, i as int),
                failed == not_persisted(res.results@, i as int),
                stamp_pairs(stamps@) == stamps_upto(res.results@, texts(sent@), i as int),
                texts(self.just_synced@) == first + stamped_ids(stamp_pairs(stamps@)),
                texts(lines@) == failures_upto(res.results@, i as int),
                self.created == old(self).created,
                self.skipped == old(self).skipped,
                self.failed == old(self).failed,
                self.interrupted == old(self).interrupted,
            decreases n - i,
        {
            let item = &res.results[i];
            proof {
                lemma_statuses_differ();
                lemma_counts_grow(res.results@, i + 1, n as int);
            }
            if same(item.status.as_str(), "created") {
                created = created + 1;
            } else if same(item.status.as_str(), "skipped") {
                skipped = skipped + 1;
            } else {
                failed = failed + 1;
            }
            if is_durably_persisted(item.status.as_str()) {
                if let Some(ext) = &item.external_id {
                    if let Some(remote) = &item.id {
                        if has_text(sent, ext.as_str()) {
                            let ghost pairs = stamp_pairs(stamps@);
                            let ghost ids = texts(self.just_synced@);
                            let kept = ext.clone();
                            proof {
                                lemma_texts_push(self.just_synced@, kept);
                            }
                            stamps.push(Stamp { id: ext.clone(), remote_id: remote.clone() });
                            self.just_synced.push(kept);
                            proof {
                                assert(stamp_pairs(stamps@) =~= pairs.push((ext@, remote@)));
                                assert(stamped_ids(pairs.push((ext@, remote@))) =~= stamped_ids(
                                    pairs,
                                ).push(ext@));
                                assert(ids.push(ext@) =~= first + stamped_ids(pairs).push(ext@));
                            }
                        }
                    }
                }
            }
            if same(item.status.as_str(), "failed") {
                let line = match &item.external_id {
                    Some(e) => "  [push-fail] ".to_owned().concat(e.as_str()),
                    None => "  [push-fail] ".to_owned().concat("<unknown>"),
                };
                proof {
                    lemma_texts_push(lines@, line);
                }
                lines.push(line);
            }
            i = i + 1;
        }
        if n == 0 {
            created = res.created;
            skipped = res.skipped;
            failed = res.failed;
        }
        self.next = to;
        self.created = self.created + created;
        self.skipped = self.skipped + skipped;
        self.failed = self.failed + failed;
        BatchOutcome { stamps, lines }
    }
}

proof fn lemma_counts_grow(results: Seq<ItemResult>, i: int, n: int)
    requires
        0 <= i <= n <= results.len(),
    ensures
        with_status(results, "created"@, i) <= with_status(results, "created"@, n),
        with_status(results, "skipped"@, i) <= with_status(results, "skipped"@, n),
        not_persisted(results, i) <= not_persisted(results, n),
    decreases n - i,
{
    if i < n {
        lemma_counts_grow(results, i, n - 1);
    }
}

/// Every stamp of a batch is of a row that was sent in it and that the server
/// keeps.
pub proof fn law_only_kept_rows_are_stamped(
    results: Seq<ItemResult>,
    sent: Seq<Seq<char>>,
    n: int,
    k: int,
)
    requires
        0 <= n <= results.len(),
        0 <= k < stamps_upto(results, sent, n).len(),
    ensures
        sent.contains(stamps_upto(results, sent, n)[k].0),
        exists|i: int|
            0 <= i < n && durably_persisted((#[trigger] results[i]).status@) && opt_text(
                results[i].external_id,
            ) == Some(stamps_upto(results, sent, n)[k].0) && opt_text(results[i].id) == Some(
                stamps_upto(results, sent, n)[k].1,
            ),
    decreases n,
{
    let before = stamps_upto(results, sent, n - 1);
    let now = stamps_upto(results, sent, n);
    if n > 0 {
        if k < before.len() {
            law_only_kept_rows_are_stamped(results, sent, n - 1, k);
            assert(now[k] == before[k]);
            let i = choose|i: int|
                0 <= i < n - 1 && durably_persisted((#[trigger] results[i]).status@) && opt_text(
                    results[i].external_id,
                ) == Some(before[k].0) && opt_text(results[i].id) == Some(before[k].1);
            assert(durably_persisted(results[i].status@));
        } else {
            assert(stamps_row(results[n - 1], sent));
        }
    }
}

/// A row of the batch that the server keeps and names with its own id is
/// stamped with that id.
pub proof fn law_a_kept_row_is_stamped(
    results: Seq<ItemResult>,
    sent: Seq<Seq<char>>,
    n: int,
    i: int,
)
    requires
        0 <= i < n <= results.len(),
        results[i].status@ == "created"@ || results[i].status@ == "skipped"@,
        results[i].external_id is Some,
        results[i].id is Some,
        sent.contains(results[i].external_id->0@),
    ensures
        stamps_upto(results, sent, n).contains(
            (results[i].external_id->0@, results[i].id->0@),
        ),
    decreases n,
{
    let before = stamps_upto(results, sent, n - 1);
    let now = stamps_upto(results, sent, n);
    let stamp = (results[i].external_id->0@, results[i].id->0@);
    if i < n - 1 {
        law_a_kept_row_is_stamped(results, sent, n - 1, i);
        let k = choose|k: int| 0 <= k < before.len() && before[k] == stamp;
        assert(now[k] == stamp);
    } else {
        assert(now[before.len() as int] == stamp);
    }
}

/// There is a line for each row that failed, and for no other.
pub proof fn law_each_failed_row_has_a_line(results: Seq<ItemResult>, n: int)
    requires
        0 <= n <= results.len(),
    ensures
        failures_upto(results, n).len() == results.take(n).filter(
            |i: ItemResult| i.status@ == "failed"@,
        ).len(),
    decreases n,
{
    reveal(Seq::filter);
    if n > 0 {
        law_each_failed_row_has_a_line(results, n - 1);
        assert(results.take(n).drop_last() =~= results.take(n - 1));
        assert(results.take(n).last() == results[n - 1]);
    }
}

/// The line of a row that failed ends with the row's id.
pub proof fn law_a_failed_row_is_named(results: Seq<ItemResult>, n: int, k: int)
    requires
        0 <= n <= results.len(),
        0 <= k < failures_upto(results, n).len(),
    ensures
        exists|i: int|
            0 <= i < n && (#[trigger] results[i]).status@ == "failed"@ && (
            results[i].external_id is Some ==> results[i].external_id->0@.is_suffix_of(
                failures_upto(results, n)[k],
            )),
    decreases n,
{
    let now = failures_upto(results, n);
    if n > 0 {
        let before = failures_upto(results, n - 1);
        if k < before.len() {
            law_a_failed_row_is_named(results, n - 1, k);
            assert(now[k] == before[k]);
            let i = choose|i: int|
                0 <= i < n - 1 && (#[trigger] results[i]).status@ == "failed"@ && (
                results[i].external_id is Some ==> results[i].external_id->0@.is_suffix_of(
                    before[k],
                ));
            assert(results[i].status@ == "failed"@);
        } else {
            let item = results[n - 1];
            assert(item.status@ == "failed"@);
            if item.external_id is Some {
                let e = item.external_id->0@;
                assert(now[k].subrange(now[k].len() - e.len(), now[k].len() as int) =~= e);
            }
        }
    }
}

// ---- the order of a push ---------------------------------------------------

/// What a push is about to do.
#[derive(Clone, Copy, PartialEq, Eq, Structural, Debug)]
pub enum PushStep {
    /// The vectors that rows lack are made, so that they go along.
    Repair,
    /// The batch of the rows at these positions is sent.
    Send { from: usize, to: usize },
    /// Archived rows are deleted on the server.
    Delete,
    /// Relations are sent.
    Relate,
    /// Nothing more.
    Finish,
}

/// How far a push is.
#[derive(Clone, Copy, PartialEq, Eq, Structural, Debug)]
pub enum PushPhase {
    Repairing,
    Sending,
    Relating,
    Over,
}

/// A push under way.
pub struct PushCourse {
    /// How many rows are sent.
    pub attempted: usize,
    pub phase: PushPhase,
    pub run: PushRun,
}

/// What a push does next. Vectors are made before any batch; what follows the
/// batches is left out where one failed, as the connection is failing.
pub open spec fn push_step(
    phase: PushPhase,
    interrupted: bool,
    next: int,
    attempted: int,
) -> PushStep {
    match phase {
        PushPhase::Repairing => PushStep::Repair,
        PushPhase::Sending => if interrupted {
            PushStep::Finish
        } else if next < attempted {
            PushStep::Send { from: next as usize, to: chunk_end(next, attempted) as usize }
        } else {
            PushStep::Delete
        },
        PushPhase::Relating => PushStep::Relate,
        PushPhase::Over => PushStep::Finish,
    }
}

/// The phase once a step that is no batch is done.
pub open spec fn phase_after(phase: PushPhase) -> PushPhase {
    match phase {
        PushPhase::Repairing => PushPhase::Sending,
        PushPhase::Sending => PushPhase::Relating,
        _ => PushPhase::Over,
    }
}

impl PushCourse {
    /// The step that is due.
    pub open spec fn due(self) -> PushStep {
        push_step(
            self.phase,
            self.run.interrupted is Some,
            self.run.next as int,
            self.attempted as int,
        )
    }

    /// A push of so many rows, about to begin.
    pub fn new(attempted: usize) -> (r: Self)
        ensures
            r.attempted == attempted,
            r.phase is Repairing,
            r.run.next == 0,
            r.run.created == 0 && r.run.skipped == 0 && r.run.failed == 0,
            r.run.just_synced@.len() == 0,
            r.run.interrupted is None,
    {
        PushCourse { attempted, phase: PushPhase::Repairing, run: PushRun::new() }
    }

    /// The step that is due.
    pub fn current(&self) -> (r: PushStep)
        ensures
            r == self.due(),
    {
        match self.phase {
            PushPhase::Repairing => PushStep::Repair,
            PushPhase::Sending => match self.run.next_chunk(self.attempted) {
                Some((from, to)) => PushStep::Send { from, to },
                None => if self.run.interrupted.is_some() {
                    PushStep::Finish
                } else {
                    PushStep::Delete
                },
            },
            PushPhase::Relating => PushStep::Relate,
            PushPhase::Over => PushStep::Finish,
        }
    }

    /// The step that was due, which is no batch, is done.
    pub fn advance(&mut self)
        requires
            old(self).due() is Repair || old(self).due() is Delete || old(self).due() is Relate,
        ensures
            final(self).phase == phase_after(old(self).phase),
            final(self).run == old(self).run,
            final(self).attempted == old(self).attempted,
    {
        self.phase = match self.phase {
            PushPhase::Repairing => PushPhase::Sending,
            PushPhase::Sending => PushPhase::Relating,
            _ => PushPhase::Over,
        };
    }

    /// The batch that was due could not be sent.
    pub fn batch_failed(&mut self, reason: &str)
        requires
            old(self).due() is Send,
        ensures
            final(self).phase == old(self).phase,
            final(self).attempted == old(self).attempted,
            opt_text(final(self).run.interrupted) == Some(reason@),
            final(self).run.next == old(self).run.next,
            final(self).run.created == old(self).run.created,
            final(self).run.skipped == old(self).run.skipped,
            final(self).run.failed == old(self).run.failed,
            final(self).run.just_synced == old(self).run.just_synced,
    {
        self.run.batch_failed(reason);
    }

    /// Takes in the server's answer to the batch that was due, of the rows
    /// `sent`. How far the push has come is told by the rows that the server
    /// keeps, and only where there is more than one batch.
    pub fn batch_answered(&mut self, res: &BatchResult, sent: &Vec<String>) -> (r: (
        BatchOutcome,
        Option<String>,
    ))
        requires
            old(self).due() is Send,
            old(self).run.created + tally_of(*res).created <= u32::MAX,
            old(self).run.skipped + tally_of(*res).skipped <= u32::MAX,
            old(self).run.failed + tally_of(*res).failed <= u32::MAX,
        ensures
            final(self).phase == old(self).phase,
            final(self).attempted == old(self).attempted,
            final(self).run.next == old(self).due()->to,
            final(self).run.created == old(self).run.created + tally_of(*res).created,
            final(self).run.skipped == old(self).run.skipped + tally_of(*res).skipped,
            final(self).run.failed == old(self).run.failed + tally_of(*res).failed,
            final(self).run.interrupted == old(self).run.interrupted,
            stamp_pairs(r.0.stamps@) == stamps_upto(
                res.results@,
                texts(sent@),
                res.results@.len() as int,
            ),
            texts(final(self).run.just_synced@) == texts(old(self).run.just_synced@) + stamped_ids(
                stamp_pairs(r.0.stamps@),
            ),
            texts(r.0.lines@) == failures_upto(res.results@, res.results@.len() as int),
            opt_text(r.1) == if old(self).attempted > PUSH_BATCH_CHUNK_SIZE {
                Some(
                    progress_text(
                        (final(self).run.created + final(self).run.skipped) as nat,
                        old(self).attempted as nat,
                    ),
                )
            } else {
                None
            },
    {
        let to: usize = if self.attempted - self.run.next > PUSH_BATCH_CHUNK_SIZE {
            self.run.next + PUSH_BATCH_CHUNK_SIZE
        } else {
            self.attempted
        };
        let outcome = self.run.batch_answered(res, sent, to);
        let progress = if is_multi_chunk(self.attempted) {
            let kept: u64 = self.run.created as u64 + self.run.skipped as u64;
            Some(progress_line(kept, self.attempted))
        } else {
            None
        };
        (outcome, progress)
    }
}

/// The place of a step in a push.
pub open spec fn push_rank(step: PushStep) -> int {
    match step {
        PushStep::Repair => 0,
        PushStep::Send { .. } => 1,
        PushStep::Delete => 2,
        PushStep::Relate => 3,
        PushStep::Finish => 4,
    }
}

/// A push goes forward: it makes vectors, then sends its batches, then deletes,
/// then relates. A step that is done is not due again, a batch that was answered
/// leads to a later one or on, and every row is in a batch before anything is
/// deleted.
pub proof fn law_a_push_goes_forward(phase: PushPhase, next: int, attempted: int)
    requires
        0 <= next <= attempted <= usize::MAX,
    ensures
        ({
            let now = push_step(phase, false, next, attempted);
            &&& !(now is Send) && !(now is Finish) ==> push_rank(
                push_step(phase_after(phase), false, next, attempted),
            ) > push_rank(now)
            &&& now is Send ==> {
                let after = push_step(phase, false, chunk_end(next, attempted), attempted);
                push_rank(after) >= push_rank(now) && (after is Send ==> after->from == now->to)
            }
            &&& now is Delete ==> next == attempted
            &&& now is Repair <==> phase is Repairing
        }),
{
}

/// A push makes vectors first; then sends every row; once none is left it deletes,
/// then relates, and is over.
pub proof fn law_a_push_takes_its_steps_in_order(next: int, attempted: int)
    requires
        0 <= next <= attempted <= usize::MAX,
    ensures
        push_step(PushPhase::Repairing, false, next, attempted) is Repair,
        phase_after(PushPhase::Repairing) is Sending,
        next < attempted ==> push_step(PushPhase::Sending, false, next, attempted) is Send
            && push_step(PushPhase::Sending, false, next, attempted)->from == next && push_step(
            PushPhase::Sending,
            false,
            next,
            attempted,
        )->to == (if next + 50 < attempted {
            next + 50
        } else {
            attempted
        }),
        push_step(PushPhase::Sending, false, attempted, attempted) is Delete,
        push_step(phase_after(PushPhase::Sending), false, attempted, attempted) is Relate,
        push_step(
            phase_after(phase_after(PushPhase::Sending)),
            false,
            attempted,
            attempted,
        ) is Finish,
{
}

/// A push whose batch failed ends there: nothing more is sent, deleted or
/// related.
pub proof fn law_an_interrupted_push_ends(phase: PushPhase, next: int, attempted: int)
    requires
        push_step(phase, false, next, attempted) is Send,
    ensures
        push_step(phase, true, next, attempted) is Finish,
{
}

// ---- what follows the batches ----------------------------------------------

/// The server ids of the archived ones among the first `n` rows that have one.
pub open spec fn tombstones_upto(rows: Seq<SyncRow>, n: int) -> Seq<Seq<char>>
    decreases n,
{
    if n <= 0 {
        Seq::<Seq<char>>::empty()
    } else {
        let before = tombstones_upto(rows, n - 1);
        let r = rows[n - 1];
        if r.archived && r.remote_id is Some {
            before.push(r.remote_id->0@)
        } else {
            before
        }
    }
}

/// The server is asked to delete an id if and only if an archived row has it.
pub proof fn law_only_archived_rows_are_deleted(rows: Seq<SyncRow>, n: int, id: Seq<char>)
    requires
        0 <= n <= rows.len(),
    ensures
        tombstones_upto(rows, n).contains(id) <==> exists|i: int|
            0 <= i < n && (#[trigger] rows[i]).archived && opt_text(rows[i].remote_id) == Some(id),
    decreases n,
{
    if n > 0 {
        law_only_archived_rows_are_deleted(rows, n - 1, id);
        let before = tombstones_upto(rows, n - 1);
        let now = tombstones_upto(rows, n);
        if before.contains(id) {
            let k = choose|k: int| 0 <= k < before.len() && before[k] == id;
            assert(now[k] == id);
            let i = choose|i: int|
                0 <= i < n - 1 && (#[trigger] rows[i]).archived && opt_text(rows[i].remote_id)
                    == Some(id);
            assert(rows[i].archived);
        }
        if now.contains(id) && !before.contains(id) {
            let k = choose|k: int| 0 <= k < now.len() && now[k] == id;
            assert(k == before.len()) by {
                if k < before.len() {
                    assert(before[k] == id);
                }
            }
            assert(rows[n - 1].archived);
        }
        if exists|i: int|
            0 <= i < n && (#[trigger] rows[i]).archived && opt_text(rows[i].remote_id) == Some(
                id,
            ) {
            let i = choose|i: int|
                0 <= i < n && (#[trigger] rows[i]).archived && opt_text(rows[i].remote_id) == Some(
                    id,
                );
            if i == n - 1 {
                assert(now[before.len() as int] == id);
            }
        }
    }
}

/// The server ids to delete: those of archived rows that were synced, unless
/// archived rows are left out or the push was interrupted. A row without a
/// server id has nothing to delete.
pub fn tombstones(rows: &Vec<SyncRow>, include_archived: bool, interrupted: bool) -> (r: Vec<String>)
    ensures
        texts(r@) == if include_archived && !interrupted {
            tombstones_upto(rows@, rows.len() as int)
        } else {
            Seq::<Seq<char>>::empty()
        },
{
    let mut out: Vec<String> = Vec::new();
    assert(texts(out@) =~= Seq::<Seq<char>>::empty());
    if !include_archived || interrupted {
        return out;
    }
    let mut i: usize = 0;
    while i < rows.len()
        invariant
            i <= rows.len(),
            texts(out@) == tombstones_upto(rows@, i as int),
        decreases rows.len() - i,
    {
        if rows[i].archived {
            if let Some(id) = &rows[i].remote_id {
                let kept = id.clone();
                proof {
                    lemma_texts_push(out@, kept);
                }
                out.push(kept);
            }
        }
        i = i + 1;
    }
    out
}

/// A relation between two entries of the local store.
pub struct RelatesTo {
    pub from_id: String,
    pub to_id: String,
}

/// A relation as it is sent.
pub struct SyncEdgePush {
    pub from_external_id: String,
    pub to_external_id: String,
    pub kind: String,
}

/// The two ends of a relation.
pub open spec fn ends_of(e: RelatesTo) -> (Seq<char>, Seq<char>) {
    (e.from_id@, e.to_id@)
}

/// Those of the first `n` relations that touch a row stamped in this push.
pub open spec fn edges_upto(edges: Seq<RelatesTo>, just_synced: Seq<Seq<char>>, n: int) -> Seq<
    (Seq<char>, Seq<char>),
>
    decreases n,
{
    if n <= 0 {
        Seq::<(Seq<char>, Seq<char>)>::empty()
    } else {
        let before = edges_upto(edges, just_synced, n - 1);
        let e = edges[n - 1];
        if just_synced.contains(e.from_id@) || just_synced.contains(e.to_id@) {
            before.push(ends_of(e))
        } else {
            before
        }
    }
}

/// What edges are sent, by their ends.
pub open spec fn sent_edges(v: Seq<SyncEdgePush>) -> Seq<(Seq<char>, Seq<char>)> {
    v.map_values(|e: SyncEdgePush| (e.from_external_id@, e.to_external_id@))
}

/// A relation is sent if and only if a row of this push is at one of its ends,
/// and from and to the ends it has.
pub proof fn law_a_relation_of_a_new_row_is_sent(
    edges: Seq<RelatesTo>,
    just_synced: Seq<Seq<char>>,
    n: int,
    from: Seq<char>,
    to: Seq<char>,
)
    requires
        0 <= n <= edges.len(),
    ensures
        edges_upto(edges, just_synced, n).contains((from, to)) <==> exists|i: int|
            0 <= i < n && (#[trigger] edges[i]).from_id@ == from && edges[i].to_id@ == to && (
            just_synced.contains(from) || just_synced.contains(to)),
    decreases n,
{
    if n > 0 {
        law_a_relation_of_a_new_row_is_sent(edges, just_synced, n - 1, from, to);
        let before = edges_upto(edges, just_synced, n - 1);
        let now = edges_upto(edges, just_synced, n);
        if before.contains((from, to)) {
            let k = choose|k: int| 0 <= k < before.len() && before[k] == (from, to);
            assert(now[k] == (from, to));
            let i = choose|i: int|
                0 <= i < n - 1 && (#[trigger] edges[i]).from_id@ == from && edges[i].to_id@ == to
                    && (just_synced.contains(from) || just_synced.contains(to));
            assert(edges[i].from_id@ == from);
        }
        if now.contains((from, to)) && !before.contains((from, to)) {
            let k = choose|k: int| 0 <= k < now.len() && now[k] == (from, to);
            assert(k == before.len()) by {
                if k < before.len() {
                    assert(before[k] == (from, to));
                }
            }
            assert(edges[n - 1].from_id@ == from);
        }
        if exists|i: int|
            0 <= i < n && (#[trigger] edges[i]).from_id@ == from && edges[i].to_id@ == to && (
            just_synced.contains(from) || just_synced.contains(to)) {
            let i = choose|i: int|
                0 <= i < n && (#[trigger] edges[i]).from_id@ == from && edges[i].to_id@ == to && (
                just_synced.contains(from) || just_synced.contains(to));
            if i == n - 1 {
                assert(now[before.len() as int] == (from, to));
            }
        }
    }
}

/// The relations to send: a relation can go once its second end is on the
/// server, so just those that touch a row stamped in this push are new.
pub fn push_relates_to_edges(edges: &Vec<RelatesTo>, just_synced: &Vec<String>) -> (r: Vec<
    SyncEdgePush,
>)
    ensures
        sent_edges(r@) == edges_upto(edges@, texts(just_synced@), edges.len() as int),
        forall|i: int| 0 <= i < r.len() ==> (#[trigger] r@[i]).kind@ == "relates_to"@,
        forall|i: int|
            0 <= i < r.len() ==> texts(just_synced@).contains((#[trigger] r@[i]).from_external_id@)
                || texts(just_synced@).contains(r@[i].to_external_id@),
{
    let mut out: Vec<SyncEdgePush> = Vec::new();
    let mut i: usize = 0;
    assert(sent_edges(out@) =~= Seq::<(Seq<char>, Seq<char>)>::empty());
    while i < edges.len()
        invariant
            i <= edges.len(),
            sent_edges(out@) == edges_upto(edges@, texts(just_synced@), i as int),
            forall|k: int| 0 <= k < out.len() ==> (#[trigger] out@[k]).kind@ == "relates_to"@,
            forall|k: int|
                0 <= k < out.len() ==> texts(just_synced@).contains(
                    (#[trigger] out@[k]).from_external_id@,
                ) || texts(just_synced@).contains(out@[k].to_external_id@),
        decreases edges.len() - i,
    {
        let e = &edges[i];
        if has_text(just_synced, e.from_id.as_str()) || has_text(just_synced, e.to_id.as_str()) {
            let ghost before = sent_edges(out@);
            out.push(
                SyncEdgePush {
                    from_external_id: e.from_id.clone(),
                    to_external_id: e.to_id.clone(),
                    kind: "relates_to".to_owned(),
                },
            );
            assert(sent_edges(out@) =~= before.push(ends_of(*e)));
        }
        i = i + 1;
    }
    out
}

/// What is said when the relations could not be sent; the entries have landed
/// by then, so this only warns.
pub fn edges_failed_warning(cause: &str) -> (r: String)
    ensures
        r@ == "warning: failed to push relates_to edges to the cloud: "@ + cause@,
{
    "warning: failed to push relates_to edges to the cloud: ".to_owned().concat(cause)
}

/// The summary of a push that has run its batches. Relations are sent only by a
/// push that was not interrupted.
pub fn push_summary(
    plan: &PushPlan,
    run: PushRun,
    repair: RepairCounts,
    edges_pushed: usize,
    anchors_pushed: usize,
) -> (r: PushSummary)
    ensures
        r.attempted == plan.live.len(),
        r.already_synced == plan.already_synced,
        r.created == run.created,
        r.skipped == run.skipped,
        r.failed == run.failed,
        r.interrupted == run.interrupted,
        r.embedded_locally == repair.embedded,
        r.without_local_vector == repair.without_vector,
        r.edges_pushed == if run.interrupted is Some {
            0
        } else {
            edges_pushed
        },
        r.anchors_pushed == anchors_pushed,
{
    let sent: usize = if run.interrupted.is_some() {
        0
    } else {
        edges_pushed
    };
    PushSummary {
        attempted: plan.live.len(),
        created: run.created,
        skipped: run.skipped,
        failed: run.failed,
        already_synced: plan.already_synced,
        interrupted: run.interrupted,
        embedded_locally: repair.embedded,
        without_local_vector: repair.without_vector,
        edges_pushed: sent,
        anchors_pushed,
    }
}

/// A stamp is a row's id and the server's id for it; a sent relation is the ids of
/// its two ends, from the first to the second.
pub proof fn law_stamps_and_relations_are_what_they_hold(
    stamps: Seq<Stamp>,
    edges: Seq<SyncEdgePush>,
    e: RelatesTo,
    i: int,
)
    ensures
        stamp_pairs(stamps).len() == stamps.len(),
        0 <= i < stamps.len() ==> stamp_pairs(stamps)[i].0 == stamps[i].id@
            && stamp_pairs(stamps)[i].1 == stamps[i].remote_id@ && stamped_ids(
            stamp_pairs(stamps),
        )[i] == stamps[i].id@,
        stamped_ids(stamp_pairs(stamps)).len() == stamps.len(),
        sent_edges(edges).len() == edges.len(),
        0 <= i < edges.len() ==> sent_edges(edges)[i].0 == edges[i].from_external_id@
            && sent_edges(edges)[i].1 == edges[i].to_external_id@,
        ends_of(e) == (e.from_id@, e.to_id@),
{
}

/// How far a push has come is told by what is done, of how much.
pub proof fn law_progress_is_done_of_total(done: nat, total: nat)
    ensures
        occurs(progress_text(done, total), dec(done) + "/"@ + dec(total)),
{
    let told = dec(done) + "/"@ + dec(total);
    lemma_occurs_between("Pushed "@, told, "…"@);
    assert(progress_text(done, total) =~= "Pushed "@ + told + "…"@);
}

/// The step of a push that is due goes by its phase, by whether a batch failed, and
/// by the rows that are left.
pub proof fn law_a_push_is_where_its_run_is(c: PushCourse)
    ensures
        c.phase is Repairing ==> c.due() is Repair,
        c.phase is Sending && c.run.interrupted is Some ==> c.due() is Finish,
        c.phase is Sending && c.run.interrupted is None && c.run.next < c.attempted ==> c.due()
            is Send && c.due()->from == c.run.next,
        c.phase is Sending && c.run.interrupted is None && c.run.next >= c.attempted ==> c.due()
            is Delete,
        c.phase is Relating ==> c.due() is Relate,
        c.phase is Over ==> c.due() is Finish,
{
}

} // verus!
