//! The relay on this machine: what is handed to it after a write, and what is
//! taken over from it before a read.

use crate::config::{Config, SyncMode};
use crate::memory::sync::push::{
    body_to_send, durably_persisted, is_durably_persisted, item_for, sent_body, BatchPushItem,
    SyncRow,
};
use crate::text::{dec, dec_u64, opt_text, push_text, texts};
use crate::ui::at_most;
use vstd::prelude::*;
use vstd::string::*;

verus! {

/// How many milliseconds a call of the relay may take, so that a relay that
/// hangs never holds up a write.
pub const LOCAL_RELAY_TIMEOUT_MILLIS: u64 = 800;

/// How many entries one call of the relay carries.
pub const MAX_NUDGE_ENTRIES: usize = 200;

/// The server and project that a relay works for.
pub struct RelayTarget {
    pub server_url: String,
    pub project_id: String,
}

/// The server and project that a relay works for: there is one only where the
/// local store is kept in step with a server, and both are set.
pub fn relay_target(cfg: &Config) -> (r: Option<RelayTarget>)
    ensures
        match r {
            Some(t) => cfg.mode is LocalFirst && opt_text(cfg.server_url) == Some(t.server_url@)
                && opt_text(cfg.project_id) == Some(t.project_id@),
            None => !(cfg.mode is LocalFirst) || cfg.server_url is None || cfg.project_id is None,
        },
{
    if cfg.mode != SyncMode::LocalFirst {
        return None;
    }
    match (&cfg.server_url, &cfg.project_id) {
        (Some(server_url), Some(project_id)) => Some(
            RelayTarget { server_url: server_url.clone(), project_id: project_id.clone() },
        ),
        _ => None,
    }
}

/// The address of a relay's route.
pub fn relay_url(port: u16, route: &str) -> (r: String)
    ensures
        r@ == "http://127.0.0.1:"@ + dec(port as nat) + "/local/relay/"@ + route@,
{
    "http://127.0.0.1:".to_owned().concat(dec_u64(port as u64).as_str()).concat(
        "/local/relay/",
    ).concat(route)
}

// ---- handing over ----------------------------------------------------------

/// An entry as it is handed to the relay.
pub struct RelayPushEntry {
    pub kind: String,
    pub title: String,
    pub body: Option<String>,
    pub external_id: String,
    pub source_commit: Option<String>,
}

/// Whether `e` is what is handed over for `r`.
pub open spec fn entry_for(e: RelayPushEntry, r: SyncRow) -> bool {
    &&& e.kind@ == r.kind@
    &&& e.title@ == r.title@
    &&& opt_text(e.body) == sent_body(r.body@)
    &&& e.external_id@ == r.id@
    &&& opt_text(e.source_commit) == opt_text(r.source_ref)
}

/// The positions below `n` of the rows that wait to be synced.
pub open spec fn waiting_upto(rows: Seq<SyncRow>, n: int) -> Seq<int>
    decreases n,
{
    if n <= 0 {
        Seq::<int>::empty()
    } else {
        let before = waiting_upto(rows, n - 1);
        let r = rows[n - 1];
        if !r.archived && r.remote_id is None {
            before.push(n - 1)
        } else {
            before
        }
    }
}

/// The rows that are handed over: those that wait, the first few hundred.
pub open spec fn handed_over(rows: Seq<SyncRow>) -> Seq<int> {
    let all = waiting_upto(rows, rows.len() as int);
    all.take(at_most(all.len() as int, MAX_NUDGE_ENTRIES as int))
}

/// The entries that are handed to the relay.
pub fn register_and_push(rows: &Vec<SyncRow>) -> (r: Vec<RelayPushEntry>)
    ensures
        r.len() == handed_over(rows@).len(),
        forall|i: int|
            0 <= i < r.len() ==> entry_for(#[trigger] r@[i], rows@[handed_over(rows@)[i]]),
        forall|i: int|
            0 <= i < r.len() ==> {
                let row = rows@[handed_over(rows@)[i]];
                &&& (#[trigger] r@[i]).kind@ == row.kind@
                &&& r@[i].title@ == row.title@
                &&& opt_text(r@[i].body) == (if row.body@.len() == 0 {
                    None
                } else {
                    Some(row.body@)
                })
                &&& r@[i].external_id@ == row.id@
                &&& opt_text(r@[i].source_commit) == opt_text(row.source_ref)
            },
{
    let ghost all = waiting_upto(rows@, rows.len() as int);
    let mut out: Vec<RelayPushEntry> = Vec::new();
    let mut i: usize = 0;
    while i < rows.len() && out.len() < MAX_NUDGE_ENTRIES
        invariant
            i <= rows.len(),
            out.len() <= MAX_NUDGE_ENTRIES,
            out.len() == waiting_upto(rows@, i as int).len(),
            forall|k: int|
                0 <= k < out.len() ==> entry_for(
                    #[trigger] out@[k],
                    rows@[waiting_upto(rows@, i as int)[k]],
                ),
        decreases rows.len() - i,
    {
        let r = &rows[i];
        let ghost before = waiting_upto(rows@, i as int);
        if !r.archived && r.remote_id.is_none() {
            out.push(
                RelayPushEntry {
                    kind: r.kind.clone(),
                    title: r.title.clone(),
                    body: body_to_send(&r.body),
                    external_id: r.id.clone(),
                    source_commit: r.source_ref.clone(),
                },
            );
        }
        i = i + 1;
        proof {
            let now = waiting_upto(rows@, i as int);
            assert forall|k: int| 0 <= k < out.len() implies entry_for(
                #[trigger] out@[k],
                rows@[now[k]],
            ) by {
                if k < before.len() {
                    assert(now[k] == before[k]);
                }
            }
        }
    }
    proof {
        lemma_waiting_prefix(rows@, i as int, rows.len() as int);
        let part = waiting_upto(rows@, i as int);
        assert forall|k: int| 0 <= k < out.len() implies entry_for(
            #[trigger] out@[k],
            rows@[handed_over(rows@)[k]],
        ) by {
            assert(all[k] == part[k]);
            assert(handed_over(rows@)[k] == all[k]);
        }
    }
    out
}

proof fn lemma_waiting_prefix(rows: Seq<SyncRow>, i: int, n: int)
    requires
        0 <= i <= n <= rows.len(),
    ensures
        waiting_upto(rows, i).len() <= waiting_upto(rows, n).len(),
        forall|k: int|
            0 <= k < waiting_upto(rows, i).len() ==> #[trigger] waiting_upto(rows, n)[k]
                == waiting_upto(rows, i)[k],
    decreases n - i,
{
    if i < n {
        lemma_waiting_prefix(rows, i, n - 1);
        let part = waiting_upto(rows, i);
        let before = waiting_upto(rows, n - 1);
        let now = waiting_upto(rows, n);
        assert forall|k: int| 0 <= k < part.len() implies #[trigger] now[k] == part[k] by {
            assert(before[k] == part[k]);
        }
    }
}

/// A row is handed over if and only if it is active and was never synced, as far as
/// one call reaches; the rows keep their order.
pub proof fn law_what_waits_is_handed_over(rows: Seq<SyncRow>, n: int, p: int)
    requires
        0 <= n <= rows.len(),
    ensures
        waiting_upto(rows, n).contains(p) <==> 0 <= p < n && !rows[p].archived
            && rows[p].remote_id is None,
        forall|a: int, b: int|
            0 <= a < b < waiting_upto(rows, n).len() ==> #[trigger] waiting_upto(rows, n)[a]
                < #[trigger] waiting_upto(rows, n)[b],
        forall|a: int|
            0 <= a < waiting_upto(rows, n).len() ==> 0 <= #[trigger] waiting_upto(rows, n)[a] < n,
        handed_over(rows).len() <= 200,
        handed_over(rows).is_prefix_of(waiting_upto(rows, rows.len() as int)),
        handed_over(rows).len() < 200 ==> handed_over(rows) == waiting_upto(
            rows,
            rows.len() as int,
        ),
    decreases n,
{
    let all = waiting_upto(rows, rows.len() as int);
    if all.len() < 200 {
        assert(all.take(all.len() as int) =~= all);
    }
    assert(handed_over(rows).is_prefix_of(all));
    if n > 0 {
        law_what_waits_is_handed_over(rows, n - 1, p);
        let before = waiting_upto(rows, n - 1);
        let now = waiting_upto(rows, n);
        if before.contains(p) {
            let k = choose|k: int| 0 <= k < before.len() && before[k] == p;
            assert(now[k] == p);
        }
        if now.contains(p) {
            let k = choose|k: int| 0 <= k < now.len() && now[k] == p;
            if k < before.len() {
                assert(before[k] == p);
            }
        }
        if !rows[n - 1].archived && rows[n - 1].remote_id is None {
            assert(now[before.len() as int] == n - 1);
        }
        assert forall|a: int| 0 <= a < now.len() implies 0 <= #[trigger] now[a] < n by {
            if a < before.len() {
                assert(now[a] == before[a]);
            }
        }
        assert forall|a: int, b: int| 0 <= a < b < now.len() implies #[trigger] now[a]
            < #[trigger] now[b] by {
            assert(now[a] == before[a]);
            if b < before.len() {
                assert(now[b] == before[b]);
            }
        }
    }
}

/// The relay is handed what a push of the row would send: the same kind, title,
/// body, id and commit.
pub proof fn law_the_relay_is_handed_what_a_push_sends(
    e: RelayPushEntry,
    item: BatchPushItem,
    r: SyncRow,
    force: bool,
    accepts_vectors: bool,
    usable: bool,
)
    requires
        entry_for(e, r),
        item_for(item, r, force, accepts_vectors, usable),
    ensures
        e.kind@ == item.kind@,
        e.title@ == item.title@,
        opt_text(e.body) == opt_text(item.body),
        e.external_id@ == item.external_id@,
        opt_text(e.source_commit) == opt_text(item.source_commit),
        e.kind@ == r.kind@,
        e.title@ == r.title@,
        e.body is Some ==> e.body->0@ == r.body@,
        e.body is None <==> r.body@.len() == 0,
        e.external_id@ == r.id@,
        opt_text(e.source_commit) == opt_text(r.source_ref),
{
}

// ---- taking over -----------------------------------------------------------

/// The server's answer for an entry that was handed over.
pub struct RelayPushResult {
    pub external_id: String,
    pub remote_id: Option<String>,
    pub status: String,
}

/// Whether an answer is applied to the store: the server keeps the entry and
/// says under which id.
pub open spec fn applicable(r: RelayPushResult) -> bool {
    durably_persisted(r.status@) && r.remote_id is Some
}

/// Whether an answer is applied to the store.
pub fn is_applicable(r: &RelayPushResult) -> (b: bool)
    ensures
        b == applicable(*r),
{
    is_durably_persisted(r.status.as_str()) && r.remote_id.is_some()
}

/// The entries to acknowledge among the first `n` answers: those whose answer
/// is applied, and where `stamped` says that the store took it.
pub open spec fn acked_upto(results: Seq<RelayPushResult>, stamped: Seq<bool>, n: int) -> Seq<
    Seq<char>,
>
    decreases n,
{
    if n <= 0 {
        Seq::<Seq<char>>::empty()
    } else {
        let before = acked_upto(results, stamped, n - 1);
        if applicable(results[n - 1]) && stamped[n - 1] {
            before.push(results[n - 1].external_id@)
        } else {
            before
        }
    }
}

/// The pulled entries to acknowledge among the first `n`: those that the store
/// took.
pub open spec fn pulled_upto(ids: Seq<Seq<char>>, applied: Seq<bool>, n: int) -> Seq<Seq<char>>
    decreases n,
{
    if n <= 0 {
        Seq::<Seq<char>>::empty()
    } else {
        let before = pulled_upto(ids, applied, n - 1);
        if applied[n - 1] {
            before.push(ids[n - 1])
        } else {
            before
        }
    }
}

/// What was taken over from the relay.
pub struct PollOutcome {
    pub applied_pushes: usize,
    pub applied_pulls: usize,
    /// What is acknowledged. Only that leaves the relay: what the store did not
    /// take is offered again.
    pub acked_push_ids: Vec<String>,
    pub acked_pull_ids: Vec<String>,
    /// When the relay last synced, and why it could not since, as it says.
    pub last_synced_at: Option<i64>,
    pub last_error: Option<String>,
}

/// What was taken over from the relay, by what the store took.
pub fn poll_and_apply(
    results: &Vec<RelayPushResult>,
    stamped: &Vec<bool>,
    pulled_ids: &Vec<String>,
    applied: &Vec<bool>,
    last_synced_at: Option<i64>,
    last_error: Option<String>,
) -> (r: PollOutcome)
    requires
        stamped.len() == results.len(),
        applied.len() == pulled_ids.len(),
    ensures
        texts(r.acked_push_ids@) == acked_upto(results@, stamped@, results.len() as int),
        texts(r.acked_pull_ids@) == pulled_upto(
            texts(pulled_ids@),
            applied@,
            pulled_ids.len() as int,
        ),
        r.applied_pushes == r.acked_push_ids.len(),
        r.applied_pulls == r.acked_pull_ids.len(),
        r.last_synced_at == last_synced_at,
        r.last_error == last_error,
{
    let mut pushes: Vec<String> = Vec::new();
    let mut i: usize = 0;
    assert(texts(pushes@) =~= Seq::<Seq<char>>::empty());
    while i < results.len()
        invariant
            i <= results.len(),
            stamped.len() == results.len(),
            texts(pushes@) == acked_upto(results@, stamped@, i as int),
        decreases results.len() - i,
    {
        if is_applicable(&results[i]) && stamped[i] {
            push_text(&mut pushes, results[i].external_id.clone());
        }
        i = i + 1;
    }
    let mut pulls: Vec<String> = Vec::new();
    let mut k: usize = 0;
    assert(texts(pulls@) =~= Seq::<Seq<char>>::empty());
    while k < pulled_ids.len()
        invariant
            k <= pulled_ids.len(),
            applied.len() == pulled_ids.len(),
            texts(pulls@) == pulled_upto(texts(pulled_ids@), applied@, k as int),
        decreases pulled_ids.len() - k,
    {
        assert(texts(pulled_ids@)[k as int] == pulled_ids@[k as int]@);
        if applied[k] {
            push_text(&mut pulls, pulled_ids[k].clone());
        }
        k = k + 1;
    }
    PollOutcome {
        applied_pushes: pushes.len(),
        applied_pulls: pulls.len(),
        acked_push_ids: pushes,
        acked_pull_ids: pulls,
        last_synced_at,
        last_error,
    }
}

/// Whether anything is acknowledged.
pub fn ack_due(outcome: &PollOutcome) -> (r: bool)
    ensures
        r == (outcome.acked_push_ids@.len() > 0 || outcome.acked_pull_ids@.len() > 0),
{
    outcome.acked_push_ids.len() > 0 || outcome.acked_pull_ids.len() > 0
}

/// Whether the answer at `i` was applied and taken by the store, under `id`.
pub open spec fn taken_answer(
    results: Seq<RelayPushResult>,
    stamped: Seq<bool>,
    i: int,
    id: Seq<char>,
) -> bool {
    applicable(results[i]) && stamped[i] && results[i].external_id@ == id
}

/// What is acknowledged is just what the store took; anything else stays with
/// the relay and is offered again.
pub proof fn law_what_failed_stays_with_the_relay(
    results: Seq<RelayPushResult>,
    stamped: Seq<bool>,
    n: int,
    id: Seq<char>,
)
    requires
        0 <= n <= results.len(),
        stamped.len() == results.len(),
    ensures
        acked_upto(results, stamped, n).contains(id) <==> exists|i: int|
            0 <= i < n && #[trigger] taken_answer(results, stamped, i, id),
        forall|i: int| #[trigger]
            taken_answer(results, stamped, i, id) <==> (results[i].status@ == "created"@
                || results[i].status@ == "skipped"@) && results[i].remote_id is Some && stamped[i]
                && results[i].external_id@ == id,
    decreases n,
{
    if n > 0 {
        law_what_failed_stays_with_the_relay(results, stamped, n - 1, id);
        let before = acked_upto(results, stamped, n - 1);
        let now = acked_upto(results, stamped, n);
        if before.contains(id) {
            let k = choose|k: int| 0 <= k < before.len() && before[k] == id;
            assert(now[k] == id);
        }
        if taken_answer(results, stamped, n - 1, id) {
            assert(now.last() == id);
            assert(now[now.len() - 1] == id);
        }
        if now.contains(id) && !before.contains(id) {
            let k = choose|k: int| 0 <= k < now.len() && now[k] == id;
            if k < before.len() {
                assert(before[k] == id);
            }
            assert(taken_answer(results, stamped, n - 1, id));
        }
    }
}

/// Of what was pulled, just what the store took is acknowledged.
pub proof fn law_what_was_not_applied_is_offered_again(
    ids: Seq<Seq<char>>,
    applied: Seq<bool>,
    n: int,
    id: Seq<char>,
)
    requires
        0 <= n <= ids.len(),
        applied.len() == ids.len(),
    ensures
        pulled_upto(ids, applied, n).contains(id) <==> exists|i: int|
            0 <= i < n && applied[i] && #[trigger] ids[i] == id,
    decreases n,
{
    if n > 0 {
        law_what_was_not_applied_is_offered_again(ids, applied, n - 1, id);
        let before = pulled_upto(ids, applied, n - 1);
        let now = pulled_upto(ids, applied, n);
        if before.contains(id) {
            let k = choose|k: int| 0 <= k < before.len() && before[k] == id;
            assert(now[k] == id);
        }
        if applied[n - 1] && ids[n - 1] == id {
            assert(now[now.len() - 1] == id);
        }
        if now.contains(id) && !before.contains(id) {
            let k = choose|k: int| 0 <= k < now.len() && now[k] == id;
            if k < before.len() {
                assert(before[k] == id);
            }
            assert(ids[n - 1] == id && applied[n - 1]);
        }
    }
}

} // verus!
