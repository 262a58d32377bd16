//! Pulling: pages of entries from the server, applied as they arrive. The
//! cursor is the greatest id that was synced and no clock, so that clocks that
//! differ cannot skip entries.

use crate::memory::sync::local_embed::RepairCounts;
use crate::memory::sync::push::{item_for, BatchPushItem, SyncRow};
use crate::order::positions;
use crate::text::{opt_text, texts};
use vstd::prelude::*;

verus! {

/// How many entries a full page holds.
pub const MEMORY_SINCE_PULL_LIMIT: usize = 100;

/// What a pull did.
#[derive(Clone, Copy, PartialEq, Eq, Structural, Debug)]
pub struct PullSummary {
    pub applied: usize,
    pub embedded_locally: usize,
    pub without_local_vector: usize,
}

impl Default for PullSummary {
    fn default() -> (r: Self)
        ensures
            r == (PullSummary { applied: 0, embedded_locally: 0, without_local_vector: 0 }),
    {
        PullSummary { applied: 0, embedded_locally: 0, without_local_vector: 0 }
    }
}

impl PullSummary {
    /// Two pulls of one round together. What was applied and embedded is work
    /// and adds up; what is without a vector is a state that the second pull
    /// saw afresh.
    pub fn merge(self, other: Self) -> (r: Self)
        requires
            self.applied + other.applied <= usize::MAX,
            self.embedded_locally + other.embedded_locally <= usize::MAX,
        ensures
            r == (PullSummary {
                applied: (self.applied + other.applied) as usize,
                embedded_locally: (self.embedded_locally + other.embedded_locally) as usize,
                without_local_vector: other.without_local_vector,
            }),
    {
        PullSummary {
            applied: self.applied + other.applied,
            embedded_locally: self.embedded_locally + other.embedded_locally,
            without_local_vector: other.without_local_vector,
        }
    }
}

/// An entry as the server sends it.
pub struct RemoteEntry {
    pub id: String,
    pub kind: String,
    pub title: String,
    pub body: Option<String>,
    pub source_commit: Option<String>,
    pub created_at: String,
    pub archived: bool,
}

/// An entry as it is applied to the local store.
pub struct RemoteNote {
    pub remote_id: String,
    pub kind: String,
    pub title: String,
    pub body: String,
    pub source_commit: Option<String>,
    pub created_secs: i64,
    pub archived: bool,
}

/// What `chrono::DateTime::parse_from_rfc3339` reads from a text: the seconds
/// since the epoch of the instant it names, or nothing where it names none.
pub uninterp spec fn rfc3339_secs(s: Seq<char>) -> Option<i64>;

/// Calls `chrono::DateTime::parse_from_rfc3339`. The instant that the text
/// names, as `timestamp` counts it, is a function of the text alone.
#[verifier::external_body]
fn parse_rfc3339(s: &str) -> (r: Option<i64>)
    ensures
        r == rfc3339_secs(s@),
{
    match chrono::DateTime::parse_from_rfc3339(s) {
        Ok(dt) => Some(dt.timestamp()),
        Err(_) => None,
    }
}

/// A time that was read, or `now` where none was, so that one odd row never
/// ends a whole sync.
pub fn secs_or_now(read: Option<i64>, now: i64) -> (r: i64)
    ensures
        r == match read {
            Some(secs) => secs,
            None => now,
        },
{
    match read {
        Some(secs) => secs,
        None => now,
    }
}

/// The seconds of an RFC 3339 time, or `now` where the text is none.
pub fn parse_iso_to_secs(s: &str, now: i64) -> (r: i64)
    ensures
        r == match rfc3339_secs(s@) {
            Some(secs) => secs,
            None => now,
        },
{
    secs_or_now(parse_rfc3339(s), now)
}

/// The text of an optional body; none is empty.
pub open spec fn body_text(body: Option<String>) -> Seq<char> {
    match body {
        Some(b) => b@,
        None => Seq::<char>::empty(),
    }
}

/// What is applied to the local store for an entry, given when it was made.
pub open spec fn applies(n: RemoteNote, e: RemoteEntry, created_secs: i64) -> bool {
    &&& n.remote_id@ == e.id@
    &&& n.kind@ == e.kind@
    &&& n.title@ == e.title@
    &&& n.body@ == body_text(e.body)
    &&& opt_text(n.source_commit) == opt_text(e.source_commit)
    &&& n.created_secs == created_secs
    &&& n.archived == e.archived
}

/// What is applied to the local store for an entry, given when it was made.
pub fn note_created_at(e: &RemoteEntry, created_secs: i64) -> (r: RemoteNote)
    ensures
        applies(r, *e, created_secs),
        r.remote_id@ == e.id@,
        r.kind@ == e.kind@,
        r.title@ == e.title@,
        e.body is Some ==> r.body@ == e.body->0@,
        e.body is None ==> r.body@.len() == 0,
        opt_text(r.source_commit) == opt_text(e.source_commit),
        r.created_secs == created_secs,
        r.archived == e.archived,
{
    RemoteNote {
        remote_id: e.id.clone(),
        kind: e.kind.clone(),
        title: e.title.clone(),
        body: match &e.body {
            Some(b) => b.clone(),
            None => String::new(),
        },
        source_commit: e.source_commit.clone(),
        created_secs,
        archived: e.archived,
    }
}

/// What is applied to the local store for an entry.
pub fn remote_note(e: &RemoteEntry, now: i64) -> (r: RemoteNote)
    ensures
        applies(
            r,
            *e,
            match rfc3339_secs(e.created_at@) {
                Some(secs) => secs,
                None => now,
            },
        ),
        r.remote_id@ == e.id@,
        r.kind@ == e.kind@,
        r.title@ == e.title@,
        e.body is Some ==> r.body@ == e.body->0@,
        e.body is None ==> r.body@.len() == 0,
        opt_text(r.source_commit) == opt_text(e.source_commit),
        r.archived == e.archived,
{
    note_created_at(e, parse_iso_to_secs(e.created_at.as_str(), now))
}

/// An entry is stored as the server sent it: under its id, with its kind, title,
/// commit and body, an entry without a body with an empty one.
pub proof fn law_a_pulled_entry_is_stored_as_it_came(n: RemoteNote, e: RemoteEntry, secs: i64)
    requires
        applies(n, e, secs),
    ensures
        n.remote_id@ == e.id@,
        n.kind@ == e.kind@,
        n.title@ == e.title@,
        e.body is Some ==> n.body@ == e.body->0@,
        e.body is None ==> n.body@.len() == 0,
        e.source_commit is Some ==> n.source_commit is Some && n.source_commit->0@
            == e.source_commit->0@,
        e.source_commit is None ==> n.source_commit is None,
        n.created_secs == secs,
        n.archived == e.archived,
{
}

/// What one store pushes another pulls: of a server that keeps what it is sent,
/// an entry arrives with the kind, title, body and commit of the row it was sent
/// for, an empty body too.
pub proof fn law_a_pushed_row_arrives_as_it_was(
    r: SyncRow,
    item: BatchPushItem,
    e: RemoteEntry,
    n: RemoteNote,
    force: bool,
    accepts_vectors: bool,
    usable: bool,
    secs: i64,
)
    requires
        item_for(item, r, force, accepts_vectors, usable),
        e.kind@ == item.kind@,
        e.title@ == item.title@,
        opt_text(e.body) == opt_text(item.body),
        opt_text(e.source_commit) == opt_text(item.source_commit),
        applies(n, e, secs),
    ensures
        n.kind@ == r.kind@,
        n.title@ == r.title@,
        n.body@ == r.body@,
        opt_text(n.source_commit) == opt_text(r.source_ref),
{
    if r.body@.len() == 0 {
        assert(n.body@ =~= r.body@);
    }
}

/// A walk over the pages that follow a cursor.
pub struct Drain {
    /// Where the next page starts; nothing is the beginning.
    pub cursor: Option<String>,
    /// How many entries were new to the local store.
    pub applied: usize,
    /// How many active entries the server last said it holds.
    pub total: Option<i64>,
    /// Whether the last page was seen.
    pub done: bool,
}

/// What a page does to where a walk stands: its cursor, and whether it is done.
pub open spec fn page_taken(at: (Option<Seq<char>>, bool), ids: Seq<Seq<char>>) -> (
    Option<Seq<char>>,
    bool,
) {
    if ids.len() < MEMORY_SINCE_PULL_LIMIT {
        (at.0, true)
    } else {
        (Some(ids.last()), at.1)
    }
}

/// Where a walk from a cursor stands after some pages, each the ids it had.
pub open spec fn walk_after(cursor: Option<Seq<char>>, pages: Seq<Seq<Seq<char>>>) -> (
    Option<Seq<char>>,
    bool,
)
    decreases pages.len(),
{
    if pages.len() == 0 {
        (cursor, false)
    } else {
        page_taken(walk_after(cursor, pages.drop_last()), pages.last())
    }
}

impl Drain {
    /// Where the walk stands: its cursor, and whether it is done.
    pub open spec fn stands(self) -> (Option<Seq<char>>, bool) {
        (opt_text(self.cursor), self.done)
    }

    pub fn from(cursor: Option<String>) -> (r: Self)
        ensures
            r.stands() == walk_after(opt_text(cursor), Seq::<Seq<Seq<char>>>::empty()),
            r.applied == 0,
            r.total is None,
    {
        Drain { cursor, applied: 0, total: None, done: false }
    }

    /// Takes in a page, of whose entries `inserted` were new. A page that is not
    /// full is the last, by the entries it has and not by any count it claims;
    /// after a full one the walk goes on from its last entry. An older server
    /// sends no total, and the last one seen stands.
    pub fn take_page(&mut self, ids: &Vec<String>, inserted: usize, total: Option<i64>)
        requires
            old(self).applied + inserted <= usize::MAX,
        ensures
            final(self).applied == old(self).applied + inserted,
            final(self).total == if total is Some {
                total
            } else {
                old(self).total
            },
            final(self).stands() == page_taken(old(self).stands(), texts(ids@)),
    {
        if total.is_some() {
            self.total = total;
        }
        self.applied = self.applied + inserted;
        if ids.len() < MEMORY_SINCE_PULL_LIMIT {
            self.done = true;
        } else {
            self.cursor = Some(ids[ids.len() - 1].clone());
            assert(texts(ids@).last() == ids@[ids.len() - 1]@);
        }
    }
}

/// Whether some page was not full.
pub open spec fn drained(pages: Seq<Seq<Seq<char>>>) -> bool {
    exists|i: int| 0 <= i < pages.len() && (#[trigger] pages[i]).len() < MEMORY_SINCE_PULL_LIMIT
}

/// Whether `i` is the last full page.
pub open spec fn last_full(pages: Seq<Seq<Seq<char>>>, i: int) -> bool {
    0 <= i < pages.len() && pages[i].len() >= MEMORY_SINCE_PULL_LIMIT && forall|k: int|
        i < k < pages.len() ==> (#[trigger] pages[k]).len() < MEMORY_SINCE_PULL_LIMIT
}

/// A walk is done with the first page that is not full, and with no page before
/// it. Its cursor is the last id of the last full page, and where it began while
/// there was none.
pub proof fn law_a_walk_ends_at_the_first_short_page(
    cursor: Option<Seq<char>>,
    pages: Seq<Seq<Seq<char>>>,
)
    ensures
        walk_after(cursor, pages).1 == drained(pages),
        forall|i: int| #[trigger]
            last_full(pages, i) ==> walk_after(cursor, pages).0 == Some(pages[i].last()),
        (forall|i: int| !#[trigger] last_full(pages, i)) ==> walk_after(cursor, pages).0 == cursor,
    decreases pages.len(),
{
    if pages.len() > 0 {
        let d = pages.drop_last();
        let n = pages.len() - 1;
        law_a_walk_ends_at_the_first_short_page(cursor, d);
        if drained(d) {
            let i = choose|i: int|
                0 <= i < d.len() && (#[trigger] d[i]).len() < MEMORY_SINCE_PULL_LIMIT;
            assert(pages[i].len() < MEMORY_SINCE_PULL_LIMIT);
        }
        if drained(pages) {
            let i = choose|i: int|
                0 <= i < pages.len() && (#[trigger] pages[i]).len() < MEMORY_SINCE_PULL_LIMIT;
            if i < n {
                assert(d[i].len() < MEMORY_SINCE_PULL_LIMIT);
            }
        }
        if pages[n].len() >= MEMORY_SINCE_PULL_LIMIT {
            assert(last_full(pages, n));
            assert forall|i: int| #[trigger] last_full(pages, i) implies walk_after(cursor, pages).0
                == Some(pages[i].last()) by {
                if i < n {
                    assert(pages[n].len() < MEMORY_SINCE_PULL_LIMIT);
                }
            }
        } else {
            assert forall|i: int| #[trigger] last_full(pages, i) implies walk_after(cursor, pages).0
                == Some(pages[i].last()) by {
                assert forall|k: int| i < k < d.len() implies (#[trigger] d[k]).len()
                    < MEMORY_SINCE_PULL_LIMIT by {
                    assert(pages[k] == d[k]);
                }
                assert(last_full(d, i));
            }
            if forall|i: int| !#[trigger] last_full(pages, i) {
                assert forall|i: int| !#[trigger] last_full(d, i) by {
                    if last_full(d, i) {
                        assert forall|k: int| i < k < pages.len() implies (#[trigger]
                        pages[k]).len() < MEMORY_SINCE_PULL_LIMIT by {
                            if k < n {
                                assert(d[k] == pages[k]);
                            }
                        }
                        assert(last_full(pages, i));
                    }
                }
            }
        }
    }
}

/// Whether everything is pulled again from the beginning: a walk forward cannot
/// reach entries whose ids sort behind the cursor, so a server that holds more
/// active entries than the store has some that were missed. A server that says
/// no total is never pulled again.
pub fn re_pull_due(server_total: Option<i64>, local_count: i64) -> (r: bool)
    ensures
        r == (server_total is Some && server_total->0 > local_count),
{
    match server_total {
        Some(total) => total > local_count,
        None => false,
    }
}

/// The summary of a pull: what the walk applied, what pulling everything again
/// applied where that was due, and what was done for the vectors. The vectors
/// come last and once, so that making them cannot undo what was applied.
pub fn pull_and_apply(applied: usize, re_applied: Option<usize>, repair: RepairCounts) -> (r:
    PullSummary)
    requires
        re_applied is Some ==> applied + re_applied->0 <= usize::MAX,
    ensures
        r.applied == applied + (match re_applied {
            Some(n) => n as int,
            None => 0,
        }),
        r.embedded_locally == repair.embedded,
        r.without_local_vector == repair.without_vector,
{
    let total: usize = match re_applied {
        Some(n) => applied + n,
        None => applied,
    };
    PullSummary {
        applied: total,
        embedded_locally: repair.embedded,
        without_local_vector: repair.without_vector,
    }
}

/// The positions below `n` of the rows that were synced.
pub open spec fn synced_upto(rows: Seq<SyncRow>, n: int) -> Seq<int>
    decreases n,
{
    if n <= 0 {
        Seq::<int>::empty()
    } else {
        let before = synced_upto(rows, n - 1);
        if rows[n - 1].remote_id is Some {
            before.push(n - 1)
        } else {
            before
        }
    }
}

/// A pull looks after a row's vector if and only if the row was synced.
pub proof fn law_a_pull_looks_after_synced_rows(rows: Seq<SyncRow>, n: int, p: int)
    requires
        0 <= n <= rows.len(),
    ensures
        synced_upto(rows, n).contains(p) <==> 0 <= p < n && rows[p].remote_id is Some,
        forall|a: int, b: int|
            0 <= a < b < synced_upto(rows, n).len() ==> #[trigger] synced_upto(rows, n)[a]
                < #[trigger] synced_upto(rows, n)[b],
        forall|a: int|
            0 <= a < synced_upto(rows, n).len() ==> 0 <= #[trigger] synced_upto(rows, n)[a] < n,
    decreases n,
{
    if n > 0 {
        law_a_pull_looks_after_synced_rows(rows, n - 1, p);
        let before = synced_upto(rows, n - 1);
        let now = synced_upto(rows, n);
        if before.contains(p) {
            let k = choose|k: int| 0 <= k < before.len() && before[k] == p;
            assert(now[k] == p);
        }
        if now.contains(p) {
            let k = choose|k: int| 0 <= k < now.len() && now[k] == p;
            if k < before.len() {
                assert(before[k] == p);
            }
        }
        if rows[n - 1].remote_id is Some {
            assert(now[before.len() as int] == n - 1);
        }
    }
}

/// The rows whose vectors a pull looks after: those that were synced, by this
/// pull or an earlier one.
pub fn synced_rows(rows: &Vec<SyncRow>) -> (r: Vec<usize>)
    ensures
        positions(r@) == synced_upto(rows@, rows.len() as int),
{
    let mut out: Vec<usize> = Vec::new();
    let mut i: usize = 0;
    assert(positions(out@) =~= Seq::<int>::empty());
    while i < rows.len()
        invariant
            i <= rows.len(),
            positions(out@) == synced_upto(rows@, i as int),
        decreases rows.len() - i,
    {
        if rows[i].remote_id.is_some() {
            let ghost before = positions(out@);
            out.push(i);
            assert(positions(out@) =~= before.push(i as int));
        }
        i = i + 1;
    }
    out
}

/// Where a walk stands is its cursor and whether it is done. A full page moves the
/// cursor to its last entry; one that is not full ends the walk and moves nothing.
pub proof fn law_a_page_moves_the_walk(
    d: Drain,
    at: (Option<Seq<char>>, bool),
    ids: Seq<Seq<char>>,
)
    ensures
        d.stands().0 == opt_text(d.cursor),
        d.stands().1 == d.done,
        ids.len() < 100 ==> page_taken(at, ids).1 && page_taken(at, ids).0 == at.0,
        ids.len() >= 100 ==> page_taken(at, ids).1 == at.1 && page_taken(at, ids).0 == Some(
            ids[ids.len() - 1],
        ),
{
}

} // verus!
