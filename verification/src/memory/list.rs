//! Listing entries.

use crate::memory::note::Note;
use crate::memory::{is_git_notes, wants_git_notes};
use crate::order::{by_key, order_by_key, positions, stable_order};
use crate::text::{opt_str, opt_text, push_text, same, texts};
use crate::textmap::has_text;
use crate::ui::at_most;
use vstd::prelude::*;
use vstd::string::*;

verus! {

/// What a list reads.
#[derive(Clone, Copy, PartialEq, Eq, Structural, Debug)]
pub enum ListSource {
    /// The entries of the local store that have a tag or a file.
    Filtered,
    /// The entries about a commit.
    Commit,
    /// All entries.
    All,
}

/// How a list is made.
#[derive(Clone, Copy, PartialEq, Eq, Structural, Debug)]
pub struct ListPlan {
    /// Git notes are read in place of the local store.
    pub git_notes: bool,
    /// A local relay is asked for news, and notes of a local server are pointed
    /// at, before the store is read.
    pub refresh: bool,
    pub source: ListSource,
    /// Entries of linked projects follow.
    pub cross_project: bool,
}

/// How a list is made. Entries of linked projects follow unless they are not
/// asked for, the list is about a commit or shows archived entries, or the
/// local store is not read.
pub open spec fn list_plan_of(
    git_notes: bool,
    filtered: bool,
    by_commit: bool,
    archived: bool,
    local_only: bool,
) -> ListPlan {
    ListPlan {
        git_notes,
        refresh: !git_notes,
        source: if filtered {
            ListSource::Filtered
        } else if by_commit {
            ListSource::Commit
        } else {
            ListSource::All
        },
        cross_project: !filtered && !local_only && !by_commit && !archived && !git_notes,
    }
}

/// A list by tag or file reads the local store's index of them; one about a commit
/// the entries about it; any other all of them. Only the last is followed by the
/// entries of linked projects, and only where they are asked for, no archived
/// entries are shown and the local store is read.
pub proof fn law_a_list_reads_what_it_is_asked(
    git_notes: bool,
    filtered: bool,
    by_commit: bool,
    archived: bool,
    local_only: bool,
)
    ensures
        ({
            let p = list_plan_of(git_notes, filtered, by_commit, archived, local_only);
            &&& p.git_notes == git_notes
            &&& p.refresh <==> !git_notes
            &&& p.source is Filtered <==> filtered
            &&& p.source is Commit <==> by_commit && !filtered
            &&& p.source is All <==> !by_commit && !filtered
            &&& p.cross_project ==> p.source is All && !archived && !local_only && !git_notes
            &&& p.source is All && !archived && !local_only && !git_notes ==> p.cross_project
        }),
{
}

/// The error for a filter that git notes cannot answer.
pub open spec fn filter_text() -> Seq<char> {
    "--tag/--file require the sqlite backend; re-run without --backend git-notes"@
}

/// How a list is made; an error for a tag or file asked of git notes, which
/// have no index of either.
pub fn memory_list(
    pre_init: bool,
    backend: Option<&str>,
    tag: bool,
    file: bool,
    by_commit: bool,
    archived: bool,
    local_only: bool,
) -> (r: Result<ListPlan, String>)
    ensures
        ({
            let git_notes = pre_init || is_git_notes(opt_str(backend));
            match r {
                Ok(p) => !(git_notes && (tag || file)) && p == list_plan_of(
                    git_notes,
                    tag || file,
                    by_commit,
                    archived,
                    local_only,
                ),
                Err(e) => git_notes && (tag || file) && e@ == filter_text(),
            }
        }),
{
    let git_notes = pre_init || wants_git_notes(backend);
    if tag || file {
        if git_notes {
            return Err(
                "--tag/--file require the sqlite backend; re-run without --backend git-notes".to_owned(),
            );
        }
        return Ok(
            ListPlan {
                git_notes,
                refresh: !git_notes,
                source: ListSource::Filtered,
                cross_project: false,
            },
        );
    }
    Ok(
        ListPlan {
            git_notes,
            refresh: !git_notes,
            source: if by_commit {
                ListSource::Commit
            } else {
                ListSource::All
            },
            cross_project: !local_only && !by_commit && !archived && !git_notes,
        },
    )
}

/// The backend that a list reads.
pub fn effective_override(pre_init: bool, backend: Option<&str>) -> (r: Option<String>)
    ensures
        opt_text(r) == if pre_init {
            Some("git-notes"@)
        } else {
            opt_str(backend)
        },
{
    if pre_init {
        Some("git-notes".to_owned())
    } else {
        crate::text::opt_owned(backend)
    }
}

/// Whether entries that git notes attach to a commit are added to those that
/// name it themselves. Only the local store holds no attachment itself and has
/// the notes at hand.
pub fn augment_due(plan: &ListPlan, backend_kind: &str) -> (r: bool)
    ensures
        r == (plan.source is Commit && backend_kind@ == "sqlite"@),
{
    plan.source == ListSource::Commit && same(backend_kind, "sqlite")
}

/// Whether an entry is of the kind that is asked for.
pub open spec fn of_kind(n: Note, wanted: Option<Seq<char>>) -> bool {
    match wanted {
        Some(w) => n.kind@ == w,
        None => true,
    }
}

/// The entries among the first `n` that are of the kind asked for.
pub open spec fn of_kind_upto(notes: Seq<Note>, wanted: Option<Seq<char>>, n: int) -> Seq<Note>
    decreases n,
{
    if n <= 0 {
        Seq::<Note>::empty()
    } else if of_kind(notes[n - 1], wanted) {
        of_kind_upto(notes, wanted, n - 1).push(notes[n - 1])
    } else {
        of_kind_upto(notes, wanted, n - 1)
    }
}

/// The entries that are of the kind asked for.
pub fn notes_of_kind(notes: Vec<Note>, kind: Option<&str>) -> (r: Vec<Note>)
    ensures
        r@ == of_kind_upto(notes@, opt_str(kind), notes@.len() as int),
{
    let ghost all = notes@;
    let mut out: Vec<Note> = Vec::new();
    for n in it: notes
        invariant
            it.seq() == all,
            out@ == of_kind_upto(all, opt_str(kind), it.index() as int),
    {
        assert(n == all[it.index() as int]);
        let wanted = match kind {
            Some(w) => same(n.kind.as_str(), w),
            None => true,
        };
        if wanted {
            out.push(n);
        }
    }
    out
}

/// Asking for a kind keeps the entries of that kind, in their order, and asking
/// for none keeps all of them.
pub proof fn law_asking_for_a_kind_keeps_that_kind(
    notes: Seq<Note>,
    wanted: Seq<char>,
    n: int,
)
    requires
        0 <= n <= notes.len(),
    ensures
        of_kind_upto(notes, Some(wanted), n) == notes.take(n).filter(
            |m: Note| m.kind@ == wanted,
        ),
        of_kind_upto(notes, None, n) == notes.take(n),
    decreases n,
{
    reveal(Seq::filter);
    if n > 0 {
        law_asking_for_a_kind_keeps_that_kind(notes, wanted, n - 1);
        assert(notes.take(n).drop_last() =~= notes.take(n - 1));
        assert(notes.take(n).last() == notes[n - 1]);
        assert(notes.take(n) =~= notes.take(n - 1).push(notes[n - 1]));
    } else {
        assert(notes.take(0) =~= Seq::<Note>::empty());
    }
}

proof fn lemma_of_kind(notes: Seq<Note>, wanted: Option<Seq<char>>, n: int, i: int)
    requires
        n <= notes.len(),
        0 <= i < of_kind_upto(notes, wanted, n).len(),
    ensures
        of_kind(of_kind_upto(notes, wanted, n)[i], wanted),
    decreases n,
{
    let before = of_kind_upto(notes, wanted, n - 1);
    if i < before.len() {
        lemma_of_kind(notes, wanted, n - 1, i);
    }
}

/// The entries at some positions.
pub open spec fn notes_at(notes: Seq<Note>, at: Seq<int>) -> Seq<Note> {
    at.map_values(|i: int| notes[i])
}

fn pick_notes(all: Vec<Note>, kept: &Vec<usize>) -> (r: Vec<Note>)
    requires
        forall|i: int| 0 <= i < kept.len() ==> (#[trigger] kept@[i]) < all.len(),
        forall|i: int, j: int|
            0 <= i < j < kept.len() ==> #[trigger] kept@[i] != #[trigger] kept@[j],
    ensures
        r@ == notes_at(all@, positions(kept@)),
{
    let ghost notes = all@;
    let mut slots: Vec<Option<Note>> = Vec::new();
    for n in it: all
        invariant
            it.seq() == notes,
            slots.len() == it.index(),
            forall|i: int| 0 <= i < it.index() ==> #[trigger] slots@[i] == Some(notes[i]),
    {
        slots.push(Some(n));
    }
    let mut out: Vec<Note> = Vec::new();
    let ghost want = notes_at(notes, positions(kept@));
    let mut k: usize = 0;
    while k < kept.len()
        invariant
            k <= kept.len(),
            slots.len() == notes.len(),
            want == notes_at(notes, positions(kept@)),
            forall|i: int| 0 <= i < kept.len() ==> (#[trigger] kept@[i]) < notes.len(),
            forall|i: int, j: int|
                0 <= i < j < kept.len() ==> #[trigger] kept@[i] != #[trigger] kept@[j],
            forall|i: int| k <= i < kept.len() ==> slots@[(#[trigger] kept@[i]) as int] == Some(
                notes[kept@[i] as int],
            ),
            out@ =~= want.take(k as int),
        decreases kept.len() - k,
    {
        let at: usize = kept[k];
        assert(slots@[kept@[k as int] as int] == Some(notes[at as int]));
        let slot = slots[at].take();
        if let Some(n) = slot {
            assert(want[k as int] == n);
            out.push(n);
        }
        k = k + 1;
    }
    assert(want.take(k as int) =~= want);
    out
}

/// The creation times of some entries.
pub open spec fn note_times(notes: Seq<Note>) -> Seq<i64> {
    notes.map_values(|n: Note| n.created_at)
}

/// Some entries newest first, at most `limit` of them.
pub open spec fn newest(pool: Seq<Note>, limit: int) -> Seq<Note> {
    let order = stable_order(pool.len(), by_key(note_times(pool), true));
    notes_at(pool, order.take(at_most(order.len() as int, limit)))
}

/// The list that is shown: the entries that were read together with those of
/// linked projects that are of the kind asked for, newest first, at most
/// `limit`.
pub fn listed(notes: Vec<Note>, dep_notes: Vec<Note>, kind: Option<&str>, limit: usize) -> (r: Vec<
    Note,
>)
    ensures
        r@ == newest(
            notes@ + of_kind_upto(dep_notes@, opt_str(kind), dep_notes@.len() as int),
            limit as int,
        ),
{
    let mut pool = notes;
    let mut linked = notes_of_kind(dep_notes, kind);
    pool.append(&mut linked);
    let ghost all = pool@;
    let ghost le = by_key(note_times(all), true);
    assert(all =~= notes@ + of_kind_upto(dep_notes@, opt_str(kind), dep_notes@.len() as int));
    let mut keys: Vec<i64> = Vec::new();
    let mut i: usize = 0;
    while i < pool.len()
        invariant
            i <= pool.len(),
            pool@ == all,
            keys@ =~= note_times(all).take(i as int),
        decreases pool.len() - i,
    {
        keys.push(pool[i].created_at);
        i = i + 1;
    }
    assert(keys@ =~= note_times(all));
    let mut order = order_by_key(&keys, true);
    let ghost o = positions(order@);
    if order.len() > limit {
        order.truncate(limit);
    }
    proof {
        assert(positions(order@) =~= o.take(at_most(o.len() as int, limit as int)));
        crate::order::lemma_stable_order_positions(all.len(), le);
        assert forall|a: int, b: int| 0 <= a < b < order.len() implies #[trigger] order@[a]
            != #[trigger] order@[b] by {
            assert(o[a] == order@[a] as int && o[b] == order@[b] as int);
        }
    }
    pick_notes(pool, &order)
}

/// A list is newest first, and has no more entries than were asked for.
pub proof fn law_a_list_is_newest_first(pool: Seq<Note>, limit: int, a: int, b: int)
    requires
        limit >= 0,
        0 <= a < b < newest(pool, limit).len(),
    ensures
        newest(pool, limit).len() <= limit,
        newest(pool, limit)[a].created_at >= newest(pool, limit)[b].created_at,
{
    let times = note_times(pool);
    let le = by_key(times, true);
    let order = stable_order(pool.len(), le);
    assert(crate::order::total_preorder(le));
    crate::order::lemma_stable_order_sorted(pool.len(), le);
    crate::order::lemma_stable_order_positions(pool.len(), le);
    assert(le(order[a], order[b]));
    assert(order.contains(order[a]));
    assert(order.contains(order[b]));
    assert(times[order[a]] == pool[order[a]].created_at);
    assert(times[order[b]] == pool[order[b]].created_at);
}

/// What a list leaves out is no newer than what it shows: an entry that is not
/// shown finds the list full, and every entry of the list as new.
pub proof fn law_a_list_keeps_the_newest(pool: Seq<Note>, limit: int, k: int)
    requires
        limit >= 0,
        0 <= k < pool.len(),
    ensures
        newest(pool, limit).contains(pool[k]) || (newest(pool, limit).len() == limit
            && forall|a: int|
            0 <= a < newest(pool, limit).len() ==> (#[trigger] newest(pool, limit)[a]).created_at
                >= pool[k].created_at),
{
    let times = note_times(pool);
    let le = by_key(times, true);
    let order = stable_order(pool.len(), le);
    let shown = newest(pool, limit);
    assert(crate::order::total_preorder(le));
    crate::order::lemma_stable_order_sorted(pool.len(), le);
    crate::order::lemma_stable_order_positions(pool.len(), le);
    assert(order.contains(k));
    let i = choose|i: int| 0 <= i < order.len() && order[i] == k;
    if i < shown.len() {
        assert(shown[i] == pool[k]);
    } else {
        assert forall|a: int| 0 <= a < shown.len() implies (#[trigger] shown[a]).created_at
            >= pool[k].created_at by {
            assert(le(order[a], order[i]));
            assert(order.contains(order[a]));
            assert(shown[a] == pool[order[a]]);
            assert(times[order[a]] == pool[order[a]].created_at);
            assert(times[k] == pool[k].created_at);
        }
    }
}

/// Entries of one time stand in the order in which they were read.
pub proof fn law_entries_of_one_time_keep_their_order(pool: Seq<Note>, limit: int, a: int, b: int)
    requires
        limit >= 0,
        0 <= a < b < newest(pool, limit).len(),
        newest(pool, limit)[a].created_at == newest(pool, limit)[b].created_at,
    ensures
        exists|i: int, j: int|
            0 <= i < j < pool.len() && #[trigger] pool[i] == newest(pool, limit)[a]
                && #[trigger] pool[j] == newest(pool, limit)[b],
{
    let times = note_times(pool);
    let le = by_key(times, true);
    let order = stable_order(pool.len(), le);
    crate::order::lemma_stable_order_positions(pool.len(), le);
    crate::order::law_the_order_goes_by_the_key(times, true, a, b);
    let (i, j) = (order[a], order[b]);
    assert(newest(pool, limit)[a] == pool[i]);
    assert(newest(pool, limit)[b] == pool[j]);
    assert(times[i] == pool[i].created_at && times[j] == pool[j].created_at);
    assert(i < j);
}

/// A list shows entries that were read, and as many as there are up to the limit.
pub proof fn law_a_list_shows_what_was_read(pool: Seq<Note>, limit: int, a: int)
    requires
        limit >= 0,
    ensures
        newest(pool, limit).len() == if pool.len() < limit {
            pool.len() as int
        } else {
            limit
        },
        0 <= a < newest(pool, limit).len() ==> pool.contains(newest(pool, limit)[a]),
        pool.len() <= limit ==> newest(pool, limit).to_multiset() == pool.to_multiset(),
{
    broadcast use vstd::seq_lib::group_to_multiset_ensures;

    let le = by_key(note_times(pool), true);
    let order = stable_order(pool.len(), le);
    crate::order::lemma_stable_order_positions(pool.len(), le);
    if 0 <= a < newest(pool, limit).len() {
        assert(order.contains(order[a]));
        assert(newest(pool, limit)[a] == pool[order[a]]);
    }
    if pool.len() <= limit {
        assert(order.take(order.len() as int) =~= order);
        assert(pool.take(pool.len() as int) =~= pool);
        lemma_same_notes(pool, pool.len());
    }
}

proof fn lemma_same_notes(pool: Seq<Note>, n: nat)
    requires
        n <= pool.len(),
    ensures
        notes_at(pool, stable_order(n, by_key(note_times(pool), true))).to_multiset() == pool.take(
            n as int,
        ).to_multiset(),
    decreases n,
{
    broadcast use vstd::seq_lib::group_to_multiset_ensures;

    let le = by_key(note_times(pool), true);
    if n > 0 {
        let m = (n - 1) as nat;
        lemma_same_notes(pool, m);
        lemma_inserted_notes(pool, stable_order(m, le), n - 1, le);
        assert(pool.take(n as int) =~= pool.take(m as int).push(pool[n - 1]));
    } else {
        assert(notes_at(pool, stable_order(0, le)) =~= pool.take(0));
    }
}

proof fn lemma_inserted_notes(
    pool: Seq<Note>,
    sorted: Seq<int>,
    x: int,
    le: spec_fn(int, int) -> bool,
)
    ensures
        notes_at(pool, crate::order::inserted(sorted, x, le)).to_multiset() == notes_at(
            pool,
            sorted,
        ).to_multiset().insert(pool[x]),
    decreases sorted.len(),
{
    broadcast use vstd::seq_lib::group_to_multiset_ensures;

    let r = crate::order::inserted(sorted, x, le);
    if sorted.len() == 0 || le(sorted.last(), x) {
        assert(notes_at(pool, r) =~= notes_at(pool, sorted).push(pool[x]));
    } else {
        let d = sorted.drop_last();
        lemma_inserted_notes(pool, d, x, le);
        assert(notes_at(pool, r) =~= notes_at(pool, crate::order::inserted(d, x, le)).push(
            pool[sorted.last()],
        ));
        assert(notes_at(pool, sorted) =~= notes_at(pool, d).push(pool[sorted.last()]));
        assert(notes_at(pool, r).to_multiset() =~= notes_at(pool, sorted).to_multiset().insert(
            pool[x],
        ));
    }
}

/// What is recorded of a list that was shown.
pub struct ListEvent {
    pub command: String,
    pub returned_ids: Vec<String>,
    pub count: usize,
}

/// What is recorded of a list that was shown: the identities, and how many.
pub fn record_list_event(notes: &Vec<Note>) -> (r: ListEvent)
    ensures
        r.command@ == "memory.list"@,
        texts(r.returned_ids@) == notes@.map_values(|n: Note| n.entity_id@),
        r.count == notes.len(),
{
    let ghost want = notes@.map_values(|n: Note| n.entity_id@);
    let mut ids: Vec<String> = Vec::new();
    let mut i: usize = 0;
    assert(texts(ids@) =~= want.take(0));
    while i < notes.len()
        invariant
            i <= notes.len(),
            want == notes@.map_values(|n: Note| n.entity_id@),
            texts(ids@) == want.take(i as int),
        decreases notes.len() - i,
    {
        proof {
            assert(want[i as int] == notes@[i as int].entity_id@);
            assert(want.take(i + 1) =~= want.take(i as int).push(want[i as int]));
        }
        push_text(&mut ids, notes[i].entity_id.clone());
        i = i + 1;
    }
    assert(want.take(i as int) =~= want);
    ListEvent { command: "memory.list".to_owned(), returned_ids: ids, count: notes.len() }
}

// ---- entries about a commit ------------------------------------------------

/// What a list is ordered and told apart by.
pub struct ListKey {
    pub entity_id: String,
    pub created_at: i64,
}

/// Keys as pairs of an identity and a time.
pub open spec fn key_pairs(v: Seq<ListKey>) -> Seq<(Seq<char>, i64)> {
    v.map_values(|k: ListKey| (k.entity_id@, k.created_at))
}

/// What entries are ordered and told apart by.
pub open spec fn note_keys(v: Seq<Note>) -> Seq<(Seq<char>, i64)> {
    v.map_values(|n: Note| (n.entity_id@, n.created_at))
}

/// The identities of some entries.
pub open spec fn identities(v: Seq<(Seq<char>, i64)>) -> Seq<Seq<char>> {
    v.map_values(|k: (Seq<char>, i64)| k.0)
}

/// The positions of the entries to list, counted through `matches` and then
/// `anchored`: all of the first, and of the first `n` of the second those whose
/// identity stands nowhere before.
pub open spec fn pool_upto(
    matches: Seq<(Seq<char>, i64)>,
    anchored: Seq<(Seq<char>, i64)>,
    n: int,
) -> Seq<int>
    decreases n,
{
    if n <= 0 {
        Seq::new(matches.len(), |i: int| i)
    } else {
        let before = pool_upto(matches, anchored, n - 1);
        let id = anchored[n - 1].0;
        if identities(matches).contains(id) || identities(anchored).take(n - 1).contains(id) {
            before
        } else {
            before.push(matches.len() + n - 1)
        }
    }
}

/// The creation times of the entries at some positions.
pub open spec fn pool_times(all: Seq<(Seq<char>, i64)>, pool: Seq<int>) -> Seq<i64> {
    pool.map_values(|p: int| all[p].1)
}

/// How many entries a list shows at most.
pub open spec fn list_cap(limit: int) -> int {
    at_most(limit, 500)
}

/// The entries about a commit: those that say so themselves together with those
/// that git notes attach to it, each identity of the latter once, newest first.
pub open spec fn augmented(
    matches: Seq<(Seq<char>, i64)>,
    anchored: Seq<(Seq<char>, i64)>,
    limit: int,
) -> Seq<int> {
    let all = matches + anchored;
    let pool = pool_upto(matches, anchored, anchored.len() as int);
    let sorted = stable_order(pool.len(), by_key(pool_times(all, pool), true)).map_values(
        |i: int| pool[i],
    );
    if anchored.len() == 0 {
        Seq::new(matches.len(), |i: int| i)
    } else {
        sorted.take(at_most(sorted.len() as int, list_cap(limit)))
    }
}

fn key_at(matches: &Vec<ListKey>, anchored: &Vec<ListKey>, p: usize) -> (r: i64)
    requires
        p < matches.len() + anchored.len(),
    ensures
        r == (key_pairs(matches@) + key_pairs(anchored@))[p as int].1,
{
    if p < matches.len() {
        matches[p].created_at
    } else {
        anchored[p - matches.len()].created_at
    }
}

/// The entries about a commit, named by their positions in `matches` and then
/// `anchored`. Where git notes attach nothing the matches stay as they are.
pub fn augment_with_note_anchored(
    matches: &Vec<ListKey>,
    anchored: &Vec<ListKey>,
    limit: usize,
) -> (r: Vec<usize>)
    requires
        matches.len() + anchored.len() <= usize::MAX,
    ensures
        positions(r@) == augmented(key_pairs(matches@), key_pairs(anchored@), limit as int),
{
    let ghost mk = key_pairs(matches@);
    let ghost ak = key_pairs(anchored@);
    let ghost all = mk + ak;
    let mut pool: Vec<usize> = Vec::new();
    let mut seen: Vec<String> = Vec::new();
    let mut i: usize = 0;
    assert(texts(seen@) =~= Seq::<Seq<char>>::empty());
    assert(identities(mk).take(0) =~= Seq::<Seq<char>>::empty());
    while i < matches.len()
        invariant
            i <= matches.len(),
            pool.len() == i,
            forall|k: int| 0 <= k < i ==> (#[trigger] pool@[k]) == k,
            mk == key_pairs(matches@),
            texts(seen@) == identities(mk).take(i as int),
        decreases matches.len() - i,
    {
        pool.push(i);
        proof {
            assert(identities(mk)[i as int] == matches@[i as int].entity_id@);
            assert(identities(mk).take(i + 1) =~= identities(mk).take(i as int).push(
                matches@[i as int].entity_id@,
            ));
        }
        push_text(&mut seen, matches[i].entity_id.clone());
        i = i + 1;
    }
    proof {
        assert(positions(pool@) =~= Seq::new(mk.len(), |i: int| i));
        assert(identities(mk).take(i as int) =~= identities(mk));
    }
    if anchored.len() == 0 {
        return pool;
    }
    let mut j: usize = 0;
    assert(identities(mk) + identities(ak).take(0) =~= identities(mk));
    while j < anchored.len()
        invariant
            j <= anchored.len(),
            matches.len() + anchored.len() <= usize::MAX,
            mk == key_pairs(matches@),
            ak == key_pairs(anchored@),
            texts(seen@) == identities(mk) + identities(ak).take(j as int),
            positions(pool@) == pool_upto(mk, ak, j as int),
            forall|k: int| 0 <= k < pool.len() ==> (#[trigger] pool@[k]) < matches.len() + j,
        decreases anchored.len() - j,
    {
        let id = anchored[j].entity_id.clone();
        let ghost earlier = identities(ak).take(j as int);
        proof {
            lemma_concat_contains(identities(mk), earlier, id@);
            assert(identities(ak)[j as int] == id@);
            assert(identities(ak).take(j + 1) =~= earlier.push(id@));
            assert((identities(mk) + earlier).push(id@) =~= identities(mk)
                + earlier.push(id@));
        }
        if !has_text(&seen, id.as_str()) {
            let ghost before = positions(pool@);
            pool.push(matches.len() + j);
            assert(positions(pool@) =~= before.push(matches.len() + j));
        }
        push_text(&mut seen, id);
        j = j + 1;
    }
    let ghost p = positions(pool@);
    let mut keys: Vec<i64> = Vec::new();
    let mut k: usize = 0;
    while k < pool.len()
        invariant
            k <= pool.len(),
            p == positions(pool@),
            all == mk + ak,
            mk == key_pairs(matches@),
            ak == key_pairs(anchored@),
            forall|k: int|
                0 <= k < pool.len() ==> (#[trigger] pool@[k]) < matches.len() + anchored.len(),
            keys@ == pool_times(all, p).take(k as int),
        decreases pool.len() - k,
    {
        keys.push(key_at(matches, anchored, pool[k]));
        assert(pool_times(all, p)[k as int] == all[pool@[k as int] as int].1);
        k = k + 1;
        assert(keys@ =~= pool_times(all, p).take(k as int));
    }
    assert(keys@ =~= pool_times(all, p));
    let order = order_by_key(&keys, true);
    let ghost o = positions(order@);
    let mut out: Vec<usize> = Vec::new();
    let mut m: usize = 0;
    let ghost sorted = o.map_values(|i: int| p[i]);
    while m < order.len()
        invariant
            m <= order.len(),
            order.len() == pool.len(),
            p == positions(pool@),
            o == positions(order@),
            sorted == o.map_values(|i: int| p[i]),
            forall|k: int| 0 <= k < order.len() ==> (#[trigger] order@[k]) < pool.len(),
            positions(out@) == sorted.take(m as int),
        decreases order.len() - m,
    {
        let ghost before = positions(out@);
        out.push(pool[order[m]]);
        proof {
            assert(o[m as int] == order@[m as int] as int);
            assert(sorted[m as int] == pool@[order@[m as int] as int] as int);
            assert(positions(out@) =~= before.push(sorted[m as int]));
            assert(sorted.take(m + 1) =~= sorted.take(m as int).push(sorted[m as int]));
        }
        m = m + 1;
    }
    assert(sorted.take(m as int) =~= sorted);
    let cap: usize = if limit < 500 {
        limit
    } else {
        500
    };
    if out.len() > cap {
        out.truncate(cap);
    }
    assert(positions(out@) =~= sorted.take(at_most(sorted.len() as int, list_cap(limit as int))));
    out
}

/// How many entries about a commit are read. Where a kind is asked for, all that
/// a list can show are, so that the kind is picked before the list is cut.
pub fn commit_fetch(limit: usize, by_kind: bool) -> (r: usize)
    ensures
        r == if by_kind && limit < 500 {
            500
        } else {
            limit
        },
{
    if by_kind && limit < 500 {
        500
    } else {
        limit
    }
}

fn list_keys(notes: &Vec<Note>) -> (r: Vec<ListKey>)
    ensures
        key_pairs(r@) == note_keys(notes@),
{
    let mut out: Vec<ListKey> = Vec::new();
    let mut i: usize = 0;
    while i < notes.len()
        invariant
            i <= notes.len(),
            out.len() == i,
            forall|k: int|
                0 <= k < i ==> (#[trigger] out@[k]).entity_id@ == notes@[k].entity_id@
                    && out@[k].created_at == notes@[k].created_at,
        decreases notes.len() - i,
    {
        out.push(
            ListKey { entity_id: notes[i].entity_id.clone(), created_at: notes[i].created_at },
        );
        i = i + 1;
    }
    assert(key_pairs(out@) =~= note_keys(notes@));
    out
}

/// The list of the entries about a commit: those of the kind asked for among
/// the ones that name it and the ones that git notes attach to it, put together
/// as `augmented` says.
pub open spec fn commit_notes(
    matches: Seq<Note>,
    anchored: Seq<Note>,
    kind: Option<Seq<char>>,
    limit: int,
) -> Seq<Note> {
    let m = of_kind_upto(matches, kind, matches.len() as int);
    let a = of_kind_upto(anchored, kind, anchored.len() as int);
    notes_at(m + a, augmented(note_keys(m), note_keys(a), limit))
}

/// The entries about a commit, of the kind asked for.
pub fn commit_list(
    matches: Vec<Note>,
    anchored: Vec<Note>,
    kind: Option<&str>,
    limit: usize,
) -> (r: Vec<Note>)
    requires
        matches.len() + anchored.len() <= usize::MAX,
    ensures
        r@ == commit_notes(matches@, anchored@, opt_str(kind), limit as int),
{
    proof {
        lemma_of_kind_len(matches@, opt_str(kind), matches@.len() as int);
        lemma_of_kind_len(anchored@, opt_str(kind), anchored@.len() as int);
        assert(matches@.len() == matches.len() && anchored@.len() == anchored.len());
    }
    let mut m = notes_of_kind(matches, kind);
    let mut a = notes_of_kind(anchored, kind);
    let ghost gm = m@;
    let ghost ga = a@;
    let mk = list_keys(&m);
    let ak = list_keys(&a);
    assert(key_pairs(mk@).len() == gm.len() && key_pairs(ak@).len() == ga.len());
    let order = augment_with_note_anchored(&mk, &ak, limit);
    m.append(&mut a);
    assert(m@ =~= gm + ga);
    proof {
        let o = augmented(note_keys(gm), note_keys(ga), limit as int);
        lemma_augmented_positions(note_keys(gm), note_keys(ga), limit as int);
        assert forall|i: int| 0 <= i < order.len() implies (#[trigger] order@[i]) < m.len() by {
            assert(o[i] == order@[i] as int);
        }
        assert forall|i: int, j: int| 0 <= i < j < order.len() implies #[trigger] order@[i]
            != #[trigger] order@[j] by {
            assert(o[i] == order@[i] as int && o[j] == order@[j] as int);
        }
    }
    pick_notes(m, &order)
}

proof fn lemma_of_kind_len(notes: Seq<Note>, wanted: Option<Seq<char>>, n: int)
    requires
        0 <= n,
    ensures
        of_kind_upto(notes, wanted, n).len() <= n,
    decreases n,
{
    if n > 0 {
        lemma_of_kind_len(notes, wanted, n - 1);
    }
}

proof fn lemma_pool(matches: Seq<(Seq<char>, i64)>, anchored: Seq<(Seq<char>, i64)>, n: int)
    requires
        0 <= n <= anchored.len(),
    ensures
        forall|i: int|
            0 <= i < pool_upto(matches, anchored, n).len() ==> 0 <= #[trigger] pool_upto(
                matches,
                anchored,
                n,
            )[i] < matches.len() + n,
        forall|i: int, j: int|
            0 <= i < j < pool_upto(matches, anchored, n).len() ==> #[trigger] pool_upto(
                matches,
                anchored,
                n,
            )[i] < #[trigger] pool_upto(matches, anchored, n)[j],
    decreases n,
{
    if n > 0 {
        lemma_pool(matches, anchored, n - 1);
        let before = pool_upto(matches, anchored, n - 1);
        let now = pool_upto(matches, anchored, n);
        assert forall|i: int| 0 <= i < now.len() implies 0 <= #[trigger] now[i] < matches.len()
            + n by {
            if i < before.len() {
                assert(now[i] == before[i]);
            }
        }
        assert forall|i: int, j: int| 0 <= i < j < now.len() implies #[trigger] now[i]
            < #[trigger] now[j] by {
            assert(now[i] == before[i]);
            if j < before.len() {
                assert(now[j] == before[j]);
            }
        }
    }
}

proof fn lemma_augmented_positions(
    matches: Seq<(Seq<char>, i64)>,
    anchored: Seq<(Seq<char>, i64)>,
    limit: int,
)
    requires
        limit >= 0,
    ensures
        forall|i: int|
            0 <= i < augmented(matches, anchored, limit).len() ==> 0 <= #[trigger] augmented(
                matches,
                anchored,
                limit,
            )[i] < matches.len() + anchored.len(),
        augmented(matches, anchored, limit).no_duplicates(),
{
    let pool = pool_upto(matches, anchored, anchored.len() as int);
    let le = by_key(pool_times(matches + anchored, pool), true);
    let order = stable_order(pool.len(), le);
    lemma_pool(matches, anchored, anchored.len() as int);
    crate::order::lemma_stable_order_positions(pool.len(), le);
    let r = augmented(matches, anchored, limit);
    if anchored.len() > 0 {
        assert forall|i: int| 0 <= i < r.len() implies 0 <= #[trigger] r[i] < matches.len()
            + anchored.len() by {
            assert(order.contains(order[i]));
            assert(r[i] == pool[order[i]]);
        }
        assert forall|i: int, j: int|
            0 <= i < r.len() && 0 <= j < r.len() && i != j implies r[i] != r[j] by {
            assert(order.contains(order[i]) && order.contains(order[j]));
            assert(r[i] == pool[order[i]] && r[j] == pool[order[j]]);
            assert(order[i] != order[j]);
            if order[i] < order[j] {
                assert(pool[order[i]] < pool[order[j]]);
            } else {
                assert(pool[order[j]] < pool[order[i]]);
            }
        }
    }
}

/// Every entry that is listed about a commit is of the kind asked for.
pub proof fn law_a_commit_list_is_of_its_kind(
    matches: Seq<Note>,
    anchored: Seq<Note>,
    kind: Option<Seq<char>>,
    limit: int,
    i: int,
)
    requires
        limit >= 0,
        0 <= i < commit_notes(matches, anchored, kind, limit).len(),
    ensures
        of_kind(commit_notes(matches, anchored, kind, limit)[i], kind),
{
    let m = of_kind_upto(matches, kind, matches.len() as int);
    let a = of_kind_upto(anchored, kind, anchored.len() as int);
    lemma_augmented_positions(note_keys(m), note_keys(a), limit);
    let p = augmented(note_keys(m), note_keys(a), limit)[i];
    if p < m.len() {
        lemma_of_kind(matches, kind, matches.len() as int, p);
    } else {
        lemma_of_kind(anchored, kind, anchored.len() as int, p - m.len());
    }
}

proof fn lemma_concat_contains(a: Seq<Seq<char>>, b: Seq<Seq<char>>, x: Seq<char>)
    ensures
        (a + b).contains(x) <==> (a.contains(x) || b.contains(x)),
{
    let c = a + b;
    if a.contains(x) {
        let k = choose|k: int| 0 <= k < a.len() && a[k] == x;
        assert(c[k] == x);
    }
    if b.contains(x) {
        let k = choose|k: int| 0 <= k < b.len() && b[k] == x;
        assert(c[a.len() + k] == x);
    }
    if c.contains(x) {
        let k = choose|k: int| 0 <= k < c.len() && c[k] == x;
        if k < a.len() {
            assert(a[k] == x);
        } else {
            assert(b[k - a.len()] == x);
        }
    }
}

/// The entries about a commit are listed newest first, and no more of them than
/// were asked for.
pub proof fn law_augmented_is_newest_first(
    matches: Seq<(Seq<char>, i64)>,
    anchored: Seq<(Seq<char>, i64)>,
    limit: int,
    a: int,
    b: int,
)
    requires
        anchored.len() > 0,
        limit >= 0,
        0 <= a < b < augmented(matches, anchored, limit).len(),
    ensures
        augmented(matches, anchored, limit).len() <= limit,
        (matches + anchored)[augmented(matches, anchored, limit)[a]].1 >= (matches
            + anchored)[augmented(matches, anchored, limit)[b]].1,
{
    let all = matches + anchored;
    let pool = pool_upto(matches, anchored, anchored.len() as int);
    let times = pool_times(all, pool);
    let le = by_key(times, true);
    let order = stable_order(pool.len(), le);
    assert(crate::order::total_preorder(le));
    crate::order::lemma_stable_order_sorted(pool.len(), le);
    crate::order::lemma_stable_order_positions(pool.len(), le);
    assert(le(order[a], order[b]));
    assert(order.contains(order[a]));
    assert(order.contains(order[b]));
    assert(times[order[a]] == all[pool[order[a]]].1);
    assert(times[order[b]] == all[pool[order[b]]].1);
}

proof fn lemma_pool_keeps(
    matches: Seq<(Seq<char>, i64)>,
    anchored: Seq<(Seq<char>, i64)>,
    n: int,
    p: int,
)
    requires
        0 <= n <= anchored.len(),
    ensures
        pool_upto(matches, anchored, n).contains(p) <==> (0 <= p < matches.len()) || (
        matches.len() <= p < matches.len() + n && (forall|k: int|
            0 <= k < matches.len() ==> (#[trigger] matches[k]).0 != anchored[p - matches.len()].0)
            && (forall|k: int|
            0 <= k < p - matches.len() ==> (#[trigger] anchored[k]).0 != anchored[p
                - matches.len()].0)),
    decreases n,
{
    let now = pool_upto(matches, anchored, n);
    if n > 0 {
        lemma_pool_keeps(matches, anchored, n - 1, p);
        let before = pool_upto(matches, anchored, n - 1);
        let id = anchored[n - 1].0;
        let earlier = identities(anchored).take(n - 1);
        assert(identities(matches).contains(id) <==> exists|k: int|
            0 <= k < matches.len() && (#[trigger] matches[k]).0 == id) by {
            if identities(matches).contains(id) {
                let k = choose|k: int|
                    0 <= k < identities(matches).len() && identities(matches)[k] == id;
                assert(matches[k].0 == id);
            }
            if exists|k: int| 0 <= k < matches.len() && (#[trigger] matches[k]).0 == id {
                let k = choose|k: int| 0 <= k < matches.len() && (#[trigger] matches[k]).0 == id;
                assert(identities(matches)[k] == id);
            }
        }
        assert(earlier.contains(id) <==> exists|k: int|
            0 <= k < n - 1 && (#[trigger] anchored[k]).0 == id) by {
            if earlier.contains(id) {
                let k = choose|k: int| 0 <= k < earlier.len() && earlier[k] == id;
                assert(anchored[k].0 == id);
            }
            if exists|k: int| 0 <= k < n - 1 && (#[trigger] anchored[k]).0 == id {
                let k = choose|k: int| 0 <= k < n - 1 && (#[trigger] anchored[k]).0 == id;
                assert(earlier[k] == id);
            }
        }
        if before.contains(p) {
            let k = choose|k: int| 0 <= k < before.len() && before[k] == p;
            assert(now[k] == p);
        }
        if now.contains(p) {
            let k = choose|k: int| 0 <= k < now.len() && now[k] == p;
            if k < before.len() {
                assert(before[k] == p);
            }
        }
        if !(identities(matches).contains(id) || earlier.contains(id)) {
            assert(now[before.len() as int] == matches.len() + n - 1);
        }
    } else {
        if 0 <= p < matches.len() {
            assert(now[p] == p);
        }
    }
}

/// Where there is room, a list about a commit has every entry that names the
/// commit, and every attached one whose identity none of those and no attached
/// one before it has; it has nothing else, and shows at most five hundred.
pub proof fn law_a_commit_list_leaves_nothing_out(
    matches: Seq<(Seq<char>, i64)>,
    anchored: Seq<(Seq<char>, i64)>,
    limit: int,
    p: int,
)
    requires
        anchored.len() > 0,
        limit >= 0,
    ensures
        augmented(matches, anchored, limit).len() <= 500,
        limit >= matches.len() + anchored.len() && 500 >= matches.len() + anchored.len() ==> (
        augmented(matches, anchored, limit).contains(p) <==> (0 <= p < matches.len()) || (
        matches.len() <= p < matches.len() + anchored.len() && (forall|k: int|
            0 <= k < matches.len() ==> (#[trigger] matches[k]).0 != anchored[p - matches.len()].0)
            && (forall|k: int|
            0 <= k < p - matches.len() ==> (#[trigger] anchored[k]).0 != anchored[p
                - matches.len()].0))),
{
    let n = anchored.len() as int;
    let pool = pool_upto(matches, anchored, n);
    let le = by_key(pool_times(matches + anchored, pool), true);
    let order = stable_order(pool.len(), le);
    let sorted = order.map_values(|i: int| pool[i]);
    crate::order::lemma_stable_order_positions(pool.len(), le);
    lemma_pool_keeps(matches, anchored, n, p);
    lemma_pool_len(matches, anchored, n);
    if limit >= matches.len() + anchored.len() && 500 >= matches.len() + anchored.len() {
        assert(sorted.take(sorted.len() as int) =~= sorted);
        assert(augmented(matches, anchored, limit) == sorted);
        if sorted.contains(p) {
            let k = choose|k: int| 0 <= k < sorted.len() && sorted[k] == p;
            assert(order.contains(order[k]));
            assert(pool[order[k]] == p);
        }
        if pool.contains(p) {
            let i = choose|i: int| 0 <= i < pool.len() && pool[i] == p;
            assert(order.contains(i));
            let k = choose|k: int| 0 <= k < order.len() && order[k] == i;
            assert(sorted[k] == p);
        }
    }
}

proof fn lemma_pool_len(matches: Seq<(Seq<char>, i64)>, anchored: Seq<(Seq<char>, i64)>, n: int)
    requires
        0 <= n <= anchored.len(),
    ensures
        matches.len() <= pool_upto(matches, anchored, n).len() <= matches.len() + n,
    decreases n,
{
    if n > 0 {
        lemma_pool_len(matches, anchored, n - 1);
    }
}

/// Where git notes attach nothing, the entries that name the commit are listed as
/// they were read.
pub proof fn law_without_attachments_the_matches_stay(
    matches: Seq<Note>,
    kind: Seq<char>,
    limit: int,
)
    ensures
        commit_notes(matches, Seq::<Note>::empty(), None, limit) == matches,
        commit_notes(matches, Seq::<Note>::empty(), Some(kind), limit) == matches.filter(
            |n: Note| n.kind@ == kind,
        ),
{
    let none = Seq::<Note>::empty();
    let n = matches.len() as int;
    law_asking_for_a_kind_keeps_that_kind(matches, kind, n);
    assert(matches.take(n) =~= matches);
    let m = of_kind_upto(matches, Some(kind), n);
    assert(commit_notes(matches, none, None, limit) =~= matches);
    assert(commit_notes(matches, none, Some(kind), limit) =~= m);
}

/// What a list is ordered and told apart by is the entry's identity and its time.
pub proof fn law_entries_are_told_apart_by_identity(v: Seq<Note>, i: int)
    requires
        0 <= i < v.len(),
    ensures
        note_keys(v).len() == v.len(),
        note_keys(v)[i].0 == v[i].entity_id@,
        note_keys(v)[i].1 == v[i].created_at,
{
}

/// Every entry that is listed about a commit was read about it, and is of the kind
/// asked for.
pub proof fn law_a_commit_list_shows_what_was_read(
    matches: Seq<Note>,
    anchored: Seq<Note>,
    kind: Option<Seq<char>>,
    limit: int,
    i: int,
)
    requires
        limit >= 0,
        0 <= i < commit_notes(matches, anchored, kind, limit).len(),
    ensures
        matches.contains(commit_notes(matches, anchored, kind, limit)[i]) || anchored.contains(
            commit_notes(matches, anchored, kind, limit)[i],
        ),
        kind is Some ==> commit_notes(matches, anchored, kind, limit)[i].kind@ == kind->0,
{
    let m = of_kind_upto(matches, kind, matches.len() as int);
    let a = of_kind_upto(anchored, kind, anchored.len() as int);
    law_a_commit_list_is_of_its_kind(matches, anchored, kind, limit, i);
    lemma_augmented_positions(note_keys(m), note_keys(a), limit);
    let p = augmented(note_keys(m), note_keys(a), limit)[i];
    let k = if kind is Some {
        kind->0
    } else {
        Seq::<char>::empty()
    };
    law_asking_for_a_kind_keeps_that_kind(matches, k, matches.len() as int);
    law_asking_for_a_kind_keeps_that_kind(anchored, k, anchored.len() as int);
    assert(matches.take(matches.len() as int) =~= matches);
    assert(anchored.take(anchored.len() as int) =~= anchored);
    let shown = commit_notes(matches, anchored, kind, limit)[i];
    let same_kind = |n: Note| n.kind@ == k;
    if p < m.len() {
        assert(m[p] == shown);
        assert(m.contains(shown));
        if kind is Some {
            matches.lemma_filter_contains_rev(same_kind, shown);
        }
    } else {
        assert(a[p - m.len()] == shown);
        assert(a.contains(shown));
        if kind is Some {
            anchored.lemma_filter_contains_rev(same_kind, shown);
        }
    }
}

/// A list is ordered and told apart by the keys it was given.
pub proof fn law_keys_are_what_they_hold(v: Seq<ListKey>, i: int)
    ensures
        key_pairs(v).len() == v.len(),
        0 <= i < v.len() ==> key_pairs(v)[i].0 == v[i].entity_id@ && key_pairs(v)[i].1
            == v[i].created_at,
{
}

} // verus!
