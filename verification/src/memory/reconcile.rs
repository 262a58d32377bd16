//! Bringing notes that a local server recorded, or that git notes carry, into
//! the project's own memory store.

use crate::order::{
    by_key, lemma_stable_order_positions, lemma_stable_order_sorted, order_by_key, positions,
    stable_order,
};
use crate::text::{
    dec, dec_usize, law_pieces_add_up, lemma_texts_push, pieces, same, split_on, texts, trim, trimmed,
};
use crate::textmap::{has_text, TextMap};
use vstd::prelude::*;
use vstd::string::*;

verus! {

// ---- comma-separated lists -------------------------------------------------

/// The items of a comma-separated list: trimmed, the empty ones left out.
pub open spec fn csv_items(csv: Seq<char>) -> Seq<Seq<char>> {
    pieces(csv, ',').map_values(|p: Seq<char>| trimmed(p)).filter(|p: Seq<char>| p.len() > 0)
}

/// A text is an item of a list if and only if it is what a part between commas
/// holds within its whitespace; a part that holds nothing gives no item.
pub proof fn law_items_are_what_stands_between_commas(csv: Seq<char>, t: Seq<char>)
    ensures
        csv_items(csv).contains(t) <==> t.len() > 0 && exists|k: int|
            0 <= k < pieces(csv, ',').len() && trimmed(#[trigger] pieces(csv, ',')[k]) == t,
{
    let all = pieces(csv, ',').map_values(|p: Seq<char>| trimmed(p));
    let keep = |p: Seq<char>| p.len() > 0;
    let kept = all.filter(keep);
    if kept.contains(t) {
        let i = choose|i: int| 0 <= i < kept.len() && kept[i] == t;
        all.lemma_filter_pred(keep, i);
        all.lemma_filter_contains_rev(keep, t);
        let k = choose|k: int| 0 <= k < all.len() && all[k] == t;
        assert(trimmed(pieces(csv, ',')[k]) == t);
    }
    if t.len() > 0 && exists|k: int|
        0 <= k < pieces(csv, ',').len() && trimmed(#[trigger] pieces(csv, ',')[k]) == t {
        let k = choose|k: int|
            0 <= k < pieces(csv, ',').len() && trimmed(#[trigger] pieces(csv, ',')[k]) == t;
        assert(all[k] == t);
        all.lemma_filter_contains(keep, k);
    }
}

/// The items of two lists with a comma between them are those of the one and
/// then those of the other.
pub proof fn law_lists_add_up(a: Seq<char>, b: Seq<char>)
    ensures
        csv_items(a + seq![','] + b) == csv_items(a) + csv_items(b),
{
    let f = |p: Seq<char>| trimmed(p);
    let keep = |p: Seq<char>| p.len() > 0;
    law_pieces_add_up(a, b, ',');
    let pa = pieces(a, ',');
    let pb = pieces(b, ',');
    assert((pa + pb).map_values(f) =~= pa.map_values(f) + pb.map_values(f));
    Seq::filter_distributes_over_add(pa.map_values(f), pb.map_values(f), keep);
}

/// The items of a comma-separated list: trimmed, the empty ones left out.
pub fn split_csv(csv: &str) -> (r: Vec<String>)
    ensures
        texts(r@) == csv_items(csv@),
{
    let parts = split_on(csv, ',');
    let ghost all = pieces(csv@, ',').map_values(|p: Seq<char>| trimmed(p));
    let ghost keep = |p: Seq<char>| p.len() > 0;
    let mut out: Vec<String> = Vec::new();
    let mut i: usize = 0;
    proof {
        reveal(Seq::filter);
        assert(all.take(0).filter(keep) =~= Seq::<Seq<char>>::empty());
        assert(texts(out@) =~= Seq::<Seq<char>>::empty());
    }
    while i < parts.len()
        invariant
            i <= parts.len(),
            texts(parts@) == pieces(csv@, ','),
            all == pieces(csv@, ',').map_values(|p: Seq<char>| trimmed(p)),
            keep == (|p: Seq<char>| p.len() > 0),
            texts(out@) == all.take(i as int).filter(keep),
        decreases parts.len() - i,
    {
        let item = trim(parts[i].as_str());
        proof {
            reveal(Seq::filter);
            assert(texts(parts@)[i as int] == parts@[i as int]@);
            assert(all[i as int] == item@);
            assert(all.take(i + 1).drop_last() =~= all.take(i as int));
            assert(all.take(i + 1).last() == item@);
            lemma_texts_push(out@, item);
        }
        if !item.as_str().is_empty() {
            out.push(item);
        }
        i = i + 1;
    }
    assert(all.take(i as int) =~= all);
    out
}

/// `base` followed by those of `more` that are not there yet.
pub open spec fn with_missing(base: Seq<Seq<char>>, more: Seq<Seq<char>>) -> Seq<Seq<char>>
    decreases more.len(),
{
    if more.len() == 0 {
        base
    } else {
        let before = with_missing(base, more.drop_last());
        if before.contains(more.last()) {
            before
        } else {
            before.push(more.last())
        }
    }
}

fn add_missing(base: &mut Vec<String>, more: &Vec<String>)
    ensures
        texts(final(base)@) == with_missing(texts(old(base)@), texts(more@)),
{
    let ghost first = texts(base@);
    let ghost items = texts(more@);
    let mut i: usize = 0;
    assert(items.take(0) =~= Seq::<Seq<char>>::empty());
    while i < more.len()
        invariant
            i <= more.len(),
            items == texts(more@),
            texts(base@) == with_missing(first, items.take(i as int)),
        decreases more.len() - i,
    {
        proof {
            assert(items.take(i + 1).drop_last() =~= items.take(i as int));
            assert(items.take(i + 1).last() == more@[i as int]@);
        }
        if !has_text(base, more[i].as_str()) {
            let s = more[i].clone();
            proof {
                lemma_texts_push(base@, s);
            }
            base.push(s);
        }
        i = i + 1;
    }
    assert(items.take(i as int) =~= items);
}

/// Filling up a list keeps what it had and adds just what was missing.
pub proof fn lemma_with_missing(base: Seq<Seq<char>>, more: Seq<Seq<char>>)
    ensures
        forall|t: Seq<char>|
            #![trigger with_missing(base, more).contains(t)]
            with_missing(base, more).contains(t) <==> (base.contains(t) || more.contains(t)),
        base.is_prefix_of(with_missing(base, more)),
        base.no_duplicates() ==> with_missing(base, more).no_duplicates(),
    decreases more.len(),
{
    if more.len() > 0 {
        let d = more.drop_last();
        lemma_with_missing(base, d);
        let before = with_missing(base, d);
        let after = with_missing(base, more);
        assert forall|t: Seq<char>| after.contains(t) <==> (base.contains(t) || more.contains(
            t,
        )) by {
            assert(before.contains(t) <==> (base.contains(t) || d.contains(t)));
            if d.contains(t) {
                let k = choose|k: int| 0 <= k < d.len() && d[k] == t;
                assert(more[k] == t);
            }
            if more.contains(t) {
                let k = choose|k: int| 0 <= k < more.len() && more[k] == t;
                if k < d.len() {
                    assert(d[k] == t);
                } else {
                    assert(t == more.last());
                }
            }
            assert(more[more.len() - 1] == more.last());
            if !before.contains(more.last()) {
                assert(after == before.push(more.last()));
                assert(after[before.len() as int] == more.last());
                if before.contains(t) {
                    let k = choose|k: int| 0 <= k < before.len() && before[k] == t;
                    assert(after[k] == t);
                }
            }
        }
        assert(base.is_prefix_of(after)) by {
            assert(base.is_prefix_of(before));
            assert(after.take(base.len() as int) =~= before.take(base.len() as int));
        }
        if base.no_duplicates() && !before.contains(more.last()) {
            assert forall|i: int, j: int|
                0 <= i < after.len() && 0 <= j < after.len() && i != j implies after[i]
                != after[j] by {
                if i < before.len() {
                    assert(before.contains(before[i]));
                }
                if j < before.len() {
                    assert(before.contains(before[j]));
                }
            }
        }
    } else {
        assert(base.is_prefix_of(base));
    }
}

// ---- notes of a local server -----------------------------------------------

/// A note as a local server's database holds it. `id` and `superseded_by` are
/// row numbers of that database only; `entity_id` is the identity of the note's
/// kind, title and body.
pub struct ServerNote {
    pub id: i64,
    pub entity_id: String,
    pub kind: String,
    pub title: String,
    pub body: String,
    /// A comma-separated list, as stored.
    pub tags: String,
    /// A comma-separated list, as stored.
    pub linked_files: String,
    pub created_at: i64,
    pub status: String,
    pub superseded_by: Option<i64>,
}

/// Whether a status is that of an archived note.
pub open spec fn archived_status(status: Seq<char>) -> bool {
    status == "archived"@
}

impl ServerNote {
    pub fn entity_id(&self) -> (r: String)
        ensures
            r@ == self.entity_id@,
    {
        self.entity_id.clone()
    }

    pub fn tags_vec(&self) -> (r: Vec<String>)
        ensures
            texts(r@) == csv_items(self.tags@),
    {
        split_csv(self.tags.as_str())
    }

    pub fn files_vec(&self) -> (r: Vec<String>)
        ensures
            texts(r@) == csv_items(self.linked_files@),
    {
        split_csv(self.linked_files.as_str())
    }

    pub fn is_archived(&self) -> (r: bool)
        ensures
            r == archived_status(self.status@),
            r == (self.status@ == "archived"@),
    {
        same(self.status.as_str(), "archived")
    }
}

/// Several rows of one identity, folded into one entry. Creation time, tags and
/// files are no part of the identity, so rows that differ only there collapse.
pub struct MergedNote {
    pub entity_id: String,
    pub kind: String,
    pub title: String,
    pub body: String,
    pub tags: Vec<String>,
    pub linked_files: Vec<String>,
    pub created_at: i64,
    pub status: String,
    pub rows: usize,
}

/// What a [`MergedNote`] holds.
pub ghost struct MergedModel {
    pub entity_id: Seq<char>,
    pub kind: Seq<char>,
    pub title: Seq<char>,
    pub body: Seq<char>,
    pub tags: Seq<Seq<char>>,
    pub linked_files: Seq<Seq<char>>,
    pub created_at: i64,
    pub status: Seq<char>,
    pub rows: nat,
}

impl View for MergedNote {
    type V = MergedModel;

    open spec fn view(&self) -> MergedModel {
        MergedModel {
            entity_id: self.entity_id@,
            kind: self.kind@,
            title: self.title@,
            body: self.body@,
            tags: texts(self.tags@),
            linked_files: texts(self.linked_files@),
            created_at: self.created_at,
            status: self.status@,
            rows: self.rows as nat,
        }
    }
}

/// What a sequence of merged notes holds.
pub open spec fn models(v: Seq<MergedNote>) -> Seq<MergedModel> {
    v.map_values(|m: MergedNote| m@)
}

/// One row as an entry of its own.
pub open spec fn merged_from(c: ServerNote) -> MergedModel {
    MergedModel {
        entity_id: c.entity_id@,
        kind: c.kind@,
        title: c.title@,
        body: c.body@,
        tags: csv_items(c.tags@),
        linked_files: csv_items(c.linked_files@),
        created_at: c.created_at,
        status: c.status@,
        rows: 1,
    }
}

/// An entry with one more row folded in: tags and files unite, an archived row
/// archives the entry, and the earliest creation time wins.
pub open spec fn absorbed(m: MergedModel, c: ServerNote) -> MergedModel {
    MergedModel {
        tags: with_missing(m.tags, csv_items(c.tags@)),
        linked_files: with_missing(m.linked_files, csv_items(c.linked_files@)),
        status: if archived_status(c.status@) {
            c.status@
        } else {
            m.status
        },
        created_at: if c.created_at < m.created_at {
            c.created_at
        } else {
            m.created_at
        },
        rows: m.rows + 1,
        ..m
    }
}

/// The identities of a sequence of entries.
pub open spec fn identities(ms: Seq<MergedModel>) -> Seq<Seq<char>> {
    ms.map_values(|m: MergedModel| m.entity_id)
}

/// The candidates folded by identity, in the order in which each identity
/// first appears.
pub open spec fn collapsed(cs: Seq<ServerNote>) -> Seq<MergedModel>
    decreases cs.len(),
{
    if cs.len() == 0 {
        Seq::<MergedModel>::empty()
    } else {
        let before = collapsed(cs.drop_last());
        let c = cs.last();
        if identities(before).contains(c.entity_id@) {
            let i = identities(before).index_of(c.entity_id@);
            before.update(i, absorbed(before[i], c))
        } else {
            before.push(merged_from(c))
        }
    }
}

impl MergedNote {
    pub fn from_server(entity_id: String, c: &ServerNote) -> (r: Self)
        ensures
            r@ == (MergedModel { entity_id: entity_id@, ..merged_from(*c) }),
            r.kind@ == c.kind@,
            r.title@ == c.title@,
            r.body@ == c.body@,
            r.status@ == c.status@,
            r.created_at == c.created_at,
            texts(r.tags@) == csv_items(c.tags@),
            texts(r.linked_files@) == csv_items(c.linked_files@),
            r.rows == 1,
    {
        MergedNote {
            entity_id,
            kind: c.kind.clone(),
            title: c.title.clone(),
            body: c.body.clone(),
            tags: c.tags_vec(),
            linked_files: c.files_vec(),
            created_at: c.created_at,
            status: c.status.clone(),
            rows: 1,
        }
    }

    pub fn absorb(&mut self, c: &ServerNote)
        requires
            old(self).rows < usize::MAX,
        ensures
            final(self)@ == absorbed(old(self)@, *c),
            final(self).entity_id@ == old(self).entity_id@,
            final(self).kind@ == old(self).kind@,
            final(self).title@ == old(self).title@,
            final(self).body@ == old(self).body@,
            final(self).created_at <= old(self).created_at,
            final(self).created_at <= c.created_at,
            final(self).rows == old(self).rows + 1,
    {
        let tags = c.tags_vec();
        let files = c.files_vec();
        add_missing(&mut self.tags, &tags);
        add_missing(&mut self.linked_files, &files);
        if c.is_archived() {
            self.status = "archived".to_owned();
        }
        if c.created_at < self.created_at {
            self.created_at = c.created_at;
        }
        self.rows = self.rows + 1;
    }

    /// Another note with the same contents.
    pub fn duplicate(&self) -> (r: Self)
        ensures
            r@ == self@,
    {
        let r = MergedNote {
            entity_id: self.entity_id.clone(),
            kind: self.kind.clone(),
            title: self.title.clone(),
            body: self.body.clone(),
            tags: self.tags.clone(),
            linked_files: self.linked_files.clone(),
            created_at: self.created_at,
            status: self.status.clone(),
            rows: self.rows,
        };
        assert(texts(r.tags@) =~= texts(self.tags@));
        assert(texts(r.linked_files@) =~= texts(self.linked_files@));
        r
    }
}

fn slot_of(v: &Vec<MergedNote>, entity_id: &str) -> (r: Option<usize>)
    ensures
        match r {
            Some(i) => i < v.len() && v@[i as int].entity_id@ == entity_id@ && identities(
                models(v@),
            ).contains(entity_id@),
            None => !identities(models(v@)).contains(entity_id@),
        },
{
    let mut i: usize = 0;
    while i < v.len()
        invariant
            i <= v.len(),
            forall|k: int| 0 <= k < i ==> (#[trigger] v@[k]).entity_id@ != entity_id@,
        decreases v.len() - i,
    {
        if same(v[i].entity_id.as_str(), entity_id) {
            assert(identities(models(v@))[i as int] == entity_id@);
            return Some(i);
        }
        i = i + 1;
    }
    proof {
        let ids = identities(models(v@));
        if ids.contains(entity_id@) {
            let k = choose|k: int| 0 <= k < ids.len() && ids[k] == entity_id@;
            assert(v@[k].entity_id@ == entity_id@);
        }
    }
    None
}

/// No identity is held twice, and those held are those of the candidates.
pub proof fn lemma_collapsed_identities(cs: Seq<ServerNote>)
    ensures
        identities(collapsed(cs)).no_duplicates(),
        forall|e: Seq<char>|
            #![trigger identities(collapsed(cs)).contains(e)]
            identities(collapsed(cs)).contains(e) <==> exists|j: int|
                0 <= j < cs.len() && (#[trigger] cs[j]).entity_id@ == e,
        collapsed(cs).len() <= cs.len(),
    decreases cs.len(),
{
    let now = collapsed(cs);
    let ids = identities(now);
    if cs.len() > 0 {
        let d = cs.drop_last();
        let c = cs.last();
        lemma_collapsed_identities(d);
        let before = collapsed(d);
        let bids = identities(before);
        if bids.contains(c.entity_id@) {
            let i = bids.index_of(c.entity_id@);
            assert(bids[i] == c.entity_id@);
            assert(ids =~= bids);
        } else {
            assert(ids =~= bids.push(c.entity_id@));
            assert forall|a: int, b: int|
                0 <= a < ids.len() && 0 <= b < ids.len() && a != b implies ids[a] != ids[b] by {
                if a < bids.len() {
                    assert(bids.contains(bids[a]));
                }
                if b < bids.len() {
                    assert(bids.contains(bids[b]));
                }
            }
        }
        assert forall|e: Seq<char>| #[trigger] ids.contains(e) <==> exists|j: int|
            0 <= j < cs.len() && (#[trigger] cs[j]).entity_id@ == e by {
            assert(bids.contains(e) <==> exists|j: int|
                0 <= j < d.len() && (#[trigger] d[j]).entity_id@ == e);
            if ids.contains(e) {
                let k = choose|k: int| 0 <= k < ids.len() && ids[k] == e;
                if k < bids.len() && bids[k] == e {
                    assert(bids.contains(e));
                    let j = choose|j: int| 0 <= j < d.len() && (#[trigger] d[j]).entity_id@ == e;
                    assert(cs[j].entity_id@ == e);
                } else {
                    assert(cs[cs.len() - 1].entity_id@ == e);
                }
            }
            if exists|j: int| 0 <= j < cs.len() && (#[trigger] cs[j]).entity_id@ == e {
                let j = choose|j: int| 0 <= j < cs.len() && (#[trigger] cs[j]).entity_id@ == e;
                if j < d.len() {
                    assert(d[j].entity_id@ == e);
                    assert(bids.contains(e));
                    let k = choose|k: int| 0 <= k < bids.len() && bids[k] == e;
                    assert(ids[k] == e);
                } else if bids.contains(c.entity_id@) {
                    assert(ids.contains(e));
                } else {
                    assert(ids[bids.len() as int] == e);
                }
            }
        }
    }
}

/// Entries stand in the order in which their identities first appear: a further row
/// adds its entry behind the others, or none.
pub proof fn law_entries_stand_in_order_of_appearance(cs: Seq<ServerNote>, c: ServerNote)
    ensures
        identities(collapsed(cs)).is_prefix_of(identities(collapsed(cs.push(c)))),
        collapsed(cs.push(c)).len() <= collapsed(cs).len() + 1,
        collapsed(cs.push(c)).len() == collapsed(cs).len() <==> exists|j: int|
            0 <= j < cs.len() && (#[trigger] cs[j]).entity_id@ == c.entity_id@,
{
    let all = cs.push(c);
    lemma_collapsed_identities(cs);
    assert(all.drop_last() =~= cs);
    let before = identities(collapsed(cs));
    let now = identities(collapsed(all));
    if before.contains(c.entity_id@) {
        let i = before.index_of(c.entity_id@);
        assert(before[i] == c.entity_id@);
        assert(now =~= before);
    } else {
        assert(now =~= before.push(c.entity_id@));
    }
    assert(now.take(before.len() as int) =~= before);
}

/// Those that the store holds, and those it does not, keep their order.
pub proof fn law_a_selection_keeps_the_order(
    ms: Seq<MergedModel>,
    m: MergedModel,
    local: Map<Seq<char>, Seq<char>>,
    held: bool,
)
    ensures
        local.contains_key(m.entity_id) == held ==> entries_where(ms.push(m), local, held)
            == entries_where(ms, local, held).push(m),
        local.contains_key(m.entity_id) != held ==> entries_where(ms.push(m), local, held)
            == entries_where(ms, local, held),
{
    reveal(Seq::filter);
    assert(ms.push(m).drop_last() =~= ms);
}

/// The rows of a sequence of entries, added up.
pub open spec fn sum_rows(ms: Seq<MergedModel>) -> nat
    decreases ms.len(),
{
    if ms.len() == 0 {
        0
    } else {
        sum_rows(ms.drop_last()) + ms.last().rows
    }
}

proof fn lemma_sum_rows_update(ms: Seq<MergedModel>, i: int, m: MergedModel)
    requires
        0 <= i < ms.len(),
    ensures
        sum_rows(ms.update(i, m)) == sum_rows(ms) - ms[i].rows + m.rows,
    decreases ms.len(),
{
    let u = ms.update(i, m);
    if i == ms.len() - 1 {
        assert(u.drop_last() =~= ms.drop_last());
    } else {
        assert(u.drop_last() =~= ms.drop_last().update(i, m));
        lemma_sum_rows_update(ms.drop_last(), i, m);
    }
}

/// Every candidate is counted in just one entry.
pub proof fn lemma_collapsed_rows(cs: Seq<ServerNote>)
    ensures
        sum_rows(collapsed(cs)) == cs.len(),
        forall|i: int| 0 <= i < collapsed(cs).len() ==> (#[trigger] collapsed(cs)[i]).rows >= 1,
    decreases cs.len(),
{
    if cs.len() > 0 {
        let d = cs.drop_last();
        lemma_collapsed_rows(d);
        let before = collapsed(d);
        let c = cs.last();
        if identities(before).contains(c.entity_id@) {
            let i = identities(before).index_of(c.entity_id@);
            lemma_sum_rows_update(before, i, absorbed(before[i], c));
        } else {
            assert(before.push(merged_from(c)).drop_last() =~= before);
        }
    }
}

/// Whether `m` says of the rows of its identity among `cs` what they hold
/// together.
pub open spec fn summarises(m: MergedModel, cs: Seq<ServerNote>) -> bool {
    &&& exists|j: int|
        0 <= j < cs.len() && (#[trigger] cs[j]).entity_id@ == m.entity_id && cs[j].created_at
            == m.created_at
    &&& forall|j: int|
        0 <= j < cs.len() && (#[trigger] cs[j]).entity_id@ == m.entity_id ==> m.created_at
            <= cs[j].created_at
    &&& archived_status(m.status) <==> exists|j: int|
        0 <= j < cs.len() && (#[trigger] cs[j]).entity_id@ == m.entity_id && archived_status(
            cs[j].status@,
        )
    &&& forall|t: Seq<char>|
        #![trigger m.tags.contains(t)]
        m.tags.contains(t) <==> exists|j: int|
            0 <= j < cs.len() && (#[trigger] cs[j]).entity_id@ == m.entity_id && csv_items(
                cs[j].tags@,
            ).contains(t)
    &&& forall|t: Seq<char>|
        #![trigger m.linked_files.contains(t)]
        m.linked_files.contains(t) <==> exists|j: int|
            0 <= j < cs.len() && (#[trigger] cs[j]).entity_id@ == m.entity_id && csv_items(
                cs[j].linked_files@,
            ).contains(t)
}

proof fn lemma_summarises_other(m: MergedModel, d: Seq<ServerNote>, c: ServerNote)
    requires
        summarises(m, d),
        c.entity_id@ != m.entity_id,
    ensures
        summarises(m, d.push(c)),
{
    let cs = d.push(c);
    assert forall|j: int| 0 <= j < d.len() implies #[trigger] cs[j] == d[j] by {}
    let w = choose|j: int|
        0 <= j < d.len() && (#[trigger] d[j]).entity_id@ == m.entity_id && d[j].created_at
            == m.created_at;
    assert(cs[w].entity_id@ == m.entity_id);
    if archived_status(m.status) {
        let a = choose|j: int|
            0 <= j < d.len() && (#[trigger] d[j]).entity_id@ == m.entity_id && archived_status(
                d[j].status@,
            );
        assert(cs[a].entity_id@ == m.entity_id);
    }
    if exists|j: int|
        0 <= j < cs.len() && (#[trigger] cs[j]).entity_id@ == m.entity_id && archived_status(
            cs[j].status@,
        ) {
        let a = choose|j: int|
            0 <= j < cs.len() && (#[trigger] cs[j]).entity_id@ == m.entity_id && archived_status(
                cs[j].status@,
            );
        assert(d[a].entity_id@ == m.entity_id);
    }
    assert forall|t: Seq<char>| #[trigger] m.tags.contains(t) <==> exists|j: int|
        0 <= j < cs.len() && (#[trigger] cs[j]).entity_id@ == m.entity_id && csv_items(
            cs[j].tags@,
        ).contains(t) by {
        if m.tags.contains(t) {
            let a = choose|j: int|
                0 <= j < d.len() && (#[trigger] d[j]).entity_id@ == m.entity_id && csv_items(
                    d[j].tags@,
                ).contains(t);
            assert(cs[a].entity_id@ == m.entity_id);
        }
        if exists|j: int|
            0 <= j < cs.len() && (#[trigger] cs[j]).entity_id@ == m.entity_id && csv_items(
                cs[j].tags@,
            ).contains(t) {
            let a = choose|j: int|
                0 <= j < cs.len() && (#[trigger] cs[j]).entity_id@ == m.entity_id && csv_items(
                    cs[j].tags@,
                ).contains(t);
            assert(d[a].entity_id@ == m.entity_id);
        }
    }
    assert forall|t: Seq<char>| #[trigger] m.linked_files.contains(t) <==> exists|j: int|
        0 <= j < cs.len() && (#[trigger] cs[j]).entity_id@ == m.entity_id && csv_items(
            cs[j].linked_files@,
        ).contains(t) by {
        if m.linked_files.contains(t) {
            let a = choose|j: int|
                0 <= j < d.len() && (#[trigger] d[j]).entity_id@ == m.entity_id && csv_items(
                    d[j].linked_files@,
                ).contains(t);
            assert(cs[a].entity_id@ == m.entity_id);
        }
        if exists|j: int|
            0 <= j < cs.len() && (#[trigger] cs[j]).entity_id@ == m.entity_id && csv_items(
                cs[j].linked_files@,
            ).contains(t) {
            let a = choose|j: int|
                0 <= j < cs.len() && (#[trigger] cs[j]).entity_id@ == m.entity_id && csv_items(
                    cs[j].linked_files@,
                ).contains(t);
            assert(d[a].entity_id@ == m.entity_id);
        }
    }
}

proof fn lemma_summarises_absorbed(m: MergedModel, d: Seq<ServerNote>, c: ServerNote)
    requires
        summarises(m, d),
        c.entity_id@ == m.entity_id,
    ensures
        summarises(absorbed(m, c), d.push(c)),
{
    let cs = d.push(c);
    let n = absorbed(m, c);
    let last = d.len() as int;
    assert(cs[last] == c);
    assert forall|j: int| 0 <= j < d.len() implies #[trigger] cs[j] == d[j] by {}
    let w = choose|j: int|
        0 <= j < d.len() && (#[trigger] d[j]).entity_id@ == m.entity_id && d[j].created_at
            == m.created_at;
    assert(cs[w].entity_id@ == n.entity_id);
    assert(cs[last].entity_id@ == n.entity_id);
    assert forall|j: int| 0 <= j < cs.len() && (#[trigger] cs[j]).entity_id@ == n.entity_id implies n.created_at
        <= cs[j].created_at by {
        if j < d.len() {
            assert(d[j].entity_id@ == m.entity_id);
        }
    }
    assert(exists|j: int|
        0 <= j < cs.len() && (#[trigger] cs[j]).entity_id@ == n.entity_id && cs[j].created_at
            == n.created_at) by {
        if c.created_at < m.created_at {
            assert(cs[last].created_at == n.created_at);
        } else {
            assert(cs[w].created_at == n.created_at);
        }
    }
    assert(archived_status(n.status) <==> exists|j: int|
        0 <= j < cs.len() && (#[trigger] cs[j]).entity_id@ == n.entity_id && archived_status(
            cs[j].status@,
        )) by {
        if archived_status(n.status) && !archived_status(c.status@) {
            let a = choose|j: int|
                0 <= j < d.len() && (#[trigger] d[j]).entity_id@ == m.entity_id && archived_status(
                    d[j].status@,
                );
            assert(cs[a].entity_id@ == n.entity_id);
        }
        if exists|j: int|
            0 <= j < cs.len() && (#[trigger] cs[j]).entity_id@ == n.entity_id && archived_status(
                cs[j].status@,
            ) {
            let a = choose|j: int|
                0 <= j < cs.len() && (#[trigger] cs[j]).entity_id@ == n.entity_id
                    && archived_status(cs[j].status@);
            if a < d.len() {
                assert(d[a].entity_id@ == m.entity_id);
            }
        }
    }
    let ct = csv_items(c.tags@);
    let cf = csv_items(c.linked_files@);
    lemma_with_missing(m.tags, ct);
    lemma_with_missing(m.linked_files, cf);
    assert forall|t: Seq<char>| #[trigger] n.tags.contains(t) <==> exists|j: int|
        0 <= j < cs.len() && (#[trigger] cs[j]).entity_id@ == n.entity_id && csv_items(
            cs[j].tags@,
        ).contains(t) by {
        assert(n.tags == with_missing(m.tags, ct));
        if m.tags.contains(t) {
            let a = choose|j: int|
                0 <= j < d.len() && (#[trigger] d[j]).entity_id@ == m.entity_id && csv_items(
                    d[j].tags@,
                ).contains(t);
            assert(cs[a].entity_id@ == n.entity_id);
        }
        if exists|j: int|
            0 <= j < cs.len() && (#[trigger] cs[j]).entity_id@ == n.entity_id && csv_items(
                cs[j].tags@,
            ).contains(t) {
            let a = choose|j: int|
                0 <= j < cs.len() && (#[trigger] cs[j]).entity_id@ == n.entity_id && csv_items(
                    cs[j].tags@,
                ).contains(t);
            if a < d.len() {
                assert(d[a].entity_id@ == m.entity_id);
                assert(m.tags.contains(t));
            }
        }
    }
    assert forall|t: Seq<char>| #[trigger] n.linked_files.contains(t) <==> exists|j: int|
        0 <= j < cs.len() && (#[trigger] cs[j]).entity_id@ == n.entity_id && csv_items(
            cs[j].linked_files@,
        ).contains(t) by {
        assert(n.linked_files == with_missing(m.linked_files, cf));
        if m.linked_files.contains(t) {
            let a = choose|j: int|
                0 <= j < d.len() && (#[trigger] d[j]).entity_id@ == m.entity_id && csv_items(
                    d[j].linked_files@,
                ).contains(t);
            assert(cs[a].entity_id@ == n.entity_id);
        }
        if exists|j: int|
            0 <= j < cs.len() && (#[trigger] cs[j]).entity_id@ == n.entity_id && csv_items(
                cs[j].linked_files@,
            ).contains(t) {
            let a = choose|j: int|
                0 <= j < cs.len() && (#[trigger] cs[j]).entity_id@ == n.entity_id && csv_items(
                    cs[j].linked_files@,
                ).contains(t);
            if a < d.len() {
                assert(d[a].entity_id@ == m.entity_id);
                assert(m.linked_files.contains(t));
            }
        }
    }
}

/// Each entry says what the rows of its identity hold together: the earliest
/// creation time, archived if any row is, and the union of tags and of files.
pub proof fn lemma_collapsed_summarises(cs: Seq<ServerNote>, i: int)
    requires
        0 <= i < collapsed(cs).len(),
    ensures
        summarises(collapsed(cs)[i], cs),
    decreases cs.len(),
{
    let d = cs.drop_last();
    let c = cs.last();
    let before = collapsed(d);
    let bids = identities(before);
    assert(d.push(c) =~= cs);
    lemma_collapsed_identities(d);
    if bids.contains(c.entity_id@) {
        let k = bids.index_of(c.entity_id@);
        assert(bids[k] == c.entity_id@);
        lemma_collapsed_summarises(d, i);
        if i == k {
            lemma_summarises_absorbed(before[i], d, c);
        } else {
            assert(bids[i] != bids[k]);
            lemma_summarises_other(before[i], d, c);
        }
    } else if i < before.len() {
        lemma_collapsed_summarises(d, i);
        assert(bids.contains(bids[i]));
        lemma_summarises_other(before[i], d, c);
    } else {
        let m = merged_from(c);
        assert forall|j: int| 0 <= j < d.len() implies (#[trigger] cs[j]).entity_id@
            != m.entity_id by {
            assert(d[j].entity_id@ == cs[j].entity_id@);
        }
        assert(cs[cs.len() - 1] == c);
    }
}

/// The first row of each entry's identity gives the entry its text, its status
/// unless a row archives it, and the beginning of its tags and files.
pub proof fn law_an_entry_has_the_text_of_its_first_row(cs: Seq<ServerNote>, i: int)
    requires
        0 <= i < collapsed(cs).len(),
    ensures
        exists|j: int|
            #![trigger cs[j]]
            {
                let m = collapsed(cs)[i];
                &&& 0 <= j < cs.len()
                &&& cs[j].entity_id@ == m.entity_id
                &&& forall|k: int| 0 <= k < j ==> (#[trigger] cs[k]).entity_id@ != m.entity_id
                &&& m.kind == cs[j].kind@
                &&& m.title == cs[j].title@
                &&& m.body == cs[j].body@
                &&& m.status == cs[j].status@ || m.status == "archived"@
                &&& csv_items(cs[j].tags@).is_prefix_of(m.tags)
                &&& csv_items(cs[j].linked_files@).is_prefix_of(m.linked_files)
            },
    decreases cs.len(),
{
    let d = cs.drop_last();
    let c = cs.last();
    let m = collapsed(cs)[i];
    let before = collapsed(d);
    let bids = identities(before);
    lemma_collapsed_identities(d);
    if bids.contains(c.entity_id@) || i < before.len() {
        law_an_entry_has_the_text_of_its_first_row(d, i);
        let b = before[i];
        let j = choose|j: int|
            #![trigger d[j]]
            {
                &&& 0 <= j < d.len()
                &&& d[j].entity_id@ == b.entity_id
                &&& forall|k: int| 0 <= k < j ==> (#[trigger] d[k]).entity_id@ != b.entity_id
                &&& b.kind == d[j].kind@
                &&& b.title == d[j].title@
                &&& b.body == d[j].body@
                &&& b.status == d[j].status@ || b.status == "archived"@
                &&& csv_items(d[j].tags@).is_prefix_of(b.tags)
                &&& csv_items(d[j].linked_files@).is_prefix_of(b.linked_files)
            };
        assert(cs[j] == d[j]);
        assert forall|k: int| 0 <= k < j implies (#[trigger] cs[k]).entity_id@ != m.entity_id by {
            assert(cs[k] == d[k]);
        }
        if bids.contains(c.entity_id@) && bids.index_of(c.entity_id@) == i {
            lemma_with_missing(b.tags, csv_items(c.tags@));
            lemma_with_missing(b.linked_files, csv_items(c.linked_files@));
            assert(m.tags.take(csv_items(cs[j].tags@).len() as int) =~= b.tags.take(
                csv_items(cs[j].tags@).len() as int,
            ));
            assert(m.linked_files.take(csv_items(cs[j].linked_files@).len() as int)
                =~= b.linked_files.take(csv_items(cs[j].linked_files@).len() as int));
        } else {
            assert(m == b);
        }
    } else {
        let j = cs.len() - 1;
        assert(cs[j] == c);
        assert forall|k: int| 0 <= k < j implies (#[trigger] cs[k]).entity_id@ != m.entity_id by {
            assert(d[k].entity_id@ == cs[k].entity_id@);
        }
        assert(csv_items(c.tags@).is_prefix_of(m.tags));
        assert(csv_items(c.linked_files@).is_prefix_of(m.linked_files));
    }
}

/// An entry counts the rows of its identity.
pub proof fn law_an_entry_counts_its_rows(cs: Seq<ServerNote>, i: int)
    requires
        0 <= i < collapsed(cs).len(),
    ensures
        collapsed(cs)[i].rows == cs.filter(
            |c: ServerNote| c.entity_id@ == collapsed(cs)[i].entity_id,
        ).len(),
    decreases cs.len(),
{
    reveal(Seq::filter);
    let d = cs.drop_last();
    let c = cs.last();
    let e = collapsed(cs)[i].entity_id;
    let same_identity = |c: ServerNote| c.entity_id@ == e;
    let before = collapsed(d);
    let bids = identities(before);
    lemma_collapsed_identities(d);
    assert(same_identity == (|c: ServerNote| c.entity_id@ == collapsed(cs)[i].entity_id));
    if bids.contains(c.entity_id@) || i < before.len() {
        law_an_entry_counts_its_rows(d, i);
        assert(before[i].entity_id == e);
        assert(same_identity == (|c: ServerNote| c.entity_id@ == collapsed(d)[i].entity_id));
        assert(bids[i] == e);
        if bids.contains(c.entity_id@) {
            let k = bids.index_of(c.entity_id@);
            assert(bids[k] == c.entity_id@);
            if i != k {
                assert(bids[i] != bids[k]);
            }
        } else {
            assert(bids.contains(bids[i]));
        }
    } else {
        assert(d.filter(same_identity).len() == 0) by {
            lemma_no_row_of(d, e);
        }
    }
}

proof fn lemma_no_row_of(cs: Seq<ServerNote>, e: Seq<char>)
    requires
        forall|j: int| 0 <= j < cs.len() ==> (#[trigger] cs[j]).entity_id@ != e,
    ensures
        cs.filter(|c: ServerNote| c.entity_id@ == e).len() == 0,
    decreases cs.len(),
{
    reveal(Seq::filter);
    if cs.len() > 0 {
        let d = cs.drop_last();
        assert forall|j: int| 0 <= j < d.len() implies (#[trigger] d[j]).entity_id@ != e by {
            assert(d[j] == cs[j]);
        }
        lemma_no_row_of(d, e);
        assert(cs[cs.len() - 1] == cs.last());
    }
}

/// An entry unites its rows: it is as old as the oldest, archived if any is, and
/// has each tag and each file that some row lists, and no other.
pub proof fn law_an_entry_unites_its_rows(cs: Seq<ServerNote>, i: int, t: Seq<char>)
    requires
        0 <= i < collapsed(cs).len(),
    ensures
        exists|j: int|
            0 <= j < cs.len() && (#[trigger] cs[j]).entity_id@ == collapsed(cs)[i].entity_id
                && cs[j].created_at == collapsed(cs)[i].created_at,
        forall|j: int|
            0 <= j < cs.len() && (#[trigger] cs[j]).entity_id@ == collapsed(cs)[i].entity_id
                ==> collapsed(cs)[i].created_at <= cs[j].created_at,
        collapsed(cs)[i].status == "archived"@ <==> exists|j: int|
            0 <= j < cs.len() && (#[trigger] cs[j]).entity_id@ == collapsed(cs)[i].entity_id
                && cs[j].status@ == "archived"@,
        collapsed(cs)[i].tags.contains(t) <==> exists|j: int|
            0 <= j < cs.len() && (#[trigger] cs[j]).entity_id@ == collapsed(cs)[i].entity_id
                && csv_items(cs[j].tags@).contains(t),
        collapsed(cs)[i].linked_files.contains(t) <==> exists|j: int|
            0 <= j < cs.len() && (#[trigger] cs[j]).entity_id@ == collapsed(cs)[i].entity_id
                && csv_items(cs[j].linked_files@).contains(t),
{
    lemma_collapsed_summarises(cs, i);
}

/// Whether an entry has its identity, kind, title and body from one of the rows.
pub open spec fn told_by_a_row(m: MergedModel, cs: Seq<ServerNote>) -> bool {
    exists|j: int|
        0 <= j < cs.len() && (#[trigger] cs[j]).entity_id@ == m.entity_id && cs[j].kind@ == m.kind
            && cs[j].title@ == m.title && cs[j].body@ == m.body
}

proof fn lemma_told_by_a_row(cs: Seq<ServerNote>, m: MergedModel)
    requires
        collapsed(cs).contains(m),
    ensures
        told_by_a_row(m, cs),
{
    let i = choose|i: int| 0 <= i < collapsed(cs).len() && collapsed(cs)[i] == m;
    law_an_entry_has_the_text_of_its_first_row(cs, i);
}

/// Candidate rows of one identity fold into one entry, which has their text.
pub fn collapse_candidates(candidates: &Vec<ServerNote>) -> (r: Vec<MergedNote>)
    ensures
        models(r@) == collapsed(candidates@),
        forall|i: int| 0 <= i < r.len() ==> told_by_a_row((#[trigger] r@[i])@, candidates@),
{
    let mut merged: Vec<MergedNote> = Vec::new();
    let mut n: usize = 0;
    assert(models(merged@) =~= collapsed(candidates@.take(0)));
    while n < candidates.len()
        invariant
            n <= candidates.len(),
            models(merged@) == collapsed(candidates@.take(n as int)),
            forall|i: int| 0 <= i < merged.len() ==> (#[trigger] merged@[i]).rows <= n,
        decreases candidates.len() - n,
    {
        let c = &candidates[n];
        let ghost before = models(merged@);
        let ghost part = candidates@.take(n + 1);
        proof {
            assert(part.drop_last() =~= candidates@.take(n as int));
            assert(part.last() == *c);
            lemma_collapsed_identities(candidates@.take(n as int));
        }
        let eid = c.entity_id();
        match slot_of(&merged, eid.as_str()) {
            Some(i) => {
                proof {
                    assert(identities(before)[i as int] == eid@);
                    assert(identities(before).index_of(eid@) == i as int);
                }
                let mut m = merged[i].duplicate();
                m.absorb(c);
                merged.set(i, m);
                proof {
                    assert(models(merged@) =~= before.update(i as int, m@));
                }
            },
            None => {
                let m = MergedNote::from_server(eid, c);
                merged.push(m);
                proof {
                    assert(models(merged@) =~= before.push(m@));
                }
            },
        }
        n = n + 1;
    }
    assert(candidates@.take(n as int) =~= candidates@);
    proof {
        assert forall|i: int| 0 <= i < merged.len() implies told_by_a_row(
            (#[trigger] merged@[i])@,
            candidates@,
        ) by {
            assert(models(merged@)[i] == merged@[i]@);
            lemma_told_by_a_row(candidates@, merged@[i]@);
        }
    }
    merged
}

// ---- what a reconcile imports ----------------------------------------------

/// A note that the memory store already holds: its identity and its own id.
pub struct StoredNote {
    pub entity_id: String,
    pub id: String,
}

/// The store's id for each identity; of several rows the first counts.
pub open spec fn stored_ids(existing: Seq<StoredNote>) -> Map<Seq<char>, Seq<char>>
    decreases existing.len(),
{
    if existing.len() == 0 {
        Map::<Seq<char>, Seq<char>>::empty()
    } else {
        let before = stored_ids(existing.drop_last());
        let e = existing.last();
        if before.contains_key(e.entity_id@) {
            before
        } else {
            before.insert(e.entity_id@, e.id@)
        }
    }
}

/// An identity is held if and only if a row of the store has it.
pub proof fn law_what_is_stored_is_held(existing: Seq<StoredNote>, e: Seq<char>)
    ensures
        stored_ids(existing).contains_key(e) <==> exists|j: int|
            0 <= j < existing.len() && (#[trigger] existing[j]).entity_id@ == e,
    decreases existing.len(),
{
    if existing.len() > 0 {
        let d = existing.drop_last();
        let n = existing.len() - 1;
        law_what_is_stored_is_held(d, e);
        assert(existing[n] == existing.last());
        if stored_ids(d).contains_key(e) {
            let j = choose|j: int| 0 <= j < d.len() && (#[trigger] d[j]).entity_id@ == e;
            assert(existing[j].entity_id@ == e);
        }
        if exists|j: int| 0 <= j < existing.len() && (#[trigger] existing[j]).entity_id@ == e {
            let j = choose|j: int|
                0 <= j < existing.len() && (#[trigger] existing[j]).entity_id@ == e;
            if j < n {
                assert(d[j].entity_id@ == e);
            }
        }
    }
}

/// An identity is held under the id of the first row that has it.
pub proof fn law_the_first_stored_row_counts(existing: Seq<StoredNote>, j: int)
    requires
        0 <= j < existing.len(),
        forall|k: int|
            0 <= k < j ==> (#[trigger] existing[k]).entity_id@ != existing[j].entity_id@,
    ensures
        stored_ids(existing).contains_key(existing[j].entity_id@),
        stored_ids(existing)[existing[j].entity_id@] == existing[j].id@,
    decreases existing.len(),
{
    let d = existing.drop_last();
    let e = existing[j].entity_id@;
    if j < d.len() {
        assert(d[j] == existing[j]);
        law_the_first_stored_row_counts(d, j);
    } else {
        law_what_is_stored_is_held(d, e);
        if stored_ids(d).contains_key(e) {
            let k = choose|k: int| 0 <= k < d.len() && (#[trigger] d[k]).entity_id@ == e;
            assert(existing[k].entity_id@ == e);
        }
    }
}

/// The store's id for each identity; of several rows the first counts.
pub fn local_ids(existing: &Vec<StoredNote>) -> (r: TextMap)
    ensures
        r.wf(),
        r@ == stored_ids(existing@),
{
    let mut map = TextMap::new();
    let mut i: usize = 0;
    assert(existing@.take(0) =~= Seq::<StoredNote>::empty());
    while i < existing.len()
        invariant
            i <= existing.len(),
            map.wf(),
            map@ == stored_ids(existing@.take(i as int)),
        decreases existing.len() - i,
    {
        proof {
            assert(existing@.take(i + 1).drop_last() =~= existing@.take(i as int));
            assert(existing@.take(i + 1).last() == existing@[i as int]);
        }
        map.put_if_absent(existing[i].entity_id.as_str(), existing[i].id.as_str());
        i = i + 1;
    }
    assert(existing@.take(i as int) =~= existing@);
    map
}

/// The entries whose identity the store holds, when `held`, or does not hold.
pub open spec fn entries_where(
    ms: Seq<MergedModel>,
    local: Map<Seq<char>, Seq<char>>,
    held: bool,
) -> Seq<MergedModel> {
    ms.filter(|m: MergedModel| local.contains_key(m.entity_id) == held)
}

/// The creation times of a sequence of entries.
pub open spec fn ages(ms: Seq<MergedModel>) -> Seq<i64> {
    ms.map_values(|m: MergedModel| m.created_at)
}

/// The entries oldest first, those of one age in their own order.
pub open spec fn oldest_first(ms: Seq<MergedModel>) -> Seq<MergedModel> {
    stable_order(ms.len(), by_key(ages(ms), false)).map_values(|i: int| ms[i])
}

/// What a reconcile finds: the entries the store holds already and those to
/// import, oldest first so that supersede chains import in order.
pub struct ReconcilePlan {
    pub present: Vec<MergedNote>,
    pub to_import: Vec<MergedNote>,
    /// Candidate rows whose entry the store holds.
    pub already_present: usize,
    /// Candidate rows beyond the first of each entry to import.
    pub collapsed_duplicates: usize,
}

/// Splitting by a test splits the rows.
proof fn lemma_rows_split(ms: Seq<MergedModel>, local: Map<Seq<char>, Seq<char>>)
    ensures
        sum_rows(entries_where(ms, local, true)) + sum_rows(entries_where(ms, local, false))
            == sum_rows(ms),
        entries_where(ms, local, true).len() + entries_where(ms, local, false).len() == ms.len(),
    decreases ms.len(),
{
    reveal(Seq::filter);
    if ms.len() > 0 {
        let d = ms.drop_last();
        lemma_rows_split(d, local);
        let t = entries_where(ms, local, true);
        let f = entries_where(ms, local, false);
        if local.contains_key(ms.last().entity_id) {
            assert(t.drop_last() =~= entries_where(d, local, true));
        } else {
            assert(f.drop_last() =~= entries_where(d, local, false));
        }
    }
}

proof fn lemma_rows_at_least(ms: Seq<MergedModel>)
    requires
        forall|i: int| 0 <= i < ms.len() ==> (#[trigger] ms[i]).rows >= 1,
    ensures
        sum_rows(ms) >= ms.len(),
    decreases ms.len(),
{
    if ms.len() > 0 {
        let d = ms.drop_last();
        assert forall|i: int| 0 <= i < d.len() implies (#[trigger] d[i]).rows >= 1 by {
            assert(d[i] == ms[i]);
        }
        lemma_rows_at_least(d);
    }
}

proof fn lemma_rows_prefix(ms: Seq<MergedModel>, n: int)
    requires
        0 <= n <= ms.len(),
    ensures
        sum_rows(ms.take(n)) <= sum_rows(ms),
    decreases ms.len() - n,
{
    if n < ms.len() {
        lemma_rows_prefix(ms, n + 1);
        assert(ms.take(n + 1).drop_last() =~= ms.take(n));
    } else {
        assert(ms.take(n) =~= ms);
    }
}

proof fn lemma_filtered_rows(ms: Seq<MergedModel>, local: Map<Seq<char>, Seq<char>>, held: bool)
    requires
        forall|i: int| 0 <= i < ms.len() ==> (#[trigger] ms[i]).rows >= 1,
    ensures
        forall|i: int|
            0 <= i < entries_where(ms, local, held).len() ==> (#[trigger] entries_where(
                ms,
                local,
                held,
            )[i]).rows >= 1,
    decreases ms.len(),
{
    reveal(Seq::filter);
    if ms.len() > 0 {
        let d = ms.drop_last();
        assert forall|i: int| 0 <= i < d.len() implies (#[trigger] d[i]).rows >= 1 by {
            assert(d[i] == ms[i]);
        }
        lemma_filtered_rows(d, local, held);
        let f = entries_where(ms, local, held);
        let fd = entries_where(d, local, held);
        assert forall|i: int| 0 <= i < f.len() implies (#[trigger] f[i]).rows >= 1 by {
            if i < fd.len() {
                assert(f[i] == fd[i]);
            } else {
                assert(f[i] == ms.last());
            }
        }
    }
}

/// The counts partition the candidates: each row is present already, folded
/// into another, or the one that is imported.
pub proof fn law_counts_partition(cs: Seq<ServerNote>, local: Map<Seq<char>, Seq<char>>)
    ensures
        sum_rows(entries_where(collapsed(cs), local, true)) + (sum_rows(
            entries_where(collapsed(cs), local, false),
        ) - entries_where(collapsed(cs), local, false).len()) + oldest_first(
            entries_where(collapsed(cs), local, false),
        ).len() == cs.len(),
        sum_rows(entries_where(collapsed(cs), local, false)) >= entries_where(
            collapsed(cs),
            local,
            false,
        ).len(),
{
    let ms = collapsed(cs);
    lemma_collapsed_rows(cs);
    lemma_rows_split(ms, local);
    lemma_filtered_rows(ms, local, false);
    let new = entries_where(ms, local, false);
    lemma_rows_at_least(new);
    lemma_stable_order_positions(new.len(), by_key(ages(new), false));
}

/// The rows of the entries that the store holds, or that it does not.
spec fn rows_where(ms: Seq<MergedModel>, local: Map<Seq<char>, Seq<char>>, held: bool) -> nat
    decreases ms.len(),
{
    if ms.len() == 0 {
        0
    } else {
        rows_where(ms.drop_last(), local, held) + if local.contains_key(ms.last().entity_id) == held {
            ms.last().rows
        } else {
            0
        }
    }
}

proof fn lemma_rows_where(ms: Seq<MergedModel>, local: Map<Seq<char>, Seq<char>>, held: bool)
    ensures
        sum_rows(entries_where(ms, local, held)) == rows_where(ms, local, held),
    decreases ms.len(),
{
    reveal(Seq::filter);
    if ms.len() > 0 {
        let d = ms.drop_last();
        lemma_rows_where(d, local, held);
        let f = entries_where(ms, local, held);
        if local.contains_key(ms.last().entity_id) == held {
            assert(f.drop_last() =~= entries_where(d, local, held));
        }
    }
}

proof fn lemma_rows_where_update(
    ms: Seq<MergedModel>,
    i: int,
    m: MergedModel,
    local: Map<Seq<char>, Seq<char>>,
    held: bool,
)
    requires
        0 <= i < ms.len(),
        m.entity_id == ms[i].entity_id,
    ensures
        rows_where(ms.update(i, m), local, held) == rows_where(ms, local, held) + (
        if local.contains_key(m.entity_id) == held {
            m.rows - ms[i].rows
        } else {
            0
        }),
    decreases ms.len(),
{
    let u = ms.update(i, m);
    if i == ms.len() - 1 {
        assert(u.drop_last() =~= ms.drop_last());
    } else {
        assert(u.drop_last() =~= ms.drop_last().update(i, m));
        lemma_rows_where_update(ms.drop_last(), i, m, local, held);
    }
}

/// What is counted as present are the candidate rows whose identity the store holds;
/// the rows of the other entries are those whose identity it does not hold.
pub proof fn law_rows_are_counted_by_their_identity(
    cs: Seq<ServerNote>,
    local: Map<Seq<char>, Seq<char>>,
    held: bool,
)
    ensures
        sum_rows(entries_where(collapsed(cs), local, held)) == cs.filter(
            |c: ServerNote| local.contains_key(c.entity_id@) == held,
        ).len(),
    decreases cs.len(),
{
    reveal(Seq::filter);
    let ms = collapsed(cs);
    lemma_rows_where(ms, local, held);
    if cs.len() > 0 {
        let d = cs.drop_last();
        let c = cs.last();
        let before = collapsed(d);
        law_rows_are_counted_by_their_identity(d, local, held);
        lemma_rows_where(before, local, held);
        if identities(before).contains(c.entity_id@) {
            let i = identities(before).index_of(c.entity_id@);
            assert(identities(before)[i] == c.entity_id@);
            lemma_rows_where_update(before, i, absorbed(before[i], c), local, held);
        } else {
            assert(before.push(merged_from(c)).drop_last() =~= before);
        }
    }
}

/// An entry to import is one that the candidates fold into and that the store
/// does not hold.
pub proof fn law_what_is_imported_was_missing(
    cs: Seq<ServerNote>,
    local: Map<Seq<char>, Seq<char>>,
    i: int,
)
    requires
        0 <= i < oldest_first(entries_where(collapsed(cs), local, false)).len(),
    ensures
        collapsed(cs).contains(oldest_first(entries_where(collapsed(cs), local, false))[i]),
        !local.contains_key(
            oldest_first(entries_where(collapsed(cs), local, false))[i].entity_id,
        ),
{
    let new = entries_where(collapsed(cs), local, false);
    let le = by_key(ages(new), false);
    let order = stable_order(new.len(), le);
    lemma_stable_order_positions(new.len(), le);
    assert(order.contains(order[i]));
    lemma_entries_where(collapsed(cs), local, false, order[i]);
}

/// A row whose identity the store does not hold is imported, and one whose
/// identity it holds is present: each under its own identity.
pub proof fn law_every_row_is_present_or_imported(
    cs: Seq<ServerNote>,
    local: Map<Seq<char>, Seq<char>>,
    j: int,
)
    requires
        0 <= j < cs.len(),
    ensures
        !local.contains_key(cs[j].entity_id@) ==> exists|i: int|
            0 <= i < oldest_first(entries_where(collapsed(cs), local, false)).len()
                && (#[trigger] oldest_first(
                entries_where(collapsed(cs), local, false),
            )[i]).entity_id == cs[j].entity_id@,
        local.contains_key(cs[j].entity_id@) ==> exists|i: int|
            0 <= i < entries_where(collapsed(cs), local, true).len() && (#[trigger] entries_where(
                collapsed(cs),
                local,
                true,
            )[i]).entity_id == cs[j].entity_id@,
{
    let ms = collapsed(cs);
    let e = cs[j].entity_id@;
    lemma_collapsed_identities(cs);
    assert(identities(ms).contains(e));
    let i = choose|i: int| 0 <= i < identities(ms).len() && identities(ms)[i] == e;
    assert(ms[i].entity_id == e);
    lemma_kept(ms, local, local.contains_key(e), i);
    let kept = entries_where(ms, local, local.contains_key(e));
    let k = choose|k: int| 0 <= k < kept.len() && kept[k] == ms[i];
    if !local.contains_key(e) {
        let le = by_key(ages(kept), false);
        let order = stable_order(kept.len(), le);
        lemma_stable_order_positions(kept.len(), le);
        assert(order.contains(k));
        let p = choose|p: int| 0 <= p < order.len() && order[p] == k;
        assert(oldest_first(kept)[p] == kept[k]);
    }
}

proof fn lemma_kept(ms: Seq<MergedModel>, local: Map<Seq<char>, Seq<char>>, held: bool, i: int)
    requires
        0 <= i < ms.len(),
        local.contains_key(ms[i].entity_id) == held,
    ensures
        entries_where(ms, local, held).contains(ms[i]),
    decreases ms.len(),
{
    reveal(Seq::filter);
    let d = ms.drop_last();
    let f = entries_where(ms, local, held);
    let fd = entries_where(d, local, held);
    if i < d.len() {
        lemma_kept(d, local, held, i);
        let k = choose|k: int| 0 <= k < fd.len() && fd[k] == d[i];
        assert(f[k] == ms[i]);
    } else {
        assert(f[fd.len() as int] == ms[i]);
    }
}

/// Entries are imported oldest first, so that an entry is there before one that
/// replaced it later.
pub proof fn law_the_oldest_is_imported_first(ms: Seq<MergedModel>, a: int, b: int)
    requires
        0 <= a < b < oldest_first(ms).len(),
    ensures
        oldest_first(ms)[a].created_at <= oldest_first(ms)[b].created_at,
        oldest_first(ms).len() == ms.len(),
        ms.contains(oldest_first(ms)[a]),
{
    let le = by_key(ages(ms), false);
    let order = stable_order(ms.len(), le);
    lemma_stable_order_positions(ms.len(), le);
    lemma_stable_order_sorted(ms.len(), le);
    assert(order.contains(order[a]) && order.contains(order[b]));
    assert(le(order[a], order[b]));
    assert(ages(ms)[order[a]] == ms[order[a]].created_at);
    assert(ages(ms)[order[b]] == ms[order[b]].created_at);
}

fn total_rows(v: &Vec<MergedNote>) -> (r: usize)
    requires
        sum_rows(models(v@)) <= usize::MAX,
    ensures
        r == sum_rows(models(v@)),
{
    let ghost ms = models(v@);
    let mut sum: usize = 0;
    let mut i: usize = 0;
    assert(ms.take(0) =~= Seq::<MergedModel>::empty());
    while i < v.len()
        invariant
            i <= v.len(),
            ms == models(v@),
            sum_rows(ms) <= usize::MAX,
            sum == sum_rows(ms.take(i as int)),
        decreases v.len() - i,
    {
        proof {
            lemma_rows_prefix(ms, i + 1);
            assert(ms.take(i + 1).drop_last() =~= ms.take(i as int));
            assert(ms.take(i + 1).last() == v@[i as int]@);
        }
        sum = sum + v[i].rows;
        i = i + 1;
    }
    assert(ms.take(i as int) =~= ms);
    sum
}

fn select(v: &Vec<MergedNote>, local: &TextMap, held: bool) -> (r: Vec<MergedNote>)
    requires
        local.wf(),
    ensures
        models(r@) == entries_where(models(v@), local@, held),
{
    let ghost ms = models(v@);
    let mut out: Vec<MergedNote> = Vec::new();
    let mut i: usize = 0;
    proof {
        reveal(Seq::filter);
        assert(models(out@) =~= entries_where(ms.take(0), local@, held));
    }
    while i < v.len()
        invariant
            i <= v.len(),
            local.wf(),
            ms == models(v@),
            models(out@) == entries_where(ms.take(i as int), local@, held),
        decreases v.len() - i,
    {
        proof {
            reveal(Seq::filter);
            assert(ms.take(i + 1).drop_last() =~= ms.take(i as int));
            assert(ms.take(i + 1).last() == v@[i as int]@);
        }
        if local.has(v[i].entity_id.as_str()) == held {
            let m = v[i].duplicate();
            let ghost before = models(out@);
            out.push(m);
            assert(models(out@) =~= before.push(m@));
        }
        i = i + 1;
    }
    assert(ms.take(i as int) =~= ms);
    out
}

fn sort_oldest_first(v: &Vec<MergedNote>) -> (r: Vec<MergedNote>)
    ensures
        models(r@) == oldest_first(models(v@)),
{
    let ghost ms = models(v@);
    let mut keys: Vec<i64> = Vec::new();
    let mut i: usize = 0;
    while i < v.len()
        invariant
            i <= v.len(),
            ms == models(v@),
            keys@ == ages(ms).take(i as int),
        decreases v.len() - i,
    {
        keys.push(v[i].created_at);
        i = i + 1;
        assert(keys@ =~= ages(ms).take(i as int));
    }
    assert(keys@ =~= ages(ms));
    let order = order_by_key(&keys, false);
    let ghost want = oldest_first(ms);
    let mut out: Vec<MergedNote> = Vec::new();
    let mut k: usize = 0;
    while k < order.len()
        invariant
            k <= order.len(),
            ms == models(v@),
            order.len() == v.len(),
            want == oldest_first(ms),
            positions(order@) == stable_order(ms.len(), by_key(ages(ms), false)),
            forall|j: int| 0 <= j < order.len() ==> (#[trigger] order@[j]) < v.len(),
            models(out@) == want.take(k as int),
        decreases order.len() - k,
    {
        let m = v[order[k]].duplicate();
        proof {
            assert(positions(order@)[k as int] == order@[k as int] as int);
            assert(want[k as int] == ms[order@[k as int] as int]);
            assert(want.take(k + 1) =~= want.take(k as int).push(want[k as int]));
        }
        let ghost before = models(out@);
        out.push(m);
        assert(models(out@) =~= before.push(m@));
        k = k + 1;
    }
    assert(want.take(k as int) =~= want) by {
        assert(positions(order@).len() == order.len());
    }
    out
}

/// Sorts the candidates into those the store holds and those to import, and
/// counts the rows of each.
pub fn plan_reconcile(candidates: &Vec<ServerNote>, local: &TextMap) -> (r: ReconcilePlan)
    requires
        local.wf(),
    ensures
        models(r.present@) == entries_where(collapsed(candidates@), local@, true),
        models(r.to_import@) == oldest_first(
            entries_where(collapsed(candidates@), local@, false),
        ),
        r.already_present == sum_rows(entries_where(collapsed(candidates@), local@, true)),
        r.collapsed_duplicates == sum_rows(entries_where(collapsed(candidates@), local@, false))
            - entries_where(collapsed(candidates@), local@, false).len(),
        r.already_present + r.collapsed_duplicates + r.to_import.len() == candidates.len(),
        forall|i: int|
            0 <= i < r.to_import.len() ==> told_by_a_row(
                (#[trigger] r.to_import@[i])@,
                candidates@,
            ),
        forall|i: int|
            0 <= i < r.present.len() ==> told_by_a_row((#[trigger] r.present@[i])@, candidates@),
{
    let merged = collapse_candidates(candidates);
    proof {
        assert(candidates@.len() == candidates.len());
        lemma_collapsed_rows(candidates@);
        lemma_rows_split(models(merged@), local@);
        law_counts_partition(candidates@, local@);
    }
    let present = select(&merged, local, true);
    let new = select(&merged, local, false);
    let already_present: usize = total_rows(&present);
    let collapsed_duplicates: usize = total_rows(&new) - new.len();
    let to_import = sort_oldest_first(&new);
    proof {
        assert forall|i: int| 0 <= i < to_import.len() implies told_by_a_row(
            (#[trigger] to_import@[i])@,
            candidates@,
        ) by {
            assert(models(to_import@)[i] == to_import@[i]@);
            law_what_is_imported_was_missing(candidates@, local@, i);
            lemma_told_by_a_row(candidates@, to_import@[i]@);
        }
        assert forall|i: int| 0 <= i < present.len() implies told_by_a_row(
            (#[trigger] present@[i])@,
            candidates@,
        ) by {
            assert(models(present@)[i] == present@[i]@);
            lemma_entries_where(collapsed(candidates@), local@, true, i);
            lemma_told_by_a_row(candidates@, present@[i]@);
        }
    }
    ReconcilePlan { present, to_import, already_present, collapsed_duplicates }
}

/// How many entries a reconcile would import; `None` for no candidates or
/// nothing to import.
pub fn count_reconcilable(candidates: &Vec<ServerNote>, local: &TextMap) -> (r: Option<usize>)
    requires
        local.wf(),
    ensures
        r == if entries_where(collapsed(candidates@), local@, false).len() > 0 {
            Some(entries_where(collapsed(candidates@), local@, false).len() as usize)
        } else {
            None
        },
{
    if candidates.len() == 0 {
        assert(collapsed(candidates@) =~= Seq::<MergedModel>::empty());
        reveal(Seq::filter);
        return None;
    }
    let merged = collapse_candidates(candidates);
    let new = select(&merged, local, false);
    if new.len() > 0 {
        Some(new.len())
    } else {
        None
    }
}

/// A count that was promised is the number of entries the plan imports.
pub proof fn law_count_is_what_is_imported(
    cs: Seq<ServerNote>,
    local: Map<Seq<char>, Seq<char>>,
)
    ensures
        oldest_first(entries_where(collapsed(cs), local, false)).len() == entries_where(
            collapsed(cs),
            local,
            false,
        ).len(),
{
    let new = entries_where(collapsed(cs), local, false);
    lemma_stable_order_positions(new.len(), by_key(ages(new), false));
}

/// The line that points at a reconcile, where there is something to import and
/// neither a setting nor an earlier reconcile silences it.
pub fn nudge_message(
    silenced: bool,
    reconciled_before: bool,
    reconcilable: Option<usize>,
) -> (r: Option<String>)
    ensures
        match r {
            Some(s) => !silenced && !reconciled_before && reconcilable is Some && s@
                == "[inkentry] "@ + dec(reconcilable->0 as nat)
                + " note(s) recorded by a local server aren't in this project's memory yet. Run 'inkentry memory reconcile' to import them."@,
            None => silenced || reconciled_before || reconcilable is None,
        },
{
    if silenced || reconciled_before {
        return None;
    }
    match reconcilable {
        Some(n) => Some(
            "[inkentry] ".to_owned().concat(dec_usize(n).as_str()).concat(
                " note(s) recorded by a local server aren't in this project's memory yet. Run 'inkentry memory reconcile' to import them.",
            ),
        ),
        None => None,
    }
}

// ---- supersede edges -------------------------------------------------------

/// The candidate that a server row number names: the last one that has it.
pub open spec fn holder(cs: Seq<ServerNote>, id: i64) -> Option<int>
    decreases cs.len(),
{
    if cs.len() == 0 {
        None
    } else if cs.last().id == id {
        Some(cs.len() - 1)
    } else {
        holder(cs.drop_last(), id)
    }
}

/// From each of the first `n` candidates' identities to that of its successor;
/// of several rows of an identity the first that has one counts.
pub open spec fn edges_upto(cs: Seq<ServerNote>, n: int) -> Map<Seq<char>, Seq<char>>
    decreases n,
{
    if n <= 0 {
        Map::<Seq<char>, Seq<char>>::empty()
    } else {
        let before = edges_upto(cs, n - 1);
        let c = cs[n - 1];
        match c.superseded_by {
            Some(id) => match holder(cs, id) {
                Some(j) => if before.contains_key(c.entity_id@) {
                    before
                } else {
                    before.insert(c.entity_id@, cs[j].entity_id@)
                },
                None => before,
            },
            None => before,
        }
    }
}

/// From each candidate's identity to that of its successor.
pub open spec fn supersede_edges(cs: Seq<ServerNote>) -> Map<Seq<char>, Seq<char>> {
    edges_upto(cs, cs.len() as int)
}

/// A row number names the last candidate that has it, and none where none has.
pub proof fn law_a_row_number_names_its_candidate(cs: Seq<ServerNote>, id: i64)
    ensures
        match holder(cs, id) {
            Some(j) => 0 <= j < cs.len() && cs[j].id == id && forall|k: int|
                j < k < cs.len() ==> (#[trigger] cs[k]).id != id,
            None => forall|k: int| 0 <= k < cs.len() ==> (#[trigger] cs[k]).id != id,
        },
    decreases cs.len(),
{
    if cs.len() > 0 {
        let d = cs.drop_last();
        law_a_row_number_names_its_candidate(d, id);
        assert(cs[cs.len() - 1] == cs.last());
        assert forall|k: int| 0 <= k < d.len() implies #[trigger] cs[k] == d[k] by {}
    }
}

/// Whether a candidate names a successor that is a candidate too.
pub open spec fn has_successor(cs: Seq<ServerNote>, i: int) -> bool {
    cs[i].superseded_by is Some && exists|j: int|
        0 <= j < cs.len() && (#[trigger] cs[j]).id == cs[i].superseded_by->0
}

proof fn lemma_edges(cs: Seq<ServerNote>, n: int, e: Seq<char>)
    requires
        0 <= n <= cs.len(),
    ensures
        edges_upto(cs, n).contains_key(e) <==> exists|i: int|
            0 <= i < n && (#[trigger] cs[i]).entity_id@ == e && has_successor(cs, i),
        edges_upto(cs, n).contains_key(e) ==> exists|i: int, j: int|
            #![trigger cs[i], cs[j]]
            0 <= i < n && 0 <= j < cs.len() && cs[i].entity_id@ == e && cs[i].superseded_by
                == Some(cs[j].id) && edges_upto(cs, n)[e] == cs[j].entity_id@,
    decreases n,
{
    if n > 0 {
        lemma_edges(cs, n - 1, e);
        let c = cs[n - 1];
        if c.superseded_by is Some {
            law_a_row_number_names_its_candidate(cs, c.superseded_by->0);
        }
        if edges_upto(cs, n - 1).contains_key(e) {
            let (i, j) = choose|i: int, j: int|
                #![trigger cs[i], cs[j]]
                0 <= i < n - 1 && 0 <= j < cs.len() && cs[i].entity_id@ == e && cs[i].superseded_by
                    == Some(cs[j].id) && edges_upto(cs, n - 1)[e] == cs[j].entity_id@;
            assert(edges_upto(cs, n)[e] == cs[j].entity_id@);
            assert(cs[i].entity_id@ == e);
        } else if edges_upto(cs, n).contains_key(e) {
            let j = holder(cs, c.superseded_by->0)->0;
            assert(cs[n - 1].entity_id@ == e);
            assert(cs[j].id == c.superseded_by->0);
            assert(has_successor(cs, n - 1));
        }
    }
}

/// An identity has a successor if and only if one of its rows names a candidate,
/// and the successor is a candidate that one of its rows names.
pub proof fn law_an_edge_leads_to_a_named_successor(cs: Seq<ServerNote>, e: Seq<char>)
    ensures
        supersede_edges(cs).contains_key(e) <==> exists|i: int, j: int|
            #![trigger cs[i], cs[j]]
            0 <= i < cs.len() && 0 <= j < cs.len() && cs[i].entity_id@ == e && cs[i].superseded_by
                == Some(cs[j].id),
        supersede_edges(cs).contains_key(e) ==> exists|i: int, j: int|
            #![trigger cs[i], cs[j]]
            0 <= i < cs.len() && 0 <= j < cs.len() && cs[i].entity_id@ == e && cs[i].superseded_by
                == Some(cs[j].id) && supersede_edges(cs)[e] == cs[j].entity_id@,
{
    lemma_edges(cs, cs.len() as int, e);
    if exists|i: int, j: int|
        #![trigger cs[i], cs[j]]
        0 <= i < cs.len() && 0 <= j < cs.len() && cs[i].entity_id@ == e && cs[i].superseded_by
            == Some(cs[j].id) {
        let (i, j) = choose|i: int, j: int|
            #![trigger cs[i], cs[j]]
            0 <= i < cs.len() && 0 <= j < cs.len() && cs[i].entity_id@ == e && cs[i].superseded_by
                == Some(cs[j].id);
        assert(cs[j].id == cs[i].superseded_by->0);
        assert(has_successor(cs, i));
    }
}

proof fn lemma_edge_stays(cs: Seq<ServerNote>, i: int, n: int, e: Seq<char>)
    requires
        0 <= i <= n <= cs.len(),
        edges_upto(cs, i).contains_key(e),
    ensures
        edges_upto(cs, n).contains_key(e),
        edges_upto(cs, n)[e] == edges_upto(cs, i)[e],
    decreases n,
{
    if i < n {
        lemma_edge_stays(cs, i, n - 1, e);
    }
}

/// Of several rows of an identity the first that names a candidate counts, and of
/// several candidates with the number it names the last.
pub proof fn law_the_first_row_with_a_successor_counts(cs: Seq<ServerNote>, i: int, j: int)
    requires
        0 <= i < cs.len(),
        0 <= j < cs.len(),
        cs[i].superseded_by == Some(cs[j].id),
        forall|k: int| j < k < cs.len() ==> (#[trigger] cs[k]).id != cs[j].id,
        forall|k: int|
            0 <= k < i && (#[trigger] cs[k]).entity_id@ == cs[i].entity_id@ ==> !has_successor(
                cs,
                k,
            ),
    ensures
        supersede_edges(cs).contains_key(cs[i].entity_id@),
        supersede_edges(cs)[cs[i].entity_id@] == cs[j].entity_id@,
{
    let e = cs[i].entity_id@;
    lemma_edges(cs, i, e);
    if edges_upto(cs, i).contains_key(e) {
        let k = choose|k: int|
            0 <= k < i && (#[trigger] cs[k]).entity_id@ == e && has_successor(cs, k);
        assert(!has_successor(cs, k));
    }
    law_a_row_number_names_its_candidate(cs, cs[j].id);
    let h = holder(cs, cs[j].id);
    assert(h is Some);
    assert(h->0 == j) by {
        if h->0 < j {
            assert(cs[j].id != cs[j].id);
        } else if h->0 > j {
            assert(cs[h->0].id != cs[j].id);
        }
    }
    assert(edges_upto(cs, i + 1)[e] == cs[j].entity_id@);
    lemma_edge_stays(cs, i + 1, cs.len() as int, e);
}

/// Where each identity has one row, its edge leads to the last row that has the
/// number it names.
pub proof fn law_a_row_is_followed_by_the_row_it_names(cs: Seq<ServerNote>, i: int, j: int)
    requires
        0 <= i < cs.len(),
        0 <= j < cs.len(),
        cs[i].superseded_by == Some(cs[j].id),
        forall|k: int|
            0 <= k < cs.len() && k != i ==> (#[trigger] cs[k]).entity_id@ != cs[i].entity_id@,
        forall|k: int| 0 <= k < cs.len() && k != j ==> (#[trigger] cs[k]).id != cs[j].id,
    ensures
        supersede_edges(cs).contains_key(cs[i].entity_id@),
        supersede_edges(cs)[cs[i].entity_id@] == cs[j].entity_id@,
{
    let e = cs[i].entity_id@;
    law_an_edge_leads_to_a_named_successor(cs, e);
    let (a, b) = choose|a: int, b: int|
        #![trigger cs[a], cs[b]]
        0 <= a < cs.len() && 0 <= b < cs.len() && cs[a].entity_id@ == e && cs[a].superseded_by
            == Some(cs[b].id) && supersede_edges(cs)[e] == cs[b].entity_id@;
    assert(a == i);
    assert(b == j);
}

fn holder_of(cs: &Vec<ServerNote>, id: i64) -> (r: Option<usize>)
    ensures
        match r {
            Some(j) => j < cs.len() && holder(cs@, id) == Some(j as int),
            None => holder(cs@, id) is None,
        },
{
    let mut n: usize = cs.len();
    assert(cs@.take(n as int) =~= cs@);
    while n > 0
        invariant
            n <= cs.len(),
            holder(cs@.take(n as int), id) == holder(cs@, id),
        decreases n,
    {
        assert(cs@.take(n as int).drop_last() =~= cs@.take(n - 1));
        if cs[n - 1].id == id {
            return Some(n - 1);
        }
        n = n - 1;
    }
    None
}

/// Resolved through the server's row numbers and expressed in identities, so
/// that an edge holds in a store that numbers its rows differently.
pub fn build_supersede_edges(candidates: &Vec<ServerNote>) -> (r: TextMap)
    ensures
        r.wf(),
        r@ == supersede_edges(candidates@),
{
    let mut edges = TextMap::new();
    let mut n: usize = 0;
    while n < candidates.len()
        invariant
            n <= candidates.len(),
            edges.wf(),
            edges@ == edges_upto(candidates@, n as int),
        decreases candidates.len() - n,
    {
        let c = &candidates[n];
        if let Some(id) = c.superseded_by {
            if let Some(j) = holder_of(candidates, id) {
                edges.put_if_absent(c.entity_id.as_str(), candidates[j].entity_id.as_str());
            }
        }
        n = n + 1;
    }
    edges
}

/// The smaller of two lengths.
pub open spec fn shorter(a: int, b: int) -> int {
    if a < b {
        a
    } else {
        b
    }
}

/// The store's ids with those of the first `n` imported entries put in.
pub open spec fn with_imported(
    local: Map<Seq<char>, Seq<char>>,
    notes: Seq<MergedModel>,
    ids: Seq<Seq<char>>,
    n: int,
) -> Map<Seq<char>, Seq<char>>
    decreases n,
{
    if n <= 0 {
        local
    } else {
        with_imported(local, notes, ids, n - 1).insert(notes[n - 1].entity_id, ids[n - 1])
    }
}

proof fn lemma_with_imported(
    local: Map<Seq<char>, Seq<char>>,
    notes: Seq<MergedModel>,
    ids: Seq<Seq<char>>,
    n: int,
)
    requires
        0 <= n <= notes.len(),
    ensures
        forall|e: Seq<char>|
            local.contains_key(e) ==> #[trigger] with_imported(local, notes, ids, n).contains_key(
                e,
            ),
        forall|i: int|
            0 <= i < n ==> with_imported(local, notes, ids, n).contains_key(
                (#[trigger] notes[i]).entity_id,
            ),
    decreases n,
{
    if n > 0 {
        lemma_with_imported(local, notes, ids, n - 1);
        let before = with_imported(local, notes, ids, n - 1);
        let after = with_imported(local, notes, ids, n);
        assert forall|e: Seq<char>| local.contains_key(e) implies #[trigger] after.contains_key(
            e,
        ) by {
            assert(before.contains_key(e));
        }
    }
}

proof fn lemma_kept_entries(ms: Seq<MergedModel>, local: Map<Seq<char>, Seq<char>>, i: int)
    requires
        0 <= i < ms.len(),
        !local.contains_key(ms[i].entity_id),
    ensures
        entries_where(ms, local, false).contains(ms[i]),
{
    lemma_kept(ms, local, false, i);
}

proof fn lemma_nothing_left(ms: Seq<MergedModel>, local: Map<Seq<char>, Seq<char>>)
    requires
        forall|i: int| 0 <= i < ms.len() ==> local.contains_key((#[trigger] ms[i]).entity_id),
    ensures
        entries_where(ms, local, false).len() == 0,
    decreases ms.len(),
{
    reveal(Seq::filter);
    if ms.len() > 0 {
        let d = ms.drop_last();
        assert forall|i: int| 0 <= i < d.len() implies local.contains_key(
            (#[trigger] d[i]).entity_id,
        ) by {
            assert(d[i] == ms[i]);
        }
        lemma_nothing_left(d, local);
        assert(ms[ms.len() - 1] == ms.last());
    }
}

/// Reconciling again imports nothing: once every note of the plan is in the
/// store there is no candidate left that it does not hold.
pub proof fn law_reconciling_again_imports_nothing(
    cs: Seq<ServerNote>,
    local: Map<Seq<char>, Seq<char>>,
    ids: Seq<Seq<char>>,
)
    ensures
        ({
            let planned = oldest_first(entries_where(collapsed(cs), local, false));
            entries_where(
                collapsed(cs),
                with_imported(local, planned, ids, planned.len() as int),
                false,
            ).len() == 0
        }),
{
    let ms = collapsed(cs);
    let new = entries_where(ms, local, false);
    let le = by_key(ages(new), false);
    let order = stable_order(new.len(), le);
    let planned = oldest_first(new);
    let after = with_imported(local, planned, ids, planned.len() as int);
    lemma_stable_order_positions(new.len(), le);
    lemma_with_imported(local, planned, ids, planned.len() as int);
    assert forall|i: int| 0 <= i < ms.len() implies after.contains_key(
        (#[trigger] ms[i]).entity_id,
    ) by {
        if !local.contains_key(ms[i].entity_id) {
            lemma_kept_entries(ms, local, i);
            let k = choose|k: int| 0 <= k < new.len() && new[k] == ms[i];
            assert(order.contains(k));
            let j = choose|j: int| 0 <= j < order.len() && order[j] == k;
            assert(planned[j] == new[order[j]]);
            assert(after.contains_key(planned[j].entity_id));
        }
    }
    lemma_nothing_left(ms, after);
}

/// A pair of store ids: the note that was replaced, and the note that replaced
/// it.
pub struct SupersedeLink {
    pub old_id: String,
    pub new_id: String,
}

/// The links to set, and how many successors are not in the store.
pub struct SupersedeLinks {
    pub links: Vec<SupersedeLink>,
    pub unresolved: usize,
}

/// What one imported entry asks for: nothing, a link, or an unresolved
/// successor. An entry that is its own successor, as when both texts are the
/// same, asks for nothing.
pub ghost enum LinkModel {
    Nothing,
    Link(Seq<char>, Seq<char>),
    Unresolved,
}

/// What one imported entry asks for.
pub open spec fn link_of(
    note: MergedModel,
    id: Seq<char>,
    local: Map<Seq<char>, Seq<char>>,
    edges: Map<Seq<char>, Seq<char>>,
) -> LinkModel {
    if !archived_status(note.status) || !edges.contains_key(note.entity_id) {
        LinkModel::Nothing
    } else if !local.contains_key(edges[note.entity_id]) {
        LinkModel::Unresolved
    } else if local[edges[note.entity_id]] == id {
        LinkModel::Nothing
    } else {
        LinkModel::Link(id, local[edges[note.entity_id]])
    }
}

/// The links of the first `n` imported entries, in order.
pub open spec fn links_upto(
    notes: Seq<MergedModel>,
    ids: Seq<Seq<char>>,
    local: Map<Seq<char>, Seq<char>>,
    edges: Map<Seq<char>, Seq<char>>,
    n: int,
) -> Seq<(Seq<char>, Seq<char>)>
    decreases n,
{
    if n <= 0 {
        Seq::<(Seq<char>, Seq<char>)>::empty()
    } else {
        let before = links_upto(notes, ids, local, edges, n - 1);
        match link_of(notes[n - 1], ids[n - 1], local, edges) {
            LinkModel::Link(old_id, new_id) => before.push((old_id, new_id)),
            _ => before,
        }
    }
}

/// How many of the first `n` imported entries have a successor that the store
/// does not hold.
pub open spec fn unresolved_upto(
    notes: Seq<MergedModel>,
    ids: Seq<Seq<char>>,
    local: Map<Seq<char>, Seq<char>>,
    edges: Map<Seq<char>, Seq<char>>,
    n: int,
) -> nat
    decreases n,
{
    if n <= 0 {
        0
    } else {
        unresolved_upto(notes, ids, local, edges, n - 1) + if link_of(
            notes[n - 1],
            ids[n - 1],
            local,
            edges,
        ) is Unresolved {
            1nat
        } else {
            0nat
        }
    }
}

/// After an import the store holds what it held, and each imported entry under
/// the id it was given.
pub proof fn law_imported_entries_are_held(
    local: Map<Seq<char>, Seq<char>>,
    notes: Seq<MergedModel>,
    ids: Seq<Seq<char>>,
    n: int,
    e: Seq<char>,
)
    requires
        0 <= n <= notes.len(),
        n <= ids.len(),
        identities(notes).no_duplicates(),
    ensures
        forall|i: int|
            0 <= i < n && (#[trigger] notes[i]).entity_id == e ==> with_imported(
                local,
                notes,
                ids,
                n,
            ).contains_key(e) && with_imported(local, notes, ids, n)[e] == ids[i],
        (forall|i: int| 0 <= i < n ==> (#[trigger] notes[i]).entity_id != e) ==> (with_imported(
            local,
            notes,
            ids,
            n,
        ).contains_key(e) == local.contains_key(e) && with_imported(local, notes, ids, n)[e]
            == local[e]),
    decreases n,
{
    if n > 0 {
        law_imported_entries_are_held(local, notes, ids, n - 1, e);
        assert forall|i: int| 0 <= i < n && (#[trigger] notes[i]).entity_id == e implies with_imported(
            local,
            notes,
            ids,
            n,
        ).contains_key(e) && with_imported(local, notes, ids, n)[e] == ids[i] by {
            if i < n - 1 && notes[n - 1].entity_id == e {
                assert(identities(notes)[i] == identities(notes)[n - 1]);
            }
        }
        if forall|i: int| 0 <= i < n ==> (#[trigger] notes[i]).entity_id != e {
            assert(notes[n - 1].entity_id != e);
        }
    }
}

/// A link goes from an imported, archived entry to the store's entry of its
/// successor, which is another one.
pub proof fn law_a_link_leads_to_the_successor(
    notes: Seq<MergedModel>,
    ids: Seq<Seq<char>>,
    local: Map<Seq<char>, Seq<char>>,
    edges: Map<Seq<char>, Seq<char>>,
    n: int,
    k: int,
)
    requires
        0 <= n <= notes.len(),
        n <= ids.len(),
        0 <= k < links_upto(notes, ids, local, edges, n).len(),
    ensures
        links_upto(notes, ids, local, edges, n)[k].0 != links_upto(notes, ids, local, edges, n)[k].1,
        exists|i: int|
            #![trigger notes[i]]
            0 <= i < n && ids[i] == links_upto(notes, ids, local, edges, n)[k].0 && notes[i].status
                == "archived"@ && edges.contains_key(notes[i].entity_id) && local.contains_key(
                edges[notes[i].entity_id],
            ) && local[edges[notes[i].entity_id]] == links_upto(notes, ids, local, edges, n)[k].1,
    decreases n,
{
    let now = links_upto(notes, ids, local, edges, n);
    let before = links_upto(notes, ids, local, edges, n - 1);
    if n > 0 {
        if k < before.len() {
            law_a_link_leads_to_the_successor(notes, ids, local, edges, n - 1, k);
            assert(now[k] == before[k]);
            let i = choose|i: int|
                #![trigger notes[i]]
                0 <= i < n - 1 && ids[i] == before[k].0 && notes[i].status == "archived"@
                    && edges.contains_key(notes[i].entity_id) && local.contains_key(
                    edges[notes[i].entity_id],
                ) && local[edges[notes[i].entity_id]] == before[k].1;
            assert(notes[i].status == "archived"@);
        } else {
            assert(notes[n - 1].status == "archived"@);
        }
    }
}

/// An imported, archived entry whose successor the store holds under another id
/// is linked to it.
pub proof fn law_a_replaced_entry_is_linked(
    notes: Seq<MergedModel>,
    ids: Seq<Seq<char>>,
    local: Map<Seq<char>, Seq<char>>,
    edges: Map<Seq<char>, Seq<char>>,
    n: int,
    i: int,
)
    requires
        0 <= i < n <= notes.len(),
        n <= ids.len(),
        notes[i].status == "archived"@,
        edges.contains_key(notes[i].entity_id),
        local.contains_key(edges[notes[i].entity_id]),
        local[edges[notes[i].entity_id]] != ids[i],
    ensures
        links_upto(notes, ids, local, edges, n).contains(
            (ids[i], local[edges[notes[i].entity_id]]),
        ),
    decreases n,
{
    let now = links_upto(notes, ids, local, edges, n);
    let before = links_upto(notes, ids, local, edges, n - 1);
    let link = (ids[i], local[edges[notes[i].entity_id]]);
    if i < n - 1 {
        law_a_replaced_entry_is_linked(notes, ids, local, edges, n - 1, i);
        let k = choose|k: int| 0 <= k < before.len() && before[k] == link;
        assert(now[k] == link);
    } else {
        assert(now[before.len() as int] == link);
    }
}

/// A successor is counted as missing for each imported, archived entry whose
/// successor the store does not hold, and for no other.
pub proof fn law_a_missing_successor_is_counted(
    notes: Seq<MergedModel>,
    ids: Seq<Seq<char>>,
    local: Map<Seq<char>, Seq<char>>,
    edges: Map<Seq<char>, Seq<char>>,
    n: int,
)
    requires
        0 <= n <= notes.len(),
    ensures
        unresolved_upto(notes, ids, local, edges, n) == notes.take(n).filter(
            |m: MergedModel|
                m.status == "archived"@ && edges.contains_key(m.entity_id) && !local.contains_key(
                    edges[m.entity_id],
                ),
        ).len(),
    decreases n,
{
    reveal(Seq::filter);
    if n > 0 {
        law_a_missing_successor_is_counted(notes, ids, local, edges, n - 1);
        assert(notes.take(n).drop_last() =~= notes.take(n - 1));
        assert(notes.take(n).last() == notes[n - 1]);
    }
}

/// The pairs of a sequence of links.
pub open spec fn link_pairs(v: Seq<SupersedeLink>) -> Seq<(Seq<char>, Seq<char>)> {
    v.map_values(|l: SupersedeLink| (l.old_id@, l.new_id@))
}

/// The links between the notes just imported and their successors, which may
/// be among them or in the store already.
pub fn link_supersedes(
    to_import: &Vec<MergedNote>,
    imported_ids: &Vec<String>,
    local: TextMap,
    candidates: &Vec<ServerNote>,
) -> (r: SupersedeLinks)
    requires
        local.wf(),
    ensures
        ({
            let n = shorter(to_import.len() as int, imported_ids.len() as int);
            let notes = models(to_import@);
            let ids = texts(imported_ids@);
            let all = with_imported(local@, notes, ids, n);
            let edges = supersede_edges(candidates@);
            &&& link_pairs(r.links@) == links_upto(notes, ids, all, edges, n)
            &&& r.unresolved == unresolved_upto(notes, ids, all, edges, n)
        }),
{
    let n: usize = if to_import.len() < imported_ids.len() {
        to_import.len()
    } else {
        imported_ids.len()
    };
    let ghost notes = models(to_import@);
    let ghost ids = texts(imported_ids@);
    let ghost before = local@;
    let mut all = local;
    let mut i: usize = 0;
    while i < n
        invariant
            i <= n,
            n <= to_import.len(),
            n <= imported_ids.len(),
            notes == models(to_import@),
            ids == texts(imported_ids@),
            all.wf(),
            all@ == with_imported(before, notes, ids, i as int),
        decreases n - i,
    {
        all.put(to_import[i].entity_id.as_str(), imported_ids[i].as_str());
        i = i + 1;
    }
    let edges = build_supersede_edges(candidates);
    let mut links: Vec<SupersedeLink> = Vec::new();
    let mut unresolved: usize = 0;
    let mut k: usize = 0;
    assert(link_pairs(links@) =~= Seq::<(Seq<char>, Seq<char>)>::empty());
    while k < n
        invariant
            k <= n,
            n <= to_import.len(),
            n <= imported_ids.len(),
            notes == models(to_import@),
            ids == texts(imported_ids@),
            all.wf(),
            edges.wf(),
            unresolved <= k,
            link_pairs(links@) == links_upto(notes, ids, all@, edges@, k as int),
            unresolved == unresolved_upto(notes, ids, all@, edges@, k as int),
        decreases n - k,
    {
        let note = &to_import[k];
        let id = &imported_ids[k];
        assert(notes[k as int] == note@);
        assert(ids[k as int] == id@);
        if same(note.status.as_str(), "archived") {
            if let Some(succ) = edges.get(note.entity_id.as_str()) {
                match all.get(succ.as_str()) {
                    Some(succ_id) => {
                        if !same(succ_id.as_str(), id.as_str()) {
                            let ghost pairs = link_pairs(links@);
                            links.push(SupersedeLink { old_id: id.clone(), new_id: succ_id });
                            assert(link_pairs(links@) =~= pairs.push((id@, succ_id@)));
                        }
                    },
                    None => {
                        unresolved = unresolved + 1;
                    },
                }
            }
        }
        k = k + 1;
    }
    SupersedeLinks { links, unresolved }
}

// ---- one project -----------------------------------------------------------

/// Something that went wrong, and where.
pub struct ReconcileError {
    pub stage: String,
    pub message: String,
}

/// What a reconcile of one project did. The counts are over source rows.
pub struct ReconcileSummary {
    pub source_db: String,
    pub project_slug: String,
    pub candidates: usize,
    pub already_present: usize,
    pub collapsed_duplicates: usize,
    pub imported: usize,
    pub would_import: usize,
    pub imported_without_embedding: usize,
    pub skipped_archived_supersede_unresolved: usize,
    pub errors: Vec<ReconcileError>,
}

/// The counts of a [`ReconcileSummary`].
pub ghost struct ReconcileCounts {
    pub candidates: nat,
    pub already_present: nat,
    pub collapsed_duplicates: nat,
    pub imported: nat,
    pub would_import: nat,
    pub without_embedding: nat,
    pub unresolved: nat,
}

impl ReconcileSummary {
    pub open spec fn counts(&self) -> ReconcileCounts {
        ReconcileCounts {
            candidates: self.candidates as nat,
            already_present: self.already_present as nat,
            collapsed_duplicates: self.collapsed_duplicates as nat,
            imported: self.imported as nat,
            would_import: self.would_import as nat,
            without_embedding: self.imported_without_embedding as nat,
            unresolved: self.skipped_archived_supersede_unresolved as nat,
        }
    }

    /// Whether the summary speaks of this source and project.
    pub open spec fn speaks_of(&self, source_db: Seq<char>, slug: Seq<char>) -> bool {
        self.source_db@ == source_db && self.project_slug@ == slug
    }

    /// Whether each row is counted as present, folded, or imported (or to be
    /// imported), and as just one of these.
    pub open spec fn partitions(&self) -> bool {
        self.candidates == self.already_present + self.collapsed_duplicates + self.imported
            + self.would_import
    }
}

/// No counts at all.
pub open spec fn no_counts() -> ReconcileCounts {
    ReconcileCounts {
        candidates: 0,
        already_present: 0,
        collapsed_duplicates: 0,
        imported: 0,
        would_import: 0,
        without_embedding: 0,
        unresolved: 0,
    }
}

/// A summary before anything was counted; the whole summary where the source
/// database or the project does not exist.
pub fn empty_summary(source_db: &str, slug: &str) -> (r: ReconcileSummary)
    ensures
        r.speaks_of(source_db@, slug@),
        r.source_db@ == source_db@,
        r.project_slug@ == slug@,
        r.counts() == no_counts(),
        r.candidates == 0 && r.already_present == 0 && r.imported == 0 && r.would_import == 0,
        r.errors@.len() == 0,
        r.partitions(),
{
    ReconcileSummary {
        source_db: source_db.to_owned(),
        project_slug: slug.to_owned(),
        candidates: 0,
        already_present: 0,
        collapsed_duplicates: 0,
        imported: 0,
        would_import: 0,
        imported_without_embedding: 0,
        skipped_archived_supersede_unresolved: 0,
        errors: Vec::new(),
    }
}

/// A reconcile that failed: the summary to show, and the error to end with.
pub struct ReconcileFailure {
    pub summary: ReconcileSummary,
    pub error: String,
}

/// Two summaries with the same counts agree in each of them.
pub proof fn law_equal_counts_are_equal_throughout(a: ReconcileSummary, b: ReconcileSummary)
    requires
        a.counts() == b.counts(),
    ensures
        a.candidates == b.candidates,
        a.already_present == b.already_present,
        a.collapsed_duplicates == b.collapsed_duplicates,
        a.imported == b.imported,
        a.would_import == b.would_import,
        a.imported_without_embedding == b.imported_without_embedding,
        a.skipped_archived_supersede_unresolved == b.skipped_archived_supersede_unresolved,
{
    assert(a.counts().candidates == b.counts().candidates);
    assert(a.counts().already_present == b.counts().already_present);
    assert(a.counts().collapsed_duplicates == b.counts().collapsed_duplicates);
    assert(a.counts().imported == b.counts().imported);
    assert(a.counts().would_import == b.counts().would_import);
    assert(a.counts().without_embedding == b.counts().without_embedding);
    assert(a.counts().unresolved == b.counts().unresolved);
}

/// The source database could not be opened.
pub fn source_unreadable(source_db: &str, slug: &str, cause: &str) -> (r: ReconcileFailure)
    ensures
        r.summary.speaks_of(source_db@, slug@),
        r.summary.counts() == no_counts(),
        r.summary.errors@.len() == 1,
        r.summary.errors@[0].stage@ == "open_source_db"@,
        r.summary.errors@[0].message@ == cause@,
        r.error@ == "could not open source db: "@ + cause@,
{
    let mut summary = empty_summary(source_db, slug);
    summary.errors.push(
        ReconcileError { stage: "open_source_db".to_owned(), message: cause.to_owned() },
    );
    ReconcileFailure { summary, error: "could not open source db: ".to_owned().concat(cause) }
}

/// What a stored note is to take over from a candidate of its identity.
pub struct TagMerge {
    pub local_id: String,
    pub tags: Vec<String>,
    pub linked_files: Vec<String>,
}

/// What one present entry asks of the stored note of its identity.
pub open spec fn merge_matches(
    t: TagMerge,
    m: MergedModel,
    local: Map<Seq<char>, Seq<char>>,
) -> bool {
    t.local_id@ == local[m.entity_id] && texts(t.tags@) == m.tags && texts(t.linked_files@)
        == m.linked_files
}

fn tag_merges(present: &Vec<MergedNote>, local: &TextMap) -> (r: Vec<TagMerge>)
    requires
        local.wf(),
        forall|i: int| 0 <= i < present.len() ==> local@.contains_key((#[trigger] present@[i])@.entity_id),
    ensures
        r.len() == present.len(),
        forall|i: int|
            0 <= i < r.len() ==> merge_matches(#[trigger] r@[i], present@[i]@, local@),
{
    let mut out: Vec<TagMerge> = Vec::new();
    let mut i: usize = 0;
    while i < present.len()
        invariant
            i <= present.len(),
            local.wf(),
            forall|i: int| 0 <= i < present.len() ==> local@.contains_key((#[trigger] present@[i])@.entity_id),
            out.len() == i,
            forall|k: int|
                0 <= k < i ==> merge_matches(#[trigger] out@[k], present@[k]@, local@),
        decreases present.len() - i,
    {
        let m = &present[i];
        assert(local@.contains_key(present@[i as int]@.entity_id));
        match local.get(m.entity_id.as_str()) {
            Some(local_id) => {
                let t = TagMerge {
                    local_id,
                    tags: m.tags.clone(),
                    linked_files: m.linked_files.clone(),
                };
                assert(texts(t.tags@) =~= texts(m.tags@));
                assert(texts(t.linked_files@) =~= texts(m.linked_files@));
                out.push(t);
            },
            None => {
                assert(false);
            },
        }
        i = i + 1;
    }
    out
}

/// What a reconcile does to the store.
pub enum ReconcileStep {
    /// Nothing; the summary is the result.
    Report(ReconcileSummary),
    /// The merges are made, the notes imported, and the summary carried on.
    Apply {
        summary: ReconcileSummary,
        merges: Vec<TagMerge>,
        to_import: Vec<MergedNote>,
        local: TextMap,
    },
}

/// The summary of a step.
pub open spec fn step_summary(s: ReconcileStep) -> ReconcileSummary {
    match s {
        ReconcileStep::Report(summary) => summary,
        ReconcileStep::Apply { summary, .. } => summary,
    }
}

/// Decides what a reconcile does with the candidates of a project, given what
/// the store holds. A dry run only counts. A present entry may carry tags and
/// files that the stored note lacks, so those are merged even where nothing is
/// to import.
pub fn reconcile_project(
    source_db: &str,
    slug: &str,
    candidates: &Vec<ServerNote>,
    existing: &Vec<StoredNote>,
    dry_run: bool,
) -> (r: ReconcileStep)
    ensures
        ({
            let held = stored_ids(existing@);
            let present = entries_where(collapsed(candidates@), held, true);
            let new = entries_where(collapsed(candidates@), held, false);
            let counts = ReconcileCounts {
                candidates: candidates@.len(),
                already_present: sum_rows(present),
                collapsed_duplicates: (sum_rows(new) - new.len()) as nat,
                would_import: if dry_run {
                    new.len()
                } else {
                    0
                },
                ..no_counts()
            };
            &&& step_summary(r).speaks_of(source_db@, slug@)
            &&& step_summary(r).counts() == counts
            &&& step_summary(r).candidates == candidates@.len()
            &&& step_summary(r).already_present == sum_rows(present)
            &&& step_summary(r).collapsed_duplicates == sum_rows(new) - new.len()
            &&& step_summary(r).would_import == (if dry_run {
                new.len()
            } else {
                0
            })
            &&& step_summary(r).imported == 0
            &&& step_summary(r).errors@.len() == 0
            &&& r is Report <==> dry_run || candidates@.len() == 0
            &&& r is Report ==> step_summary(r).partitions()
            &&& r is Apply ==> {
                &&& models(r->to_import@) == oldest_first(new)
                &&& forall|i: int|
                    0 <= i < r->to_import@.len() ==> told_by_a_row(
                        (#[trigger] r->to_import@[i])@,
                        candidates@,
                    )
                &&& r->local.wf()
                &&& r->local@ == held
                &&& r->merges@.len() == present.len()
                &&& forall|i: int|
                    0 <= i < present.len() ==> merge_matches(
                        #[trigger] r->merges@[i],
                        present[i],
                        held,
                    )
                &&& forall|i: int|
                    0 <= i < present.len() ==> held.contains_key(present[i].entity_id)
                        && (#[trigger] r->merges@[i]).local_id@ == held[present[i].entity_id]
                        && texts(r->merges@[i].tags@) == present[i].tags && texts(
                        r->merges@[i].linked_files@,
                    ) == present[i].linked_files
                &&& candidates@.len() == step_summary(r).already_present
                    + step_summary(r).collapsed_duplicates + r->to_import@.len()
            }
        }),
{
    let mut summary = empty_summary(source_db, slug);
    if candidates.len() == 0 {
        proof {
            reveal(Seq::filter);
            assert(collapsed(candidates@) =~= Seq::<MergedModel>::empty());
        }
        return ReconcileStep::Report(summary);
    }
    let local = local_ids(existing);
    let plan = plan_reconcile(candidates, &local);
    summary.candidates = candidates.len();
    summary.already_present = plan.already_present;
    summary.collapsed_duplicates = plan.collapsed_duplicates;
    proof {
        law_count_is_what_is_imported(candidates@, local@);
        assert(models(plan.to_import@).len() == plan.to_import@.len());
    }
    if dry_run {
        summary.would_import = plan.to_import.len();
        return ReconcileStep::Report(summary);
    }
    proof {
        let present = entries_where(collapsed(candidates@), local@, true);
        assert(models(plan.present@).len() == plan.present@.len());
        assert forall|i: int| 0 <= i < plan.present.len() implies local@.contains_key(
            (#[trigger] plan.present@[i])@.entity_id,
        ) by {
            assert(models(plan.present@)[i] == plan.present@[i]@);
            lemma_entries_where(collapsed(candidates@), local@, true, i);
        }
    }
    let merges = tag_merges(&plan.present, &local);
    proof {
        let present = entries_where(collapsed(candidates@), local@, true);
        assert forall|i: int| 0 <= i < present.len() implies merge_matches(
            #[trigger] merges@[i],
            present[i],
            local@,
        ) by {
            assert(models(plan.present@)[i] == plan.present@[i]@);
        }
    }
    proof {
        let present = entries_where(collapsed(candidates@), local@, true);
        assert forall|i: int| 0 <= i < present.len() implies local@.contains_key(
            present[i].entity_id,
        ) && (#[trigger] merges@[i]).local_id@ == local@[present[i].entity_id] && texts(
            merges@[i].tags@,
        ) == present[i].tags && texts(merges@[i].linked_files@) == present[i].linked_files by {
            lemma_entries_where(collapsed(candidates@), local@, true, i);
            assert(merge_matches(merges@[i], present[i], local@));
        }
    }
    ReconcileStep::Apply { summary, merges, to_import: plan.to_import, local }
}

/// Every entry of a selection meets its test.
proof fn lemma_entries_where(
    ms: Seq<MergedModel>,
    local: Map<Seq<char>, Seq<char>>,
    held: bool,
    i: int,
)
    requires
        0 <= i < entries_where(ms, local, held).len(),
    ensures
        local.contains_key(entries_where(ms, local, held)[i].entity_id) == held,
        ms.contains(entries_where(ms, local, held)[i]),
    decreases ms.len(),
{
    reveal(Seq::filter);
    if ms.len() > 0 {
        let d = ms.drop_last();
        let fd = entries_where(d, local, held);
        if i < fd.len() {
            lemma_entries_where(d, local, held, i);
            assert(entries_where(ms, local, held)[i] == fd[i]);
            let k = choose|k: int| 0 <= k < d.len() && d[k] == fd[i];
            assert(ms[k] == fd[i]);
        } else {
            assert(ms[ms.len() - 1] == entries_where(ms, local, held)[i]);
        }
    }
}

/// How many of the notes have no vector.
pub open spec fn vectorless(embeddings: Seq<Option<Vec<u8>>>) -> nat
    decreases embeddings.len(),
{
    if embeddings.len() == 0 {
        0
    } else {
        vectorless(embeddings.drop_last()) + if embeddings.last() is None {
            1nat
        } else {
            0nat
        }
    }
}

/// The notes without a vector are counted, and no others.
pub proof fn law_what_has_no_vector_is_counted(embeddings: Seq<Option<Vec<u8>>>)
    ensures
        vectorless(embeddings) == embeddings.filter(|e: Option<Vec<u8>>| e is None).len(),
    decreases embeddings.len(),
{
    reveal(Seq::filter);
    if embeddings.len() > 0 {
        law_what_has_no_vector_is_counted(embeddings.drop_last());
    }
}

/// How many of the notes have no vector.
pub fn count_vectorless(embeddings: &Vec<Option<Vec<u8>>>) -> (r: usize)
    ensures
        r == vectorless(embeddings@),
        r <= embeddings.len(),
{
    let mut n: usize = 0;
    let mut i: usize = 0;
    assert(embeddings@.take(0) =~= Seq::<Option<Vec<u8>>>::empty());
    while i < embeddings.len()
        invariant
            i <= embeddings.len(),
            n <= i,
            n == vectorless(embeddings@.take(i as int)),
        decreases embeddings.len() - i,
    {
        assert(embeddings@.take(i + 1).drop_last() =~= embeddings@.take(i as int));
        if embeddings[i].is_none() {
            n = n + 1;
        }
        i = i + 1;
    }
    assert(embeddings@.take(i as int) =~= embeddings@);
    n
}

/// The summary once the notes are in: how many, how many without a vector, and
/// how many successors could not be linked, those whose link the store refused
/// among them.
pub fn summary_after_import(
    summary: ReconcileSummary,
    imported: usize,
    without_embedding: usize,
    unresolved: usize,
    refused_links: usize,
) -> (r: ReconcileSummary)
    requires
        unresolved + refused_links <= usize::MAX,
    ensures
        r.speaks_of(summary.source_db@, summary.project_slug@),
        r.imported == imported,
        r.imported_without_embedding == without_embedding,
        r.skipped_archived_supersede_unresolved == unresolved + refused_links,
        r.counts() == (ReconcileCounts {
            imported: imported as nat,
            without_embedding: without_embedding as nat,
            unresolved: (unresolved + refused_links) as nat,
            ..summary.counts()
        }),
        r.errors == summary.errors,
{
    let mut out = summary;
    out.imported = imported;
    out.imported_without_embedding = without_embedding;
    out.skipped_archived_supersede_unresolved = unresolved + refused_links;
    out
}

/// The import failed: nothing of it stays, and the cause ends the command.
pub fn import_failed(
    summary: ReconcileSummary,
    without_embedding: usize,
    cause: &str,
) -> (r: ReconcileFailure)
    ensures
        r.summary.speaks_of(summary.source_db@, summary.project_slug@),
        r.summary.counts() == (ReconcileCounts {
            without_embedding: without_embedding as nat,
            ..summary.counts()
        }),
        r.summary.errors@.len() == summary.errors@.len() + 1,
        r.summary.errors@.last().stage@ == "import_transaction"@,
        r.summary.errors@.last().message@ == "inserting notes into memory.db: "@ + cause@,
        r.error@ == "inserting notes into memory.db: "@ + cause@,
{
    let message = "inserting notes into memory.db: ".to_owned().concat(cause);
    let mut out = summary;
    out.imported_without_embedding = without_embedding;
    out.errors.push(
        ReconcileError { stage: "import_transaction".to_owned(), message: message.clone() },
    );
    ReconcileFailure { summary: out, error: message }
}

/// Once every entry of the plan is imported the counts partition the
/// candidates again.
pub proof fn law_imported_rows_partition(before: ReconcileSummary, after: ReconcileSummary, planned: int)
    requires
        before.would_import == 0,
        before.candidates == before.already_present + before.collapsed_duplicates + planned,
        after.counts() == (ReconcileCounts {
            imported: planned as nat,
            without_embedding: after.counts().without_embedding,
            unresolved: after.counts().unresolved,
            ..before.counts()
        }),
        planned >= 0,
    ensures
        after.partitions(),
{
    assert(after.counts().candidates == before.counts().candidates);
    assert(after.counts().already_present == before.counts().already_present);
    assert(after.counts().collapsed_duplicates == before.counts().collapsed_duplicates);
    assert(after.counts().would_import == before.counts().would_import);
}

/// One error of a summary, as a line.
pub open spec fn error_line(e: ReconcileError) -> Seq<char> {
    "[inkentry] reconcile error ("@ + e.stage@ + "): "@ + e.message@
}

/// The lines of a summary for a reader.
pub open spec fn summary_lines(s: ReconcileSummary, dry_run: bool) -> Seq<Seq<char>> {
    if dry_run {
        seq![
            "[inkentry] reconcile (dry-run): source="@ + s.source_db@ + " project="@
                + s.project_slug@ + " candidates="@ + dec(s.candidates as nat)
                + " already_present="@ + dec(s.already_present as nat) + " would_import="@ + dec(
                s.would_import as nat,
            ),
        ]
    } else {
        seq![
            "[inkentry] reconcile: source="@ + s.source_db@ + " project="@ + s.project_slug@
                + " candidates="@ + dec(s.candidates as nat) + " already_present="@ + dec(
                s.already_present as nat,
            ) + " imported="@ + dec(s.imported as nat) + " without_embedding="@ + dec(
                s.imported_without_embedding as nat,
            ) + " supersede_unresolved="@ + dec(s.skipped_archived_supersede_unresolved as nat),
        ] + s.errors@.map_values(|e: ReconcileError| error_line(e))
    }
}

/// The lines of a summary for a reader.
pub fn print_human_summary(s: &ReconcileSummary, dry_run: bool) -> (r: Vec<String>)
    ensures
        texts(r@) == summary_lines(*s, dry_run),
{
    let mut out: Vec<String> = Vec::new();
    if dry_run {
        out.push(
            "[inkentry] reconcile (dry-run): source=".to_owned().concat(
                s.source_db.as_str(),
            ).concat(" project=").concat(s.project_slug.as_str()).concat(" candidates=").concat(
                dec_usize(s.candidates).as_str(),
            ).concat(" already_present=").concat(dec_usize(s.already_present).as_str()).concat(
                " would_import=",
            ).concat(dec_usize(s.would_import).as_str()),
        );
        assert(texts(out@) =~= summary_lines(*s, dry_run));
        return out;
    }
    out.push(
        "[inkentry] reconcile: source=".to_owned().concat(s.source_db.as_str()).concat(
            " project=",
        ).concat(s.project_slug.as_str()).concat(" candidates=").concat(
            dec_usize(s.candidates).as_str(),
        ).concat(" already_present=").concat(dec_usize(s.already_present).as_str()).concat(
            " imported=",
        ).concat(dec_usize(s.imported).as_str()).concat(" without_embedding=").concat(
            dec_usize(s.imported_without_embedding).as_str(),
        ).concat(" supersede_unresolved=").concat(
            dec_usize(s.skipped_archived_supersede_unresolved).as_str(),
        ),
    );
    let ghost want = summary_lines(*s, dry_run);
    let mut i: usize = 0;
    assert(texts(out@) =~= want.take(1));
    while i < s.errors.len()
        invariant
            i <= s.errors.len(),
            !dry_run,
            want == summary_lines(*s, dry_run),
            texts(out@) == want.take(i + 1),
        decreases s.errors.len() - i,
    {
        let e = &s.errors[i];
        let line = "[inkentry] reconcile error (".to_owned().concat(e.stage.as_str()).concat(
            "): ",
        ).concat(e.message.as_str());
        proof {
            lemma_texts_push(out@, line);
            assert(want[i + 1] == error_line(*e));
            assert(want.take(i + 2) =~= want.take(i + 1).push(line@));
        }
        out.push(line);
        i = i + 1;
    }
    assert(want.take(i + 1) =~= want);
    out
}

/// What is said when a server's database names no project at all.
pub fn no_projects_message(json: bool) -> (r: Option<String>)
    ensures
        match r {
            Some(s) => !json && s@ == "[inkentry] No projects found in server.db."@,
            None => json,
        },
{
    if json {
        None
    } else {
        Some("[inkentry] No projects found in server.db.".to_owned())
    }
}

// ---- what a summary tells --------------------------------------------------

/// A merged note's model is what it holds, field by field; so are the links.
pub proof fn law_models_are_what_they_hold(
    v: Seq<MergedNote>,
    links: Seq<SupersedeLink>,
    i: int,
)
    ensures
        models(v).len() == v.len(),
        0 <= i < v.len() ==> ({
            let m = models(v)[i];
            &&& m.entity_id == v[i].entity_id@
            &&& m.kind == v[i].kind@
            &&& m.title == v[i].title@
            &&& m.body == v[i].body@
            &&& m.tags == texts(v[i].tags@)
            &&& m.linked_files == texts(v[i].linked_files@)
            &&& m.created_at == v[i].created_at
            &&& m.status == v[i].status@
            &&& m.rows == v[i].rows
        }),
        link_pairs(links).len() == links.len(),
        0 <= i < links.len() ==> link_pairs(links)[i].0 == links[i].old_id@ && link_pairs(
            links,
        )[i].1 == links[i].new_id@,
{
}

/// Only the status of that name is that of an archived note.
pub proof fn law_archived_is_told_by_its_name(status: Seq<char>)
    ensures
        archived_status(status) <==> status == "archived"@,
{
}

/// Nothing is counted before anything was; a step has the summary it was made with,
/// and a summary speaks of its own source and project.
pub proof fn law_a_summary_is_its_own(s: ReconcileSummary, source_db: Seq<char>, slug: Seq<char>)
    ensures
        s.speaks_of(source_db, slug) <==> s.source_db@ == source_db && s.project_slug@ == slug,
        step_summary(ReconcileStep::Report(s)) == s,
        no_counts().candidates == 0,
        no_counts().already_present == 0,
        no_counts().collapsed_duplicates == 0,
        no_counts().imported == 0,
        no_counts().would_import == 0,
        no_counts().without_embedding == 0,
        no_counts().unresolved == 0,
{
}

/// The shorter of two lengths is neither longer than the one nor than the other.
pub proof fn law_the_shorter_is_no_longer(a: int, b: int)
    ensures
        shorter(a, b) <= a,
        shorter(a, b) <= b,
        shorter(a, b) == a || shorter(a, b) == b,
{
}

/// A dry run names what it found and what it would import; a run what it found, what
/// it imported, and what it had to leave; each error has a line of its own.
#[verifier::rlimit(60)]
pub proof fn law_a_summary_names_its_counts(s: ReconcileSummary, i: int)
    ensures
        summary_lines(s, true).len() == 1,
        summary_lines(s, false).len() == 1 + s.errors@.len(),
        crate::text::ends(
            summary_lines(s, true)[0],
            " candidates="@ + dec(s.candidates as nat) + " already_present="@ + dec(
                s.already_present as nat,
            ) + " would_import="@ + dec(s.would_import as nat),
        ),
        crate::text::ends(
            summary_lines(s, false)[0],
            " candidates="@ + dec(s.candidates as nat) + " already_present="@ + dec(
                s.already_present as nat,
            ) + " imported="@ + dec(s.imported as nat) + " without_embedding="@ + dec(
                s.imported_without_embedding as nat,
            ) + " supersede_unresolved="@ + dec(s.skipped_archived_supersede_unresolved as nat),
        ),
        crate::text::begins(
            summary_lines(s, false)[0],
            "[inkentry] reconcile: source="@ + s.source_db@ + " project="@ + s.project_slug@,
        ),
        0 <= i < s.errors@.len() ==> crate::text::ends(
            summary_lines(s, false)[1 + i],
            s.errors@[i].stage@ + "): "@ + s.errors@[i].message@,
        ),
{
    let d = summary_lines(s, true)[0];
    let r = summary_lines(s, false)[0];
    let a = " candidates="@ + dec(s.candidates as nat) + " already_present="@ + dec(
        s.already_present as nat,
    ) + " would_import="@ + dec(s.would_import as nat);
    let b = " candidates="@ + dec(s.candidates as nat) + " already_present="@ + dec(
        s.already_present as nat,
    ) + " imported="@ + dec(s.imported as nat) + " without_embedding="@ + dec(
        s.imported_without_embedding as nat,
    ) + " supersede_unresolved="@ + dec(s.skipped_archived_supersede_unresolved as nat);
    let hd = "[inkentry] reconcile (dry-run): source="@ + s.source_db@ + " project="@
        + s.project_slug@;
    let hr = "[inkentry] reconcile: source="@ + s.source_db@ + " project="@ + s.project_slug@;
    assert(d =~= hd + a);
    assert(r =~= hr + b);
    lemma_ends(hd, a);
    lemma_ends(hr, b);
    if 0 <= i < s.errors@.len() {
        let e = s.errors@[i];
        let t = e.stage@ + "): "@ + e.message@;
        assert(summary_lines(s, false)[1 + i] == error_line(e));
        assert(error_line(e) =~= "[inkentry] reconcile error ("@ + t);
        lemma_ends("[inkentry] reconcile error ("@, t);
    }
}

proof fn lemma_ends(a: Seq<char>, b: Seq<char>)
    ensures
        crate::text::begins(a + b, a),
        crate::text::ends(a + b, b),
{
    let t = a + b;
    assert(t.subrange(0, a.len() as int) =~= a);
    assert(t.subrange(t.len() - b.len(), t.len() as int) =~= b);
}

/// A merge is of the stored note of its entry's identity, and brings the entry's tags
/// and files.
pub proof fn law_a_merge_brings_tags_and_files(
    t: TagMerge,
    m: MergedModel,
    local: Map<Seq<char>, Seq<char>>,
)
    ensures
        merge_matches(t, m, local) <==> t.local_id@ == local[m.entity_id] && texts(t.tags@)
            == m.tags && texts(t.linked_files@) == m.linked_files,
{
}

} // verus!
