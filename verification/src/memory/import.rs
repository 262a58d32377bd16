//! Writing reconciled notes into the memory store in one transaction, and
//! following the git notes that a fetch brought.

use crate::memory::note::Note;
use crate::memory::reconcile::{archived_status, MergedNote};
use crate::text::{opt_str, opt_text, same, texts};
use crate::textmap::has_text;
use vstd::prelude::*;
use vstd::string::*;

verus! {

/// Where notes imported from a local server's database say they came from.
pub open spec fn reconcile_source() -> Seq<char> {
    "reconcile:server.db"@
}

/// Where notes imported from git notes say they came from.
pub open spec fn git_notes_source() -> Seq<char> {
    "init:git-notes"@
}

/// How many git notes one import asks for; the carrier lists no more at once.
pub const GIT_NOTES_IMPORT_LIMIT: usize = 500;

/// Where notes imported from a local server's database say they came from.
pub fn reconcile_source_ref() -> (r: String)
    ensures
        r@ == reconcile_source(),
        r@ == "reconcile:server.db"@,
{
    "reconcile:server.db".to_owned()
}

/// Where notes imported from git notes say they came from.
pub fn git_notes_source_ref() -> (r: String)
    ensures
        r@ == git_notes_source(),
        r@ == "init:git-notes"@,
{
    "init:git-notes".to_owned()
}

/// The status an imported note is stored under: archived stays archived, and
/// anything else is active.
pub open spec fn stored_status_text(status: Seq<char>) -> Seq<char> {
    if archived_status(status) {
        "archived"@
    } else {
        "active"@
    }
}

/// An archived note stays archived, and a note that is not becomes active.
pub proof fn law_an_archived_note_stays_archived(status: Seq<char>)
    ensures
        stored_status_text(status) == "archived"@ <==> status == "archived"@,
        stored_status_text(status) == "active"@ <==> status != "archived"@,
{
    reveal_strlit("archived");
    reveal_strlit("active");
    assert("archived"@.len() != "active"@.len());
}

/// The status an imported note is stored under.
pub fn stored_status(status: &str) -> (r: String)
    ensures
        r@ == stored_status_text(status@),
{
    if same(status, "archived") {
        "archived".to_owned()
    } else {
        "active".to_owned()
    }
}

/// What is written to the store for one imported note.
pub struct ImportRow {
    pub kind: String,
    pub title: String,
    pub body: String,
    pub tags: Vec<String>,
    pub linked_files: Vec<String>,
    pub source_ref: String,
    pub status: String,
    pub created_at: i64,
}

/// What is written to the store for one reconciled note: the note as it is,
/// under the status it is stored with and the name of its source.
pub fn import_row(note: &MergedNote) -> (r: ImportRow)
    ensures
        r.kind@ == note.kind@,
        r.title@ == note.title@,
        r.body@ == note.body@,
        texts(r.tags@) == texts(note.tags@),
        texts(r.linked_files@) == texts(note.linked_files@),
        r.source_ref@ == reconcile_source(),
        r.status@ == stored_status_text(note.status@),
        r.status@ == "archived"@ <==> note.status@ == "archived"@,
        r.created_at == note.created_at,
{
    proof {
        law_an_archived_note_stays_archived(note.status@);
    }
    let row = ImportRow {
        kind: note.kind.clone(),
        title: note.title.clone(),
        body: note.body.clone(),
        tags: note.tags.clone(),
        linked_files: note.linked_files.clone(),
        source_ref: reconcile_source_ref(),
        status: stored_status(note.status.as_str()),
        created_at: note.created_at,
    };
    assert(texts(row.tags@) =~= texts(note.tags@));
    assert(texts(row.linked_files@) =~= texts(note.linked_files@));
    row
}

/// What is written to the store for one note that git notes carry: the note as
/// it is, under the status it is stored with and the name of its source.
pub fn git_note_row(note: &Note) -> (r: ImportRow)
    ensures
        r.kind@ == note.kind@,
        r.title@ == note.title@,
        r.body@ == note.body@,
        texts(r.tags@) == texts(note.tags@),
        texts(r.linked_files@) == texts(note.linked_files@),
        r.source_ref@ == git_notes_source(),
        r.status@ == stored_status_text(note.status@),
        r.status@ == "archived"@ <==> note.status@ == "archived"@,
        r.created_at == note.created_at,
{
    proof {
        law_an_archived_note_stays_archived(note.status@);
    }
    let row = ImportRow {
        kind: note.kind.clone(),
        title: note.title.clone(),
        body: note.body.clone(),
        tags: note.tags.clone(),
        linked_files: note.linked_files.clone(),
        source_ref: git_notes_source_ref(),
        status: stored_status(note.status.as_str()),
        created_at: note.created_at,
    };
    assert(texts(row.tags@) =~= texts(note.tags@));
    assert(texts(row.linked_files@) =~= texts(note.linked_files@));
    row
}

// ---- the import transaction ------------------------------------------------

/// Where an import stands. `i` is the note at hand.
#[derive(Clone, Copy, PartialEq, Eq, Structural, Debug)]
pub enum ImportPhase {
    /// Nothing was asked of the store yet.
    Idle,
    /// The transaction is being opened.
    Opening,
    /// Note `i` is being inserted.
    Inserting(usize),
    /// The vector of note `i` is being stored.
    Embedding(usize),
    /// The transaction is being committed.
    Committing,
    /// The transaction is being rolled back.
    RollingBack,
    /// Nothing more happens.
    Closed,
}

/// What the store answered.
pub enum ImportEvent {
    Start,
    Done,
    /// A note was inserted, under this id.
    Inserted(String),
    Failed(String),
}

/// What is asked of the store next.
pub enum ImportAction {
    Begin,
    /// Insert the note at this position.
    Insert(usize),
    /// Store the vector at this position under this id.
    StoreEmbedding(usize, String),
    Commit,
    Rollback,
    /// The import is committed, with these ids in the order of the notes.
    Finished(Vec<String>),
    /// The import failed, and nothing of it stays.
    Failed(String),
    /// The event does not fit the phase; nothing is asked.
    Ignored,
}

/// An import of some notes, of which some have a vector.
pub struct ImportBatch {
    pub phase: ImportPhase,
    pub ids: Vec<String>,
    pub error: String,
}

/// How many pairs of note and vector slot there are.
pub open spec fn paired(notes: int, embedded: Seq<bool>) -> int {
    if notes < embedded.len() {
        notes
    } else {
        embedded.len() as int
    }
}

/// The phase that follows once note `i - 1` and its vector are stored.
pub open spec fn phase_at(i: int, count: int) -> ImportPhase {
    if i < count {
        ImportPhase::Inserting(i as usize)
    } else {
        ImportPhase::Committing
    }
}

/// The phase that follows an event.
pub open spec fn next_phase(
    phase: ImportPhase,
    event: ImportEvent,
    notes: int,
    embedded: Seq<bool>,
) -> ImportPhase {
    let count = paired(notes, embedded);
    match (phase, event) {
        (ImportPhase::Idle, ImportEvent::Start) => ImportPhase::Opening,
        (ImportPhase::Opening, ImportEvent::Done) => phase_at(0, count),
        (ImportPhase::Opening, ImportEvent::Failed(_)) => ImportPhase::Closed,
        (ImportPhase::Inserting(i), ImportEvent::Inserted(_)) => if i < count && embedded[i as int] {
            ImportPhase::Embedding(i)
        } else {
            phase_at(i + 1, count)
        },
        (ImportPhase::Inserting(_), ImportEvent::Failed(_)) => ImportPhase::RollingBack,
        (ImportPhase::Embedding(i), ImportEvent::Done) => phase_at(i + 1, count),
        (ImportPhase::Embedding(_), ImportEvent::Failed(_)) => ImportPhase::RollingBack,
        (ImportPhase::Committing, ImportEvent::Done) => ImportPhase::Closed,
        (ImportPhase::Committing, ImportEvent::Failed(_)) => ImportPhase::Closed,
        (ImportPhase::RollingBack, ImportEvent::Done) => ImportPhase::Closed,
        (ImportPhase::RollingBack, ImportEvent::Failed(_)) => ImportPhase::Closed,
        _ => phase,
    }
}

/// Whether an event fits a phase.
pub open spec fn fits(phase: ImportPhase, event: ImportEvent) -> bool {
    match (phase, event) {
        (ImportPhase::Idle, ImportEvent::Start) => true,
        (ImportPhase::Opening, ImportEvent::Done) => true,
        (ImportPhase::Opening, ImportEvent::Failed(_)) => true,
        (ImportPhase::Inserting(_), ImportEvent::Inserted(_)) => true,
        (ImportPhase::Inserting(_), ImportEvent::Failed(_)) => true,
        (ImportPhase::Embedding(_), ImportEvent::Done) => true,
        (ImportPhase::Embedding(_), ImportEvent::Failed(_)) => true,
        (ImportPhase::Committing, ImportEvent::Done) => true,
        (ImportPhase::Committing, ImportEvent::Failed(_)) => true,
        (ImportPhase::RollingBack, ImportEvent::Done) => true,
        (ImportPhase::RollingBack, ImportEvent::Failed(_)) => true,
        _ => false,
    }
}

/// What entering a phase asks of the store.
pub open spec fn asks(action: ImportAction, phase: ImportPhase, ids: Seq<Seq<char>>) -> bool {
    match phase {
        ImportPhase::Opening => action is Begin,
        ImportPhase::Inserting(i) => action == ImportAction::Insert(i),
        ImportPhase::Embedding(i) => action is StoreEmbedding && action->StoreEmbedding_0 == i
            && ids.len() > 0 && action->StoreEmbedding_1@ == ids.last(),
        ImportPhase::Committing => action is Commit,
        ImportPhase::RollingBack => action is Rollback,
        _ => false,
    }
}

impl ImportBatch {
    pub fn new() -> (r: Self)
        ensures
            r.phase is Idle,
            r.ids@.len() == 0,
    {
        ImportBatch { phase: ImportPhase::Idle, ids: Vec::new(), error: String::new() }
    }

    fn ask_for(&self, i: usize, count: usize) -> (r: ImportAction)
        ensures
            asks(r, phase_at(i as int, count as int), texts(self.ids@)),
    {
        if i < count {
            ImportAction::Insert(i)
        } else {
            ImportAction::Commit
        }
    }

    fn at(i: usize, count: usize) -> (r: ImportPhase)
        ensures
            r == phase_at(i as int, count as int),
    {
        if i < count {
            ImportPhase::Inserting(i)
        } else {
            ImportPhase::Committing
        }
    }

    /// Takes what the store answered and says what to ask next. A failed insert
    /// or vector rolls everything back and is what the import reports, whatever
    /// the rollback answers.
    pub fn import_batch(&mut self, event: ImportEvent, notes: usize, embedded: &Vec<bool>) -> (r:
        ImportAction)
        ensures
            final(self).phase == next_phase(old(self).phase, event, notes as int, embedded@),
            texts(final(self).ids@) == (match (old(self).phase, event) {
                (ImportPhase::Inserting(_), ImportEvent::Inserted(id)) => texts(
                    old(self).ids@,
                ).push(id@),
                _ => texts(old(self).ids@),
            }),
            final(self).error@ == (match (old(self).phase, event) {
                (ImportPhase::Inserting(_), ImportEvent::Failed(e)) => e@,
                (ImportPhase::Embedding(_), ImportEvent::Failed(e)) => e@,
                _ => old(self).error@,
            }),
            match (old(self).phase, event) {
                (ImportPhase::Opening, ImportEvent::Failed(e)) => r is Failed && r->Failed_0@
                    == "beginning import transaction: "@ + e@,
                (ImportPhase::Committing, ImportEvent::Done) => r is Finished && texts(
                    r->Finished_0@,
                ) == texts(old(self).ids@),
                (ImportPhase::Committing, ImportEvent::Failed(e)) => r is Failed && r->Failed_0@
                    == "committing import transaction: "@ + e@,
                (ImportPhase::RollingBack, _) => if fits(old(self).phase, event) {
                    r is Failed && r->Failed_0@ == old(self).error@
                } else {
                    r is Ignored
                },
                _ => if fits(old(self).phase, event) {
                    asks(r, final(self).phase, texts(final(self).ids@))
                } else {
                    r is Ignored
                },
            },
    {
        let count: usize = if notes < embedded.len() {
            notes
        } else {
            embedded.len()
        };
        match (self.phase, event) {
            (ImportPhase::Idle, ImportEvent::Start) => {
                self.phase = ImportPhase::Opening;
                ImportAction::Begin
            },
            (ImportPhase::Opening, ImportEvent::Done) => {
                self.phase = Self::at(0, count);
                self.ask_for(0, count)
            },
            (ImportPhase::Opening, ImportEvent::Failed(e)) => {
                self.phase = ImportPhase::Closed;
                ImportAction::Failed(
                    "beginning import transaction: ".to_owned().concat(e.as_str()),
                )
            },
            (ImportPhase::Inserting(i), ImportEvent::Inserted(id)) => {
                let kept = id.clone();
                proof {
                    crate::text::lemma_texts_push(self.ids@, kept);
                }
                self.ids.push(kept);
                assert(texts(self.ids@).last() == id@);
                if i < count && embedded[i] {
                    self.phase = ImportPhase::Embedding(i);
                    ImportAction::StoreEmbedding(i, id)
                } else if i < count {
                    self.phase = Self::at(i + 1, count);
                    self.ask_for(i + 1, count)
                } else {
                    self.phase = ImportPhase::Committing;
                    ImportAction::Commit
                }
            },
            (ImportPhase::Inserting(_), ImportEvent::Failed(e)) => {
                self.phase = ImportPhase::RollingBack;
                self.error = e;
                ImportAction::Rollback
            },
            (ImportPhase::Embedding(i), ImportEvent::Done) => {
                if i < count {
                    self.phase = Self::at(i + 1, count);
                    self.ask_for(i + 1, count)
                } else {
                    self.phase = ImportPhase::Committing;
                    ImportAction::Commit
                }
            },
            (ImportPhase::Embedding(_), ImportEvent::Failed(e)) => {
                self.phase = ImportPhase::RollingBack;
                self.error = e;
                ImportAction::Rollback
            },
            (ImportPhase::Committing, ImportEvent::Done) => {
                self.phase = ImportPhase::Closed;
                let ids = self.ids.clone();
                assert(texts(ids@) =~= texts(self.ids@));
                ImportAction::Finished(ids)
            },
            (ImportPhase::Committing, ImportEvent::Failed(e)) => {
                self.phase = ImportPhase::Closed;
                ImportAction::Failed(
                    "committing import transaction: ".to_owned().concat(e.as_str()),
                )
            },
            (ImportPhase::RollingBack, ImportEvent::Done) => {
                self.phase = ImportPhase::Closed;
                ImportAction::Failed(self.error.clone())
            },
            (ImportPhase::RollingBack, ImportEvent::Failed(_)) => {
                self.phase = ImportPhase::Closed;
                ImportAction::Failed(self.error.clone())
            },
            _ => ImportAction::Ignored,
        }
    }
}

/// The phases that a run of events passes through, from the first on.
pub open spec fn phase_after(
    phase: ImportPhase,
    events: Seq<ImportEvent>,
    notes: int,
    embedded: Seq<bool>,
) -> ImportPhase
    decreases events.len(),
{
    if events.len() == 0 {
        phase
    } else {
        next_phase(phase_after(phase, events.drop_last(), notes, embedded), events.last(), notes, embedded)
    }
}

/// The ids that a run of events left.
pub open spec fn ids_after(
    phase: ImportPhase,
    events: Seq<ImportEvent>,
    notes: int,
    embedded: Seq<bool>,
) -> Seq<Seq<char>>
    decreases events.len(),
{
    if events.len() == 0 {
        Seq::<Seq<char>>::empty()
    } else {
        let before = ids_after(phase, events.drop_last(), notes, embedded);
        match (phase_after(phase, events.drop_last(), notes, embedded), events.last()) {
            (ImportPhase::Inserting(_), ImportEvent::Inserted(id)) => before.push(id@),
            _ => before,
        }
    }
}

/// While note `i` is at hand just the notes before it have an id, and when the
/// transaction is committed every note has one.
pub proof fn law_ids_follow_the_notes(
    events: Seq<ImportEvent>,
    notes: int,
    embedded: Seq<bool>,
)
    requires
        0 <= notes <= usize::MAX,
        embedded.len() <= usize::MAX,
    ensures
        match phase_after(ImportPhase::Idle, events, notes, embedded) {
            ImportPhase::Idle => ids_after(ImportPhase::Idle, events, notes, embedded).len() == 0,
            ImportPhase::Opening => ids_after(ImportPhase::Idle, events, notes, embedded).len()
                == 0,
            ImportPhase::Inserting(i) => i < paired(notes, embedded) && ids_after(
                ImportPhase::Idle,
                events,
                notes,
                embedded,
            ).len() == i,
            ImportPhase::Embedding(i) => i < paired(notes, embedded) && ids_after(
                ImportPhase::Idle,
                events,
                notes,
                embedded,
            ).len() == i + 1,
            ImportPhase::Committing => ids_after(
                ImportPhase::Idle,
                events,
                notes,
                embedded,
            ).len() == paired(notes, embedded),
            _ => true,
        },
    decreases events.len(),
{
    if events.len() > 0 {
        law_ids_follow_the_notes(events.drop_last(), notes, embedded);
    }
}

/// Nothing is committed once an insert or a vector has failed: the only phase
/// that follows is the rollback, and after it nothing happens.
pub proof fn law_a_failure_is_rolled_back(
    phase: ImportPhase,
    error: String,
    notes: int,
    embedded: Seq<bool>,
    event: ImportEvent,
)
    requires
        phase is Inserting || phase is Embedding,
    ensures
        next_phase(phase, ImportEvent::Failed(error), notes, embedded) is RollingBack,
        next_phase(ImportPhase::RollingBack, event, notes, embedded) is RollingBack || next_phase(
            ImportPhase::RollingBack,
            event,
            notes,
            embedded,
        ) is Closed,
        next_phase(ImportPhase::Closed, event, notes, embedded) is Closed,
{
}

/// A transaction is opened before anything else. Its notes are inserted from the
/// first on, each followed by its vector where it has one and then by the next
/// note; after the last the transaction is committed.
pub proof fn law_notes_are_inserted_one_after_another(
    i: usize,
    id: String,
    notes: int,
    embedded: Seq<bool>,
)
    requires
        0 <= notes <= usize::MAX,
        embedded.len() == notes,
        i < notes,
    ensures
        next_phase(ImportPhase::Idle, ImportEvent::Start, notes, embedded) is Opening,
        next_phase(ImportPhase::Opening, ImportEvent::Done, notes, embedded)
            == ImportPhase::Inserting(0),
        embedded[i as int] ==> next_phase(
            ImportPhase::Inserting(i),
            ImportEvent::Inserted(id),
            notes,
            embedded,
        ) == ImportPhase::Embedding(i),
        !embedded[i as int] && i + 1 < notes ==> next_phase(
            ImportPhase::Inserting(i),
            ImportEvent::Inserted(id),
            notes,
            embedded,
        ) == ImportPhase::Inserting((i + 1) as usize),
        !embedded[i as int] && i + 1 == notes ==> next_phase(
            ImportPhase::Inserting(i),
            ImportEvent::Inserted(id),
            notes,
            embedded,
        ) is Committing,
        i + 1 < notes ==> next_phase(
            ImportPhase::Embedding(i),
            ImportEvent::Done,
            notes,
            embedded,
        ) == ImportPhase::Inserting((i + 1) as usize),
        i + 1 == notes ==> next_phase(
            ImportPhase::Embedding(i),
            ImportEvent::Done,
            notes,
            embedded,
        ) is Committing,
        next_phase(ImportPhase::Committing, ImportEvent::Done, notes, embedded) is Closed,
        next_phase(ImportPhase::Opening, ImportEvent::Failed(id), notes, embedded) is Closed,
{
}

/// What is asked of the store is what the phase is about: the note at hand, and
/// its vector under the id that was given last.
pub proof fn law_the_store_is_asked_for_the_note_at_hand(
    action: ImportAction,
    i: usize,
    ids: Seq<Seq<char>>,
)
    ensures
        asks(action, ImportPhase::Inserting(i), ids) <==> action == ImportAction::Insert(i),
        asks(action, ImportPhase::Embedding(i), ids) ==> action is StoreEmbedding
            && action->StoreEmbedding_0 == i && ids.contains(action->StoreEmbedding_1@)
            && action->StoreEmbedding_1@ == ids[ids.len() - 1],
        asks(action, ImportPhase::Opening, ids) <==> action is Begin,
        asks(action, ImportPhase::Committing, ids) <==> action is Commit,
        asks(action, ImportPhase::RollingBack, ids) <==> action is Rollback,
{
}

// ---- git notes -------------------------------------------------------------

/// What an import from git notes did. Edges that name an entry the store lacks
/// are unresolved; a later import resolves them.
#[derive(Clone, Copy, PartialEq, Eq, Structural, Debug)]
pub struct GitNotesImport {
    pub imported: usize,
    pub edges_applied: usize,
    pub edges_unresolved: usize,
    pub supersede_edges_applied: usize,
    pub supersede_edges_unresolved: usize,
}

impl Default for GitNotesImport {
    fn default() -> (r: Self)
        ensures
            r == (GitNotesImport {
                imported: 0,
                edges_applied: 0,
                edges_unresolved: 0,
                supersede_edges_applied: 0,
                supersede_edges_unresolved: 0,
            }),
    {
        GitNotesImport {
            imported: 0,
            edges_applied: 0,
            edges_unresolved: 0,
            supersede_edges_applied: 0,
            supersede_edges_unresolved: 0,
        }
    }
}

/// Whether the note at `i` is to be imported: neither the store nor an earlier
/// note has its identity.
pub open spec fn is_new(ids: Seq<Seq<char>>, existing: Seq<Seq<char>>, i: int) -> bool {
    !existing.contains(ids[i]) && !ids.take(i).contains(ids[i])
}

/// The positions below `n` of the notes to import, in order.
pub open spec fn new_positions(ids: Seq<Seq<char>>, existing: Seq<Seq<char>>, n: int) -> Seq<int>
    decreases n,
{
    if n <= 0 {
        Seq::<int>::empty()
    } else {
        let before = new_positions(ids, existing, n - 1);
        if is_new(ids, existing, n - 1) {
            before.push(n - 1)
        } else {
            before
        }
    }
}

/// The positions of the notes to import: those whose identity neither the store
/// nor an earlier note has.
pub fn select_new_notes(ids: &Vec<String>, existing: &Vec<String>) -> (r: Vec<usize>)
    ensures
        crate::order::positions(r@) == new_positions(
            texts(ids@),
            texts(existing@),
            ids.len() as int,
        ),
{
    let ghost all = texts(ids@);
    let ghost held = texts(existing@);
    let mut seen: Vec<String> = Vec::new();
    let mut out: Vec<usize> = Vec::new();
    let mut i: usize = 0;
    assert(crate::order::positions(out@) =~= Seq::<int>::empty());
    assert(texts(seen@) =~= all.take(0));
    while i < ids.len()
        invariant
            i <= ids.len(),
            all == texts(ids@),
            held == texts(existing@),
            texts(seen@) == all.take(i as int),
            crate::order::positions(out@) == new_positions(all, held, i as int),
        decreases ids.len() - i,
    {
        let id = &ids[i];
        assert(all[i as int] == id@);
        if !has_text(existing, id.as_str()) && !has_text(&seen, id.as_str()) {
            let ghost before = crate::order::positions(out@);
            out.push(i);
            assert(crate::order::positions(out@) =~= before.push(i as int));
        }
        let kept = id.clone();
        proof {
            crate::text::lemma_texts_push(seen@, kept);
            assert(all.take(i + 1) =~= all.take(i as int).push(id@));
        }
        seen.push(kept);
        i = i + 1;
    }
    out
}

proof fn lemma_new_positions(ids: Seq<Seq<char>>, existing: Seq<Seq<char>>, n: int)
    requires
        0 <= n <= ids.len(),
    ensures
        forall|p: int|
            #![trigger new_positions(ids, existing, n).contains(p)]
            new_positions(ids, existing, n).contains(p) <==> 0 <= p < n && is_new(ids, existing, p),
    decreases n,
{
    if n > 0 {
        lemma_new_positions(ids, existing, n - 1);
        let before = new_positions(ids, existing, n - 1);
        let now = new_positions(ids, existing, n);
        assert forall|p: int| #[trigger] now.contains(p) <==> 0 <= p < n && is_new(
            ids,
            existing,
            p,
        ) by {
            assert(before.contains(p) <==> 0 <= p < n - 1 && is_new(ids, existing, p));
            if before.contains(p) {
                let k = choose|k: int| 0 <= k < before.len() && before[k] == p;
                assert(now[k] == p);
            }
            if now.contains(p) {
                let k = choose|k: int| 0 <= k < now.len() && now[k] == p;
                if k < before.len() {
                    assert(before[k] == p);
                }
            }
            if is_new(ids, existing, n - 1) {
                assert(now[before.len() as int] == n - 1);
            }
        }
    }
}

/// A note is taken in if and only if the store does not have its identity and no
/// earlier note has it; the notes keep their order.
pub proof fn law_a_note_is_taken_in_once(
    ids: Seq<Seq<char>>,
    existing: Seq<Seq<char>>,
    n: int,
    p: int,
)
    requires
        0 <= n <= ids.len(),
    ensures
        new_positions(ids, existing, n).contains(p) <==> 0 <= p < n && !existing.contains(ids[p])
            && forall|q: int| 0 <= q < p ==> #[trigger] ids[q] != ids[p],
        forall|a: int, b: int|
            0 <= a < b < new_positions(ids, existing, n).len() ==> #[trigger] new_positions(
                ids,
                existing,
                n,
            )[a] < #[trigger] new_positions(ids, existing, n)[b],
    decreases n,
{
    lemma_new_positions(ids, existing, n);
    if 0 <= p < n {
        let t = ids.take(p);
        if t.contains(ids[p]) {
            let q = choose|q: int| 0 <= q < t.len() && t[q] == ids[p];
            assert(ids[q] == ids[p]);
        }
        if exists|q: int| 0 <= q < p && #[trigger] ids[q] == ids[p] {
            let q = choose|q: int| 0 <= q < p && #[trigger] ids[q] == ids[p];
            assert(t[q] == ids[p]);
        }
    }
    if n > 0 {
        law_a_note_is_taken_in_once(ids, existing, n - 1, p);
        lemma_new_positions(ids, existing, n - 1);
        let before = new_positions(ids, existing, n - 1);
        let now = new_positions(ids, existing, n);
        assert forall|a: int, b: int| 0 <= a < b < now.len() implies #[trigger] now[a]
            < #[trigger] now[b] by {
            assert(now[a] == before[a]);
            assert(before.contains(before[a]));
            if b < before.len() {
                assert(now[b] == before[b]);
            }
        }
    }
}

/// Importing the same notes again imports nothing: every identity is in the
/// store by then.
pub proof fn law_import_again_is_nothing(ids: Seq<Seq<char>>, existing: Seq<Seq<char>>)
    ensures
        new_positions(
            ids,
            existing + new_positions(ids, existing, ids.len() as int).map_values(|p: int| ids[p]),
            ids.len() as int,
        ) =~= Seq::<int>::empty(),
{
    let n = ids.len() as int;
    let first = new_positions(ids, existing, n);
    let added = first.map_values(|p: int| ids[p]);
    let held = existing + added;
    lemma_new_positions(ids, existing, n);
    lemma_new_positions(ids, held, n);
    assert forall|p: int| 0 <= p < n implies held.contains(#[trigger] ids[p]) by {
        lemma_held(ids, existing, p);
    }
    let second = new_positions(ids, held, n);
    if second.len() > 0 {
        assert(second.contains(second[0]));
        assert(is_new(ids, held, second[0]));
        assert(held.contains(ids[second[0]]));
    }
}

/// After an import the store has the identity of the note at `p`.
proof fn lemma_held(ids: Seq<Seq<char>>, existing: Seq<Seq<char>>, p: int)
    requires
        0 <= p < ids.len(),
    ensures
        (existing + new_positions(ids, existing, ids.len() as int).map_values(
            |p: int| ids[p],
        )).contains(ids[p]),
    decreases p,
{
    let n = ids.len() as int;
    let first = new_positions(ids, existing, n);
    let added = first.map_values(|p: int| ids[p]);
    let held = existing + added;
    lemma_new_positions(ids, existing, n);
    if existing.contains(ids[p]) {
        let k = choose|k: int| 0 <= k < existing.len() && existing[k] == ids[p];
        assert(held[k] == ids[p]);
    } else if ids.take(p).contains(ids[p]) {
        let q = choose|q: int| 0 <= q < ids.take(p).len() && ids.take(p)[q] == ids[p];
        assert(ids[q] == ids[p]);
        lemma_held(ids, existing, q);
    } else {
        assert(is_new(ids, existing, p));
        assert(first.contains(p));
        let k = choose|k: int| 0 <= k < first.len() && first[k] == p;
        assert(added[k] == ids[p]);
        assert(held[existing.len() + k] == ids[p]);
    }
}

/// What an import from git notes does, by what was found.
#[derive(Clone, Copy, PartialEq, Eq, Structural, Debug)]
pub enum GitNotesStep {
    /// Nothing is written: there is no store, and an empty carrier makes none.
    Nothing,
    /// Only the marker of what was read is moved forward.
    MarkOnly,
    /// The notes and edges go in, and the marker with them, in one transaction.
    Write,
}

/// What an import from git notes does. An empty carrier must not make a store,
/// and a carrier with nothing new only moves the marker.
pub fn git_notes_step(
    notes: usize,
    store_exists: bool,
    to_import: usize,
    carried_edges: usize,
    supersede_edges: usize,
) -> (r: GitNotesStep)
    ensures
        r == if notes == 0 {
            if store_exists {
                GitNotesStep::MarkOnly
            } else {
                GitNotesStep::Nothing
            }
        } else if to_import == 0 && carried_edges == 0 && supersede_edges == 0 {
            GitNotesStep::MarkOnly
        } else {
            GitNotesStep::Write
        },
{
    if notes == 0 {
        if store_exists {
            GitNotesStep::MarkOnly
        } else {
            GitNotesStep::Nothing
        }
    } else if to_import == 0 && carried_edges == 0 && supersede_edges == 0 {
        GitNotesStep::MarkOnly
    } else {
        GitNotesStep::Write
    }
}

/// One step of the transaction that takes git notes in.
#[derive(Clone, Copy, PartialEq, Eq, Structural, Debug)]
pub enum NotesWrite {
    Begin,
    /// The note at this position is inserted.
    Insert(usize),
    /// The relations that ride on the notes are applied.
    Edges,
    /// The replacements that ride on the notes are applied.
    SupersedeEdges,
    /// The marker of what was read is moved forward.
    Mark,
    Commit,
}

/// The steps of the transaction. Edges come after every note, so that one
/// between two notes of the same import finds both; the marker moves inside the
/// transaction, so that a crash cannot part it from the notes.
pub open spec fn notes_writes(at: Seq<int>) -> Seq<NotesWrite> {
    seq![NotesWrite::Begin] + at.map_values(|p: int| NotesWrite::Insert(p as usize)) + seq![
        NotesWrite::Edges,
        NotesWrite::SupersedeEdges,
        NotesWrite::Mark,
        NotesWrite::Commit,
    ]
}

/// An import of git notes under way: its steps, how many are done, and the error
/// that ended it early, if one did.
pub struct NotesImportRun {
    pub steps: Vec<NotesWrite>,
    pub imported: usize,
    pub done: usize,
    pub failed: Option<String>,
}

/// What the failure of a step is told as.
pub open spec fn notes_failure(step: NotesWrite, cause: Seq<char>) -> Seq<char> {
    match step {
        NotesWrite::Begin => "beginning git-notes import transaction: "@ + cause,
        NotesWrite::Commit => "committing git-notes import transaction: "@ + cause,
        _ => cause,
    }
}

impl NotesImportRun {
    /// The run takes in the notes at the positions `at`.
    pub open spec fn takes_in(self, at: Seq<int>) -> bool {
        &&& self.steps@ == notes_writes(at)
        &&& self.imported == at.len()
        &&& self.done <= self.steps@.len()
        &&& self.failed is Some ==> self.done < self.steps@.len()
    }

    /// The step that is due; none where all are done or one failed.
    pub open spec fn due(self) -> Option<NotesWrite> {
        if self.failed is None && self.done < self.steps@.len() {
            Some(self.steps@[self.done as int])
        } else {
            None
        }
    }

    /// The step that is due.
    pub fn current(&self) -> (r: Option<NotesWrite>)
        ensures
            r == self.due(),
    {
        if self.failed.is_none() && self.done < self.steps.len() {
            Some(self.steps[self.done])
        } else {
            None
        }
    }

    /// The step that was due is done.
    pub fn advance(&mut self)
        requires
            old(self).due() is Some,
        ensures
            final(self).done == old(self).done + 1,
            final(self).steps@ == old(self).steps@,
            final(self).imported == old(self).imported,
            final(self).failed is None,
    {
        assert(self.done < self.steps.len());
        self.done = self.done + 1;
    }

    /// The step that was due failed. The answer says whether the transaction is
    /// rolled back: it is not where it did not begin, nor where the commit is
    /// what failed.
    pub fn fail(&mut self, cause: &str) -> (r: bool)
        requires
            old(self).due() is Some,
        ensures
            final(self).done == old(self).done,
            final(self).steps@ == old(self).steps@,
            final(self).imported == old(self).imported,
            opt_text(final(self).failed) == Some(notes_failure(old(self).due()->0, cause@)),
            r == !(old(self).due()->0 is Begin || old(self).due()->0 is Commit),
    {
        let (error, rollback) = match self.steps[self.done] {
            NotesWrite::Begin => (
                "beginning git-notes import transaction: ".to_owned().concat(cause),
                false,
            ),
            NotesWrite::Commit => (
                "committing git-notes import transaction: ".to_owned().concat(cause),
                false,
            ),
            _ => (cause.to_owned(), true),
        };
        self.failed = Some(error);
        rollback
    }

    /// What the import did, by what the store said of the edges: how many were
    /// applied, and how many were not.
    pub open spec fn counts(
        self,
        edges: (usize, usize),
        supersede_edges: (usize, usize),
    ) -> GitNotesImport {
        GitNotesImport {
            imported: self.imported,
            edges_applied: edges.0,
            edges_unresolved: edges.1,
            supersede_edges_applied: supersede_edges.0,
            supersede_edges_unresolved: supersede_edges.1,
        }
    }

    /// What the import did, by what the store said of the edges.
    pub fn outcome(
        &self,
        edges: (usize, usize),
        supersede_edges: (usize, usize),
    ) -> (r: GitNotesImport)
        ensures
            r == self.counts(edges, supersede_edges),
            r.imported == self.imported,
            r.edges_applied == edges.0,
            r.edges_unresolved == edges.1,
            r.supersede_edges_applied == supersede_edges.0,
            r.supersede_edges_unresolved == supersede_edges.1,
    {
        GitNotesImport {
            imported: self.imported,
            edges_applied: edges.0,
            edges_unresolved: edges.1,
            supersede_edges_applied: supersede_edges.0,
            supersede_edges_unresolved: supersede_edges.1,
        }
    }
}

/// An import of the notes whose identity neither the store nor an earlier note
/// has, about to begin.
pub fn import_git_notes_into_memory(ids: &Vec<String>, existing: &Vec<String>) -> (r: NotesImportRun)
    ensures
        r.takes_in(new_positions(texts(ids@), texts(existing@), ids.len() as int)),
        r.done == 0,
        r.failed is None,
{
    let at = select_new_notes(ids, existing);
    let ghost want = crate::order::positions(at@);
    let mut steps: Vec<NotesWrite> = Vec::new();
    steps.push(NotesWrite::Begin);
    let mut i: usize = 0;
    while i < at.len()
        invariant
            i <= at.len(),
            want == crate::order::positions(at@),
            steps@ =~= seq![NotesWrite::Begin] + want.take(i as int).map_values(
                |p: int| NotesWrite::Insert(p as usize),
            ),
        decreases at.len() - i,
    {
        assert(want[i as int] == at@[i as int] as int);
        steps.push(NotesWrite::Insert(at[i]));
        assert(want.take(i + 1) =~= want.take(i as int).push(at@[i as int] as int));
        i = i + 1;
    }
    assert(want.take(i as int) =~= want);
    steps.push(NotesWrite::Edges);
    steps.push(NotesWrite::SupersedeEdges);
    steps.push(NotesWrite::Mark);
    steps.push(NotesWrite::Commit);
    assert(steps@ =~= notes_writes(want));
    NotesImportRun { steps, imported: at.len(), done: 0, failed: None }
}

/// Importing the same notes again writes no note. Where the store then applies no
/// relation and no replacement anew, nothing is counted as imported or applied.
pub proof fn law_importing_again_counts_nothing(
    ids: Seq<Seq<char>>,
    existing: Seq<Seq<char>>,
    run: NotesImportRun,
    edges: (usize, usize),
    supersede_edges: (usize, usize),
    k: int,
)
    requires
        run.takes_in(
            new_positions(
                ids,
                existing + new_positions(ids, existing, ids.len() as int).map_values(
                    |p: int| ids[p],
                ),
                ids.len() as int,
            ),
        ),
        edges.0 == 0,
        supersede_edges.0 == 0,
    ensures
        0 <= k < run.steps@.len() ==> !(run.steps@[k] is Insert),
        run.counts(edges, supersede_edges) == (GitNotesImport {
            imported: 0,
            edges_applied: 0,
            edges_unresolved: edges.1,
            supersede_edges_applied: 0,
            supersede_edges_unresolved: supersede_edges.1,
        }),
{
    law_import_again_is_nothing(ids, existing);
}

/// An import begins, inserts each of its notes once and in order, applies the
/// relations and then the replacements, moves the marker, and commits last.
pub proof fn law_an_import_writes_notes_then_edges_then_marker(at: Seq<int>, k: int)
    ensures
        notes_writes(at).len() == at.len() + 5,
        notes_writes(at)[0] is Begin,
        0 <= k < at.len() ==> notes_writes(at)[1 + k] == NotesWrite::Insert(at[k] as usize),
        notes_writes(at)[at.len() as int + 1] is Edges,
        notes_writes(at)[at.len() as int + 2] is SupersedeEdges,
        notes_writes(at)[at.len() as int + 3] is Mark,
        notes_writes(at).last() is Commit,
{
}

/// Edges are applied only once every note of the import is in.
pub proof fn law_edges_find_their_entries(run: NotesImportRun, at: Seq<int>, k: int)
    requires
        run.takes_in(at),
        run.due() is Some,
        run.due()->0 is Edges || run.due()->0 is SupersedeEdges,
        0 <= k < at.len(),
    ensures
        run.steps@.take(run.done as int).contains(NotesWrite::Insert(at[k] as usize)),
{
    let steps = run.steps@;
    assert(steps[k + 1] == NotesWrite::Insert(at[k] as usize));
    if run.done <= k + 1 {
        if run.done > 0 {
            assert(steps[run.done as int] == NotesWrite::Insert(at[run.done - 1] as usize));
        }
    }
    assert(steps.take(run.done as int)[k + 1] == NotesWrite::Insert(at[k] as usize));
}

/// The marker and the notes are committed together or not at all: a run that
/// failed never committed, and one that committed did every step.
pub proof fn law_marker_and_notes_go_together(run: NotesImportRun, at: Seq<int>)
    requires
        run.takes_in(at),
    ensures
        run.failed is Some ==> !run.steps@.take(run.done as int).contains(NotesWrite::Commit),
        run.steps@.take(run.done as int).contains(NotesWrite::Commit) ==> run.done
            == run.steps@.len() && run.steps@.contains(NotesWrite::Mark),
{
    let steps = run.steps@;
    let n = at.len() as int;
    assert(steps[n + 3] == NotesWrite::Mark);
    let taken = steps.take(run.done as int);
    if taken.contains(NotesWrite::Commit) {
        let k = choose|k: int| 0 <= k < taken.len() && taken[k] == NotesWrite::Commit;
        assert(steps[k] == NotesWrite::Commit);
        if 1 <= k <= n {
            assert(steps[k] == NotesWrite::Insert(at[k - 1] as usize));
        }
    }
}

// ---- following the notes refs before a read --------------------------------

/// How a read begins.
#[derive(Clone, Copy, PartialEq, Eq, Structural, Debug)]
pub enum ReadPathStart {
    /// Git notes is the store that is read: the fetched ref is merged into it.
    MergeOnly,
    /// The local carrier is not read.
    Skip,
    /// The refs are compared with what was last taken in.
    Compare,
}

/// How a read begins: git notes as the store is merged into directly, and a
/// store kept on the server leaves the local carrier alone.
pub fn read_path_start(
    backend_override: Option<&str>,
    cloud_first: bool,
    has_server_url: bool,
) -> (r: ReadPathStart)
    ensures
        r == if opt_str(backend_override) == Some("git-notes"@) {
            ReadPathStart::MergeOnly
        } else if cloud_first && has_server_url {
            ReadPathStart::Skip
        } else {
            ReadPathStart::Compare
        },
{
    if let Some(name) = backend_override {
        if same(name, "git-notes") {
            return ReadPathStart::MergeOnly;
        }
    }
    if cloud_first && has_server_url {
        ReadPathStart::Skip
    } else {
        ReadPathStart::Compare
    }
}

fn same_ref(a: &Option<String>, b: &Option<String>) -> (r: bool)
    ensures
        r == (opt_text(*a) == opt_text(*b)),
{
    match (a, b) {
        (Some(x), Some(y)) => same(x.as_str(), y.as_str()),
        (None, None) => true,
        _ => false,
    }
}

/// Whether the fetched ref is merged, given what each ref names and what was
/// merged last; `None` when neither ref exists and nothing is to be done.
pub fn tracking_merge_due(
    tracking: &Option<String>,
    working: &Option<String>,
    last_merged: &Option<String>,
) -> (r: Option<bool>)
    ensures
        r == if tracking is None && working is None {
            None
        } else {
            Some(opt_text(*tracking) != opt_text(*last_merged))
        },
{
    if tracking.is_none() && working.is_none() {
        return None;
    }
    Some(!same_ref(tracking, last_merged))
}

/// Whether the working ref is imported, as it stands after any merge.
pub fn working_import_due(
    working: &Option<String>,
    last_imported: &Option<String>,
    has_workdir: bool,
) -> (r: bool)
    ensures
        r == (has_workdir && opt_text(*working) != opt_text(*last_imported)),
{
    has_workdir && !same_ref(working, last_imported)
}

/// An event fits a phase if and only if it answers what the phase asked: a start
/// before anything, an id for an insert, a done for all else, and a failure for
/// anything that was asked.
pub proof fn law_an_event_answers_its_phase(phase: ImportPhase, event: ImportEvent)
    ensures
        fits(phase, event) <==> match event {
            ImportEvent::Start => phase is Idle,
            ImportEvent::Inserted(_) => phase is Inserting,
            ImportEvent::Done => phase is Opening || phase is Embedding || phase is Committing
                || phase is RollingBack,
            ImportEvent::Failed(_) => !(phase is Idle) && !(phase is Closed),
        },
{
}

/// What does not fit changes nothing.
pub proof fn law_an_event_that_does_not_fit_changes_nothing(
    phase: ImportPhase,
    event: ImportEvent,
    notes: int,
    embedded: Seq<bool>,
)
    requires
        !fits(phase, event),
    ensures
        next_phase(phase, event, notes, embedded) == phase,
{
}

/// As many notes are imported as have a place for their vector.
pub proof fn law_notes_and_vectors_go_in_pairs(notes: int, embedded: Seq<bool>)
    ensures
        paired(notes, embedded) <= notes,
        paired(notes, embedded) <= embedded.len(),
        paired(notes, embedded) == notes || paired(notes, embedded) == embedded.len(),
{
}

/// The error of an import ends with its cause.
pub proof fn law_an_import_error_tells_its_cause(step: NotesWrite, cause: Seq<char>)
    ensures
        cause.is_suffix_of(notes_failure(step, cause)),
        !(step is Begin) && !(step is Commit) ==> notes_failure(step, cause) == cause,
        step is Begin ==> notes_failure(step, cause) == "beginning git-notes import transaction: "@
            + cause,
        step is Commit ==> notes_failure(step, cause)
            == "committing git-notes import transaction: "@ + cause,
{
    let t = notes_failure(step, cause);
    assert(t.subrange(t.len() - cause.len(), t.len() as int) =~= cause);
}

/// The step that is due is the first that is not done, until all are or one failed.
pub proof fn law_the_next_write_is_due(run: NotesImportRun)
    ensures
        run.due() is Some <==> run.failed is None && run.done < run.steps@.len(),
        run.due() is Some ==> run.due()->0 == run.steps@[run.done as int],
{
}

} // verus!
