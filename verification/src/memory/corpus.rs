//! The memory part of a search: which entries it keeps, and which it attaches.

use crate::memory::cross_project::{
    all_placed, collect_dep_cross_cutting, fresh_upto, local_places, note_places, DepNote, PlacedId,
};
use crate::memory::note::Note;
use crate::text::{opt_str, push_text, same, texts};
use crate::textmap::has_text;
use vstd::prelude::*;
use vstd::string::*;

verus! {

/// A tag to filter by: as it was normalised, or one of which nothing was left.
pub enum TagFilter {
    Any,
    Tag(String),
    Nothing,
}

/// Whether an entry has the tag and the file that are asked for. A tag of which
/// normalising left nothing is carried by no entry.
pub open spec fn passes(
    tags: Seq<Seq<char>>,
    files: Seq<Seq<char>>,
    tag: TagFilter,
    file: Option<Seq<char>>,
) -> bool {
    (match tag {
        TagFilter::Any => true,
        TagFilter::Tag(t) => tags.contains(t@),
        TagFilter::Nothing => false,
    }) && (match file {
        Some(f) => files.contains(f),
        None => true,
    })
}

/// An entry that has the tag and the file asked for passes, whatever else it has;
/// asking for more never lets more through.
pub proof fn law_a_filter_asks_for_what_it_names(
    tags: Seq<Seq<char>>,
    files: Seq<Seq<char>>,
    t: String,
    f: Seq<char>,
    tag: TagFilter,
    file: Option<Seq<char>>,
)
    ensures
        passes(tags, files, TagFilter::Any, None),
        passes(tags, files, TagFilter::Tag(t), None) <==> exists|i: int|
            0 <= i < tags.len() && #[trigger] tags[i] == t@,
        passes(tags, files, TagFilter::Any, Some(f)) <==> exists|i: int|
            0 <= i < files.len() && #[trigger] files[i] == f,
        !passes(tags, files, TagFilter::Nothing, file),
        passes(tags, files, tag, file) <==> passes(tags, files, tag, None) && passes(
            tags,
            files,
            TagFilter::Any,
            file,
        ),
{
}

/// Whether an entry has the tag and the file that are asked for.
pub fn matches_filters(
    tags: &Vec<String>,
    files: &Vec<String>,
    tag: &TagFilter,
    file: Option<&str>,
) -> (r: bool)
    ensures
        r == passes(texts(tags@), texts(files@), *tag, opt_str(file)),
{
    let tag_ok = match tag {
        TagFilter::Any => true,
        TagFilter::Tag(t) => has_text(tags, t.as_str()),
        TagFilter::Nothing => false,
    };
    if !tag_ok {
        return false;
    }
    match file {
        Some(f) => has_text(files, f),
        None => true,
    }
}

/// The entries among the first `n` that have the tag and the file asked for.
pub open spec fn passing_upto(
    notes: Seq<Note>,
    tag: TagFilter,
    file: Option<Seq<char>>,
    n: int,
) -> Seq<Note>
    decreases n,
{
    if n <= 0 {
        Seq::<Note>::empty()
    } else if passes(texts(notes[n - 1].tags@), texts(notes[n - 1].linked_files@), tag, file) {
        passing_upto(notes, tag, file, n - 1).push(notes[n - 1])
    } else {
        passing_upto(notes, tag, file, n - 1)
    }
}

/// The entries that have the tag and the file asked for, as they were ranked.
pub fn filter_notes(notes: Vec<Note>, tag: &TagFilter, file: Option<&str>) -> (r: Vec<Note>)
    ensures
        r@ == passing_upto(notes@, *tag, opt_str(file), notes@.len() as int),
{
    let ghost all = notes@;
    let mut out: Vec<Note> = Vec::new();
    for n in it: notes
        invariant
            it.seq() == all,
            out@ == passing_upto(all, *tag, opt_str(file), it.index() as int),
    {
        assert(n == all[it.index() as int]);
        if matches_filters(&n.tags, &n.linked_files, tag, file) {
            out.push(n);
        }
    }
    out
}

/// What passes the filter is kept in its order, and nothing else.
pub proof fn law_what_passes_is_kept(
    notes: Seq<Note>,
    tag: TagFilter,
    file: Option<Seq<char>>,
    n: int,
)
    requires
        0 <= n <= notes.len(),
    ensures
        passing_upto(notes, tag, file, n) == notes.take(n).filter(
            |m: Note| passes(texts(m.tags@), texts(m.linked_files@), tag, file),
        ),
    decreases n,
{
    reveal(Seq::filter);
    if n > 0 {
        law_what_passes_is_kept(notes, tag, file, n - 1);
        assert(notes.take(n).drop_last() =~= notes.take(n - 1));
        assert(notes.take(n).last() == notes[n - 1]);
    } else {
        assert(passing_upto(notes, tag, file, n) =~= notes.take(n).filter(
            |m: Note| passes(texts(m.tags@), texts(m.linked_files@), tag, file),
        ));
    }
}

/// A relation that was found at one of the results.
pub struct FoundEdge {
    /// The result.
    pub note_id: String,
    pub kind: String,
    pub from_id: String,
    pub to_id: String,
}

/// The other end of a relation.
pub open spec fn neighbour(e: FoundEdge) -> Seq<char> {
    if e.from_id@ == e.note_id@ {
        e.to_id@
    } else {
        e.from_id@
    }
}

/// The entries that the first `n` relations lead to: neither results
/// themselves nor reached before, by `relates_to` alone.
pub open spec fn neighbours_upto(results: Seq<Seq<char>>, edges: Seq<FoundEdge>, n: int) -> Seq<
    Seq<char>,
>
    decreases n,
{
    if n <= 0 {
        Seq::<Seq<char>>::empty()
    } else {
        let before = neighbours_upto(results, edges, n - 1);
        let e = edges[n - 1];
        if e.kind@ == "relates_to"@ && !results.contains(neighbour(e)) && !before.contains(
            neighbour(e),
        ) {
            before.push(neighbour(e))
        } else {
            before
        }
    }
}

/// The entries one step from the results, in the order in which they are
/// reached.
pub fn graph_neighbours(results: &Vec<String>, edges: &Vec<FoundEdge>) -> (r: Vec<String>)
    ensures
        texts(r@) == neighbours_upto(texts(results@), edges@, edges.len() as int),
{
    let ghost ids = texts(results@);
    let mut out: Vec<String> = Vec::new();
    let mut i: usize = 0;
    assert(texts(out@) =~= Seq::<Seq<char>>::empty());
    while i < edges.len()
        invariant
            i <= edges.len(),
            ids == texts(results@),
            texts(out@) == neighbours_upto(ids, edges@, i as int),
        decreases edges.len() - i,
    {
        let e = &edges[i];
        if same(e.kind.as_str(), "relates_to") {
            let other = if same(e.from_id.as_str(), e.note_id.as_str()) {
                e.to_id.clone()
            } else {
                e.from_id.clone()
            };
            if !has_text(results, other.as_str()) && !has_text(&out, other.as_str()) {
                push_text(&mut out, other);
            }
        }
        i = i + 1;
    }
    out
}

/// What the memory corpus gives a search. Only what is ranked may be fused with
/// code: what is attached was not found by the query, and a rank would invent
/// relevance for it.
pub struct MemoryCorpus {
    pub ranked: Vec<Note>,
    pub attachments: Vec<Note>,
}

/// What the memory corpus gives a search: the ranked entries as they are, and
/// attached to them their neighbours and the entries of linked projects, unless
/// only this project is searched. What is there already is not attached again.
pub fn memory_corpus_search(
    ranked: Vec<Note>,
    neighbours: Vec<Note>,
    dep_notes: Vec<DepNote>,
    local_only: bool,
) -> (r: MemoryCorpus)
    ensures
        r.ranked@ == ranked@,
        r.attachments@ == neighbours@ + if local_only {
            Seq::<Note>::empty()
        } else {
            fresh_upto(
                local_places(ranked@) + local_places(neighbours@),
                dep_notes@,
                dep_notes@.len() as int,
            )
        },
{
    let mut attachments = neighbours;
    if !local_only {
        let none: Vec<PlacedId> = Vec::new();
        let seen = note_places(note_places(none, &ranked), &attachments);
        assert(all_placed(seen@) =~= local_places(ranked@) + local_places(neighbours@));
        let mut fresh = collect_dep_cross_cutting(seen, dep_notes);
        attachments.append(&mut fresh);
    }
    assert(attachments@ =~= neighbours@ + if local_only {
        Seq::<Note>::empty()
    } else {
        fresh_upto(
            local_places(ranked@) + local_places(neighbours@),
            dep_notes@,
            dep_notes@.len() as int,
        )
    });
    MemoryCorpus { ranked, attachments }
}

/// What is attached is never ranked: no neighbour is a result, and none is
/// attached twice.
pub proof fn law_attachments_are_no_results(
    results: Seq<Seq<char>>,
    edges: Seq<FoundEdge>,
    n: int,
)
    requires
        0 <= n <= edges.len(),
    ensures
        neighbours_upto(results, edges, n).no_duplicates(),
        forall|i: int|
            0 <= i < neighbours_upto(results, edges, n).len() ==> !results.contains(
                #[trigger] neighbours_upto(results, edges, n)[i],
            ),
    decreases n,
{
    if n > 0 {
        law_attachments_are_no_results(results, edges, n - 1);
        let before = neighbours_upto(results, edges, n - 1);
        let now = neighbours_upto(results, edges, n);
        assert forall|i: int| 0 <= i < now.len() implies !results.contains(#[trigger] now[i]) by {
            if i < before.len() {
                assert(now[i] == before[i]);
            }
        }
        assert forall|i: int, j: int|
            0 <= i < now.len() && 0 <= j < now.len() && i != j implies now[i] != now[j] by {
            if i < before.len() {
                assert(before.contains(before[i]));
            }
            if j < before.len() {
                assert(before.contains(before[j]));
            }
        }
    }
}

/// An entry is a neighbour if and only if it is no result and stands at the other
/// end of a `relates_to` relation of one, whichever way that leads.
pub proof fn law_a_neighbour_is_at_the_other_end(
    results: Seq<Seq<char>>,
    edges: Seq<FoundEdge>,
    n: int,
    id: Seq<char>,
)
    requires
        0 <= n <= edges.len(),
    ensures
        neighbours_upto(results, edges, n).contains(id) <==> !results.contains(id)
            && exists|i: int|
            0 <= i < n && (#[trigger] edges[i]).kind@ == "relates_to"@ && (if edges[i].from_id@
                == edges[i].note_id@ {
                edges[i].to_id@ == id
            } else {
                edges[i].from_id@ == id
            }),
    decreases n,
{
    if n > 0 {
        law_a_neighbour_is_at_the_other_end(results, edges, n - 1, id);
        let before = neighbours_upto(results, edges, n - 1);
        let now = neighbours_upto(results, edges, n);
        let e = edges[n - 1];
        if before.contains(id) {
            let k = choose|k: int| 0 <= k < before.len() && before[k] == id;
            assert(now[k] == id);
        }
        if now.contains(id) && !before.contains(id) {
            let k = choose|k: int| 0 <= k < now.len() && now[k] == id;
            assert(k == before.len()) by {
                if k < before.len() {
                    assert(before[k] == id);
                }
            }
            assert(edges[n - 1].kind@ == "relates_to"@);
        }
        if e.kind@ == "relates_to"@ && neighbour(e) == id && !results.contains(id)
            && !before.contains(id) {
            assert(now[before.len() as int] == id);
        }
    }
}

/// Entries are told apart by their project and their id: an entry of this project
/// has no place, one of a linked project has its own.
pub proof fn law_an_entry_is_told_apart_by_project_and_id(
    notes: Seq<Note>,
    deps: Seq<DepNote>,
    i: int,
)
    ensures
        0 <= i < notes.len() ==> local_places(notes)[i].0.len() == 0 && local_places(notes)[i].1
            == notes[i].id@,
        0 <= i < deps.len() ==> crate::memory::cross_project::dep_places(deps)[i] == (
            deps[i].root@,
            deps[i].note.id@,
        ),
{
}

} // verus!
