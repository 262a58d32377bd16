//! Entries of linked projects that concern this one.

use crate::memory::note::Note;
use crate::text::{same, texts};
use crate::textmap::has_text;
use vstd::prelude::*;

verus! {

/// Whether tags mark an entry as one for other projects.
pub open spec fn cross_cutting(tags: Seq<Seq<char>>) -> bool {
    tags.contains("locked"@) || tags.contains("cross-project"@)
}

/// One tag shares an entry, wherever it stands among the tags: an entry is
/// shared if and only if some tag is `locked` or `cross-project`.
pub proof fn law_one_tag_shares_an_entry(tags: Seq<Seq<char>>)
    ensures
        cross_cutting(tags) <==> exists|i: int|
            0 <= i < tags.len() && ((#[trigger] tags[i]) == "locked"@ || tags[i]
                == "cross-project"@),
{
    if cross_cutting(tags) {
        let t = if tags.contains("locked"@) {
            "locked"@
        } else {
            "cross-project"@
        };
        let i = choose|i: int| 0 <= i < tags.len() && tags[i] == t;
        assert(tags[i] == t);
    }
}

/// Further tags, before or behind, never unshare an entry; and what neither part
/// of the tags shares, both together do not.
pub proof fn law_more_tags_keep_an_entry_shared(a: Seq<Seq<char>>, b: Seq<Seq<char>>)
    ensures
        cross_cutting(a + b) <==> cross_cutting(a) || cross_cutting(b),
{
    law_one_tag_shares_an_entry(a);
    law_one_tag_shares_an_entry(b);
    law_one_tag_shares_an_entry(a + b);
    assert forall|i: int| 0 <= i < a.len() implies #[trigger] a[i] == (a + b)[i] by {}
    assert forall|i: int| 0 <= i < b.len() implies #[trigger] b[i] == (a + b)[a.len() + i] by {}
    if cross_cutting(a + b) {
        let i = choose|i: int|
            0 <= i < (a + b).len() && ((#[trigger] (a + b)[i]) == "locked"@ || (a + b)[i]
                == "cross-project"@);
        if i < a.len() {
            assert(a[i] == (a + b)[i]);
        } else {
            assert(b[i - a.len()] == (a + b)[i]);
        }
    }
}

/// The order of the tags does not matter.
pub proof fn law_the_order_of_tags_does_not_matter(a: Seq<Seq<char>>, b: Seq<Seq<char>>)
    requires
        a.to_multiset() == b.to_multiset(),
    ensures
        cross_cutting(a) == cross_cutting(b),
{
    broadcast use vstd::seq_lib::group_to_multiset_ensures;

    assert(a.contains("locked"@) <==> a.to_multiset().count("locked"@) > 0);
    assert(b.contains("locked"@) <==> b.to_multiset().count("locked"@) > 0);
    assert(a.contains("cross-project"@) <==> a.to_multiset().count("cross-project"@) > 0);
    assert(b.contains("cross-project"@) <==> b.to_multiset().count("cross-project"@) > 0);
}

/// Whether tags mark an entry as one for other projects.
pub fn is_cross_cutting(tags: &Vec<String>) -> (r: bool)
    ensures
        r == cross_cutting(texts(tags@)),
        r == exists|i: int|
            0 <= i < tags.len() && ((#[trigger] tags@[i])@ == "locked"@ || tags@[i]@
                == "cross-project"@),
{
    proof {
        law_one_tag_shares_an_entry(texts(tags@));
        if cross_cutting(texts(tags@)) {
            let i = choose|i: int|
                0 <= i < texts(tags@).len() && ((#[trigger] texts(tags@)[i]) == "locked"@ || texts(
                    tags@,
                )[i] == "cross-project"@);
            assert(tags@[i]@ == texts(tags@)[i]);
        }
        if exists|i: int|
            0 <= i < tags.len() && ((#[trigger] tags@[i])@ == "locked"@ || tags@[i]@
                == "cross-project"@) {
            let i = choose|i: int|
                0 <= i < tags.len() && ((#[trigger] tags@[i])@ == "locked"@ || tags@[i]@
                    == "cross-project"@);
            assert(texts(tags@)[i] == tags@[i]@);
        }
    }
    has_text(tags, "locked") || has_text(tags, "cross-project")
}

/// Whether entries of this kind are shared with other projects.
pub open spec fn shared_kind(kind: Seq<char>) -> bool {
    kind == "decision"@ || kind == "requirement"@
}

/// The kinds whose entries are shared with other projects, in the order in
/// which they are read.
pub fn cross_cutting_kinds() -> (r: Vec<String>)
    ensures
        texts(r@) == seq!["decision"@, "requirement"@],
        forall|i: int| 0 <= i < r.len() ==> shared_kind((#[trigger] r@[i])@),
{
    let mut out: Vec<String> = Vec::new();
    out.push("decision".to_owned());
    out.push("requirement".to_owned());
    assert(texts(out@) =~= seq!["decision"@, "requirement"@]);
    out
}

/// An entry of a linked project: where the project is, and the entry's id
/// there. An entry of this project has no place.
pub struct PlacedId {
    pub root: String,
    pub id: String,
}

/// The pair that names an entry among all projects.
pub open spec fn placed(p: PlacedId) -> (Seq<char>, Seq<char>) {
    (p.root@, p.id@)
}

/// The pairs of a sequence of entries.
pub open spec fn all_placed(v: Seq<PlacedId>) -> Seq<(Seq<char>, Seq<char>)> {
    v.map_values(|p: PlacedId| placed(p))
}

/// Whether the entry at `i` was neither seen before nor stands earlier.
pub open spec fn first_seen(
    seen: Seq<(Seq<char>, Seq<char>)>,
    items: Seq<(Seq<char>, Seq<char>)>,
    i: int,
) -> bool {
    !seen.contains(items[i]) && !items.take(i).contains(items[i])
}

/// The positions below `n` of the entries seen for the first time.
pub open spec fn unseen_upto(
    seen: Seq<(Seq<char>, Seq<char>)>,
    items: Seq<(Seq<char>, Seq<char>)>,
    n: int,
) -> Seq<int>
    decreases n,
{
    if n <= 0 {
        Seq::<int>::empty()
    } else {
        let before = unseen_upto(seen, items, n - 1);
        if first_seen(seen, items, n - 1) {
            before.push(n - 1)
        } else {
            before
        }
    }
}

fn has_placed(v: &Vec<PlacedId>, upto: usize, p: &PlacedId) -> (r: bool)
    requires
        upto <= v.len(),
    ensures
        r == all_placed(v@).take(upto as int).contains(placed(*p)),
{
    let ghost all = all_placed(v@);
    let mut i: usize = 0;
    while i < upto
        invariant
            i <= upto <= v.len(),
            all == all_placed(v@),
            forall|k: int| 0 <= k < i ==> all[k] != placed(*p),
        decreases upto - i,
    {
        assert(all[i as int] == placed(v@[i as int]));
        if same(v[i].root.as_str(), p.root.as_str()) && same(v[i].id.as_str(), p.id.as_str()) {
            assert(all.take(upto as int)[i as int] == placed(*p));
            return true;
        }
        i = i + 1;
    }
    proof {
        if all.take(upto as int).contains(placed(*p)) {
            let k = choose|k: int| 0 <= k < upto && all.take(upto as int)[k] == placed(*p);
            assert(all[k] == placed(*p));
        }
    }
    false
}

/// The places of entries of this project.
pub open spec fn local_places(notes: Seq<Note>) -> Seq<(Seq<char>, Seq<char>)> {
    notes.map_values(|n: Note| (Seq::<char>::empty(), n.id@))
}

/// The places of entries of this project, after those that are given.
pub fn note_places(seen: Vec<PlacedId>, notes: &Vec<Note>) -> (r: Vec<PlacedId>)
    ensures
        all_placed(r@) == all_placed(seen@) + local_places(notes@),
{
    let ghost first = all_placed(seen@);
    let ghost want = local_places(notes@);
    let mut out = seen;
    let mut i: usize = 0;
    assert(all_placed(out@) =~= first + want.take(0));
    while i < notes.len()
        invariant
            i <= notes.len(),
            want == local_places(notes@),
            all_placed(out@) == first + want.take(i as int),
        decreases notes.len() - i,
    {
        let p = PlacedId { root: String::new(), id: notes[i].id.clone() };
        let ghost before = out@;
        proof {
            assert(p.root@ =~= Seq::<char>::empty());
            assert(want[i as int] == placed(p));
            assert(want.take(i + 1) =~= want.take(i as int).push(placed(p)));
        }
        out.push(p);
        assert(all_placed(out@) =~= all_placed(before).push(placed(p)));
        assert(all_placed(out@) =~= first + want.take(i + 1));
        i = i + 1;
    }
    assert(want.take(i as int) =~= want);
    out
}

/// An entry of a linked project, and where that project is.
pub struct DepNote {
    pub root: String,
    pub note: Note,
}

/// The places of entries of linked projects.
pub open spec fn dep_places(v: Seq<DepNote>) -> Seq<(Seq<char>, Seq<char>)> {
    v.map_values(|d: DepNote| (d.root@, d.note.id@))
}

/// The entries among the first `n` that are seen for the first time.
pub open spec fn fresh_upto(
    seen: Seq<(Seq<char>, Seq<char>)>,
    items: Seq<DepNote>,
    n: int,
) -> Seq<Note> {
    unseen_upto(seen, dep_places(items), n).map_values(|p: int| items[p].note)
}

/// The entries of linked projects that are shown: each once, though several
/// projects lead to it, and none that was shown already.
pub fn collect_dep_cross_cutting(seen: Vec<PlacedId>, items: Vec<DepNote>) -> (r: Vec<Note>)
    ensures
        r@ == fresh_upto(all_placed(seen@), items@, items@.len() as int),
{
    let ghost sp = all_placed(seen@);
    let ghost all = items@;
    let ghost ip = dep_places(items@);
    let mut known = seen;
    let mut out: Vec<Note> = Vec::new();
    assert(sp =~= sp + ip.take(0));
    for d in it: items
        invariant
            it.seq() == all,
            ip == dep_places(all),
            all_placed(known@) == sp + ip.take(it.index() as int),
            out@ =~= fresh_upto(sp, all, it.index() as int),
    {
        let ghost i = it.index() as int;
        let p = PlacedId { root: d.root, id: d.note.id.clone() };
        proof {
            assert(d == all[i]);
            assert(ip[i] == placed(p));
            assert(ip.take(i + 1) =~= ip.take(i).push(placed(p)));
            assert(all_placed(known@).take(known@.len() as int) =~= all_placed(known@));
            lemma_in_either(sp, ip.take(i), placed(p));
        }
        let ghost before = known@;
        if !has_placed(&known, known.len(), &p) {
            out.push(d.note);
        }
        known.push(p);
        assert(all_placed(known@) =~= all_placed(before).push(placed(p)));
        assert(all_placed(known@) =~= sp + ip.take(i + 1));
    }
    out
}

proof fn lemma_in_either(
    a: Seq<(Seq<char>, Seq<char>)>,
    b: Seq<(Seq<char>, Seq<char>)>,
    x: (Seq<char>, Seq<char>),
)
    ensures
        (a + b).contains(x) <==> a.contains(x) || b.contains(x),
{
    let c = a + b;
    if a.contains(x) {
        let k = choose|k: int| 0 <= k < a.len() && a[k] == x;
        assert(c[k] == x);
    }
    if b.contains(x) {
        let k = choose|k: int| 0 <= k < b.len() && b[k] == x;
        assert(c[a.len() + k] == x);
    }
    if c.contains(x) {
        let k = choose|k: int| 0 <= k < c.len() && c[k] == x;
        if k < a.len() {
            assert(a[k] == x);
        } else {
            assert(b[k - a.len()] == x);
        }
    }
}

/// The entries among the first `n` that are for other projects, each marked with
/// the project that it is from.
pub open spec fn shared_upto(notes: Seq<Note>, name: String, path: String, n: int) -> Seq<Note>
    decreases n,
{
    if n <= 0 {
        Seq::<Note>::empty()
    } else {
        let before = shared_upto(notes, name, path, n - 1);
        if cross_cutting(texts(notes[n - 1].tags@)) {
            before.push(
                Note {
                    source_project: Some(name),
                    source_project_path: Some(path),
                    ..notes[n - 1]
                },
            )
        } else {
            before
        }
    }
}

/// The entries of a linked project that are for others, marked with the project
/// that they are from. `notes` holds those of one of the shared kinds.
pub fn query_dep_cross_cutting(
    notes: Vec<Note>,
    source_project: String,
    source_project_path: String,
) -> (r: Vec<Note>)
    ensures
        r@ == shared_upto(notes@, source_project, source_project_path, notes@.len() as int),
{
    let ghost all = notes@;
    let mut out: Vec<Note> = Vec::new();
    for n in it: notes
        invariant
            it.seq() == all,
            out@ == shared_upto(all, source_project, source_project_path, it.index() as int),
    {
        assert(n == all[it.index() as int]);
        if is_cross_cutting(&n.tags) {
            let mut marked = n;
            marked.source_project = Some(source_project.clone());
            marked.source_project_path = Some(source_project_path.clone());
            out.push(marked);
        }
    }
    out
}

/// No entry is shown twice.
pub proof fn law_each_entry_is_shown_once(
    seen: Seq<(Seq<char>, Seq<char>)>,
    items: Seq<(Seq<char>, Seq<char>)>,
    n: int,
    a: int,
    b: int,
)
    requires
        0 <= n <= items.len(),
        0 <= a < b < unseen_upto(seen, items, n).len(),
    ensures
        items[unseen_upto(seen, items, n)[a]] != items[unseen_upto(seen, items, n)[b]],
        !seen.contains(items[unseen_upto(seen, items, n)[a]]),
    decreases n,
{
    let now = unseen_upto(seen, items, n);
    let before = unseen_upto(seen, items, n - 1);
    lemma_unseen_below(seen, items, n - 1, a);
    if b < before.len() {
        law_each_entry_is_shown_once(seen, items, n - 1, a, b);
    } else {
        let i = before[a];
        assert(items.take(n - 1)[i] == items[i]);
    }
}

proof fn lemma_unseen_below(
    seen: Seq<(Seq<char>, Seq<char>)>,
    items: Seq<(Seq<char>, Seq<char>)>,
    n: int,
    a: int,
)
    requires
        n <= items.len(),
        0 <= a < unseen_upto(seen, items, n).len(),
    ensures
        0 <= unseen_upto(seen, items, n)[a] < n,
        !seen.contains(items[unseen_upto(seen, items, n)[a]]),
    decreases n,
{
    let before = unseen_upto(seen, items, n - 1);
    if a < before.len() {
        lemma_unseen_below(seen, items, n - 1, a);
    }
}

/// An entry is collected if and only if it was not shown already and is the first
/// of its place, and the collected ones keep their order.
pub proof fn law_each_new_place_is_collected(
    seen: Seq<(Seq<char>, Seq<char>)>,
    items: Seq<(Seq<char>, Seq<char>)>,
    n: int,
    p: int,
)
    requires
        0 <= n <= items.len(),
    ensures
        unseen_upto(seen, items, n).contains(p) <==> 0 <= p < n && !seen.contains(items[p])
            && forall|k: int| 0 <= k < p ==> #[trigger] items[k] != items[p],
        forall|a: int, b: int|
            0 <= a < b < unseen_upto(seen, items, n).len() ==> #[trigger] unseen_upto(
                seen,
                items,
                n,
            )[a] < #[trigger] unseen_upto(seen, items, n)[b],
    decreases n,
{
    if n > 0 {
        law_each_new_place_is_collected(seen, items, n - 1, p);
        let before = unseen_upto(seen, items, n - 1);
        let now = unseen_upto(seen, items, n);
        assert(first_seen(seen, items, n - 1) <==> !seen.contains(items[n - 1]) && forall|k: int|
            0 <= k < n - 1 ==> #[trigger] items[k] != items[n - 1]) by {
            let t = items.take(n - 1);
            if t.contains(items[n - 1]) {
                let k = choose|k: int| 0 <= k < t.len() && t[k] == items[n - 1];
                assert(items[k] == items[n - 1]);
            }
            if exists|k: int| 0 <= k < n - 1 && #[trigger] items[k] == items[n - 1] {
                let k = choose|k: int| 0 <= k < n - 1 && #[trigger] items[k] == items[n - 1];
                assert(t[k] == items[n - 1]);
            }
        }
        if before.contains(p) {
            let k = choose|k: int| 0 <= k < before.len() && before[k] == p;
            assert(now[k] == p);
        }
        if now.contains(p) {
            let k = choose|k: int| 0 <= k < now.len() && now[k] == p;
            if k < before.len() {
                assert(before[k] == p);
            }
        }
        if first_seen(seen, items, n - 1) {
            assert(now[before.len() as int] == n - 1);
        }
        assert forall|a: int, b: int| 0 <= a < b < now.len() implies #[trigger] now[a]
            < #[trigger] now[b] by {
            lemma_unseen_below(seen, items, n - 1, a);
            if b < before.len() {
                assert(now[a] == before[a] && now[b] == before[b]);
            }
        }
    }
}

/// An entry of a linked project is shown if and only if one of its tags shares
/// it, and then as it is but for the project it is marked with.
pub proof fn law_what_is_shared_is_shown(
    notes: Seq<Note>,
    name: String,
    path: String,
    n: int,
    shown: Note,
)
    requires
        0 <= n <= notes.len(),
    ensures
        shared_upto(notes, name, path, n).contains(shown) <==> exists|i: int|
            #![trigger notes[i]]
            0 <= i < n && (exists|t: int|
                0 <= t < notes[i].tags.len() && ((#[trigger] notes[i].tags@[t])@ == "locked"@
                    || notes[i].tags@[t]@ == "cross-project"@)) && shown == (Note {
                source_project: Some(name),
                source_project_path: Some(path),
                ..notes[i]
            }),
    decreases n,
{
    if n > 0 {
        law_what_is_shared_is_shown(notes, name, path, n - 1, shown);
        let before = shared_upto(notes, name, path, n - 1);
        let now = shared_upto(notes, name, path, n);
        let last = notes[n - 1];
        let marked = Note {
            source_project: Some(name),
            source_project_path: Some(path),
            ..last
        };
        law_one_tag_shares_an_entry(texts(last.tags@));
        assert(cross_cutting(texts(last.tags@)) <==> exists|t: int|
            0 <= t < last.tags.len() && ((#[trigger] last.tags@[t])@ == "locked"@ || last.tags@[t]@
                == "cross-project"@)) by {
            if cross_cutting(texts(last.tags@)) {
                let t = choose|t: int|
                    0 <= t < texts(last.tags@).len() && ((#[trigger] texts(last.tags@)[t])
                        == "locked"@ || texts(last.tags@)[t] == "cross-project"@);
                assert(last.tags@[t]@ == texts(last.tags@)[t]);
            }
            if exists|t: int|
                0 <= t < last.tags.len() && ((#[trigger] last.tags@[t])@ == "locked"@
                    || last.tags@[t]@ == "cross-project"@) {
                let t = choose|t: int|
                    0 <= t < last.tags.len() && ((#[trigger] last.tags@[t])@ == "locked"@
                        || last.tags@[t]@ == "cross-project"@);
                assert(texts(last.tags@)[t] == last.tags@[t]@);
            }
        }
        if before.contains(shown) {
            let k = choose|k: int| 0 <= k < before.len() && before[k] == shown;
            assert(now[k] == shown);
        }
        if now.contains(shown) && !before.contains(shown) {
            let k = choose|k: int| 0 <= k < now.len() && now[k] == shown;
            assert(k == before.len()) by {
                if k < before.len() {
                    assert(before[k] == shown);
                }
            }
            assert(shown == marked);
            assert(notes[n - 1] == last);
        }
        if cross_cutting(texts(last.tags@)) {
            assert(now[before.len() as int] == marked);
        }
    }
}

/// Entries of decisions and requirements are shared, and of no other kind.
pub proof fn law_decisions_and_requirements_are_shared(kind: Seq<char>)
    ensures
        shared_kind(kind) <==> kind == "decision"@ || kind == "requirement"@,
{
}

/// The place of an entry is its project's root and its id.
pub proof fn law_a_place_is_a_root_and_an_id(v: Seq<PlacedId>, i: int)
    ensures
        all_placed(v).len() == v.len(),
        0 <= i < v.len() ==> all_placed(v)[i].0 == v[i].root@ && all_placed(v)[i].1 == v[i].id@,
{
}

/// What is collected are the entries themselves, as they came.
pub proof fn law_collected_entries_are_as_they_came(
    seen: Seq<(Seq<char>, Seq<char>)>,
    items: Seq<DepNote>,
    n: int,
    k: int,
)
    requires
        0 <= n <= items.len(),
        0 <= k < fresh_upto(seen, items, n).len(),
    ensures
        exists|i: int|
            0 <= i < n && fresh_upto(seen, items, n)[k] == (#[trigger] items[i]).note
                && !seen.contains((items[i].root@, items[i].note.id@)),
        fresh_upto(seen, items, n).len() == unseen_upto(seen, dep_places(items), n).len(),
{
    let i = unseen_upto(seen, dep_places(items), n)[k];
    lemma_unseen_below(seen, dep_places(items), n, k);
    assert(fresh_upto(seen, items, n)[k] == items[i].note);
    assert(dep_places(items)[i] == (items[i].root@, items[i].note.id@));
}

} // verus!
