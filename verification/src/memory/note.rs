//! A memory entry, and how it is shown.

use crate::memory::reconcile::archived_status;
use crate::text::{
    byte_boundary, byte_prefix, join, joined, lemma_occurs_between, lines, lines_of, occurs, same,
    take_bytes, texts,
};
use crate::time::{age_text, format_age, utc_time, ISO_FORMAT};
use crate::ui::{at_most, line_models, push_plain, push_styled, Line};
use vstd::prelude::*;
use vstd::string::*;

verus! {

/// A memory entry.
pub struct Note {
    /// The entry's id in this store.
    pub id: String,
    /// The entry's identity, the same in every store.
    pub entity_id: String,
    /// The identity in its short form.
    pub handle: String,
    pub kind: String,
    pub title: String,
    pub body: String,
    pub tags: Vec<String>,
    pub linked_files: Vec<String>,
    pub created_at: i64,
    pub status: String,
    pub valid_at: Option<i64>,
    pub invalid_at: Option<i64>,
    pub superseded_by: Option<String>,
    pub source_ref: Option<String>,
    /// The linked project that the entry is from.
    pub source_project: Option<String>,
    /// Where that project is.
    pub source_project_path: Option<String>,
    /// How well the entry matches a query, as it is shown.
    pub score: Option<String>,
    /// How far the entry is from a query, as it is shown.
    pub distance: Option<String>,
}

/// How long ago a recorded time was, in words.
pub open spec fn age(ts: i64, now: i64) -> Seq<char> {
    age_text(utc_time(ts, ISO_FORMAT@) is Some, ts as int, now as int)
}

/// How an entry matches a query, in words: by its score, or else its distance.
pub open spec fn match_badge(n: Note) -> Seq<char> {
    match n.score {
        Some(s) => "\x1b[2m  score: "@ + s@ + "\x1b[0m"@,
        None => match n.distance {
            Some(d) => "\x1b[2m  dist: "@ + d@ + "\x1b[0m"@,
            None => Seq::<char>::empty(),
        },
    }
}

/// The first line of an entry.
pub open spec fn title_line(n: Note) -> Seq<char> {
    "\x1b[1m#"@ + n.handle@ + "\x1b[0m  \x1b[33m["@ + n.kind@ + "]\x1b[0m  "@ + n.title@ + (
    if archived_status(n.status@) {
        " \x1b[31m[archived]\x1b[0m"@
    } else {
        ""@
    }) + match_badge(n) + (match n.source_project {
        Some(p) => "  \x1b[36m[from: "@ + p@ + "]\x1b[0m"@,
        None => Seq::<char>::empty(),
    })
}

/// The lines of an entry's dates, tags, files and successor.
pub open spec fn detail_lines(n: Note, now: i64) -> Seq<(bool, Seq<char>)> {
    seq![(true, "     \x1b[2m"@ + age(n.created_at, now) + "\x1b[0m"@)] + (match n.valid_at {
        Some(ts) => seq![(true, "     \x1b[2mvalid_at: "@ + age(ts, now) + "\x1b[0m"@)],
        None => Seq::<(bool, Seq<char>)>::empty(),
    }) + (if n.tags@.len() > 0 {
        seq![(false, "     tags: "@ + joined(texts(n.tags@), ", "@))]
    } else {
        Seq::<(bool, Seq<char>)>::empty()
    }) + (if n.linked_files@.len() > 0 {
        seq![(false, "     files: "@ + joined(texts(n.linked_files@), ", "@))]
    } else {
        Seq::<(bool, Seq<char>)>::empty()
    }) + (match n.superseded_by {
        Some(s) => seq![(true, "     \x1b[2msuperseded by #"@ + s@ + "\x1b[0m"@)],
        None => Seq::<(bool, Seq<char>)>::empty(),
    })
}

/// The first `n` lines of a body, dimmed.
pub open spec fn dimmed(ls: Seq<Seq<char>>, n: int) -> Seq<(bool, Seq<char>)> {
    ls.take(n).map_values(|l: Seq<char>| (true, "     \x1b[2m"@ + l + "\x1b[0m"@))
}

/// The lines of an entry's body. Questions and answers are not previewed.
pub open spec fn body_lines(n: Note) -> Seq<(bool, Seq<char>)> {
    let ls = lines_of(n.body@);
    if n.kind@ == "question"@ || n.kind@ == "answer"@ {
        seq![
            (
                true,
                "     \x1b[2m(use `inkentry memory show "@ + n.id@ + "` to read body)\x1b[0m"@,
            ),
        ]
    } else {
        dimmed(ls, at_most(ls.len() as int, 2)) + (if ls.len() > 2 {
            seq![(true, "     \x1b[2m…\x1b[0m"@)]
        } else {
            Seq::<(bool, Seq<char>)>::empty()
        })
    }
}

/// The lines of an entry in a list.
pub open spec fn note_lines(n: Note, now: i64) -> Seq<(bool, Seq<char>)> {
    seq![(true, title_line(n))] + detail_lines(n, now) + body_lines(n) + seq![
        (false, Seq::<char>::empty()),
    ]
}

fn title_text(n: &Note) -> (r: String)
    ensures
        r@ == title_line(*n),
{
    let badge = match &n.score {
        Some(s) => "\x1b[2m  score: ".to_owned().concat(s.as_str()).concat("\x1b[0m"),
        None => match &n.distance {
            Some(d) => "\x1b[2m  dist: ".to_owned().concat(d.as_str()).concat("\x1b[0m"),
            None => String::new(),
        },
    };
    let archived = if same(n.status.as_str(), "archived") {
        " \x1b[31m[archived]\x1b[0m"
    } else {
        ""
    };
    let source = match &n.source_project {
        Some(p) => "  \x1b[36m[from: ".to_owned().concat(p.as_str()).concat("]\x1b[0m"),
        None => String::new(),
    };
    "\x1b[1m#".to_owned().concat(n.handle.as_str()).concat("\x1b[0m  \x1b[33m[").concat(
        n.kind.as_str(),
    ).concat("]\x1b[0m  ").concat(n.title.as_str()).concat(archived).concat(
        badge.as_str(),
    ).concat(source.as_str())
}

fn push_details(out: &mut Vec<Line>, n: &Note, now: i64)
    ensures
        line_models(final(out)@) == line_models(old(out)@) + detail_lines(*n, now),
{
    let ghost first = line_models(out@);
    push_styled(
        out,
        "     \x1b[2m".to_owned().concat(format_age(n.created_at, now).as_str()).concat("\x1b[0m"),
    );
    if let Some(ts) = n.valid_at {
        push_styled(
            out,
            "     \x1b[2mvalid_at: ".to_owned().concat(format_age(ts, now).as_str()).concat(
                "\x1b[0m",
            ),
        );
    }
    if n.tags.len() > 0 {
        push_plain(out, "     tags: ".to_owned().concat(join(&n.tags, ", ").as_str()));
    }
    if n.linked_files.len() > 0 {
        push_plain(out, "     files: ".to_owned().concat(join(&n.linked_files, ", ").as_str()));
    }
    if let Some(s) = &n.superseded_by {
        push_styled(
            out,
            "     \x1b[2msuperseded by #".to_owned().concat(s.as_str()).concat("\x1b[0m"),
        );
    }
    assert(line_models(out@) =~= first + detail_lines(*n, now));
}

fn push_body(out: &mut Vec<Line>, n: &Note)
    ensures
        line_models(final(out)@) == line_models(old(out)@) + body_lines(*n),
{
    let ghost first = line_models(out@);
    if same(n.kind.as_str(), "question") || same(n.kind.as_str(), "answer") {
        push_styled(
            out,
            "     \x1b[2m(use `inkentry memory show ".to_owned().concat(n.id.as_str()).concat(
                "` to read body)\x1b[0m",
            ),
        );
    } else {
        let ls = lines(n.body.as_str());
        let ghost want = lines_of(n.body@);
        assert(want.len() == ls.len());
        let shown: usize = if ls.len() < 2 {
            ls.len()
        } else {
            2
        };
        let mut i: usize = 0;
        assert(first + dimmed(want, 0) =~= first);
        while i < shown
            invariant
                i <= shown <= ls.len(),
                texts(ls@) == want,
                line_models(out@) == first + dimmed(want, i as int),
            decreases shown - i,
        {
            let line = "     \x1b[2m".to_owned().concat(ls[i].as_str()).concat("\x1b[0m");
            proof {
                assert(want[i as int] == ls@[i as int]@);
                assert(dimmed(want, i + 1) =~= dimmed(want, i as int).push((true, line@)));
                assert(first + dimmed(want, i + 1) =~= (first + dimmed(want, i as int)).push(
                    (true, line@),
                ));
            }
            push_styled(out, line);
            i = i + 1;
        }
        if ls.len() > 2 {
            push_styled(out, "     \x1b[2m…\x1b[0m".to_owned());
        }
    }
    assert(line_models(out@) =~= first + body_lines(*n));
}

fn push_note(out: &mut Vec<Line>, n: &Note, now: i64)
    ensures
        line_models(final(out)@) == line_models(old(out)@) + note_lines(*n, now),
{
    let ghost first = line_models(out@);
    push_styled(out, title_text(n));
    push_details(out, n, now);
    push_body(out, n);
    push_plain(out, String::new());
    assert(line_models(out@) =~= first + note_lines(*n, now));
}

/// The lines of an entry in a list.
pub fn print_note_summary(n: &Note, now: i64) -> (r: Vec<Line>)
    ensures
        line_models(r@) == note_lines(*n, now),
{
    let mut out: Vec<Line> = Vec::new();
    assert(line_models(out@) =~= Seq::<(bool, Seq<char>)>::empty());
    push_note(&mut out, n, now);
    assert(line_models(out@) =~= note_lines(*n, now));
    out
}

/// The lines of the first `k` entries.
pub open spec fn notes_lines(ns: Seq<Note>, now: i64, k: int) -> Seq<(bool, Seq<char>)>
    decreases k,
{
    if k <= 0 {
        Seq::<(bool, Seq<char>)>::empty()
    } else {
        notes_lines(ns, now, k - 1) + note_lines(ns[k - 1], now)
    }
}

/// How a list of entries is printed.
pub enum NotesReport {
    /// As one array.
    Json,
    /// As one object a line.
    Jsonl,
    Text(Vec<Line>),
}

/// How a list of entries is printed. That there are none is said in words,
/// whatever the format.
pub fn print_notes(notes: &Vec<Note>, format: &str, now: i64) -> (r: NotesReport)
    ensures
        match r {
            NotesReport::Json => notes.len() > 0 && format@ == "json"@,
            NotesReport::Jsonl => notes.len() > 0 && format@ == "jsonl"@,
            NotesReport::Text(lines) => if notes.len() == 0 {
                line_models(lines@) == seq![(false, "No memory entries found."@)]
            } else {
                format@ != "json"@ && format@ != "jsonl"@ && line_models(lines@) == notes_lines(
                    notes@,
                    now,
                    notes.len() as int,
                )
            },
        },
{
    let mut out: Vec<Line> = Vec::new();
    assert(line_models(out@) =~= Seq::<(bool, Seq<char>)>::empty());
    if notes.len() == 0 {
        push_plain(&mut out, "No memory entries found.".to_owned());
        assert(line_models(out@) =~= seq![(false, "No memory entries found."@)]);
        return NotesReport::Text(out);
    }
    if same(format, "json") {
        return NotesReport::Json;
    }
    if same(format, "jsonl") {
        return NotesReport::Jsonl;
    }
    let mut i: usize = 0;
    while i < notes.len()
        invariant
            i <= notes.len(),
            line_models(out@) == notes_lines(notes@, now, i as int),
        decreases notes.len() - i,
    {
        push_note(&mut out, &notes[i], now);
        i = i + 1;
    }
    NotesReport::Text(out)
}

// ---- one entry in full -----------------------------------------------------

/// The error for an id that names no entry.
pub fn no_entry_error(id: &str) -> (r: String)
    ensures
        r@ == "No memory entry with id "@ + id@ + "."@,
{
    "No memory entry with id ".to_owned().concat(id).concat(".")
}

/// A relation of an entry: its kind, and what is at its other end.
pub struct ShownEdge {
    pub kind: String,
    pub end: String,
}

/// The other end of a relation: the entry there by its handle and title, or
/// what is left of one that is gone.
pub fn edge_end(found: Option<&Note>, id: &str) -> (r: String)
    ensures
        r@ == match found {
            Some(n) => n.handle@ + " "@ + n.title@,
            None => id@ + " (deleted)"@,
        },
{
    match found {
        Some(n) => n.handle.clone().concat(" ").concat(n.title.as_str()),
        None => id.to_owned().concat(" (deleted)"),
    }
}

/// The label of a relation that leads from the entry.
pub open spec fn outgoing_label(kind: Seq<char>) -> Seq<char> {
    if kind == "supersedes"@ {
        "\x1b[33m→ supersedes\x1b[0m"@
    } else if kind == "relates_to"@ {
        "\x1b[36m→ relates_to\x1b[0m"@
    } else if kind == "contradicts"@ {
        "\x1b[31m→ contradicts\x1b[0m"@
    } else {
        "→"@
    }
}

/// The label of a relation that leads to the entry.
pub open spec fn incoming_label(kind: Seq<char>) -> Seq<char> {
    if kind == "supersedes"@ {
        "\x1b[33m← superseded by\x1b[0m"@
    } else if kind == "relates_to"@ {
        "\x1b[36m← related from\x1b[0m"@
    } else if kind == "contradicts"@ {
        "\x1b[31m← contradicted by\x1b[0m"@
    } else {
        "←"@
    }
}

fn edge_label(kind: &str, outgoing: bool) -> (r: &'static str)
    ensures
        r@ == if outgoing {
            outgoing_label(kind@)
        } else {
            incoming_label(kind@)
        },
{
    if same(kind, "supersedes") {
        if outgoing {
            "\x1b[33m→ supersedes\x1b[0m"
        } else {
            "\x1b[33m← superseded by\x1b[0m"
        }
    } else if same(kind, "relates_to") {
        if outgoing {
            "\x1b[36m→ relates_to\x1b[0m"
        } else {
            "\x1b[36m← related from\x1b[0m"
        }
    } else if same(kind, "contradicts") {
        if outgoing {
            "\x1b[31m→ contradicts\x1b[0m"
        } else {
            "\x1b[31m← contradicted by\x1b[0m"
        }
    } else if outgoing {
        "→"
    } else {
        "←"
    }
}

/// The line of a relation.
pub open spec fn edge_line(e: ShownEdge, outgoing: bool) -> Seq<char> {
    "  "@ + (if outgoing {
        outgoing_label(e.kind@)
    } else {
        incoming_label(e.kind@)
    }) + "  "@ + e.end@
}

/// The lines of some relations.
pub open spec fn edge_lines(es: Seq<ShownEdge>, outgoing: bool) -> Seq<(bool, Seq<char>)> {
    es.map_values(|e: ShownEdge| (true, edge_line(e, outgoing)))
}

fn push_edges(out: &mut Vec<Line>, es: &Vec<ShownEdge>, outgoing: bool)
    ensures
        line_models(final(out)@) == line_models(old(out)@) + edge_lines(es@, outgoing),
{
    let ghost first = line_models(out@);
    let ghost want = edge_lines(es@, outgoing);
    let mut i: usize = 0;
    assert(first + want.take(0) =~= first);
    while i < es.len()
        invariant
            i <= es.len(),
            want == edge_lines(es@, outgoing),
            line_models(out@) == first + want.take(i as int),
        decreases es.len() - i,
    {
        let e = &es[i];
        let line = "  ".to_owned().concat(edge_label(e.kind.as_str(), outgoing)).concat(
            "  ",
        ).concat(e.end.as_str());
        proof {
            assert(want[i as int] == (true, line@));
            assert(first + want.take(i + 1) =~= (first + want.take(i as int)).push((true, line@)));
        }
        push_styled(out, line);
        i = i + 1;
    }
    assert(want.take(i as int) =~= want);
}

/// How many bytes of a commit's id are shown beside it.
pub const SHORT_SOURCE: usize = 8;

/// The line of the commit that an entry is about.
pub open spec fn source_line(sha: Seq<char>, color: bool) -> Seq<char> {
    if color {
        "source:  \x1b[36mgit show "@ + sha + "\x1b[0m  \x1b[2m(SHA: "@ + byte_prefix(
            sha,
            SHORT_SOURCE as int,
        ) + ")\x1b[0m"@
    } else {
        "source:  "@ + sha
    }
}

/// The lines above an entry's body.
pub open spec fn show_head(n: Note, now: i64, color: bool) -> Seq<(bool, Seq<char>)> {
    seq![
        (true, "\x1b[1m#"@ + n.handle@ + " ["@ + n.kind@ + "] "@ + n.title@ + "\x1b[0m"@),
        (true, "\x1b[2m"@ + age(n.created_at, now) + "\x1b[0m"@),
        (false, "entity_id:  "@ + n.entity_id@),
        (false, "id:         "@ + n.id@),
        (
            false,
            "valid_at:   "@ + (match n.valid_at {
                Some(ts) => age(ts, now),
                None => "(same as created_at)"@,
            }),
        ),
    ] + (match n.invalid_at {
        Some(ts) => seq![(false, "invalid_at: "@ + age(ts, now))],
        None => Seq::<(bool, Seq<char>)>::empty(),
    }) + (if n.tags@.len() > 0 {
        seq![(false, "tags: "@ + joined(texts(n.tags@), ", "@))]
    } else {
        Seq::<(bool, Seq<char>)>::empty()
    }) + (if n.linked_files@.len() > 0 {
        seq![(false, "files: "@ + joined(texts(n.linked_files@), ", "@))]
    } else {
        Seq::<(bool, Seq<char>)>::empty()
    }) + (match n.source_ref {
        Some(sha) => seq![(false, source_line(sha@, color))],
        None => Seq::<(bool, Seq<char>)>::empty(),
    }) + seq![(false, Seq::<char>::empty()), (false, n.body@)]
}

/// The lines below an entry's body.
pub open spec fn show_edges(outgoing: Seq<ShownEdge>, incoming: Seq<ShownEdge>) -> Seq<
    (bool, Seq<char>),
> {
    if outgoing.len() == 0 && incoming.len() == 0 {
        Seq::<(bool, Seq<char>)>::empty()
    } else {
        seq![
            (false, Seq::<char>::empty()),
            (true, "\x1b[2m── relationships ──\x1b[0m"@),
        ] + edge_lines(outgoing, true) + edge_lines(incoming, false)
    }
}

#[verifier::rlimit(60)]
fn push_show_head(out: &mut Vec<Line>, n: &Note, now: i64, color: bool)
    requires
        n.source_ref is Some ==> byte_boundary(n.source_ref->0@, SHORT_SOURCE as int),
    ensures
        line_models(final(out)@) == line_models(old(out)@) + show_head(*n, now, color),
{
    let ghost first = line_models(out@);
    push_styled(
        out,
        "\x1b[1m#".to_owned().concat(n.handle.as_str()).concat(" [").concat(
            n.kind.as_str(),
        ).concat("] ").concat(n.title.as_str()).concat("\x1b[0m"),
    );
    push_styled(
        out,
        "\x1b[2m".to_owned().concat(format_age(n.created_at, now).as_str()).concat("\x1b[0m"),
    );
    push_plain(out, "entity_id:  ".to_owned().concat(n.entity_id.as_str()));
    push_plain(out, "id:         ".to_owned().concat(n.id.as_str()));
    let valid = match n.valid_at {
        Some(ts) => format_age(ts, now),
        None => "(same as created_at)".to_owned(),
    };
    push_plain(out, "valid_at:   ".to_owned().concat(valid.as_str()));
    if let Some(ts) = n.invalid_at {
        push_plain(out, "invalid_at: ".to_owned().concat(format_age(ts, now).as_str()));
    }
    if n.tags.len() > 0 {
        push_plain(out, "tags: ".to_owned().concat(join(&n.tags, ", ").as_str()));
    }
    if n.linked_files.len() > 0 {
        push_plain(out, "files: ".to_owned().concat(join(&n.linked_files, ", ").as_str()));
    }
    if let Some(sha) = &n.source_ref {
        let line = if color {
            "source:  \x1b[36mgit show ".to_owned().concat(sha.as_str()).concat(
                "\x1b[0m  \x1b[2m(SHA: ",
            ).concat(take_bytes(sha.as_str(), SHORT_SOURCE).as_str()).concat(")\x1b[0m")
        } else {
            "source:  ".to_owned().concat(sha.as_str())
        };
        push_plain(out, line);
    }
    push_plain(out, String::new());
    push_plain(out, n.body.clone());
    assert(line_models(out@) =~= first + show_head(*n, now, color));
}

/// The lines of an entry in full. Both of its identities are shown: the one
/// that is the same everywhere, and that of this store.
pub fn memory_show(
    n: &Note,
    outgoing: &Vec<ShownEdge>,
    incoming: &Vec<ShownEdge>,
    now: i64,
    color: bool,
) -> (r: Vec<Line>)
    requires
        n.source_ref is Some ==> byte_boundary(n.source_ref->0@, SHORT_SOURCE as int),
    ensures
        line_models(r@) == show_head(*n, now, color) + show_edges(outgoing@, incoming@),
{
    let mut out: Vec<Line> = Vec::new();
    assert(line_models(out@) =~= Seq::<(bool, Seq<char>)>::empty());
    push_show_head(&mut out, n, now, color);
    let ghost head = show_head(*n, now, color);
    assert(line_models(out@) =~= head);
    if outgoing.len() > 0 || incoming.len() > 0 {
        push_plain(&mut out, String::new());
        push_styled(&mut out, "\x1b[2m── relationships ──\x1b[0m".to_owned());
        push_edges(&mut out, outgoing, true);
        push_edges(&mut out, incoming, false);
    }
    assert(line_models(out@) =~= head + show_edges(outgoing@, incoming@));
    out
}

// ---- what is shown of an entry ---------------------------------------------

/// The first line of an entry begins with its handle, kind and title. It says
/// that the entry is archived if and only if it is, and names the project of an
/// entry of a linked one.
#[verifier::rlimit(60)]
pub proof fn law_the_first_line_names_the_entry(n: Note)
    ensures
        ({
            let named = "\x1b[1m#"@ + n.handle@ + "\x1b[0m  \x1b[33m["@ + n.kind@ + "]\x1b[0m  "@
                + n.title@;
            &&& named.is_prefix_of(title_line(n))
            &&& n.status@ == "archived"@ ==> (named + " \x1b[31m[archived]\x1b[0m"@).is_prefix_of(
                title_line(n),
            )
            &&& n.status@ != "archived"@ && n.score is None && n.distance is None
                && n.source_project is None ==> title_line(n) == named
            &&& n.source_project is Some ==> ("  \x1b[36m[from: "@ + n.source_project->0@
                + "]\x1b[0m"@).is_suffix_of(title_line(n))
            &&& n.score is Some ==> occurs(title_line(n), "score: "@ + n.score->0@)
            &&& n.score is None && n.distance is Some ==> occurs(
                title_line(n),
                "dist: "@ + n.distance->0@,
            )
        }),
{
    reveal_strlit("");
    let t = title_line(n);
    let named = "\x1b[1m#"@ + n.handle@ + "\x1b[0m  \x1b[33m["@ + n.kind@ + "]\x1b[0m  "@
        + n.title@;
    let mark = " \x1b[31m[archived]\x1b[0m"@;
    assert(t.subrange(0, named.len() as int) =~= named);
    if n.status@ == "archived"@ {
        assert(t.subrange(0, (named + mark).len() as int) =~= named + mark);
    }
    if n.status@ != "archived"@ && n.score is None && n.distance is None && n.source_project is None {
        assert(t =~= named);
    }
    let from = match n.source_project {
        Some(p) => "  \x1b[36m[from: "@ + p@ + "]\x1b[0m"@,
        None => Seq::<char>::empty(),
    };
    assert(t.subrange(t.len() - from.len(), t.len() as int) =~= from);
    let front = named + (if archived_status(n.status@) {
        mark
    } else {
        ""@
    });
    if let Some(s) = n.score {
        lemma_badge("\x1b[2m  "@, "score: "@, "\x1b[2m  score: "@, s@, front, from);
        assert("\x1b[2m  score: "@ =~= "\x1b[2m  "@ + "score: "@) by {
            reveal_strlit("\x1b[2m  score: ");
            reveal_strlit("\x1b[2m  ");
            reveal_strlit("score: ");
        }
        assert(t =~= front + ("\x1b[2m  score: "@ + s@ + "\x1b[0m"@) + from);
    } else if let Some(d) = n.distance {
        lemma_badge("\x1b[2m  "@, "dist: "@, "\x1b[2m  dist: "@, d@, front, from);
        assert("\x1b[2m  dist: "@ =~= "\x1b[2m  "@ + "dist: "@) by {
            reveal_strlit("\x1b[2m  dist: ");
            reveal_strlit("\x1b[2m  ");
            reveal_strlit("dist: ");
        }
        assert(t =~= front + ("\x1b[2m  dist: "@ + d@ + "\x1b[0m"@) + from);
    }
}

proof fn lemma_badge(
    dim: Seq<char>,
    word: Seq<char>,
    both: Seq<char>,
    value: Seq<char>,
    front: Seq<char>,
    back: Seq<char>,
)
    ensures
        both == dim + word ==> occurs(
            front + (both + value + "\x1b[0m"@) + back,
            word + value,
        ),
{
    if both == dim + word {
        lemma_occurs_between(front + dim, word + value, "\x1b[0m"@ + back);
        assert(front + (both + value + "\x1b[0m"@) + back =~= (front + dim) + (word + value) + (
        "\x1b[0m"@ + back));
    }
}

/// Below it stand, each in a line of its own and in this order: the age, the time
/// it is valid from, the tags, the files and the successor, as far as there are
/// any.
pub proof fn law_details_stand_each_in_its_line(n: Note, now: i64)
    ensures
        detail_lines(n, now).len() == 1 + (if n.valid_at is Some {
            1int
        } else {
            0
        }) + (if n.tags@.len() > 0 {
            1int
        } else {
            0
        }) + (if n.linked_files@.len() > 0 {
            1int
        } else {
            0
        }) + (if n.superseded_by is Some {
            1int
        } else {
            0
        }),
        detail_lines(n, now)[0] == (true, "     \x1b[2m"@ + age(n.created_at, now) + "\x1b[0m"@),
        n.valid_at is Some ==> detail_lines(n, now)[1] == (
            true,
            "     \x1b[2mvalid_at: "@ + age(n.valid_at->0, now) + "\x1b[0m"@,
        ),
        n.valid_at is None && n.tags@.len() > 0 ==> detail_lines(n, now)[1] == (
            false,
            "     tags: "@ + joined(texts(n.tags@), ", "@),
        ),
        n.valid_at is None && n.tags@.len() == 0 && n.linked_files@.len() > 0 ==> detail_lines(
            n,
            now,
        )[1] == (false, "     files: "@ + joined(texts(n.linked_files@), ", "@)),
        n.superseded_by is Some ==> detail_lines(n, now).last() == (
            true,
            "     \x1b[2msuperseded by #"@ + n.superseded_by->0@ + "\x1b[0m"@,
        ),
{
}

/// A question or an answer is not previewed; of any other entry the first two
/// lines are, and it is said where there are more.
pub proof fn law_two_lines_of_a_body_are_previewed(n: Note, k: int)
    ensures
        n.kind@ == "question"@ || n.kind@ == "answer"@ ==> body_lines(n).len() == 1 && occurs(
            body_lines(n)[0].1,
            n.id@,
        ),
        n.kind@ != "question"@ && n.kind@ != "answer"@ ==> body_lines(n).len() == (if lines_of(
            n.body@,
        ).len() > 2 {
            3
        } else {
            lines_of(n.body@).len() as int
        }) && (0 <= k < 2 && k < lines_of(n.body@).len() ==> body_lines(n)[k] == (
            true,
            "     \x1b[2m"@ + lines_of(n.body@)[k] + "\x1b[0m"@,
        )),
{
    lemma_occurs_between(
        "     \x1b[2m(use `inkentry memory show "@,
        n.id@,
        "` to read body)\x1b[0m"@,
    );
}

/// An entry in full begins with its handle, kind and title, names both of its
/// identities, and ends with its whole body.
#[verifier::rlimit(60)]
pub proof fn law_an_entry_is_shown_in_full(n: Note, now: i64, color: bool)
    ensures
        show_head(n, now, color)[0] == (
            true,
            "\x1b[1m#"@ + n.handle@ + " ["@ + n.kind@ + "] "@ + n.title@ + "\x1b[0m"@,
        ),
        show_head(n, now, color)[1] == (true, "\x1b[2m"@ + age(n.created_at, now) + "\x1b[0m"@),
        n.valid_at is Some ==> show_head(n, now, color)[4] == (
            false,
            "valid_at:   "@ + age(n.valid_at->0, now),
        ),
        show_head(n, now, color)[2] == (false, "entity_id:  "@ + n.entity_id@),
        show_head(n, now, color)[3] == (false, "id:         "@ + n.id@),
        show_head(n, now, color).last() == (false, n.body@),
        n.tags@.len() > 0 ==> show_head(n, now, color).contains(
            (false, "tags: "@ + joined(texts(n.tags@), ", "@)),
        ),
        n.linked_files@.len() > 0 ==> show_head(n, now, color).contains(
            (false, "files: "@ + joined(texts(n.linked_files@), ", "@)),
        ),
        n.invalid_at is Some ==> show_head(n, now, color).contains(
            (false, "invalid_at: "@ + age(n.invalid_at->0, now)),
        ),
        n.source_ref is Some ==> occurs(source_line(n.source_ref->0@, color), n.source_ref->0@),
{
    let h = show_head(n, now, color);
    let i = 5int;
    let j = i + if n.invalid_at is Some {
        1int
    } else {
        0
    };
    let k = j + if n.tags@.len() > 0 {
        1int
    } else {
        0
    };
    if n.invalid_at is Some {
        assert(h[i] == (false, "invalid_at: "@ + age(n.invalid_at->0, now)));
    }
    if n.tags@.len() > 0 {
        assert(h[j] == (false, "tags: "@ + joined(texts(n.tags@), ", "@)));
    }
    if n.linked_files@.len() > 0 {
        assert(h[k] == (false, "files: "@ + joined(texts(n.linked_files@), ", "@)));
    }
    if let Some(sha) = n.source_ref {
        let short = "\x1b[0m  \x1b[2m(SHA: "@ + byte_prefix(sha@, SHORT_SOURCE as int)
            + ")\x1b[0m"@;
        lemma_occurs_between("source:  \x1b[36mgit show "@, sha@, short);
        assert("source:  \x1b[36mgit show "@ + sha@ + "\x1b[0m  \x1b[2m(SHA: "@ + byte_prefix(
            sha@,
            SHORT_SOURCE as int,
        ) + ")\x1b[0m"@ =~= "source:  \x1b[36mgit show "@ + sha@ + short);
        lemma_occurs_between("source:  "@, sha@, Seq::<char>::empty());
        assert("source:  "@ + sha@ + Seq::<char>::empty() =~= "source:  "@ + sha@);
    }
}

/// Relations that lead from an entry stand before those that lead to it, and each
/// ends with what is at its other end.
pub proof fn law_relations_are_shown_with_their_ends(
    outgoing: Seq<ShownEdge>,
    incoming: Seq<ShownEdge>,
    k: int,
)
    ensures
        show_edges(outgoing, incoming).len() == if outgoing.len() + incoming.len() == 0 {
            0
        } else {
            2 + outgoing.len() + incoming.len()
        },
        0 <= k < outgoing.len() ==> show_edges(outgoing, incoming)[2 + k].0
            && outgoing[k].end@.is_suffix_of(show_edges(outgoing, incoming)[2 + k].1) && occurs(show_edges(outgoing, incoming)[2 + k].1, outgoing_label(outgoing[k].kind@)),
        0 <= k < incoming.len() ==> incoming[k].end@.is_suffix_of(
            show_edges(outgoing, incoming)[2 + outgoing.len() + k].1,
        ) && occurs(
            show_edges(outgoing, incoming)[2 + outgoing.len() + k].1,
            incoming_label(incoming[k].kind@),
        ),
{
    if 0 <= k < outgoing.len() {
        lemma_edge_line(outgoing[k], true);
        assert(show_edges(outgoing, incoming)[2 + k].1 == edge_line(outgoing[k], true));
    }
    if 0 <= k < incoming.len() {
        lemma_edge_line(incoming[k], false);
        assert(show_edges(outgoing, incoming)[2 + outgoing.len() + k].1 == edge_line(
            incoming[k],
            false,
        ));
    }
}

proof fn lemma_edge_line(e: ShownEdge, outgoing: bool)
    ensures
        e.end@.is_suffix_of(edge_line(e, outgoing)),
        occurs(
            edge_line(e, outgoing),
            if outgoing {
                outgoing_label(e.kind@)
            } else {
                incoming_label(e.kind@)
            },
        ),
{
    let label = if outgoing {
        outgoing_label(e.kind@)
    } else {
        incoming_label(e.kind@)
    };
    let l = edge_line(e, outgoing);
    lemma_occurs_between("  "@, label, "  "@ + e.end@);
    assert(l =~= "  "@ + label + ("  "@ + e.end@));
    assert(l.subrange(l.len() - e.end@.len(), l.len() as int) =~= e.end@);
}

/// Entries are shown one after another.
pub proof fn law_entries_are_shown_in_order(ns: Seq<Note>, now: i64, k: int)
    requires
        0 <= k < ns.len(),
    ensures
        notes_lines(ns, now, k + 1) == notes_lines(ns, now, k) + note_lines(ns[k], now),
        notes_lines(ns, now, 0).len() == 0,
        note_lines(ns[k], now)[0] == (true, title_line(ns[k])),
        note_lines(ns[k], now).last() == (false, Seq::<char>::empty()),
        note_lines(ns[k], now).len() == 2 + detail_lines(ns[k], now).len() + body_lines(
            ns[k],
        ).len(),
{
}

/// Which way a relation leads shows in its label: no label of a relation that leads
/// from the entry is one of a relation that leads to it, and the kinds that are known
/// have labels of their own.
pub proof fn law_a_label_shows_the_way_and_the_kind(kind: Seq<char>)
    ensures
        outgoing_label("supersedes"@) == "\x1b[33m→ supersedes\x1b[0m"@,
        outgoing_label("relates_to"@) == "\x1b[36m→ relates_to\x1b[0m"@,
        outgoing_label("contradicts"@) == "\x1b[31m→ contradicts\x1b[0m"@,
        incoming_label("supersedes"@) == "\x1b[33m← superseded by\x1b[0m"@,
        incoming_label("relates_to"@) == "\x1b[36m← related from\x1b[0m"@,
        incoming_label("contradicts"@) == "\x1b[31m← contradicted by\x1b[0m"@,
        kind != "supersedes"@ && kind != "relates_to"@ && kind != "contradicts"@ ==> outgoing_label(
            kind,
        ) == "→"@ && incoming_label(kind) == "←"@,
{
    reveal_strlit("supersedes");
    reveal_strlit("relates_to");
    reveal_strlit("contradicts");
    assert("supersedes"@[0] != "relates_to"@[0]);
    assert("supersedes"@[0] != "contradicts"@[0]);
    assert("relates_to"@[0] != "contradicts"@[0]);
}

} // verus!
