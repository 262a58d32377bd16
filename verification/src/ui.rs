//! Lines of output, and how chunks of code are shown.

use crate::search::CodeHit;
use crate::text::{
    chars_of, dec, dec_usize, lines, lines_of, pad_left, pieces, right_aligned, split_on, texts,
};
use vstd::prelude::*;
use vstd::string::*;

verus! {

/// A line of output. A styled line carries colour codes, which are left out
/// where colour is off; any other is printed as it is.
pub struct Line {
    pub styled: bool,
    pub text: String,
}

/// Lines as pairs of whether they are styled and what they hold.
pub open spec fn line_models(v: Seq<Line>) -> Seq<(bool, Seq<char>)> {
    v.map_values(|l: Line| (l.styled, l.text@))
}

/// Pushing a line onto a vector pushes what it holds.
pub proof fn lemma_lines_push(v: Seq<Line>, l: Line)
    ensures
        line_models(v.push(l)) == line_models(v).push((l.styled, l.text@)),
{
    assert(line_models(v.push(l)) =~= line_models(v).push((l.styled, l.text@)));
}

/// Adds a line that is printed as it is.
pub fn push_plain(out: &mut Vec<Line>, text: String)
    ensures
        line_models(final(out)@) == line_models(old(out)@).push((false, text@)),
{
    let l = Line { styled: false, text };
    proof {
        lemma_lines_push(out@, l);
    }
    out.push(l);
}

/// Adds a line with colour codes.
pub fn push_styled(out: &mut Vec<Line>, text: String)
    ensures
        line_models(final(out)@) == line_models(old(out)@).push((true, text@)),
{
    let l = Line { styled: true, text };
    proof {
        lemma_lines_push(out@, l);
    }
    out.push(l);
}

/// What the first `n` characters of a line leave where colour is off, and
/// whether they end inside a colour code, which reaches from an escape to the
/// next `m`.
pub open spec fn unstyled_upto(s: Seq<char>, n: int) -> (Seq<char>, bool)
    decreases n,
{
    if n <= 0 {
        (Seq::<char>::empty(), false)
    } else {
        let (out, inside) = unstyled_upto(s, n - 1);
        let c = s[n - 1];
        if inside {
            (out, c != 'm')
        } else if c == '\x1b' {
            (out, true)
        } else {
            (out.push(c), false)
        }
    }
}

/// A line without its colour codes.
pub fn without_styles(text: &str) -> (r: String)
    ensures
        r@ == unstyled_upto(text@, text@.len() as int).0,
{
    let v = chars_of(text);
    let mut out = String::new();
    let mut inside = false;
    let mut i: usize = 0;
    assert(out@ =~= Seq::<char>::empty());
    while i < v.len()
        invariant
            i <= v.len(),
            v@ == text@,
            (out@, inside) == unstyled_upto(text@, i as int),
        decreases v.len() - i,
    {
        let c = v[i];
        if inside {
            inside = c != 'm';
        } else if c == '\x1b' {
            inside = true;
        } else {
            out.push(c);
        }
        i = i + 1;
    }
    out
}

/// The last part of a path.
pub fn short_path(path: &str) -> (r: String)
    ensures
        r@ == pieces(path@, '/').last(),
{
    let parts = split_on(path, '/');
    proof {
        crate::text::lemma_pieces_nonempty(path@, '/');
        assert(texts(parts@).len() == parts.len());
    }
    let last: usize = parts.len() - 1;
    assert(texts(parts@)[last as int] == parts@[last as int]@);
    parts[last].clone()
}

/// The smaller of two lengths.
pub open spec fn at_most(n: int, limit: int) -> int {
    if n < limit {
        n
    } else {
        limit
    }
}

/// The first `n` of some lines, each indented.
pub open spec fn indented(ls: Seq<Seq<char>>, n: int) -> Seq<(bool, Seq<char>)> {
    ls.take(n).map_values(|l: Seq<char>| (false, "    "@ + l))
}

/// Adds the first lines of `body`, at most `limit`, each indented, and gives
/// the number of lines in all.
pub fn push_preview(out: &mut Vec<Line>, body: &str, limit: usize) -> (total: usize)
    ensures
        total == lines_of(body@).len(),
        line_models(final(out)@) == line_models(old(out)@) + indented(
            lines_of(body@),
            at_most(total as int, limit as int),
        ),
{
    let ls = lines(body);
    let ghost want = lines_of(body@);
    let ghost first = line_models(out@);
    assert(want.len() == ls.len());
    let n: usize = if ls.len() < limit {
        ls.len()
    } else {
        limit
    };
    let mut i: usize = 0;
    assert(first + indented(want, 0) =~= first);
    while i < n
        invariant
            i <= n <= ls.len(),
            texts(ls@) == want,
            line_models(out@) == first + indented(want, i as int),
        decreases n - i,
    {
        proof {
            assert(want[i as int] == ls@[i as int]@);
            assert(first + indented(want, i + 1) =~= (first + indented(want, i as int)).push(
                (false, "    "@ + want[i as int]),
            )) by {
                assert(indented(want, i + 1) =~= indented(want, i as int).push(
                    (false, "    "@ + want[i as int]),
                ));
            }
        }
        push_plain(out, "    ".to_owned().concat(ls[i].as_str()));
        i = i + 1;
    }
    ls.len()
}

/// How many lines of a chunk are shown.
pub const CHUNK_PREVIEW_LINES: usize = 6;

/// The name of a chunk, or a stand-in where it has none.
pub open spec fn chunk_name(name: Option<String>) -> Seq<char> {
    match name {
        Some(n) => n@,
        None => "<anonymous>"@,
    }
}

/// The name of a chunk, or a stand-in where it has none.
pub fn display_name(name: &Option<String>) -> (r: String)
    ensures
        r@ == chunk_name(*name),
{
    match name {
        Some(n) => n.clone(),
        None => "<anonymous>".to_owned(),
    }
}

/// The lines that show the chunk at position `i`.
pub open spec fn chunk_block(c: CodeHit, i: int) -> Seq<(bool, Seq<char>)> {
    let ls = lines_of(c.content@);
    let shown = at_most(ls.len() as int, CHUNK_PREVIEW_LINES as int);
    seq![
        (
            true,
            right_aligned(dec((i + 1) as nat), 2) + ". \x1b[2m"@ + c.language@ + ":"@ + dec(
                c.start_line as nat,
            ) + "-"@ + dec(c.end_line as nat) + "\x1b[0m  \x1b[33m["@ + c.node_type@ + ": "@
                + chunk_name(c.name) + "]\x1b[0m"@,
        ),
    ] + indented(ls, shown) + (if ls.len() > shown {
        seq![
            (true, "    \x1b[2m… ("@ + dec((ls.len() - shown) as nat) + " more lines)\x1b[0m"@),
        ]
    } else {
        Seq::<(bool, Seq<char>)>::empty()
    }) + seq![(false, Seq::<char>::empty())]
}

/// The lines that show the first `n` chunks.
pub open spec fn chunk_blocks(cs: Seq<CodeHit>, n: int) -> Seq<(bool, Seq<char>)>
    decreases n,
{
    if n <= 0 {
        Seq::<(bool, Seq<char>)>::empty()
    } else {
        chunk_blocks(cs, n - 1) + chunk_block(cs[n - 1], n - 1)
    }
}

/// The lines that show some chunks: where each stands, what it is, and how it
/// begins.
pub fn print_chunks_text(chunks: &Vec<CodeHit>) -> (r: Vec<Line>)
    ensures
        line_models(r@) == chunk_blocks(chunks@, chunks.len() as int),
{
    let mut out: Vec<Line> = Vec::new();
    let mut i: usize = 0;
    assert(line_models(out@) =~= Seq::<(bool, Seq<char>)>::empty());
    while i < chunks.len()
        invariant
            i <= chunks.len(),
            line_models(out@) == chunk_blocks(chunks@, i as int),
        decreases chunks.len() - i,
    {
        let c = &chunks[i];
        let ghost before = line_models(out@);
        let name = display_name(&c.name);
        let head = pad_left(dec_usize(i + 1).as_str(), 2).concat(". \x1b[2m").concat(
            c.language.as_str(),
        ).concat(":").concat(dec_usize(c.start_line).as_str()).concat("-").concat(
            dec_usize(c.end_line).as_str(),
        ).concat("\x1b[0m  \x1b[33m[").concat(c.node_type.as_str()).concat(": ").concat(
            name.as_str(),
        ).concat("]\x1b[0m");
        push_styled(&mut out, head);
        let total: usize = push_preview(&mut out, c.content.as_str(), CHUNK_PREVIEW_LINES);
        if total > CHUNK_PREVIEW_LINES {
            push_styled(
                &mut out,
                "    \x1b[2m… (".to_owned().concat(
                    dec_usize(total - CHUNK_PREVIEW_LINES).as_str(),
                ).concat(" more lines)\x1b[0m"),
            );
        }
        push_plain(&mut out, String::new());
        assert(line_models(out@) =~= before + chunk_block(*c, i as int));
        i = i + 1;
    }
    out
}

/// A bound leaves what is below it and cuts what is above.
pub proof fn law_a_bound_is_the_smaller(n: int, limit: int)
    ensures
        at_most(n, limit) <= n && at_most(n, limit) <= limit,
        at_most(n, limit) == n || at_most(n, limit) == limit,
{
}

proof fn lemma_unstyled_prefix(s: Seq<char>, t: Seq<char>, n: int)
    requires
        0 <= n <= s.len(),
        n <= t.len(),
        s.take(n) == t.take(n),
    ensures
        unstyled_upto(s, n) == unstyled_upto(t, n),
    decreases n,
{
    if n > 0 {
        assert(s.take(n - 1) =~= s.take(n).take(n - 1));
        assert(t.take(n - 1) =~= t.take(n).take(n - 1));
        assert(s[n - 1] == s.take(n)[n - 1]);
        assert(t[n - 1] == t.take(n)[n - 1]);
        lemma_unstyled_prefix(s, t, n - 1);
    }
}

/// A text without colour codes is shown as it is.
pub proof fn law_a_plain_text_keeps_all_of_it(s: Seq<char>, n: int)
    requires
        0 <= n <= s.len(),
        !s.contains('\x1b'),
    ensures
        unstyled_upto(s, n) == (s.take(n), false),
    decreases n,
{
    if n > 0 {
        law_a_plain_text_keeps_all_of_it(s, n - 1);
        assert(s.contains(s[n - 1]));
        assert(s.take(n) =~= s.take(n - 1).push(s[n - 1]));
    } else {
        assert(s.take(0) =~= Seq::<char>::empty());
    }
}

/// A colour code before or behind a text leaves nothing but the text.
pub proof fn law_a_colour_code_leaves_no_trace(a: Seq<char>, code: Seq<char>)
    requires
        !a.contains('\x1b'),
        !code.contains('m'),
    ensures
        unstyled_upto(
            a + seq!['\x1b'] + code + seq!['m'],
            (a.len() + code.len() + 2) as int,
        ) == (a, false),
{
    let s = a + seq!['\x1b'] + code + seq!['m'];
    let n = a.len() as int;
    law_a_plain_text_keeps_all_of_it(a, n);
    assert(s.take(n) =~= a.take(n));
    assert(a.take(n) =~= a);
    lemma_unstyled_prefix(s, a, n);
    assert(s[n] == '\x1b');
    lemma_inside_code(s, a, n + 1, n + 1 + code.len());
    assert(s[n + 1 + code.len()] == 'm');
}

proof fn lemma_inside_code(s: Seq<char>, out: Seq<char>, from: int, to: int)
    requires
        0 < from <= to <= s.len(),
        unstyled_upto(s, from) == (out, true),
        forall|i: int| from <= i < to ==> s[i] != 'm',
    ensures
        unstyled_upto(s, to) == (out, true),
    decreases to - from,
{
    if from < to {
        lemma_inside_code(s, out, from, to - 1);
    }
}

/// The last part of a path holds no separator and ends the path.
pub proof fn law_the_last_part_ends_the_path(path: Seq<char>)
    ensures
        !pieces(path, '/').last().contains('/'),
        pieces(path, '/').last().is_suffix_of(path),
    decreases path.len(),
{
    crate::text::lemma_pieces_nonempty(path, '/');
    crate::text::lemma_pieces_join(path, '/');
    let p = pieces(path, '/');
    assert(p[p.len() - 1] == p.last());
    let last = p.last();
    if p.len() == 1 {
        assert(path == p[0]);
        assert(path.subrange(0, path.len() as int) =~= path);
    } else {
        assert(path.subrange(path.len() - last.len(), path.len() as int) =~= last);
    }
}

/// Of a text the first lines are shown, each as it is behind four spaces.
pub proof fn law_lines_are_shown_as_they_are(ls: Seq<Seq<char>>, n: int, i: int)
    requires
        0 <= i < n <= ls.len(),
    ensures
        indented(ls, n).len() == n,
        !indented(ls, n)[i].0,
        indented(ls, n)[i].1.len() == 4 + ls[i].len(),
        ls[i].is_suffix_of(indented(ls, n)[i].1),
{
    reveal_strlit("    ");
    let t = indented(ls, n)[i].1;
    assert(t == "    "@ + ls[i]);
    assert(t.subrange(t.len() - ls[i].len(), t.len() as int) =~= ls[i]);
}

/// A chunk is shown with where it stands and what it is, then as many of its
/// lines as are shown, then how many are left where there are more, and an empty
/// line.
pub proof fn law_a_chunk_shows_its_place(c: CodeHit, i: int)
    requires
        i >= 0,
    ensures
        crate::text::occurs(
            chunk_block(c, i)[0].1,
            c.language@ + ":"@ + dec(c.start_line as nat) + "-"@ + dec(c.end_line as nat),
        ),
        crate::text::occurs(chunk_block(c, i)[0].1, c.node_type@ + ": "@ + chunk_name(c.name)),
        chunk_block(c, i).len() == 2 + (if lines_of(c.content@).len() > 6 {
            7
        } else {
            lines_of(c.content@).len() as int
        }),
        forall|k: int|
            0 <= k < 6 && k < lines_of(c.content@).len() ==> #[trigger] chunk_block(c, i)[1 + k]
                == (false, "    "@ + lines_of(c.content@)[k]),
        chunk_block(c, i).last() == (false, Seq::<char>::empty()),
{
    let head = chunk_block(c, i)[0].1;
    let place = c.language@ + ":"@ + dec(c.start_line as nat) + "-"@ + dec(c.end_line as nat);
    let what = c.node_type@ + ": "@ + chunk_name(c.name);
    let front = right_aligned(dec((i + 1) as nat), 2) + ". \x1b[2m"@;
    crate::text::lemma_occurs_between(
        front,
        place,
        "\x1b[0m  \x1b[33m["@ + what + "]\x1b[0m"@,
    );
    assert(head =~= front + place + ("\x1b[0m  \x1b[33m["@ + what + "]\x1b[0m"@));
    crate::text::lemma_occurs_between(
        front + place + "\x1b[0m  \x1b[33m["@,
        what,
        "]\x1b[0m"@,
    );
    assert(head =~= front + place + "\x1b[0m  \x1b[33m["@ + what + "]\x1b[0m"@);
}

/// Each chunk is shown after the one before it.
pub proof fn law_chunks_are_shown_in_order(cs: Seq<CodeHit>, n: int)
    requires
        0 <= n < cs.len(),
    ensures
        chunk_blocks(cs, n + 1) == chunk_blocks(cs, n) + chunk_block(cs[n], n),
        chunk_blocks(cs, 0).len() == 0,
{
}

/// What lines hold is whether each is styled and its text, in order.
pub proof fn law_lines_are_what_they_hold(v: Seq<Line>, i: int)
    ensures
        line_models(v).len() == v.len(),
        0 <= i < v.len() ==> line_models(v)[i].0 == v[i].styled && line_models(v)[i].1
            == v[i].text@,
{
}

/// A chunk is shown by its name, and by a stand-in only where it has none.
pub proof fn law_a_chunk_is_shown_by_its_name(name: Option<String>)
    ensures
        name is Some ==> chunk_name(name) == name->0@,
        name is None ==> chunk_name(name) == "<anonymous>"@,
{
}

} // verus!
