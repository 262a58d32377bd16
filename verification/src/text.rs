//! Text operations over `char` sequences, each with the sequence it yields.

use vstd::prelude::*;
use vstd::string::*;

verus! {

/// `String::push` puts one character at the end of the string.
pub assume_specification[ String::push ](s: &mut String, c: char)
    ensures
        final(s)@ == old(s)@.push(c),
;

/// The texts that a sequence of strings holds.
pub open spec fn texts(v: Seq<String>) -> Seq<Seq<char>> {
    v.map_values(|s: String| s@)
}

/// The text of an optional string.
pub open spec fn opt_text(o: Option<String>) -> Option<Seq<char>> {
    match o {
        Some(s) => Some(s@),
        None => None,
    }
}

/// The text of an optional borrowed string.
pub open spec fn opt_str(o: Option<&str>) -> Option<Seq<char>> {
    match o {
        Some(s) => Some(s@),
        None => None,
    }
}

/// Pushing a string onto a vector pushes its text onto the texts.
pub proof fn lemma_texts_push(v: Seq<String>, s: String)
    ensures
        texts(v.push(s)) == texts(v).push(s@),
{
    assert(texts(v.push(s)) =~= texts(v).push(s@));
}

/// Adds a string to the end of a vector.
pub fn push_text(out: &mut Vec<String>, s: String)
    ensures
        texts(final(out)@) == texts(old(out)@).push(s@),
{
    proof {
        lemma_texts_push(out@, s);
    }
    out.push(s);
}

/// Whether two strings hold the same text.
pub fn same(a: &str, b: &str) -> (r: bool)
    ensures
        r == (a@ == b@),
{
    a.to_owned() == b.to_owned()
}

/// An owned copy of an optional borrowed string.
pub fn opt_owned(o: Option<&str>) -> (r: Option<String>)
    ensures
        opt_text(r) == opt_str(o),
{
    match o {
        Some(s) => Some(s.to_owned()),
        None => None,
    }
}

/// A borrowed view of an optional string.
pub fn opt_as_str(o: &Option<String>) -> (r: Option<&str>)
    ensures
        opt_str(r) == opt_text(*o),
{
    match o {
        Some(s) => Some(s.as_str()),
        None => None,
    }
}

/// The characters of a string.
pub fn chars_of(s: &str) -> (r: Vec<char>)
    ensures
        r@ == s@,
{
    let mut v: Vec<char> = Vec::new();
    for c in it: s.chars()
        invariant
            v@ == it.seq().take(it.index() as int),
    {
        v.push(c);
    }
    v
}

/// The string made of the characters `v[from..to]`.
pub fn text_of(v: &Vec<char>, from: usize, to: usize) -> (r: String)
    requires
        from <= to <= v.len(),
    ensures
        r@ == v@.subrange(from as int, to as int),
{
    let mut s = String::new();
    let mut i: usize = from;
    while i < to
        invariant
            from <= i <= to <= v.len(),
            s@ == v@.subrange(from as int, i as int),
        decreases to - i,
    {
        s.push(v[i]);
        assert(v@.subrange(from as int, i + 1) =~= v@.subrange(from as int, i as int).push(v@[i as int]));
        i = i + 1;
    }
    s
}

// ---- numbers ---------------------------------------------------------------

/// The decimal digit for `d`.
pub open spec fn digit(d: int) -> char {
    if d == 0 {
        '0'
    } else if d == 1 {
        '1'
    } else if d == 2 {
        '2'
    } else if d == 3 {
        '3'
    } else if d == 4 {
        '4'
    } else if d == 5 {
        '5'
    } else if d == 6 {
        '6'
    } else if d == 7 {
        '7'
    } else if d == 8 {
        '8'
    } else {
        '9'
    }
}

/// A natural number in decimal, without leading zeros.
pub open spec fn dec(n: nat) -> Seq<char>
    decreases n,
{
    if n < 10 {
        seq![digit(n as int)]
    } else {
        dec(n / 10).push(digit((n % 10) as int))
    }
}

/// An integer in decimal, with a leading `-` when negative.
pub open spec fn dec_int(n: int) -> Seq<char> {
    if n < 0 {
        seq!['-'] + dec((-n) as nat)
    } else {
        dec(n as nat)
    }
}

fn digit_char(d: u64) -> (r: char)
    requires
        d < 10,
    ensures
        r == digit(d as int),
{
    let table: [char; 10] = ['0', '1', '2', '3', '4', '5', '6', '7', '8', '9'];
    table[d as usize]
}

/// `n` in decimal.
pub fn dec_u64(n: u64) -> (r: String)
    ensures
        r@ == dec(n as nat),
    decreases n,
{
    if n < 10 {
        let mut s = String::new();
        s.push(digit_char(n));
        assert(s@ =~= seq![digit(n as int)]);
        s
    } else {
        let mut s = dec_u64(n / 10);
        s.push(digit_char(n % 10));
        s
    }
}

/// `n` in decimal.
pub fn dec_usize(n: usize) -> (r: String)
    ensures
        r@ == dec(n as nat),
{
    dec_u64(n as u64)
}

/// `n` in decimal, with a leading `-` when negative.
pub fn dec_i64(n: i64) -> (r: String)
    ensures
        r@ == dec_int(n as int),
{
    if n >= 0 {
        dec_u64(n as u64)
    } else {
        let m: u64 = if n == i64::MIN {
            9223372036854775808u64
        } else {
            (-n) as u64
        };
        let mut s = String::new();
        s.push('-');
        let d = dec_u64(m);
        assert(s@ =~= seq!['-']);
        s.concat(d.as_str())
    }
}

// ---- whitespace ------------------------------------------------------------

/// Whether `c` has the Unicode `White_Space` property.
pub open spec fn white(c: char) -> bool {
    ||| '\u{9}' <= c <= '\u{d}'
    ||| c == ' '
    ||| c == '\u{85}'
    ||| c == '\u{a0}'
    ||| c == '\u{1680}'
    ||| '\u{2000}' <= c <= '\u{200a}'
    ||| c == '\u{2028}'
    ||| c == '\u{2029}'
    ||| c == '\u{202f}'
    ||| c == '\u{205f}'
    ||| c == '\u{3000}'
}

/// `s` without its leading whitespace.
pub open spec fn trimmed_start(s: Seq<char>) -> Seq<char>
    decreases s.len(),
{
    if s.len() > 0 && white(s[0]) {
        trimmed_start(s.skip(1))
    } else {
        s
    }
}

/// `s` without its trailing whitespace.
pub open spec fn trimmed_end(s: Seq<char>) -> Seq<char>
    decreases s.len(),
{
    if s.len() > 0 && white(s.last()) {
        trimmed_end(s.drop_last())
    } else {
        s
    }
}

/// `s` without its leading and trailing whitespace.
pub open spec fn trimmed(s: Seq<char>) -> Seq<char> {
    trimmed_end(trimmed_start(s))
}

fn is_white(c: char) -> (r: bool)
    ensures
        r == white(c),
{
    ('\u{9}' <= c && c <= '\u{d}') || c == ' ' || c == '\u{85}' || c == '\u{a0}' || c == '\u{1680}'
        || ('\u{2000}' <= c && c <= '\u{200a}') || c == '\u{2028}' || c == '\u{2029}' || c
        == '\u{202f}' || c == '\u{205f}' || c == '\u{3000}'
}

/// `s` without its trailing whitespace.
pub fn trim_end(s: &str) -> (r: String)
    ensures
        r@ == trimmed_end(s@),
{
    let v = chars_of(s);
    let mut b: usize = v.len();
    assert(v@.take(b as int) =~= v@);
    while b > 0 && is_white(v[b - 1])
        invariant
            b <= v.len(),
            trimmed_end(v@.take(b as int)) == trimmed_end(v@),
        decreases b,
    {
        assert(v@.take(b as int).drop_last() =~= v@.take(b - 1));
        b = b - 1;
    }
    assert(v@.subrange(0, b as int) =~= v@.take(b as int));
    text_of(&v, 0, b)
}

/// `s` without its leading whitespace.
pub fn trim_start(s: &str) -> (r: String)
    ensures
        r@ == trimmed_start(s@),
{
    let v = chars_of(s);
    let mut a: usize = 0;
    assert(v@.skip(0) =~= v@);
    while a < v.len() && is_white(v[a])
        invariant
            a <= v.len(),
            trimmed_start(v@.skip(a as int)) == trimmed_start(v@),
        decreases v.len() - a,
    {
        assert(v@.skip(a as int).skip(1) =~= v@.skip(a + 1));
        a = a + 1;
    }
    assert(v@.subrange(a as int, v.len() as int) =~= v@.skip(a as int));
    text_of(&v, a, v.len())
}

/// `s` without its leading and trailing whitespace.
pub fn trim(s: &str) -> (r: String)
    ensures
        r@ == trimmed(s@),
{
    let a = trim_start(s);
    trim_end(a.as_str())
}

/// Whether nothing but whitespace is in `s`.
pub fn is_blank(s: &str) -> (r: bool)
    ensures
        r == (trimmed(s@).len() == 0),
{
    trim(s).as_str().is_empty()
}

// ---- splitting and joining -------------------------------------------------

/// The pieces of `s` between the occurrences of `sep`; one more than there are
/// separators.
pub open spec fn pieces(s: Seq<char>, sep: char) -> Seq<Seq<char>>
    decreases s.len(),
{
    if s.len() == 0 {
        seq![Seq::<char>::empty()]
    } else {
        let before = pieces(s.drop_last(), sep);
        if s.last() == sep {
            before.push(Seq::<char>::empty())
        } else {
            before.drop_last().push(before.last().push(s.last()))
        }
    }
}

/// `parts` one after another with `sep` between neighbours.
pub open spec fn joined(parts: Seq<Seq<char>>, sep: Seq<char>) -> Seq<char>
    decreases parts.len(),
{
    if parts.len() == 0 {
        Seq::<char>::empty()
    } else if parts.len() == 1 {
        parts[0]
    } else {
        joined(parts.drop_last(), sep) + sep + parts.last()
    }
}

/// There is always at least one piece.
pub proof fn lemma_pieces_nonempty(s: Seq<char>, sep: char)
    ensures
        pieces(s, sep).len() >= 1,
    decreases s.len(),
{
    if s.len() > 0 {
        lemma_pieces_nonempty(s.drop_last(), sep);
    }
}

/// Joining the pieces of a text with the separator gives the text back, and no
/// piece holds the separator.
pub proof fn lemma_pieces_join(s: Seq<char>, sep: char)
    ensures
        joined(pieces(s, sep), seq![sep]) == s,
        forall|i: int|
            0 <= i < pieces(s, sep).len() ==> !(#[trigger] pieces(s, sep)[i]).contains(sep),
    decreases s.len(),
{
    let p = pieces(s, sep);
    if s.len() > 0 {
        let before = pieces(s.drop_last(), sep);
        lemma_pieces_nonempty(s.drop_last(), sep);
        lemma_pieces_join(s.drop_last(), sep);
        if s.last() == sep {
            assert(p.drop_last() =~= before);
            assert(joined(p, seq![sep]) =~= s.drop_last() + seq![sep] + Seq::<char>::empty());
            assert(joined(p, seq![sep]) =~= s);
        } else {
            assert(p.drop_last() =~= before.drop_last());
            assert forall|i: int| 0 <= i < p.len() implies !(#[trigger] p[i]).contains(sep) by {
                if i < before.len() - 1 {
                    assert(p[i] == before[i]);
                } else {
                    assert(!before.last().contains(sep));
                    assert(p[i] == before.last().push(s.last()));
                    if p[i].contains(sep) {
                        let k = choose|k: int| 0 <= k < p[i].len() && p[i][k] == sep;
                        assert(before.last()[k] == sep);
                    }
                }
            }
            if before.len() == 1 {
                assert(joined(before, seq![sep]) == before[0]);
                assert(joined(p, seq![sep]) =~= s);
            } else {
                let head = joined(before.drop_last(), seq![sep]);
                assert(s.drop_last() == head + seq![sep] + before.last());
                assert(joined(p, seq![sep]) == head + seq![sep] + before.last().push(s.last()));
                assert(joined(p, seq![sep]) =~= s.drop_last().push(s.last()));
                assert(s.drop_last().push(s.last()) =~= s);
            }
        }
    } else {
        assert(p[0].len() == 0);
        assert(joined(p, seq![sep]) =~= s);
    }
}

/// Parts that do not hold the separator are the pieces of what they are joined
/// to.
pub proof fn lemma_joined_pieces(parts: Seq<Seq<char>>, sep: char)
    requires
        parts.len() >= 1,
        forall|i: int| 0 <= i < parts.len() ==> !(#[trigger] parts[i]).contains(sep),
    ensures
        pieces(joined(parts, seq![sep]), sep) == parts,
    decreases parts.len(), parts.last().len(),
{
    let s = joined(parts, seq![sep]);
    let front = parts.drop_last();
    let last = parts.last();
    if last.len() > 0 {
        let c = last.last();
        let less = front.push(last.drop_last());
        assert(!parts[parts.len() - 1].contains(sep));
        assert(last[last.len() - 1] == c);
        assert forall|i: int| 0 <= i < less.len() implies !(#[trigger] less[i]).contains(sep) by {
            if i < front.len() {
                assert(less[i] == parts[i]);
            } else if less[i].contains(sep) {
                let k = choose|k: int| 0 <= k < less[i].len() && less[i][k] == sep;
                assert(last[k] == sep);
            }
        }
        lemma_joined_pieces(less, sep);
        assert(less.drop_last() =~= front);
        assert(s.drop_last() =~= joined(less, seq![sep]));
        assert(s.last() == c);
        assert(pieces(s, sep) =~= front.push(last.drop_last().push(c)));
        assert(last.drop_last().push(c) =~= last);
        assert(pieces(s, sep) =~= parts);
    } else if front.len() > 0 {
        assert forall|i: int| 0 <= i < front.len() implies !(#[trigger] front[i]).contains(
            sep,
        ) by {
            assert(front[i] == parts[i]);
        }
        lemma_joined_pieces(front, sep);
        assert(s =~= joined(front, seq![sep]).push(sep));
        assert(s.drop_last() =~= joined(front, seq![sep]));
        assert(last =~= Seq::<char>::empty());
        assert(pieces(s, sep) =~= parts);
    } else {
        assert(s =~= Seq::<char>::empty());
        assert(pieces(s, sep) =~= parts);
    }
}

/// The pieces of `s` between the occurrences of `sep`.
pub fn split_on(s: &str, sep: char) -> (r: Vec<String>)
    ensures
        texts(r@) == pieces(s@, sep),
{
    let v = chars_of(s);
    let mut done: Vec<String> = Vec::new();
    let mut cur = String::new();
    let mut i: usize = 0;
    proof {
        assert(texts(done@).push(cur@) =~= pieces(v@.take(0), sep));
    }
    while i < v.len()
        invariant
            i <= v.len(),
            texts(done@).push(cur@) == pieces(v@.take(i as int), sep),
        decreases v.len() - i,
    {
        let c = v[i];
        let ghost before = pieces(v@.take(i as int), sep);
        proof {
            assert(v@.take(i + 1).drop_last() =~= v@.take(i as int));
            assert(v@.take(i + 1).last() == c);
            assert(before.drop_last() =~= texts(done@));
            assert(before.last() == cur@);
        }
        if c == sep {
            proof {
                lemma_texts_push(done@, cur);
            }
            done.push(cur);
            cur = String::new();
        } else {
            cur.push(c);
        }
        i = i + 1;
    }
    proof {
        assert(v@.take(i as int) =~= s@);
        lemma_texts_push(done@, cur);
    }
    done.push(cur);
    done
}

/// `parts` one after another with `sep` between neighbours.
pub fn join(parts: &Vec<String>, sep: &str) -> (r: String)
    ensures
        r@ == joined(texts(parts@), sep@),
{
    let mut out = String::new();
    let mut i: usize = 0;
    proof {
        assert(texts(parts@).take(0) =~= Seq::<Seq<char>>::empty());
    }
    while i < parts.len()
        invariant
            i <= parts.len(),
            out@ == joined(texts(parts@).take(i as int), sep@),
        decreases parts.len() - i,
    {
        let ghost all = texts(parts@);
        assert(all.take(i + 1).drop_last() =~= all.take(i as int));
        assert(all.take(i + 1).last() == parts@[i as int]@);
        if i == 0 {
            out = parts[i].clone();
            assert(all.take(1)[0] == parts@[0]@);
        } else {
            out.append(sep);
            out.append(parts[i].as_str());
        }
        i = i + 1;
    }
    assert(texts(parts@).take(i as int) =~= texts(parts@));
    out
}

/// Removes one trailing carriage return.
pub open spec fn without_cr(s: Seq<char>) -> Seq<char> {
    if s.len() > 0 && s.last() == '\r' {
        s.drop_last()
    } else {
        s
    }
}

/// The lines of `s`: what stands between line feeds, a carriage return directly
/// before a line feed belonging to the line ending, and no empty last line
/// after a final line feed.
pub open spec fn lines_of(s: Seq<char>) -> Seq<Seq<char>> {
    let p = pieces(s, '\n');
    let ended = p.drop_last().map_values(|l: Seq<char>| without_cr(l));
    if p.last().len() == 0 {
        ended
    } else {
        ended.push(p.last())
    }
}

fn strip_cr(s: &str) -> (r: String)
    ensures
        r@ == without_cr(s@),
{
    let v = chars_of(s);
    if v.len() > 0 && v[v.len() - 1] == '\r' {
        assert(v@.subrange(0, v.len() - 1) =~= v@.drop_last());
        text_of(&v, 0, v.len() - 1)
    } else {
        s.to_owned()
    }
}

/// The lines of `s`.
pub fn lines(s: &str) -> (r: Vec<String>)
    ensures
        texts(r@) == lines_of(s@),
{
    let p = split_on(s, '\n');
    let ghost ps = pieces(s@, '\n');
    proof {
        lemma_pieces_nonempty(s@, '\n');
        assert(p@.len() == texts(p@).len());
    }
    let mut out: Vec<String> = Vec::new();
    let n: usize = p.len() - 1;
    let mut i: usize = 0;
    while i < n
        invariant
            i <= n,
            n + 1 == p.len(),
            texts(p@) == ps,
            out.len() == i,
            forall|k: int| 0 <= k < i ==> (#[trigger] out@[k])@ == without_cr(ps[k]),
        decreases n - i,
    {
        let l = strip_cr(p[i].as_str());
        assert(ps[i as int] == p@[i as int]@);
        out.push(l);
        i = i + 1;
    }
    proof {
        let ended = ps.drop_last().map_values(|l: Seq<char>| without_cr(l));
        assert(texts(out@) =~= ended);
        assert(ps.last() == p@[n as int]@);
    }
    if !p[n].as_str().is_empty() {
        let l = p[n].clone();
        proof {
            lemma_texts_push(out@, l);
        }
        out.push(l);
    }
    out
}

// ---- searching and replacing -----------------------------------------------

/// Whether `pat` stands in `s` at position `i`.
pub open spec fn occurs_at(s: Seq<char>, pat: Seq<char>, i: int) -> bool {
    0 <= i && i + pat.len() <= s.len() && s.subrange(i, i + pat.len()) == pat
}

/// Whether `pat` stands anywhere in `s`.
pub open spec fn occurs(s: Seq<char>, pat: Seq<char>) -> bool {
    exists|i: int| occurs_at(s, pat, i)
}

/// Whether `s` begins with `pat`.
pub open spec fn begins(s: Seq<char>, pat: Seq<char>) -> bool {
    occurs_at(s, pat, 0)
}

/// Whether `s` ends with `pat`.
pub open spec fn ends(s: Seq<char>, pat: Seq<char>) -> bool {
    occurs_at(s, pat, s.len() - pat.len())
}

/// `s` with each occurrence of `pat`, from the left and without overlap,
/// replaced by `with`.
pub open spec fn replaced(s: Seq<char>, pat: Seq<char>, with: Seq<char>) -> Seq<char>
    decreases s.len(),
{
    if s.len() == 0 || pat.len() == 0 {
        s
    } else if begins(s, pat) {
        with + replaced(s.skip(pat.len() as int), pat, with)
    } else {
        seq![s[0]] + replaced(s.skip(1), pat, with)
    }
}

fn matches_at(v: &Vec<char>, pat: &Vec<char>, i: usize) -> (r: bool)
    ensures
        r == occurs_at(v@, pat@, i as int),
{
    if i > v.len() || pat.len() > v.len() - i {
        return false;
    }
    let mut k: usize = 0;
    while k < pat.len()
        invariant
            k <= pat.len(),
            i + pat.len() <= v.len(),
            forall|j: int| 0 <= j < k ==> v@[i + j] == pat@[j],
        decreases pat.len() - k,
    {
        if v[i + k] != pat[k] {
            assert(v@.subrange(i as int, i + pat.len())[k as int] != pat@[k as int]);
            return false;
        }
        k = k + 1;
    }
    assert(v@.subrange(i as int, i + pat.len()) =~= pat@);
    true
}

/// The first place at or after `from` where `pat` stands in `v`.
pub fn find_from(v: &Vec<char>, pat: &Vec<char>, from: usize) -> (r: Option<usize>)
    ensures
        match r {
            Some(i) => from <= i && occurs_at(v@, pat@, i as int) && forall|k: int|
                from <= k < i ==> !occurs_at(v@, pat@, k),
            None => forall|k: int| from <= k ==> !occurs_at(v@, pat@, k),
        },
{
    let mut i: usize = from;
    while i <= v.len() && pat.len() <= v.len() - i
        invariant
            from <= i,
            forall|k: int| from <= k < i ==> !occurs_at(v@, pat@, k),
        decreases v.len() + 1 - i,
    {
        if matches_at(v, pat, i) {
            return Some(i);
        }
        if i == v.len() {
            return None;
        }
        i = i + 1;
    }
    None
}

/// Whether `pat` stands anywhere in `s`.
pub fn contains(s: &str, pat: &str) -> (r: bool)
    ensures
        r == occurs(s@, pat@),
{
    let v = chars_of(s);
    let p = chars_of(pat);
    match find_from(&v, &p, 0) {
        Some(i) => {
            assert(occurs_at(s@, pat@, i as int));
            true
        },
        None => false,
    }
}

/// Whether `s` begins with `pat`.
pub fn starts_with(s: &str, pat: &str) -> (r: bool)
    ensures
        r == begins(s@, pat@),
{
    let v = chars_of(s);
    let p = chars_of(pat);
    matches_at(&v, &p, 0)
}

/// Whether `s` ends with `pat`.
pub fn ends_with(s: &str, pat: &str) -> (r: bool)
    ensures
        r == ends(s@, pat@),
{
    let v = chars_of(s);
    let p = chars_of(pat);
    if p.len() > v.len() {
        return false;
    }
    matches_at(&v, &p, v.len() - p.len())
}

/// `s` with each occurrence of `pat` replaced by `with`.
pub fn replace(s: &str, pat: &str, with: &str) -> (r: String)
    ensures
        r@ == replaced(s@, pat@, with@),
{
    let v = chars_of(s);
    let p = chars_of(pat);
    if p.len() == 0 {
        return s.to_owned();
    }
    let mut out = String::new();
    let mut i: usize = 0;
    assert(out@ + replaced(v@.skip(0), p@, with@) =~= replaced(v@, p@, with@)) by {
        assert(v@.skip(0) =~= v@);
    }
    while i < v.len()
        invariant
            i <= v.len(),
            p.len() > 0,
            out@ + replaced(v@.skip(i as int), p@, with@) == replaced(v@, p@, with@),
        decreases v.len() - i,
    {
        let ghost rest = v@.skip(i as int);
        let ghost out0 = out@;
        assert(i + p.len() <= v.len() ==> v@.subrange(i as int, i + p.len()) =~= rest.subrange(
            0,
            p.len() as int,
        ));
        if matches_at(&v, &p, i) {
            out.append(with);
            proof {
                assert(rest.skip(p.len() as int) =~= v@.skip(i + p.len()));
                let tail = replaced(v@.skip(i + p.len()), p@, with@);
                assert(out0 + with@ + tail =~= out0 + (with@ + tail));
            }
            i = i + p.len();
        } else {
            out.push(v[i]);
            proof {
                assert(rest.skip(1) =~= v@.skip(i + 1));
                let tail = replaced(v@.skip(i + 1), p@, with@);
                assert(out0.push(v@[i as int]) + tail =~= out0 + (seq![rest[0]] + tail));
            }
            i = i + 1;
        }
    }
    assert(v@.skip(i as int) =~= Seq::<char>::empty());
    assert(out@ =~= replaced(v@, p@, with@));
    out
}

/// The first place of `c` in `s`.
pub open spec fn first_at(s: Seq<char>, c: char) -> Option<int>
    decreases s.len(),
{
    if s.len() == 0 {
        None
    } else if s[0] == c {
        Some(0)
    } else {
        match first_at(s.skip(1), c) {
            Some(i) => Some(i + 1),
            None => None,
        }
    }
}

/// What stands before and after the first `c` in `s`; all of `s` and nothing
/// where there is none.
pub open spec fn split_first(s: Seq<char>, c: char) -> (Seq<char>, Seq<char>) {
    match first_at(s, c) {
        Some(i) => (s.take(i), s.skip(i + 1)),
        None => (s, Seq::<char>::empty()),
    }
}

proof fn lemma_first_at(s: Seq<char>, c: char, i: int)
    requires
        0 <= i <= s.len(),
        forall|k: int| 0 <= k < i ==> s[k] != c,
        i < s.len() ==> s[i] == c,
    ensures
        first_at(s, c) == if i < s.len() {
            Some(i)
        } else {
            None
        },
    decreases s.len(),
{
    if s.len() > 0 && i > 0 {
        assert forall|k: int| 0 <= k < i - 1 implies s.skip(1)[k] != c by {
            assert(s.skip(1)[k] == s[k + 1]);
        }
        lemma_first_at(s.skip(1), c, i - 1);
    }
}

/// What stands before and after the first `c` in `s`; all of `s` and nothing
/// where there is none.
pub fn split_at_first(s: &str, c: char) -> (r: (String, String))
    ensures
        (r.0@, r.1@) == split_first(s@, c),
{
    let v = chars_of(s);
    let mut i: usize = 0;
    while i < v.len() && v[i] != c
        invariant
            i <= v.len(),
            forall|k: int| 0 <= k < i ==> v@[k] != c,
        decreases v.len() - i,
    {
        i = i + 1;
    }
    proof {
        lemma_first_at(v@, c, i as int);
    }
    if i < v.len() {
        assert(v@.subrange(0, i as int) =~= v@.take(i as int));
        assert(v@.subrange(i + 1, v.len() as int) =~= v@.skip(i + 1));
        (text_of(&v, 0, i), text_of(&v, i + 1, v.len()))
    } else {
        (s.to_owned(), String::new())
    }
}

// ---- reading numbers -------------------------------------------------------

/// The value of a decimal digit.
pub open spec fn digit_value(c: char) -> Option<nat> {
    if '0' <= c <= '9' {
        Some((c as u32 - '0' as u32) as nat)
    } else {
        None
    }
}

/// The number that a run of decimal digits writes; nothing for any other text.
pub open spec fn digits_value(s: Seq<char>) -> Option<nat>
    decreases s.len(),
{
    if s.len() == 0 {
        None
    } else {
        match digit_value(s.last()) {
            None => None,
            Some(d) => if s.len() == 1 {
                Some(d)
            } else {
                match digits_value(s.drop_last()) {
                    Some(v) => Some(10 * v + d),
                    None => None,
                }
            },
        }
    }
}

/// `s` without one plus sign at its front.
pub open spec fn without_plus(s: Seq<char>) -> Seq<char> {
    if s.len() > 0 && s[0] == '+' {
        s.skip(1)
    } else {
        s
    }
}

/// The number up to `max` that a text writes: decimal digits, a plus sign
/// before them or not.
pub open spec fn number_upto(s: Seq<char>, max: nat) -> Option<nat> {
    match digits_value(without_plus(s)) {
        Some(v) => if v <= max {
            Some(v)
        } else {
            None
        },
        None => None,
    }
}

proof fn lemma_digits_prefix(s: Seq<char>, k: int)
    requires
        1 <= k <= s.len(),
        digits_value(s) is Some,
    ensures
        digits_value(s.take(k)) is Some,
        digits_value(s.take(k))->0 <= digits_value(s)->0,
    decreases s.len() - k,
{
    if k == s.len() {
        assert(s.take(k) =~= s);
    } else {
        assert(digits_value(s.drop_last()) is Some);
        assert(s.drop_last().take(k) =~= s.take(k));
        lemma_digits_prefix(s.drop_last(), k);
    }
}

/// The number up to `max` that a text writes.
pub fn parse_upto(s: &str, max: u64) -> (r: Option<u64>)
    ensures
        match r {
            Some(v) => number_upto(s@, max as nat) == Some(v as nat),
            None => number_upto(s@, max as nat) is None,
        },
{
    let v = chars_of(s);
    let from: usize = if v.len() > 0 && v[0] == '+' {
        1
    } else {
        0
    };
    let ghost t = without_plus(s@);
    proof {
        if from == 0 {
            assert(v@.skip(0) =~= v@);
        }
        assert(t =~= v@.skip(from as int));
    }
    if v.len() == from {
        return None;
    }
    let mut acc: u64 = 0;
    let mut i: usize = from;
    while i < v.len()
        invariant
            from <= i <= v.len(),
            from < v.len(),
            t == v@.skip(from as int),
            v@ == s@,
            t == without_plus(s@),
            acc <= max,
            i > from ==> digits_value(t.take(i - from)) == Some(acc as nat),
            i == from ==> acc == 0,
        decreases v.len() - i,
    {
        let c = v[i];
        let ghost k = i - from;
        proof {
            assert(t[k] == c);
            assert(t.take(k + 1).drop_last() =~= t.take(k));
            assert(t.take(k + 1).last() == c);
        }
        if !('0' <= c && c <= '9') {
            proof {
                if digits_value(t) is Some {
                    lemma_digits_prefix(t, k + 1);
                }
            }
            return None;
        }
        let d: u64 = (c as u32 - '0' as u32) as u64;
        let next: u128 = acc as u128 * 10 + d as u128;
        proof {
            assert(digits_value(t.take(k + 1)) == Some(next as nat));
        }
        if next > max as u128 {
            proof {
                if digits_value(t) is Some {
                    lemma_digits_prefix(t, k + 1);
                }
            }
            return None;
        }
        acc = next as u64;
        i = i + 1;
    }
    assert(t.take(i - from) =~= t);
    Some(acc)
}

/// The 64-bit number that a text writes: decimal digits, a sign before them or
/// not.
pub open spec fn signed_number(s: Seq<char>) -> Option<int> {
    if s.len() > 0 && s[0] == '-' {
        match digits_value(s.skip(1)) {
            Some(v) => if -(v as int) >= i64::MIN {
                Some(-(v as int))
            } else {
                None
            },
            None => None,
        }
    } else {
        match number_upto(s, i64::MAX as nat) {
            Some(v) => Some(v as int),
            None => None,
        }
    }
}

proof fn lemma_digits_are_digits(s: Seq<char>)
    requires
        digits_value(s) is Some,
    ensures
        s.len() > 0,
        digit_value(s[0]) is Some,
    decreases s.len(),
{
    if s.len() > 1 {
        lemma_digits_are_digits(s.drop_last());
    }
}

/// The 64-bit number that a text writes.
pub fn parse_i64(s: &str) -> (r: Option<i64>)
    ensures
        match r {
            Some(n) => signed_number(s@) == Some(n as int),
            None => signed_number(s@) is None,
        },
{
    let v = chars_of(s);
    if v.len() > 0 && v[0] == '-' {
        let digits = text_of(&v, 1, v.len());
        assert(digits@ =~= s@.skip(1));
        if v.len() > 1 && v[1] == '+' {
            proof {
                if digits_value(digits@) is Some {
                    lemma_digits_are_digits(digits@);
                }
            }
            return None;
        }
        assert(without_plus(digits@) == digits@);
        match parse_upto(digits.as_str(), 0x8000_0000_0000_0000) {
            Some(n) => Some((-(n as i128)) as i64),
            None => None,
        }
    } else {
        match parse_upto(s, i64::MAX as u64) {
            Some(n) => Some(n as i64),
            None => None,
        }
    }
}

// ---- prefixes, padding and letters -----------------------------------------

/// The first `n` characters of `s`, or all of it.
pub open spec fn prefix(s: Seq<char>, n: int) -> Seq<char> {
    if s.len() <= n {
        s
    } else {
        s.take(n)
    }
}

/// The first `n` characters of `s`, or all of it.
pub fn take_chars(s: &str, n: usize) -> (r: String)
    ensures
        r@ == prefix(s@, n as int),
{
    let v = chars_of(s);
    if v.len() <= n {
        s.to_owned()
    } else {
        assert(v@.subrange(0, n as int) =~= v@.take(n as int));
        text_of(&v, 0, n)
    }
}

/// `c`, `n` times.
pub open spec fn repeated(c: char, n: int) -> Seq<char> {
    Seq::new(
        if n > 0 {
            n as nat
        } else {
            0
        },
        |i: int| c,
    )
}

/// `n` spaces.
pub open spec fn spaces(n: int) -> Seq<char> {
    repeated(' ', n)
}

/// `s` right-aligned in a field of `width` characters.
pub open spec fn right_aligned(s: Seq<char>, width: int) -> Seq<char> {
    spaces(width - s.len()) + s
}

/// `s` left-aligned in a field of `width` characters.
pub open spec fn left_aligned(s: Seq<char>, width: int) -> Seq<char> {
    s + spaces(width - s.len())
}

/// `c`, `n` times.
pub fn repeat_char(c: char, n: usize) -> (r: String)
    ensures
        r@ == repeated(c, n as int),
{
    let mut s = String::new();
    let mut i: usize = 0;
    assert(s@ =~= repeated(c, 0));
    while i < n
        invariant
            i <= n,
            s@ == repeated(c, i as int),
        decreases n - i,
    {
        s.push(c);
        i = i + 1;
        assert(s@ =~= repeated(c, i as int));
    }
    s
}

/// `s` right-aligned in a field of `width` characters.
pub fn pad_left(s: &str, width: usize) -> (r: String)
    ensures
        r@ == right_aligned(s@, width as int),
{
    let n: usize = s.unicode_len();
    if n >= width {
        assert(spaces(width - n) + s@ =~= s@);
        s.to_owned()
    } else {
        repeat_char(' ', width - n).concat(s)
    }
}

/// `s` left-aligned in a field of `width` characters.
pub fn pad_right(s: &str, width: usize) -> (r: String)
    ensures
        r@ == left_aligned(s@, width as int),
{
    let n: usize = s.unicode_len();
    if n >= width {
        assert(s@ + spaces(width - n) =~= s@);
        s.to_owned()
    } else {
        let f = repeat_char(' ', width - n);
        s.to_owned().concat(f.as_str())
    }
}

// ---- bytes -----------------------------------------------------------------

/// How many bytes a character takes in UTF-8.
pub open spec fn char_bytes(c: char) -> nat {
    if c <= '\u{7f}' {
        1
    } else if c <= '\u{7ff}' {
        2
    } else if c <= '\u{ffff}' {
        3
    } else {
        4
    }
}

/// How many bytes a text takes in UTF-8.
pub open spec fn text_bytes(s: Seq<char>) -> nat
    decreases s.len(),
{
    if s.len() == 0 {
        0
    } else {
        text_bytes(s.drop_last()) + char_bytes(s.last())
    }
}

/// How many characters from the front fit into `n` bytes.
pub open spec fn chars_within(s: Seq<char>, n: int) -> int
    decreases s.len(),
{
    if text_bytes(s) <= n || s.len() == 0 {
        s.len() as int
    } else {
        chars_within(s.drop_last(), n)
    }
}

/// The longest beginning of `s` that takes at most `n` bytes.
pub open spec fn byte_prefix(s: Seq<char>, n: int) -> Seq<char> {
    s.take(chars_within(s, n))
}

/// Whether `s` can be cut after `n` bytes: it is no longer than that, or some
/// beginning of it takes just as many.
pub open spec fn byte_boundary(s: Seq<char>, n: int) -> bool {
    text_bytes(s) <= n || text_bytes(byte_prefix(s, n)) == n
}

fn width_of(c: char) -> (r: usize)
    ensures
        r == char_bytes(c),
{
    if c <= '\u{7f}' {
        1
    } else if c <= '\u{7ff}' {
        2
    } else if c <= '\u{ffff}' {
        3
    } else {
        4
    }
}

proof fn lemma_bytes_grow(s: Seq<char>, k: int)
    requires
        0 <= k <= s.len(),
    ensures
        text_bytes(s.take(k)) <= text_bytes(s),
    decreases s.len() - k,
{
    if k < s.len() {
        lemma_bytes_grow(s, k + 1);
        assert(s.take(k + 1).drop_last() =~= s.take(k));
    } else {
        assert(s.take(k) =~= s);
    }
}

proof fn lemma_within(s: Seq<char>, n: int, k: int)
    requires
        0 <= k <= s.len(),
        text_bytes(s.take(k)) <= n,
        k < s.len() ==> text_bytes(s.take(k + 1)) > n,
    ensures
        chars_within(s, n) == k,
    decreases s.len(),
{
    if k == s.len() {
        assert(s.take(k) =~= s);
    } else {
        lemma_bytes_grow(s, k + 1);
        let d = s.drop_last();
        assert(d.take(k) =~= s.take(k));
        if k < d.len() {
            assert(d.take(k + 1) =~= s.take(k + 1));
        }
        lemma_within(d, n, k);
    }
}

/// The longest beginning of `s` that takes at most `n` bytes.
pub fn take_bytes(s: &str, n: usize) -> (r: String)
    ensures
        r@ == byte_prefix(s@, n as int),
{
    let v = chars_of(s);
    let mut used: usize = 0;
    let mut k: usize = 0;
    assert(v@.take(0) =~= Seq::<char>::empty());
    while k < v.len() && width_of(v[k]) <= n - used
        invariant
            k <= v.len(),
            used <= n,
            used == text_bytes(v@.take(k as int)),
        decreases v.len() - k,
    {
        proof {
            assert(v@.take(k + 1).drop_last() =~= v@.take(k as int));
        }
        used = used + width_of(v[k]);
        k = k + 1;
    }
    proof {
        if k < v.len() {
            assert(v@.take(k + 1).drop_last() =~= v@.take(k as int));
        }
        lemma_within(v@, n as int, k as int);
        assert(v@.subrange(0, k as int) =~= v@.take(k as int));
    }
    text_of(&v, 0, k)
}

/// Whether `s` can be cut after `n` bytes.
pub fn is_byte_boundary(s: &str, n: usize) -> (r: bool)
    ensures
        r == byte_boundary(s@, n as int),
{
    let v = chars_of(s);
    let mut used: usize = 0;
    let mut k: usize = 0;
    assert(v@.take(0) =~= Seq::<char>::empty());
    while k < v.len() && width_of(v[k]) <= n - used
        invariant
            k <= v.len(),
            used <= n,
            used == text_bytes(v@.take(k as int)),
        decreases v.len() - k,
    {
        proof {
            assert(v@.take(k + 1).drop_last() =~= v@.take(k as int));
        }
        used = used + width_of(v[k]);
        k = k + 1;
    }
    proof {
        if k < v.len() {
            assert(v@.take(k + 1).drop_last() =~= v@.take(k as int));
            lemma_bytes_grow(v@, k + 1);
        } else {
            assert(v@.take(k as int) =~= v@);
        }
        lemma_within(v@, n as int, k as int);
    }
    k == v.len() || used == n
}

// ---- what the operations keep ----------------------------------------------

/// The digits stand in the order of their values.
pub proof fn law_digits_are_in_order(d: int)
    requires
        0 <= d < 10,
    ensures
        digit(d) as u32 == '0' as u32 + d,
        digit_value(digit(d)) == Some(d as nat),
{
}

/// A number that was written reads back.
pub proof fn law_a_number_reads_back(n: nat)
    ensures
        digits_value(dec(n)) == Some(n),
        forall|i: int| 0 <= i < dec(n).len() ==> '0' <= #[trigger] dec(n)[i] <= '9',
        dec(n).len() >= 1,
        n > 0 ==> dec(n)[0] != '0',
    decreases n,
{
    if n >= 10 {
        law_a_number_reads_back(n / 10);
        law_digits_are_in_order((n % 10) as int);
        assert(dec(n).drop_last() =~= dec(n / 10));
        assert(dec(n).last() == digit((n % 10) as int));
        assert(dec(n)[0] == dec(n / 10)[0]);
    } else {
        law_digits_are_in_order(n as int);
        assert(dec(n).last() == digit(n as int));
    }
}

/// Whether nothing but whitespace is in `s`.
pub open spec fn blank(s: Seq<char>) -> bool {
    forall|i: int| 0 <= i < s.len() ==> white(#[trigger] s[i])
}

proof fn lemma_trimmed_start(s: Seq<char>) -> (a: int)
    ensures
        0 <= a <= s.len(),
        trimmed_start(s) == s.skip(a),
        blank(s.take(a)),
        a < s.len() ==> !white(s[a]),
    decreases s.len(),
{
    if s.len() > 0 && white(s[0]) {
        let b = lemma_trimmed_start(s.skip(1));
        let a = b + 1;
        assert(s.skip(1).skip(b) =~= s.skip(a));
        assert forall|i: int| 0 <= i < s.take(a).len() implies white(#[trigger] s.take(a)[i]) by {
            if i > 0 {
                assert(s.skip(1).take(b)[i - 1] == s.take(a)[i]);
            }
        }
        a
    } else {
        assert(s.skip(0) =~= s);
        0
    }
}

proof fn lemma_trimmed_end(s: Seq<char>) -> (b: int)
    ensures
        0 <= b <= s.len(),
        trimmed_end(s) == s.take(b),
        blank(s.skip(b)),
        b > 0 ==> !white(s[b - 1]),
    decreases s.len(),
{
    if s.len() > 0 && white(s.last()) {
        let d = s.drop_last();
        let b = lemma_trimmed_end(d);
        assert(d.take(b) =~= s.take(b));
        assert forall|i: int| 0 <= i < s.skip(b).len() implies white(#[trigger] s.skip(b)[i]) by {
            if b + i < d.len() {
                assert(d.skip(b)[i] == s.skip(b)[i]);
            }
        }
        b
    } else {
        assert(s.take(s.len() as int) =~= s);
        s.len() as int
    }
}

/// What is trimmed off is whitespace at the two ends, and all of it.
pub proof fn law_trimming_takes_the_outer_whitespace(s: Seq<char>)
    ensures
        exists|a: int, b: int|
            0 <= a <= b <= s.len() && #[trigger] s.subrange(a, b) == trimmed(s) && blank(
                s.take(a),
            ) && blank(s.skip(b)),
        trimmed(s).len() > 0 ==> !white(trimmed(s)[0]) && !white(trimmed(s).last()),
        trimmed(s).len() == 0 <==> blank(s),
{
    let a = lemma_trimmed_start(s);
    let t = s.skip(a);
    let n = lemma_trimmed_end(t);
    let b = a + n;
    assert(s.subrange(a, b) =~= t.take(n));
    assert(s.skip(b) =~= t.skip(n));
    if n > 0 {
        assert(t[0] == s[a]);
        assert(trimmed(s)[0] == t[0]);
        assert(trimmed(s).last() == t[n - 1]);
        assert(!blank(s));
    } else if a < s.len() {
        assert(t.skip(0)[0] == s[a]);
    } else {
        assert(s.take(a) =~= s);
    }
}

/// Spaces, tabs and line ends are whitespace; no other printable ASCII is.
pub proof fn law_whitespace_is_what_it_seems(c: char)
    ensures
        white(' ') && white('\t') && white('\n') && white('\r'),
        '!' <= c <= '~' ==> !white(c),
{
}

/// The pieces of two texts with the separator between them are those of the one
/// and then those of the other.
pub proof fn law_pieces_add_up(a: Seq<char>, b: Seq<char>, sep: char)
    ensures
        pieces(a + seq![sep] + b, sep) == pieces(a, sep) + pieces(b, sep),
    decreases b.len(),
{
    let s = a + seq![sep] + b;
    lemma_pieces_nonempty(b, sep);
    if b.len() == 0 {
        assert(s.drop_last() =~= a);
        assert(s.last() == sep);
        assert(pieces(s, sep) =~= pieces(a, sep) + pieces(b, sep));
    } else {
        let d = b.drop_last();
        law_pieces_add_up(a, d, sep);
        lemma_pieces_nonempty(d, sep);
        assert(s.drop_last() =~= a + seq![sep] + d);
        assert(s.last() == b.last());
        assert(pieces(s, sep) =~= pieces(a, sep) + pieces(b, sep));
    }
}

/// A text without the separator is its only piece.
pub proof fn law_a_text_without_the_separator_is_one_piece(s: Seq<char>, sep: char)
    requires
        !s.contains(sep),
    ensures
        pieces(s, sep) == seq![s],
{
    let parts = seq![s];
    assert forall|i: int| 0 <= i < parts.len() implies !(#[trigger] parts[i]).contains(sep) by {}
    lemma_joined_pieces(parts, sep);
    assert(joined(parts, seq![sep]) == s);
}

/// Lines that were written one after another, each ended by a line feed, read
/// back.
pub proof fn law_lines_read_back(ls: Seq<Seq<char>>)
    requires
        ls.len() >= 1,
        forall|i: int|
            0 <= i < ls.len() ==> !(#[trigger] ls[i]).contains('\n') && !(ls[i].len() > 0
                && ls[i].last() == '\r'),
    ensures
        lines_of(joined(ls, seq!['\n']).push('\n')) == ls,
        ls.last().len() > 0 ==> lines_of(joined(ls, seq!['\n'])) == ls,
{
    let s = joined(ls, seq!['\n']);
    lemma_joined_pieces(ls, '\n');
    let p = pieces(s.push('\n'), '\n');
    assert(s.push('\n').drop_last() =~= s);
    assert(p == ls.push(Seq::<char>::empty()));
    assert(p.drop_last() =~= ls);
    assert(p.last().len() == 0);
    assert(ls.map_values(|l: Seq<char>| without_cr(l)) =~= ls);
    if ls.last().len() > 0 {
        let front = ls.drop_last();
        assert(front.map_values(|l: Seq<char>| without_cr(l)) =~= front) by {
            assert forall|i: int| 0 <= i < front.len() implies without_cr(#[trigger] front[i])
                == front[i] by {
                assert(front[i] == ls[i]);
            }
        }
        assert(front.push(ls.last()) =~= ls);
    }
}

/// Where the pattern stands nowhere, replacing it changes nothing.
pub proof fn law_replacing_what_is_not_there(s: Seq<char>, pat: Seq<char>, with: Seq<char>)
    requires
        !occurs(s, pat),
    ensures
        replaced(s, pat, with) == s,
    decreases s.len(),
{
    if s.len() > 0 && pat.len() > 0 {
        if begins(s, pat) {
            assert(occurs_at(s, pat, 0));
        }
        let t = s.skip(1);
        if occurs(t, pat) {
            let i = choose|i: int| occurs_at(t, pat, i);
            assert(t.subrange(i, i + pat.len()) =~= s.subrange(i + 1, i + 1 + pat.len()));
            assert(occurs_at(s, pat, i + 1));
        }
        law_replacing_what_is_not_there(t, pat, with);
        assert(seq![s[0]] + t =~= s);
    }
}

/// The first place of the pattern is replaced, what stands before it is kept, and
/// what follows is replaced in turn.
pub proof fn law_replacing_goes_on_after_each_place(
    a: Seq<char>,
    pat: Seq<char>,
    b: Seq<char>,
    with: Seq<char>,
)
    requires
        pat.len() > 0,
        forall|i: int| 0 <= i < a.len() ==> !occurs_at(a + pat + b, pat, i),
    ensures
        replaced(a + pat + b, pat, with) == a + with + replaced(b, pat, with),
    decreases a.len(),
{
    let s = a + pat + b;
    if a.len() == 0 {
        assert(s.subrange(0, pat.len() as int) =~= pat);
        assert(s.skip(pat.len() as int) =~= b);
        assert(with + replaced(b, pat, with) =~= a + with + replaced(b, pat, with));
    } else {
        let t = a.skip(1);
        assert(!occurs_at(s, pat, 0));
        assert(s.skip(1) =~= t + pat + b);
        assert forall|i: int| 0 <= i < t.len() implies !occurs_at(t + pat + b, pat, i) by {
            assert(!occurs_at(s, pat, i + 1));
            assert(s.subrange(i + 1, i + 1 + pat.len()) =~= (t + pat + b).subrange(
                i,
                i + pat.len(),
            ));
        }
        law_replacing_goes_on_after_each_place(t, pat, b, with);
        assert(s[0] == a[0]);
        assert(seq![a[0]] + (t + with + replaced(b, pat, with)) =~= a + with + replaced(
            b,
            pat,
            with,
        ));
    }
}

/// What is split at the first separator is put together again by it, and holds
/// no separator in front.
pub proof fn law_a_split_is_put_together_again(s: Seq<char>, c: char)
    ensures
        !split_first(s, c).0.contains(c),
        s.contains(c) ==> s == split_first(s, c).0 + seq![c] + split_first(s, c).1,
        !s.contains(c) ==> split_first(s, c).0 == s && split_first(s, c).1.len() == 0,
    decreases s.len(),
{
    if s.len() > 0 {
        let t = s.skip(1);
        law_a_split_is_put_together_again(t, c);
        lemma_first_at_bounds(t, c);
        if s[0] == c {
            assert(s =~= s.take(0) + seq![c] + s.skip(1));
        } else {
            if t.contains(c) {
                let k = choose|k: int| 0 <= k < t.len() && t[k] == c;
                assert(s[k + 1] == c);
            }
            if s.contains(c) {
                let k = choose|k: int| 0 <= k < s.len() && s[k] == c;
                assert(t[k - 1] == c);
            }
            match first_at(t, c) {
                Some(i) => {
                    assert(s.take(i + 1) =~= seq![s[0]] + t.take(i));
                    assert(s.skip(i + 2) =~= t.skip(i + 1));
                    assert(s =~= seq![s[0]] + t);
                    assert(t.contains(c)) by {
                        if !t.contains(c) {
                            assert(split_first(t, c).0.len() == i);
                        }
                    }
                    let front = s.take(i + 1);
                    if front.contains(c) {
                        let k = choose|k: int| 0 <= k < front.len() && front[k] == c;
                        assert(t.take(i)[k - 1] == c);
                    }
                    assert(s =~= s.take(i + 1) + seq![c] + s.skip(i + 2));
                },
                None => {
                    assert(!t.contains(c));
                },
            }
        }
    }
}

proof fn lemma_first_at_bounds(s: Seq<char>, c: char)
    ensures
        first_at(s, c) is Some ==> 0 <= first_at(s, c)->0 < s.len(),
    decreases s.len(),
{
    if s.len() > 0 {
        lemma_first_at_bounds(s.skip(1), c);
    }
}

/// A beginning is as long as was asked, or the whole text.
pub proof fn law_a_beginning_is_as_long_as_it_can_be(s: Seq<char>, n: int)
    requires
        n >= 0,
    ensures
        prefix(s, n).is_prefix_of(s),
        prefix(s, n).len() <= n,
        prefix(s, n).len() < n ==> prefix(s, n) == s,
{
}

/// An aligned text fills its field with spaces on one side, and is never cut.
pub proof fn law_an_aligned_text_fills_its_field(s: Seq<char>, width: int)
    ensures
        right_aligned(s, width).len() == if s.len() > width {
            s.len() as int
        } else {
            width
        },
        left_aligned(s, width).len() == right_aligned(s, width).len(),
        s.is_suffix_of(right_aligned(s, width)),
        s.is_prefix_of(left_aligned(s, width)),
        forall|i: int|
            0 <= i < width - s.len() ==> #[trigger] right_aligned(s, width)[i] == ' ',
        forall|i: int|
            s.len() <= i < width ==> #[trigger] left_aligned(s, width)[i] == ' ',
{
    let r = right_aligned(s, width);
    assert(r.subrange(r.len() - s.len(), r.len() as int) =~= s);
    assert(left_aligned(s, width).subrange(0, s.len() as int) =~= s);
}

/// A beginning by bytes fits, and one character more would not.
pub proof fn law_a_byte_beginning_is_the_longest(s: Seq<char>, n: int)
    requires
        n >= 0,
    ensures
        byte_prefix(s, n).is_prefix_of(s),
        text_bytes(byte_prefix(s, n)) <= n,
        byte_prefix(s, n).len() < s.len() ==> text_bytes(
            s.take(byte_prefix(s, n).len() as int + 1),
        ) > n,
    decreases s.len(),
{
    if text_bytes(s) <= n || s.len() == 0 {
        assert(byte_prefix(s, n) =~= s);
    } else {
        let d = s.drop_last();
        law_a_byte_beginning_is_the_longest(d, n);
        lemma_chars_within(d, n);
        assert(byte_prefix(s, n) =~= byte_prefix(d, n));
        let k = byte_prefix(d, n).len() as int;
        if k < d.len() {
            assert(d.take(k + 1) =~= s.take(k + 1));
        } else {
            assert(s.take(k + 1) =~= s);
        }
    }
}

proof fn lemma_chars_within(s: Seq<char>, n: int)
    ensures
        0 <= chars_within(s, n) <= s.len(),
    decreases s.len(),
{
    if !(text_bytes(s) <= n || s.len() == 0) {
        lemma_chars_within(s.drop_last(), n);
    }
}

/// What stands between two texts stands in them put together.
pub proof fn lemma_occurs_between(a: Seq<char>, m: Seq<char>, b: Seq<char>)
    ensures
        occurs(a + m + b, m),
{
    let s = a + m + b;
    assert(s.subrange(a.len() as int, a.len() as int + m.len()) =~= m);
    assert(occurs_at(s, m, a.len() as int));
}

/// The texts of some strings are what each of them holds, in order; so is that of an
/// optional one.
pub proof fn law_texts_are_what_strings_hold(v: Seq<String>, o: Option<String>, i: int)
    ensures
        texts(v).len() == v.len(),
        0 <= i < v.len() ==> texts(v)[i] == v[i]@,
        o is Some ==> opt_text(o) == Some(o->0@),
        o is None ==> opt_text(o) is None,
{
}

/// The text of an optional borrowed string is what it holds.
pub proof fn law_a_borrowed_text_is_what_it_holds(o: Option<&str>)
    ensures
        o is Some ==> opt_str(o) == Some(o->0@),
        o is None ==> opt_str(o) is None,
{
}

/// A number is read where it is not above the bound, with a plus sign or without.
pub proof fn law_a_number_is_read_up_to_its_bound(n: nat, max: nat)
    ensures
        n <= max ==> number_upto(dec(n), max) == Some(n) && number_upto(seq!['+'] + dec(n), max)
            == Some(n),
        n > max ==> number_upto(dec(n), max) is None,
        n <= i64::MAX ==> signed_number(dec(n)) == Some(n as int),
        n <= i64::MAX + 1 ==> signed_number(seq!['-'] + dec(n)) == Some(-(n as int)),
        n > i64::MAX + 1 ==> signed_number(dec(n)) is None && signed_number(seq!['-'] + dec(n))
            is None,
        number_upto(Seq::<char>::empty(), max) is None,
{
    law_a_number_reads_back(n);
    let d = dec(n);
    assert('0' <= d[0] <= '9');
    assert(without_plus(d) == d);
    let p = seq!['+'] + d;
    assert(p.skip(1) =~= d);
    let m = seq!['-'] + d;
    assert(m.skip(1) =~= d);
    assert(m[0] == '-');
}

/// A text that is not all digits writes no number.
pub proof fn law_only_digits_write_a_number(s: Seq<char>, i: int)
    requires
        0 <= i < s.len(),
        !('0' <= s[i] && s[i] <= '9'),
    ensures
        digits_value(s) is None,
    decreases s.len(),
{
    if i < s.len() - 1 {
        assert(s.drop_last()[i] == s[i]);
        law_only_digits_write_a_number(s.drop_last(), i);
    }
}

/// A carriage return before a line feed is no part of the line.
pub proof fn law_a_carriage_return_ends_the_line(l: Seq<char>)
    requires
        !l.contains('\n'),
    ensures
        lines_of(l + seq!['\r', '\n']) == seq![l],
{
    let s = l + seq!['\r', '\n'];
    let line = l.push('\r');
    assert(!line.contains('\n')) by {
        if line.contains('\n') {
            let k = choose|k: int| 0 <= k < line.len() && line[k] == '\n';
            assert(l[k] == '\n');
        }
    }
    law_a_text_without_the_separator_is_one_piece(line, '\n');
    assert(s.drop_last() =~= line);
    assert(s.last() == '\n');
    assert(pieces(s, '\n') =~= seq![line, Seq::<char>::empty()]);
    assert(line.drop_last() =~= l);
    assert(lines_of(s) =~= seq![l]);
}

/// A text can be cut after some bytes if and only if it is no longer, or one of its
/// beginnings takes just as many.
pub proof fn law_a_text_is_cut_between_characters(s: Seq<char>, n: int, k: int)
    requires
        0 <= k <= s.len(),
        text_bytes(s.take(k)) == n,
    ensures
        byte_boundary(s, n),
        byte_prefix(s, n) == s.take(k),
{
    if k < s.len() {
        assert(s.take(k + 1).drop_last() =~= s.take(k));
    }
    lemma_within(s, n, k);
}

/// A character takes one byte if it is ASCII, and never more than four.
pub proof fn law_a_character_takes_one_to_four_bytes(c: char)
    ensures
        1 <= char_bytes(c) <= 4,
        char_bytes(c) == 1 <==> c as u32 <= 0x7f,
        char_bytes(c) <= 2 <==> c as u32 <= 0x7ff,
        char_bytes(c) <= 3 <==> c as u32 <= 0xffff,
{
}

/// Joining two lists is joining the two texts, where neither is empty.
pub proof fn law_joined_lists_are_joined_texts(
    a: Seq<Seq<char>>,
    b: Seq<Seq<char>>,
    sep: Seq<char>,
)
    requires
        a.len() > 0,
        b.len() > 0,
    ensures
        joined(a + b, sep) == joined(a, sep) + sep + joined(b, sep),
    decreases b.len(),
{
    let ab = a + b;
    if b.len() == 1 {
        assert(ab.drop_last() =~= a);
        assert(ab.last() == b[0]);
    } else {
        let d = b.drop_last();
        law_joined_lists_are_joined_texts(a, d, sep);
        assert(ab.drop_last() =~= a + d);
        assert(ab.last() == b.last());
        assert(joined(ab, sep) =~= joined(a, sep) + sep + joined(b, sep));
    }
}

/// An integer that was written reads back; a minus sign stands before the negative
/// ones alone.
pub proof fn law_an_integer_reads_back(n: int)
    requires
        i64::MIN <= n <= i64::MAX,
    ensures
        signed_number(dec_int(n)) == Some(n),
        dec_int(n).len() > 0,
        dec_int(n)[0] == '-' <==> n < 0,
        n >= 0 ==> dec_int(n) == dec(n as nat),
{
    if n < 0 {
        law_a_number_is_read_up_to_its_bound((-n) as nat, 0);
    } else {
        law_a_number_is_read_up_to_its_bound(n as nat, 0);
        law_a_number_reads_back(n as nat);
        assert('0' <= dec(n as nat)[0] <= '9');
    }
}

/// A pattern stands at a place if and only if each of its characters stands there;
/// a beginning stands at the front, an ending at the back.
pub proof fn law_a_pattern_stands_where_its_characters_do(s: Seq<char>, pat: Seq<char>, i: int)
    ensures
        occurs_at(s, pat, i) <==> 0 <= i && i + pat.len() <= s.len() && forall|k: int|
            0 <= k < pat.len() ==> s[i + k] == #[trigger] pat[k],
        begins(s, pat) <==> pat.is_prefix_of(s),
        ends(s, pat) <==> pat.is_suffix_of(s),
        begins(s, pat) ==> occurs(s, pat),
        ends(s, pat) ==> occurs(s, pat),
{
    if 0 <= i && i + pat.len() <= s.len() {
        let at = s.subrange(i, i + pat.len());
        if at == pat {
            assert forall|k: int| 0 <= k < pat.len() implies s[i + k] == #[trigger] pat[k] by {
                assert(at[k] == pat[k]);
            }
        }
        if forall|k: int| 0 <= k < pat.len() ==> s[i + k] == #[trigger] pat[k] {
            assert(at =~= pat);
        }
    }
    if begins(s, pat) {
        assert(occurs_at(s, pat, 0));
    }
    if ends(s, pat) {
        assert(occurs_at(s, pat, s.len() - pat.len()));
    }
}

/// The bytes of a text are those of its parts, down to the single character.
pub proof fn law_bytes_add_up(a: Seq<char>, b: Seq<char>, c: char)
    ensures
        text_bytes(a + b) == text_bytes(a) + text_bytes(b),
        text_bytes(seq![c]) == char_bytes(c),
        text_bytes(seq![c]) == 1 <==> c as u32 <= 0x7f,
    decreases b.len(),
{
    let one = seq![c];
    assert(one.drop_last() =~= Seq::<char>::empty());
    assert(one.last() == c);
    assert(text_bytes(Seq::<char>::empty()) == 0);
    if b.len() > 0 {
        law_bytes_add_up(a, b.drop_last(), c);
        assert((a + b).drop_last() =~= a + b.drop_last());
        assert((a + b).last() == b.last());
    } else {
        assert(a + b =~= a);
    }
}

} // verus!
