//! What `status` says of a project, its index, its memory and its server.

use crate::config::SyncMode;
use crate::search::{
    entry_ending, replaced_schema, replaced_schema_text, whole_percent, percent, EmbedderState,
};
use crate::text::{
    dec, dec_i64, dec_int, dec_u64, dec_usize, left_aligned, occurs, occurs_at, opt_str, opt_text,
    pad_right, prefix, repeat_char, repeated, same, take_chars, texts,
};
use crate::time::{age_text, format_age, utc_time, ISO_FORMAT};
use crate::ui::{line_models, push_plain, push_styled, Line};
use vstd::prelude::*;
use vstd::string::*;

verus! {

// ---- single lines ----------------------------------------------------------

/// The name of a memory backend, for a reader.
pub open spec fn backend_label(kind: Seq<char>) -> Seq<char> {
    if kind == "sqlite"@ {
        "sqlite (local)"@
    } else if kind == "git-notes"@ {
        "git-notes (local)"@
    } else if kind == "remote"@ {
        "remote (server)"@
    } else {
        kind
    }
}

/// The name of a memory backend, for a reader; one that is not known stays as
/// it is.
pub fn memory_backend_label(kind: &str) -> (r: &str)
    ensures
        r@ == backend_label(kind@),
{
    if same(kind, "sqlite") {
        "sqlite (local)"
    } else if same(kind, "git-notes") {
        "git-notes (local)"
    } else if same(kind, "remote") {
        "remote (server)"
    } else {
        kind
    }
}

/// The line of an embedder's state; a server that says nothing of it gets none.
/// The logs of this machine are pointed at only for a server of this machine.
pub open spec fn embedder_text(state: EmbedderState, remote_url: Option<Seq<char>>) -> Option<
    Seq<char>,
> {
    match state {
        EmbedderState::Loading => Some(
            "  embedder        \x1b[33mloading\x1b[0m  [model warming up — retry shortly]"@,
        ),
        EmbedderState::Unavailable => match remote_url {
            Some(url) => Some(
                "  embedder        \x1b[31munavailable\x1b[0m  [model failed to load on team server "@
                    + url + "; check that server's own logs]"@,
            ),
            None => Some(
                "  embedder        \x1b[31munavailable\x1b[0m  [model failed to load; see `inkentry server logs`]"@,
            ),
        },
        EmbedderState::Ready => Some("  embedder        ready"@),
        EmbedderState::Disabled => Some(
            "  embedder        disabled  [server built without a native embedder]"@,
        ),
        EmbedderState::Unknown => None,
    }
}

pub fn embedder_status_line(state: &EmbedderState, remote_url: Option<&str>) -> (r: Option<String>)
    ensures
        opt_text(r) == embedder_text(*state, opt_str(remote_url)),
{
    match state {
        EmbedderState::Loading => Some(
            "  embedder        \x1b[33mloading\x1b[0m  [model warming up — retry shortly]".to_owned(),
        ),
        EmbedderState::Unavailable => match remote_url {
            Some(url) => Some(
                "  embedder        \x1b[31munavailable\x1b[0m  [model failed to load on team server ".to_owned().concat(
                    url,
                ).concat("; check that server's own logs]"),
            ),
            None => Some(
                "  embedder        \x1b[31munavailable\x1b[0m  [model failed to load; see `inkentry server logs`]".to_owned(),
            ),
        },
        EmbedderState::Ready => Some("  embedder        ready".to_owned()),
        EmbedderState::Disabled => Some(
            "  embedder        disabled  [server built without a native embedder]".to_owned(),
        ),
        EmbedderState::Unknown => None,
    }
}

/// `done` of `total` in whole percent; nothing without a total.
pub fn labelled_pct(done: i64, total: i64) -> (r: Option<u64>)
    ensures
        r == if total > 0 {
            Some(percent(done as int, total as int) as u64)
        } else {
            None
        },
{
    if total > 0 {
        Some(whole_percent(done, total))
    } else {
        None
    }
}

/// A number below a hundred in two digits.
pub open spec fn two_digits(n: nat) -> Seq<char> {
    if n < 10 {
        seq!['0'] + dec(n)
    } else {
        dec(n)
    }
}

fn dec_two(n: u64) -> (r: String)
    ensures
        r@ == two_digits(n as nat),
{
    if n < 10 {
        let mut s = String::new();
        s.push('0');
        let d = dec_u64(n);
        assert(s@ =~= seq!['0']);
        s.concat(d.as_str())
    } else {
        dec_u64(n)
    }
}

/// How long something takes yet, in words: seconds, minutes rounded up, or
/// hours and minutes.
pub open spec fn eta_text(secs: nat) -> Seq<char> {
    if secs < 60 {
        "~"@ + dec(secs) + "s left"@
    } else if secs < 3600 {
        "~"@ + dec((secs + 59) / 60) + " min left"@
    } else {
        "~"@ + dec(secs / 3600) + "h"@ + two_digits((secs % 3600) / 60) + "m left"@
    }
}

pub fn humanize_eta(secs: u64) -> (r: String)
    ensures
        r@ == eta_text(secs as nat),
{
    if secs < 60 {
        "~".to_owned().concat(dec_u64(secs).as_str()).concat("s left")
    } else if secs < 3600 {
        "~".to_owned().concat(dec_u64((secs + 59) / 60).as_str()).concat(" min left")
    } else {
        "~".to_owned().concat(dec_u64(secs / 3600).as_str()).concat("h").concat(
            dec_two((secs % 3600) / 60).as_str(),
        ).concat("m left")
    }
}

/// The line of memory entries that semantic search cannot find yet.
pub open spec fn memory_pending_text(pending: nat) -> Seq<char> {
    "\x1b[33m[Memory: "@ + dec(pending) + " entr"@ + entry_ending(pending as int)
        + " not in semantic search; run 'inkentry memory reindex']\x1b[0m"@
}

/// The line of memory entries that semantic search cannot find yet, where there
/// are any in a local store.
pub fn memory_embedding_line(store_exists: bool, missing: Option<usize>) -> (r: Option<String>)
    ensures
        opt_text(r) == if store_exists && missing is Some && missing->0 > 0 {
            Some(memory_pending_text(missing->0 as nat))
        } else {
            None
        },
{
    if !store_exists {
        return None;
    }
    match missing {
        Some(pending) => {
            if pending == 0 {
                return None;
            }
            let ending = if pending == 1 {
                "y"
            } else {
                "ies"
            };
            Some(
                "\x1b[33m[Memory: ".to_owned().concat(dec_usize(pending).as_str()).concat(
                    " entr",
                ).concat(ending).concat(
                    " not in semantic search; run 'inkentry memory reindex']\x1b[0m",
                ),
            )
        },
        None => None,
    }
}

/// The line of an index that a rebuild emptied; without it the zeros would look
/// like those of a project that was never indexed.
pub open spec fn rebuilt_text(found: i32) -> Seq<char> {
    "\x1b[33m[Index: emptied by a rebuild from "@ + replaced_schema_text(found)
        + ", not yet reindexed; run 'inkentry index .']\x1b[0m"@
}

pub fn rebuilt_line(rebuilt_from: Option<i32>) -> (r: Option<String>)
    ensures
        opt_text(r) == match rebuilt_from {
            Some(found) => Some(rebuilt_text(found)),
            None => None,
        },
{
    match rebuilt_from {
        Some(found) => Some(
            "\x1b[33m[Index: emptied by a rebuild from ".to_owned().concat(
                replaced_schema(found).as_str(),
            ).concat(", not yet reindexed; run 'inkentry index .']\x1b[0m"),
        ),
        None => None,
    }
}

/// How much of the work is done, in words, by the tokens that are left. The
/// time it takes yet is named only while a worker runs.
pub open spec fn progress_text(
    worker_alive: bool,
    total_tokens: int,
    pending_tokens: int,
    eta: Option<u64>,
) -> Seq<char> {
    let done = total_tokens - pending_tokens;
    let clamped = if done < 0 {
        0
    } else if done > total_tokens {
        total_tokens
    } else {
        done
    };
    (if total_tokens > 0 {
        dec(percent(clamped, total_tokens)) + "% of work done"@
    } else {
        "work remaining unknown (run `inkentry index --recount` to backfill token counts)"@
    }) + (if worker_alive && eta is Some {
        ", "@ + eta_text(eta->0 as nat)
    } else {
        Seq::<char>::empty()
    })
}

/// The line of an index that is embedded in part: what is searchable, by
/// chunks, and what is done, by tokens. The two differ, so both are labelled.
pub open spec fn embedding_text(
    worker_alive: bool,
    embedder_unavailable: bool,
    embeddable: int,
    embedded: int,
    total_tokens: int,
    pending_tokens: int,
    eta: Option<u64>,
) -> Seq<char> {
    let searchable = "searchable "@ + dec_int(embedded) + "/"@ + dec_int(embeddable)
        + " chunks ("@ + dec(percent(embedded, embeddable)) + "%)"@;
    let progress = progress_text(worker_alive, total_tokens, pending_tokens, eta);
    (if worker_alive {
        "  \x1b[33mEmbedding in progress\x1b[0m   "@
    } else {
        "  \x1b[33mEmbedding incomplete\x1b[0m   "@
    }) + searchable + "  \u{b7}  "@ + progress + (if worker_alive {
        ""@
    } else if embedder_unavailable {
        "; the embedder is unavailable, see `inkentry server logs`"@
    } else {
        "; resume with `inkentry index .`"@
    })
}

pub fn embedding_state_line(
    worker_alive: bool,
    embedder_unavailable: bool,
    embeddable_count: i64,
    embedding_count: i64,
    total_tokens: i64,
    pending_tokens: i64,
    eta: Option<u64>,
) -> (r: Option<String>)
    requires
        0 < embeddable_count && embedding_count < embeddable_count ==> total_tokens >= 0
            && total_tokens - pending_tokens <= i64::MAX,
    ensures
        opt_text(r) == if embeddable_count <= 0 || embedding_count >= embeddable_count {
            None
        } else {
            Some(
                embedding_text(
                    worker_alive,
                    embedder_unavailable,
                    embeddable_count as int,
                    embedding_count as int,
                    total_tokens as int,
                    pending_tokens as int,
                    eta,
                ),
            )
        },
{
    if embeddable_count <= 0 || embedding_count >= embeddable_count {
        return None;
    }
    let coverage: u64 = whole_percent(embedding_count, embeddable_count);
    let searchable = "searchable ".to_owned().concat(dec_i64(embedding_count).as_str()).concat(
        "/",
    ).concat(dec_i64(embeddable_count).as_str()).concat(" chunks (").concat(
        dec_u64(coverage).as_str(),
    ).concat("%)");
    let done: i64 = if pending_tokens > total_tokens {
        0
    } else if pending_tokens < 0 {
        total_tokens
    } else {
        total_tokens - pending_tokens
    };
    let work = match labelled_pct(done, total_tokens) {
        Some(p) => dec_u64(p).concat("% of work done"),
        None => "work remaining unknown (run `inkentry index --recount` to backfill token counts)".to_owned(),
    };
    let left = if worker_alive {
        match eta {
            Some(secs) => ", ".to_owned().concat(humanize_eta(secs).as_str()),
            None => String::new(),
        }
    } else {
        String::new()
    };
    let progress = work.concat(left.as_str());
    let head = if worker_alive {
        "  \x1b[33mEmbedding in progress\x1b[0m   "
    } else {
        "  \x1b[33mEmbedding incomplete\x1b[0m   "
    };
    let tail = if worker_alive {
        ""
    } else if embedder_unavailable {
        "; the embedder is unavailable, see `inkentry server logs`"
    } else {
        "; resume with `inkentry index .`"
    };
    Some(
        head.to_owned().concat(searchable.as_str()).concat("  \u{b7}  ").concat(
            progress.as_str(),
        ).concat(tail),
    )
}

/// Whether no character `x` of `s` is directly followed by `y`.
spec fn lacks_pair(s: Seq<char>, x: char, y: char) -> bool {
    forall|i: int| 0 <= i < s.len() - 1 ==> !(#[trigger] s[i] == x && s[i + 1] == y)
}

/// Whether `s` has no character `c`.
spec fn lacks(s: Seq<char>, c: char) -> bool {
    forall|i: int| 0 <= i < s.len() ==> #[trigger] s[i] != c
}

proof fn lemma_lacks_joined(a: Seq<char>, b: Seq<char>, c: char)
    ensures
        lacks(a + b, c) <==> lacks(a, c) && lacks(b, c),
{
    if lacks(a + b, c) {
        assert forall|i: int| 0 <= i < a.len() implies #[trigger] a[i] != c by {
            assert((a + b)[i] == a[i]);
        }
        assert forall|i: int| 0 <= i < b.len() implies #[trigger] b[i] != c by {
            assert((a + b)[a.len() + i] == b[i]);
        }
    }
}

proof fn lemma_lacks_pair_joined(a: Seq<char>, b: Seq<char>, x: char, y: char)
    requires
        lacks_pair(a, x, y),
        lacks_pair(b, x, y),
        b.len() > 0 ==> b[0] != y,
    ensures
        lacks_pair(a + b, x, y),
{
    let s = a + b;
    assert forall|i: int| 0 <= i < s.len() - 1 implies !(#[trigger] s[i] == x && s[i + 1] == y) by {
        if i + 1 < a.len() {
            assert(s[i] == a[i] && s[i + 1] == a[i + 1]);
        } else if i + 1 == a.len() {
            assert(s[i + 1] == b[0]);
        } else {
            assert(s[i] == b[i - a.len()] && s[i + 1] == b[i - a.len() + 1]);
        }
    }
}

proof fn lemma_absent_char(s: Seq<char>, pat: Seq<char>, c: char, k: int)
    requires
        lacks(s, c),
        0 <= k < pat.len(),
        pat[k] == c,
    ensures
        !occurs(s, pat),
{
    if occurs(s, pat) {
        let i = choose|i: int| occurs_at(s, pat, i);
        assert(s.subrange(i, i + pat.len())[k] == pat[k]);
        assert(s[i + k] == c);
    }
}

proof fn lemma_absent_pair(s: Seq<char>, pat: Seq<char>, x: char, y: char, k: int)
    requires
        lacks_pair(s, x, y),
        0 <= k < pat.len() - 1,
        pat[k] == x,
        pat[k + 1] == y,
    ensures
        !occurs(s, pat),
{
    if occurs(s, pat) {
        let i = choose|i: int| occurs_at(s, pat, i);
        assert(s.subrange(i, i + pat.len())[k] == pat[k]);
        assert(s.subrange(i, i + pat.len())[k + 1] == pat[k + 1]);
        assert(s[i + k] == x && s[i + k + 1] == y);
    }
}

proof fn lemma_occurs_within(a: Seq<char>, pat: Seq<char>, b: Seq<char>)
    ensures
        occurs(a + pat + b, pat),
{
    let s = a + pat + b;
    assert(s.subrange(a.len() as int, (a.len() + pat.len()) as int) =~= pat);
    assert(occurs_at(s, pat, a.len() as int));
}

proof fn lemma_occurs_inside(a: Seq<char>, mid: Seq<char>, b: Seq<char>, pat: Seq<char>)
    requires
        occurs(mid, pat),
    ensures
        occurs(a + mid + b, pat),
{
    let i = choose|i: int| occurs_at(mid, pat, i);
    let s = a + mid + b;
    assert(s.subrange(a.len() + i, a.len() + i + pat.len()) =~= mid.subrange(i, i + pat.len()));
    assert(occurs_at(s, pat, a.len() + i));
}

/// Whether `s` is digits, perhaps with a sign.
spec fn is_number(s: Seq<char>) -> bool {
    forall|i: int| 0 <= i < s.len() ==> '0' <= #[trigger] s[i] <= '9' || s[i] == '-'
}

proof fn lemma_dec_is_number(n: nat)
    ensures
        is_number(dec(n)),
    decreases n,
{
    if n >= 10 {
        lemma_dec_is_number(n / 10);
        assert(dec(n).drop_last() =~= dec(n / 10));
        assert forall|i: int| 0 <= i < dec(n).len() implies '0' <= #[trigger] dec(n)[i] <= '9'
            || dec(n)[i] == '-' by {
            if i < dec(n / 10).len() {
                assert(dec(n)[i] == dec(n / 10)[i]);
            }
        }
    }
}

/// A piece of the line: it has none of the characters and pairs by which the
/// phrases are told, and no pair can come about before it.
spec fn plain_piece(s: Seq<char>) -> bool {
    &&& lacks(s, 'E')
    &&& lacks(s, 'v')
    &&& lacks(s, '~')
    &&& lacks_pair(s, 'u', 'm')
    &&& s.len() > 0 ==> s[0] != 'm'
}

proof fn lemma_plain_joined(a: Seq<char>, b: Seq<char>)
    requires
        plain_piece(a),
        plain_piece(b),
    ensures
        plain_piece(a + b),
{
    lemma_lacks_joined(a, b, 'E');
    lemma_lacks_joined(a, b, 'v');
    lemma_lacks_joined(a, b, '~');
    lemma_lacks_pair_joined(a, b, 'u', 'm');
    if a.len() == 0 {
        assert(a + b =~= b);
    }
}

proof fn lemma_number_is_plain(s: Seq<char>)
    requires
        is_number(s),
    ensures
        plain_piece(s),
{
}

proof fn lemma_int_is_plain(n: int)
    ensures
        plain_piece(dec_int(n)),
{
    lemma_dec_is_number(if n < 0 {
        (-n) as nat
    } else {
        n as nat
    });
    assert(is_number(dec_int(n)));
    lemma_number_is_plain(dec_int(n));
}

/// What is said of the time that is left has a tilde in front, and nothing else
/// by which a phrase is told.
proof fn lemma_eta_pieces(secs: nat)
    ensures
        eta_text(secs).len() > 0,
        eta_text(secs)[0] == '~',
        lacks(eta_text(secs), 'E'),
        lacks(eta_text(secs), 'v'),
        lacks_pair(eta_text(secs), 'u', 'm'),
{
    reveal_strlit("~");
    reveal_strlit("s left");
    reveal_strlit(" min left");
    reveal_strlit("h");
    reveal_strlit("m left");
    let e = eta_text(secs);
    lemma_dec_is_number(secs);
    lemma_dec_is_number((secs + 59) / 60);
    lemma_dec_is_number(secs / 3600);
    lemma_dec_is_number((secs % 3600) / 60);
    assert(lacks(e, 'u'));
}

/// The searchable part of the line, up to the dot.
spec fn searchable_text(embeddable: int, embedded: int) -> Seq<char> {
    "searchable "@ + dec_int(embedded) + "/"@ + dec_int(embeddable) + " chunks ("@ + dec(
        percent(embedded, embeddable),
    ) + "%)"@
}

proof fn lemma_searchable_is_plain(embeddable: int, embedded: int)
    ensures
        plain_piece(searchable_text(embeddable, embedded)),
{
    reveal_strlit("searchable ");
    reveal_strlit("/");
    reveal_strlit(" chunks (");
    reveal_strlit("%)");
    let p = dec(percent(embedded, embeddable));
    lemma_int_is_plain(embedded);
    lemma_int_is_plain(embeddable);
    lemma_dec_is_number(percent(embedded, embeddable));
    lemma_number_is_plain(p);
    let a = "searchable "@ + dec_int(embedded);
    lemma_plain_joined("searchable "@, dec_int(embedded));
    lemma_plain_joined(a, "/"@);
    lemma_plain_joined(a + "/"@, dec_int(embeddable));
    lemma_plain_joined(a + "/"@ + dec_int(embeddable), " chunks ("@);
    lemma_plain_joined(a + "/"@ + dec_int(embeddable) + " chunks ("@, p);
    lemma_plain_joined(a + "/"@ + dec_int(embeddable) + " chunks ("@ + p, "%)"@);
}

/// How much of the work is done, without the time that is left.
spec fn work_text(total_tokens: int, pending_tokens: int) -> Seq<char> {
    progress_text(false, total_tokens, pending_tokens, None)
}

proof fn lemma_work_is_plain(total_tokens: int, pending_tokens: int)
    ensures
        plain_piece(work_text(total_tokens, pending_tokens)),
{
    reveal_strlit("% of work done");
    reveal_strlit("work remaining unknown (run `inkentry index --recount` to backfill token counts)");
    let w = work_text(total_tokens, pending_tokens);
    let done = total_tokens - pending_tokens;
    let clamped = if done < 0 {
        0
    } else if done > total_tokens {
        total_tokens
    } else {
        done
    };
    if total_tokens > 0 {
        let p = dec(percent(clamped, total_tokens));
        lemma_dec_is_number(percent(clamped, total_tokens));
        lemma_number_is_plain(p);
        lemma_plain_joined(p, "% of work done"@);
        assert(w =~= p + "% of work done"@);
    } else {
        assert(w
            =~= "work remaining unknown (run `inkentry index --recount` to backfill token counts)"@);
    }
}

/// The tail of the line.
spec fn tail_text(worker_alive: bool, embedder_unavailable: bool) -> Seq<char> {
    if worker_alive {
        ""@
    } else if embedder_unavailable {
        "; the embedder is unavailable, see `inkentry server logs`"@
    } else {
        "; resume with `inkentry index .`"@
    }
}

/// The time that is left, as the line has it.
spec fn left_text(worker_alive: bool, eta: Option<u64>) -> Seq<char> {
    if worker_alive && eta is Some {
        ", "@ + eta_text(eta->0 as nat)
    } else {
        Seq::<char>::empty()
    }
}

/// The head of the line.
spec fn head_text(worker_alive: bool) -> Seq<char> {
    if worker_alive {
        "  \x1b[33mEmbedding in progress\x1b[0m   "@
    } else {
        "  \x1b[33mEmbedding incomplete\x1b[0m   "@
    }
}

/// The middle of the line: what is searchable, and how much of the work is done.
spec fn middle_text(embeddable: int, embedded: int, total_tokens: int, pending_tokens: int) -> Seq<
    char,
> {
    searchable_text(embeddable, embedded) + "  \u{b7}  "@ + work_text(total_tokens, pending_tokens)
}

proof fn lemma_embedding_parts(
    worker_alive: bool,
    embedder_unavailable: bool,
    embeddable: int,
    embedded: int,
    total_tokens: int,
    pending_tokens: int,
    eta: Option<u64>,
)
    ensures
        embedding_text(
            worker_alive,
            embedder_unavailable,
            embeddable,
            embedded,
            total_tokens,
            pending_tokens,
            eta,
        ) == head_text(worker_alive) + middle_text(
            embeddable,
            embedded,
            total_tokens,
            pending_tokens,
        ) + left_text(worker_alive, eta) + tail_text(worker_alive, embedder_unavailable),
        plain_piece(middle_text(embeddable, embedded, total_tokens, pending_tokens)),
{
    reveal_strlit("  \u{b7}  ");
    let s = searchable_text(embeddable, embedded);
    let w = work_text(total_tokens, pending_tokens);
    lemma_searchable_is_plain(embeddable, embedded);
    lemma_work_is_plain(total_tokens, pending_tokens);
    lemma_plain_joined(s, "  \u{b7}  "@);
    lemma_plain_joined(s + "  \u{b7}  "@, w);
    let p = progress_text(worker_alive, total_tokens, pending_tokens, eta);
    assert(p =~= w + left_text(worker_alive, eta));
    assert(embedding_text(
        worker_alive,
        embedder_unavailable,
        embeddable,
        embedded,
        total_tokens,
        pending_tokens,
        eta,
    ) =~= head_text(worker_alive) + middle_text(embeddable, embedded, total_tokens, pending_tokens)
        + left_text(worker_alive, eta) + tail_text(worker_alive, embedder_unavailable));
}

/// The line says that embedding is in progress just where a worker runs. It says
/// how to resume just where none runs and the embedder is there, and points at
/// the server's log just where none runs and the embedder is not. The time that
/// is left shows just where a worker runs and one is known.
pub proof fn law_the_line_says_what_can_be_done(
    worker_alive: bool,
    embedder_unavailable: bool,
    embeddable: int,
    embedded: int,
    total_tokens: int,
    pending_tokens: int,
    eta: Option<u64>,
)
    ensures
        ({
            let l = embedding_text(
                worker_alive,
                embedder_unavailable,
                embeddable,
                embedded,
                total_tokens,
                pending_tokens,
                eta,
            );
            &&& occurs(l, "Embedding in progress"@) <==> worker_alive
            &&& occurs(l, "resume with"@) <==> !worker_alive && !embedder_unavailable
            &&& occurs(l, "inkentry server logs"@) <==> !worker_alive && embedder_unavailable
            &&& worker_alive && eta is Some ==> occurs(l, eta_text(eta->0 as nat))
            &&& forall|secs: nat| #[trigger]
                occurs(l, eta_text(secs)) ==> worker_alive && eta is Some
        }),
{
    let head = head_text(worker_alive);
    let mid = middle_text(embeddable, embedded, total_tokens, pending_tokens);
    let left = left_text(worker_alive, eta);
    let tail = tail_text(worker_alive, embedder_unavailable);
    let l = embedding_text(
        worker_alive,
        embedder_unavailable,
        embeddable,
        embedded,
        total_tokens,
        pending_tokens,
        eta,
    );
    lemma_embedding_parts(
        worker_alive,
        embedder_unavailable,
        embeddable,
        embedded,
        total_tokens,
        pending_tokens,
        eta,
    );
    lemma_heads();
    lemma_tails();
    lemma_left(worker_alive, eta);
    lemma_lacks_joined(head, mid, 'v');
    lemma_lacks_joined(head + mid, left, 'v');
    lemma_lacks_joined(head + mid + left, tail, 'v');
    lemma_lacks_joined(head, mid, '~');
    lemma_lacks_joined(head + mid, left, '~');
    lemma_lacks_joined(head + mid + left, tail, '~');
    lemma_lacks_pair_joined(head, mid, 'u', 'm');
    lemma_lacks_pair_joined(head + mid, left, 'u', 'm');
    if worker_alive || embedder_unavailable {
        lemma_lacks_pair_joined(head + mid + left, tail, 'u', 'm');
        lemma_resume_pair();
        lemma_absent_pair(l, "resume with"@, 'u', 'm', 3);
    } else {
        lemma_occurs_inside(head + mid + left, tail, Seq::<char>::empty(), "resume with"@);
        assert(l + Seq::<char>::empty() =~= l);
    }
    if worker_alive || !embedder_unavailable {
        lemma_logs_char();
        lemma_absent_char(l, "inkentry server logs"@, 'v', 12);
    } else {
        lemma_occurs_inside(head + mid + left, tail, Seq::<char>::empty(), "inkentry server logs"@);
        assert(l + Seq::<char>::empty() =~= l);
    }
    if worker_alive {
        let rest = mid + left + tail;
        lemma_occurs_inside(Seq::<char>::empty(), head, rest, "Embedding in progress"@);
        assert(Seq::<char>::empty() + head + rest =~= l);
        if eta is Some {
            let e = eta_text(eta->0 as nat);
            lemma_occurs_within(head + mid + ", "@, e, tail);
            assert(head + mid + ", "@ + e + tail =~= l);
        }
    } else {
        lemma_not_in_progress(head, mid, left, tail);
    }
    assert forall|secs: nat| #[trigger] occurs(l, eta_text(secs)) implies worker_alive && eta
        is Some by {
        lemma_eta_pieces(secs);
        if !(worker_alive && eta is Some) {
            lemma_absent_char(l, eta_text(secs), '~', 0);
        }
    }
}

proof fn lemma_resume_pair()
    ensures
        "resume with"@.len() == 11,
        "resume with"@[3] == 'u',
        "resume with"@[4] == 'm',
{
    reveal_strlit("resume with");
}

proof fn lemma_logs_char()
    ensures
        "inkentry server logs"@.len() == 20,
        "inkentry server logs"@[12] == 'v',
{
    reveal_strlit("inkentry server logs");
}

proof fn lemma_heads()
    ensures
        forall|alive: bool|
            #![trigger head_text(alive)]
            lacks(head_text(alive), 'v') && lacks(head_text(alive), '~') && lacks_pair(
                head_text(alive),
                'u',
                'm',
            ),
        occurs(head_text(true), "Embedding in progress"@),
{
    reveal_strlit("  \x1b[33mEmbedding in progress\x1b[0m   ");
    reveal_strlit("  \x1b[33mEmbedding incomplete\x1b[0m   ");
    reveal_strlit("Embedding in progress");
    let h = head_text(true);
    let p = "Embedding in progress"@;
    assert(lacks(h, 'u'));
    assert(lacks(head_text(false), 'u'));
    assert(h.subrange(7, (7 + p.len()) as int) =~= p);
    assert(occurs_at(h, p, 7));
}

proof fn lemma_tails()
    ensures
        lacks(tail_text(false, false), 'v'),
        lacks(tail_text(false, false), '~'),
        lacks(tail_text(false, true), '~'),
        lacks(tail_text(false, false), 'E'),
        lacks(tail_text(false, true), 'E'),
        lacks_pair(tail_text(false, true), 'u', 'm'),
        tail_text(false, true).len() > 0,
        tail_text(false, true)[0] == ';',
        tail_text(true, false).len() == 0,
        tail_text(true, true).len() == 0,
        occurs(tail_text(false, false), "resume with"@),
        occurs(tail_text(false, true), "inkentry server logs"@),
{
    reveal_strlit("");
    reveal_strlit("; the embedder is unavailable, see `inkentry server logs`");
    reveal_strlit("; resume with `inkentry index .`");
    reveal_strlit("resume with");
    reveal_strlit("inkentry server logs");
    let a = tail_text(false, false);
    let b = tail_text(false, true);
    assert(a.subrange(2, 13) =~= "resume with"@);
    assert(occurs_at(a, "resume with"@, 2));
    assert(b.subrange(36, 56) =~= "inkentry server logs"@);
    assert(occurs_at(b, "inkentry server logs"@, 36));
}

proof fn lemma_left(worker_alive: bool, eta: Option<u64>)
    ensures
        lacks(left_text(worker_alive, eta), 'v'),
        lacks(left_text(worker_alive, eta), 'E'),
        lacks_pair(left_text(worker_alive, eta), 'u', 'm'),
        left_text(worker_alive, eta).len() > 0 ==> left_text(worker_alive, eta)[0] != 'm',
        !(worker_alive && eta is Some) ==> left_text(worker_alive, eta).len() == 0,
{
    if worker_alive && eta is Some {
        let e = eta_text(eta->0 as nat);
        reveal_strlit(", ");
        lemma_eta_pieces(eta->0 as nat);
        lemma_lacks_joined(", "@, e, 'v');
        lemma_lacks_joined(", "@, e, 'E');
        lemma_lacks_pair_joined(", "@, e, 'u', 'm');
        assert((", "@ + e)[0] == ',');
    }
}

/// Where no worker runs the only capital stands in front of another phrase.
proof fn lemma_not_in_progress(head: Seq<char>, mid: Seq<char>, left: Seq<char>, tail: Seq<char>)
    requires
        head == head_text(false),
        lacks(mid, 'E'),
        lacks(left, 'E'),
        lacks(tail, 'E'),
    ensures
        !occurs(head + mid + left + tail, "Embedding in progress"@),
{
    reveal_strlit("  \x1b[33mEmbedding incomplete\x1b[0m   ");
    reveal_strlit("Embedding in progress");
    let p = "Embedding in progress"@;
    let l = head + mid + left + tail;
    lemma_lacks_joined(mid, left, 'E');
    lemma_lacks_joined(mid + left, tail, 'E');
    let rest = mid + left + tail;
    assert(l =~= head + rest);
    if occurs(l, p) {
        let i = choose|i: int| occurs_at(l, p, i);
        let at = l.subrange(i, i + p.len());
        assert(at[0] == 'E' && at[12] == ' ');
        assert(l[i] == 'E');
        if i >= head.len() {
            assert(rest[i - head.len()] == 'E');
        } else {
            assert(head[i] == 'E');
            assert(i == 7);
            assert(l[19] == head[19]);
            assert(at[12] == l[19]);
        }
    }
}

/// The line of a server that embeds with one thread.
pub open spec fn single_thread_text() -> Seq<char> {
    "  \x1b[2mThe server is embedding single-threaded; set INKENTRY_EMBED_THREADS=<n> and restart it (`inkentry server stop`) if this host can spare the cores.\x1b[0m"@
}

/// The line of a server that embeds with one thread; more threads, or none
/// reported, get no line.
pub fn embed_threads_line(embed_threads: Option<usize>) -> (r: Option<String>)
    ensures
        opt_text(r) == if embed_threads == Some(1usize) {
            Some(single_thread_text())
        } else {
            None
        },
{
    match embed_threads {
        Some(1) => Some(
            "  \x1b[2mThe server is embedding single-threaded; set INKENTRY_EMBED_THREADS=<n> and restart it (`inkentry server stop`) if this host can spare the cores.\x1b[0m".to_owned(),
        ),
        _ => None,
    }
}

/// How long a recorded time has passed, in words.
pub open spec fn age(ts: i64, now: i64) -> Seq<char> {
    age_text(utc_time(ts, ISO_FORMAT@) is Some, ts as int, now as int)
}

/// How far the store is in step with the server, in words; nothing for a
/// project that has nothing to send and never synced.
pub open spec fn sync_suffix_text(
    pending: i64,
    last_synced_at: Option<i64>,
    last_error: Option<Seq<char>>,
    now: i64,
) -> Option<Seq<char>> {
    if pending == 0 && last_synced_at is None && last_error is None {
        None
    } else {
        Some(
            "  \u{b7}  "@ + (if pending > 0 {
                dec_int(pending as int) + " pending"@
            } else {
                "up to date"@
            }) + (match last_synced_at {
                Some(ts) => ", last synced "@ + age(ts, now),
                None => Seq::<char>::empty(),
            }) + (match last_error {
                Some(e) => ", sync error: "@ + prefix(e, 80),
                None => Seq::<char>::empty(),
            }),
        )
    }
}

/// How far the store is in step with the server, in words. The error is cut to
/// its first eighty characters.
pub fn sync_status_suffix(
    pending: i64,
    last_synced_at: Option<i64>,
    last_error: Option<&str>,
    now: i64,
) -> (r: Option<String>)
    ensures
        opt_text(r) == sync_suffix_text(pending, last_synced_at, opt_str(last_error), now),
{
    if pending == 0 && last_synced_at.is_none() && last_error.is_none() {
        return None;
    }
    let clause = if pending > 0 {
        dec_i64(pending).concat(" pending")
    } else {
        "up to date".to_owned()
    };
    let synced = match last_synced_at {
        Some(ts) => ", last synced ".to_owned().concat(format_age(ts, now).as_str()),
        None => String::new(),
    };
    let error = match last_error {
        Some(e) => ", sync error: ".to_owned().concat(take_chars(e, 80).as_str()),
        None => String::new(),
    };
    Some(
        "  \u{b7}  ".to_owned().concat(clause.as_str()).concat(synced.as_str()).concat(
            error.as_str(),
        ),
    )
}

/// The line of the sync mode, where a server or a mode is set. Only a store
/// that is kept in step locally says how far it is.
pub fn sync_mode_line(
    server_set: bool,
    mode_set: bool,
    mode: SyncMode,
    suffix: Option<&str>,
) -> (r: Option<String>)
    ensures
        opt_text(r) == if !server_set && !mode_set {
            None
        } else {
            Some(
                "  "@ + left_aligned("mode"@, 16) + mode.name() + (if mode is LocalFirst
                    && suffix is Some {
                    suffix->0@
                } else {
                    Seq::<char>::empty()
                }),
            )
        },
{
    if !server_set && !mode_set {
        return None;
    }
    let line = "  ".to_owned().concat(pad_right("mode", 16).as_str()).concat(mode.as_str());
    let tail: String = match suffix {
        Some(s) => if mode == SyncMode::LocalFirst {
            s.to_owned()
        } else {
            String::new()
        },
        None => String::new(),
    };
    Some(line.concat(tail.as_str()))
}

// ---- the tier --------------------------------------------------------------

/// What inference and search run on.
pub enum TierReport {
    /// No server, and what can be done about it.
    Offline { hint: String },
    Server { url: String, auto_discovered: bool, semantic: bool, embedder_state: EmbedderState },
}

/// An optional plain line.
pub open spec fn maybe_plain(line: Option<Seq<char>>) -> Seq<(bool, Seq<char>)> {
    match line {
        Some(l) => seq![(false, l)],
        None => Seq::<(bool, Seq<char>)>::empty(),
    }
}

/// An optional styled line.
pub open spec fn maybe_styled(line: Option<Seq<char>>) -> Seq<(bool, Seq<char>)> {
    match line {
        Some(l) => seq![(true, l)],
        None => Seq::<(bool, Seq<char>)>::empty(),
    }
}

fn push_maybe_plain(out: &mut Vec<Line>, line: Option<String>)
    ensures
        line_models(final(out)@) == line_models(old(out)@) + maybe_plain(opt_text(line)),
{
    let ghost first = line_models(out@);
    if let Some(l) = line {
        push_plain(out, l);
    }
    assert(line_models(out@) =~= first + maybe_plain(opt_text(line)));
}

fn push_maybe_styled(out: &mut Vec<Line>, line: Option<String>)
    ensures
        line_models(final(out)@) == line_models(old(out)@) + maybe_styled(opt_text(line)),
{
    let ghost first = line_models(out@);
    if let Some(l) = line {
        push_styled(out, l);
    }
    assert(line_models(out@) =~= first + maybe_styled(opt_text(line)));
}

/// The lines of the tier.
pub open spec fn tier_lines(
    tier: TierReport,
    mode_line: Option<Seq<char>>,
    mem_label: Seq<char>,
) -> Seq<(bool, Seq<char>)> {
    (match tier {
        TierReport::Offline { hint } => seq![
            (true, "Capability tier:  \x1b[33mOffline\x1b[0m"@),
        ] + maybe_plain(mode_line) + seq![(false, "  search          text"@ + hint@)],
        TierReport::Server { url, auto_discovered, semantic, embedder_state } => seq![
            (
                true,
                "Capability tier:  \x1b[32mServer\x1b[0m  \x1b[2m("@ + url@ + (
                if auto_discovered {
                    "  \x1b[2m(local, auto)\x1b[0m"@
                } else {
                    ""@
                }) + ")\x1b[0m"@,
            ),
        ] + maybe_plain(mode_line) + seq![
            (
                false,
                "  search          "@ + (if semantic {
                    "text + semantic"@
                } else {
                    "text"@
                }),
            ),
        ] + maybe_styled(
            embedder_text(
                embedder_state,
                if auto_discovered {
                    None
                } else {
                    Some(url@)
                },
            ),
        ),
    }) + seq![(false, "  memory          "@ + mem_label), (false, Seq::<char>::empty())]
}

fn push_tier(out: &mut Vec<Line>, tier: &TierReport, mode_line: Option<String>, mem_label: &str)
    ensures
        line_models(final(out)@) == line_models(old(out)@) + tier_lines(
            *tier,
            opt_text(mode_line),
            mem_label@,
        ),
{
    let ghost first = line_models(out@);
    match tier {
        TierReport::Offline { hint } => {
            push_styled(out, "Capability tier:  \x1b[33mOffline\x1b[0m".to_owned());
            push_maybe_plain(out, mode_line);
            push_plain(out, "  search          text".to_owned().concat(hint.as_str()));
        },
        TierReport::Server { url, auto_discovered, semantic, embedder_state } => {
            let note = if *auto_discovered {
                "  \x1b[2m(local, auto)\x1b[0m"
            } else {
                ""
            };
            push_styled(
                out,
                "Capability tier:  \x1b[32mServer\x1b[0m  \x1b[2m(".to_owned().concat(
                    url.as_str(),
                ).concat(note).concat(")\x1b[0m"),
            );
            push_maybe_plain(out, mode_line);
            let label = if *semantic {
                "text + semantic"
            } else {
                "text"
            };
            push_plain(out, "  search          ".to_owned().concat(label));
            let remote_url: Option<&str> = if *auto_discovered {
                None
            } else {
                Some(url.as_str())
            };
            push_maybe_styled(out, embedder_status_line(embedder_state, remote_url));
        },
    }
    push_plain(out, "  memory          ".to_owned().concat(mem_label));
    push_plain(out, String::new());
    assert(line_models(out@) =~= first + tier_lines(*tier, opt_text(mode_line), mem_label@));
}

/// The lines of the tier.
pub fn print_tier_section(tier: &TierReport, mode_line: Option<String>, mem_label: &str) -> (r: Vec<
    Line,
>)
    ensures
        line_models(r@) == tier_lines(*tier, opt_text(mode_line), mem_label@),
{
    let mut out: Vec<Line> = Vec::new();
    assert(line_models(out@) =~= Seq::<(bool, Seq<char>)>::empty());
    push_tier(&mut out, tier, mode_line, mem_label);
    assert(line_models(out@) =~= tier_lines(*tier, opt_text(mode_line), mem_label@));
    out
}

// ---- all projects ----------------------------------------------------------

/// The size of an index.
#[derive(Clone, Copy, PartialEq, Eq, Structural, Debug)]
pub struct IndexStats {
    pub file_count: i64,
    pub chunk_count: i64,
    pub embedding_count: i64,
    pub last_indexed: Option<i64>,
}

/// A registered project.
pub struct ProjectEntry {
    pub root_path: String,
    pub root_exists: bool,
    pub db_path: String,
    pub registered_at: i64,
    /// The size of its index, where it could be read.
    pub stats: Option<IndexStats>,
    /// The roots of the projects it depends on.
    pub deps: Vec<String>,
}

/// What is said where no project is registered.
pub open spec fn no_projects_text() -> Seq<char> {
    "No projects registered. Run `inkentry index <path>` to get started."@
}

/// One row of the brief list.
pub open spec fn list_row(p: ProjectEntry, now: i64) -> Seq<char> {
    let (f, c, e) = match p.stats {
        Some(s) => (s.file_count, s.chunk_count, s.embedding_count),
        None => (0i64, 0i64, 0i64),
    };
    left_aligned(dec_int(f as int), 6) + "  "@ + left_aligned(dec_int(c as int), 8) + "  "@
        + left_aligned(dec_int(e as int), 10) + "  "@ + left_aligned(age(p.registered_at, now), 10)
        + "  "@ + p.root_path@ + (if p.root_exists {
        ""@
    } else {
        " [missing]"@
    })
}

/// The brief list of projects.
pub open spec fn list_lines(ps: Seq<ProjectEntry>, now: i64) -> Seq<(bool, Seq<char>)> {
    if ps.len() == 0 {
        seq![(false, no_projects_text())]
    } else {
        seq![
            (
                false,
                left_aligned("Files"@, 6) + "  "@ + left_aligned("Chunks"@, 8) + "  "@
                    + left_aligned("Embeddings"@, 10) + "  "@ + left_aligned("Registered"@, 10)
                    + "  Root"@,
            ),
            (false, repeated('─', 70)),
        ] + ps.map_values(|p: ProjectEntry| (false, list_row(p, now)))
    }
}

/// The brief list of projects, one row each.
pub fn project_list(projects: &Vec<ProjectEntry>, now: i64) -> (r: Vec<Line>)
    ensures
        line_models(r@) == list_lines(projects@, now),
{
    let mut out: Vec<Line> = Vec::new();
    let ghost want = list_lines(projects@, now);
    assert(line_models(out@) =~= want.take(0));
    if projects.len() == 0 {
        push_plain(
            &mut out,
            "No projects registered. Run `inkentry index <path>` to get started.".to_owned(),
        );
        assert(line_models(out@) =~= want);
        return out;
    }
    push_plain(
        &mut out,
        pad_right("Files", 6).concat("  ").concat(pad_right("Chunks", 8).as_str()).concat(
            "  ",
        ).concat(pad_right("Embeddings", 10).as_str()).concat("  ").concat(
            pad_right("Registered", 10).as_str(),
        ).concat("  Root"),
    );
    push_plain(&mut out, repeat_char('─', 70));
    let mut i: usize = 0;
    assert(line_models(out@) =~= want.take(2));
    while i < projects.len()
        invariant
            i <= projects.len(),
            projects.len() > 0,
            want == list_lines(projects@, now),
            line_models(out@) == want.take(i + 2),
        decreases projects.len() - i,
    {
        let p = &projects[i];
        let (files, chunks, embeddings) = match &p.stats {
            Some(s) => (s.file_count, s.chunk_count, s.embedding_count),
            None => (0i64, 0i64, 0i64),
        };
        let missing = if p.root_exists {
            ""
        } else {
            " [missing]"
        };
        let row = pad_right(dec_i64(files).as_str(), 6).concat("  ").concat(
            pad_right(dec_i64(chunks).as_str(), 8).as_str(),
        ).concat("  ").concat(pad_right(dec_i64(embeddings).as_str(), 10).as_str()).concat(
            "  ",
        ).concat(pad_right(format_age(p.registered_at, now).as_str(), 10).as_str()).concat(
            "  ",
        ).concat(p.root_path.as_str()).concat(missing);
        proof {
            assert(row@ == list_row(*p, now));
            assert(want[i + 2] == (false, list_row(*p, now)));
            assert(want.take(i + 3) =~= want.take(i + 2).push((false, row@)));
        }
        push_plain(&mut out, row);
        i = i + 1;
    }
    assert(want.take(i + 2) =~= want);
    out
}

/// The first `n` dependencies, one line each.
pub open spec fn dep_lines(deps: Seq<Seq<char>>, n: int) -> Seq<(bool, Seq<char>)> {
    deps.take(n).map_values(|d: Seq<char>| (false, "    → "@ + d))
}

/// The lines of one project.
pub open spec fn project_block(p: ProjectEntry, now: i64) -> Seq<(bool, Seq<char>)> {
    seq![(true, "\x1b[1m"@ + p.root_path@ + "\x1b[0m"@)] + (if p.root_exists {
        Seq::<(bool, Seq<char>)>::empty()
    } else {
        seq![(true, "  \x1b[31m[root path missing from disk]\x1b[0m"@)]
    }) + seq![
        (false, "  DB: "@ + p.db_path@),
        (false, "  Registered: "@ + age(p.registered_at, now)),
    ] + (match p.stats {
        Some(s) => seq![
            (
                false,
                "  Files: "@ + dec_int(s.file_count as int) + "  Chunks: "@ + dec_int(
                    s.chunk_count as int,
                ) + "  Embeddings: "@ + dec_int(s.embedding_count as int),
            ),
        ] + (match s.last_indexed {
            Some(ts) => seq![(false, "  Last indexed: "@ + age(ts, now))],
            None => Seq::<(bool, Seq<char>)>::empty(),
        }),
        None => seq![(true, "  \x1b[2m(no index yet)\x1b[0m"@)],
    }) + (if p.deps@.len() > 0 {
        seq![(false, "  Depends on:"@)] + dep_lines(texts(p.deps@), p.deps@.len() as int)
    } else {
        Seq::<(bool, Seq<char>)>::empty()
    }) + seq![(false, Seq::<char>::empty())]
}

/// The lines of the first `n` projects.
pub open spec fn project_blocks(ps: Seq<ProjectEntry>, now: i64, n: int) -> Seq<(bool, Seq<char>)>
    decreases n,
{
    if n <= 0 {
        Seq::<(bool, Seq<char>)>::empty()
    } else {
        project_blocks(ps, now, n - 1) + project_block(ps[n - 1], now)
    }
}

fn push_project(out: &mut Vec<Line>, p: &ProjectEntry, now: i64)
    ensures
        line_models(final(out)@) == line_models(old(out)@) + project_block(*p, now),
{
    let ghost first = line_models(out@);
    push_styled(out, "\x1b[1m".to_owned().concat(p.root_path.as_str()).concat("\x1b[0m"));
    if !p.root_exists {
        push_styled(out, "  \x1b[31m[root path missing from disk]\x1b[0m".to_owned());
    }
    push_plain(out, "  DB: ".to_owned().concat(p.db_path.as_str()));
    push_plain(
        out,
        "  Registered: ".to_owned().concat(format_age(p.registered_at, now).as_str()),
    );
    match &p.stats {
        Some(s) => {
            push_plain(
                out,
                "  Files: ".to_owned().concat(dec_i64(s.file_count).as_str()).concat(
                    "  Chunks: ",
                ).concat(dec_i64(s.chunk_count).as_str()).concat("  Embeddings: ").concat(
                    dec_i64(s.embedding_count).as_str(),
                ),
            );
            if let Some(ts) = s.last_indexed {
                push_plain(
                    out,
                    "  Last indexed: ".to_owned().concat(format_age(ts, now).as_str()),
                );
            }
        },
        None => {
            push_styled(out, "  \x1b[2m(no index yet)\x1b[0m".to_owned());
        },
    }
    if p.deps.len() > 0 {
        push_plain(out, "  Depends on:".to_owned());
        let ghost before = line_models(out@);
        let ghost deps = texts(p.deps@);
        let mut i: usize = 0;
        assert(before + dep_lines(deps, 0) =~= before);
        while i < p.deps.len()
            invariant
                i <= p.deps.len(),
                deps == texts(p.deps@),
                line_models(out@) == before + dep_lines(deps, i as int),
            decreases p.deps.len() - i,
        {
            proof {
                assert(deps[i as int] == p.deps@[i as int]@);
                assert(dep_lines(deps, i + 1) =~= dep_lines(deps, i as int).push(
                    (false, "    → "@ + deps[i as int]),
                ));
                assert(before + dep_lines(deps, i + 1) =~= (before + dep_lines(
                    deps,
                    i as int,
                )).push((false, "    → "@ + deps[i as int])));
            }
            push_plain(out, "    → ".to_owned().concat(p.deps[i].as_str()));
            i = i + 1;
        }
    }
    push_plain(out, String::new());
    assert(line_models(out@) =~= first + project_block(*p, now));
}

/// The lines of all projects.
pub open spec fn all_lines(ps: Seq<ProjectEntry>, now: i64) -> Seq<(bool, Seq<char>)> {
    if ps.len() == 0 {
        seq![(false, no_projects_text())]
    } else {
        project_blocks(ps, now, ps.len() as int)
    }
}

/// The lines of all projects, one after another.
pub fn all_projects(projects: &Vec<ProjectEntry>, now: i64) -> (r: Vec<Line>)
    ensures
        line_models(r@) == all_lines(projects@, now),
{
    let mut out: Vec<Line> = Vec::new();
    assert(line_models(out@) =~= Seq::<(bool, Seq<char>)>::empty());
    if projects.len() == 0 {
        push_plain(
            &mut out,
            "No projects registered. Run `inkentry index <path>` to get started.".to_owned(),
        );
        assert(line_models(out@) =~= all_lines(projects@, now));
        return out;
    }
    let mut i: usize = 0;
    while i < projects.len()
        invariant
            i <= projects.len(),
            line_models(out@) == project_blocks(projects@, now, i as int),
        decreases projects.len() - i,
    {
        push_project(&mut out, &projects[i], now);
        i = i + 1;
    }
    out
}

// ---- one project -----------------------------------------------------------

/// What `status` shows.
#[derive(Clone, Copy, PartialEq, Eq, Structural, Debug)]
pub enum StatusView {
    /// The current project, for a program.
    Json,
    /// A row for each project.
    List,
    /// A block for each project.
    All,
    /// The current project.
    Current,
}

/// What `status` shows, by its arguments.
pub fn status_view(format: &str, all: bool, list: bool) -> (r: StatusView)
    ensures
        r == if format@ == "json"@ {
            StatusView::Json
        } else if list {
            StatusView::List
        } else if all {
            StatusView::All
        } else {
            StatusView::Current
        },
{
    if same(format, "json") {
        StatusView::Json
    } else if list {
        StatusView::List
    } else if all {
        StatusView::All
    } else {
        StatusView::Current
    }
}

/// What is said where there is no project, or no index yet.
pub fn missing_status(project: bool) -> (r: Vec<String>)
    ensures
        texts(r@) == if project {
            seq![
                "No index found for the current directory (checked parents too)."@,
                "Run `inkentry index <path>` to create one."@,
            ]
        } else {
            seq!["No inkentry project here. Run `inkentry init` first."@]
        },
{
    let mut out: Vec<String> = Vec::new();
    if project {
        out.push("No index found for the current directory (checked parents too).".to_owned());
        out.push("Run `inkentry index <path>` to create one.".to_owned());
    } else {
        out.push("No inkentry project here. Run `inkentry init` first.".to_owned());
    }
    assert(texts(out@) =~= if project {
        seq![
            "No index found for the current directory (checked parents too)."@,
            "Run `inkentry index <path>` to create one."@,
        ]
    } else {
        seq!["No inkentry project here. Run `inkentry init` first."@]
    });
    out
}

/// A project that is searched along.
pub struct DepEntry {
    pub root_path: String,
    /// The files and chunks of its index, where it has one.
    pub size: Option<(i64, i64)>,
}

/// A file that did not change while its project did.
pub struct DriftEntry {
    pub days_behind: i64,
    pub caller_count: i64,
    pub path: String,
}

/// How often a command ran.
pub struct UsageCount {
    pub command: String,
    pub count: i64,
}

/// What is known of an index that is embedded in part.
pub struct PendingEmbeds {
    pub worker_alive: bool,
    pub embedder_unavailable: bool,
    pub embeddable_count: i64,
    pub total_tokens: i64,
    pub pending_tokens: i64,
    pub eta: Option<u64>,
    pub embed_threads: Option<usize>,
}

/// Everything that the status of a project is made of.
pub struct StatusInput {
    pub tier: TierReport,
    pub mode_line: Option<String>,
    pub mem_label: String,
    pub project_root: Option<String>,
    pub db_path: String,
    pub stats: IndexStats,
    pub text_only_count: i64,
    pub rebuilt_from: Option<i32>,
    /// What is known of the embedding, where chunks are left to embed.
    pub pending: Option<PendingEmbeds>,
    pub memory_exists: bool,
    pub memory_missing: Option<usize>,
    pub deps: Vec<DepEntry>,
    pub drift: Vec<DriftEntry>,
    pub usage: Vec<UsageCount>,
}

/// The lines of the index: where it is and its size.
pub open spec fn size_lines(s: StatusInput) -> Seq<(bool, Seq<char>)> {
    (match s.project_root {
        Some(root) => seq![(true, "Project: \x1b[1m"@ + root@ + "\x1b[0m"@)],
        None => Seq::<(bool, Seq<char>)>::empty(),
    }) + seq![
        (false, "Index:      "@ + s.db_path@),
        (false, "Files:      "@ + dec_int(s.stats.file_count as int)),
        (false, "Chunks:     "@ + dec_int(s.stats.chunk_count as int)),
        (
            false,
            "Embeddings: "@ + dec_int(s.stats.embedding_count as int) + (if s.text_only_count > 0 {
                " ("@ + dec_int(s.text_only_count as int) + " chunks full-text only)"@
            } else {
                Seq::<char>::empty()
            }),
        ),
    ]
}

/// The lines of an embedding that is not finished.
pub open spec fn pending_lines(p: PendingEmbeds, embedded: i64) -> Seq<(bool, Seq<char>)> {
    maybe_styled(
        if p.embeddable_count <= 0 || embedded >= p.embeddable_count {
            None
        } else {
            Some(
                embedding_text(
                    p.worker_alive,
                    p.embedder_unavailable,
                    p.embeddable_count as int,
                    embedded as int,
                    p.total_tokens as int,
                    p.pending_tokens as int,
                    p.eta,
                ),
            )
        },
    ) + maybe_styled(
        if p.embed_threads == Some(1usize) {
            Some(single_thread_text())
        } else {
            None
        },
    )
}

/// The lines of what is wrong with the index, and of its age.
pub open spec fn state_lines(s: StatusInput, now: i64) -> Seq<(bool, Seq<char>)> {
    maybe_styled(
        match s.rebuilt_from {
            Some(found) => Some(rebuilt_text(found)),
            None => None,
        },
    ) + (match s.pending {
        Some(p) => pending_lines(p, s.stats.embedding_count),
        None => Seq::<(bool, Seq<char>)>::empty(),
    }) + maybe_styled(
        if s.memory_exists && s.memory_missing is Some && s.memory_missing->0 > 0 {
            Some(memory_pending_text(s.memory_missing->0 as nat))
        } else {
            None
        },
    ) + maybe_plain(
        match s.stats.last_indexed {
            Some(ts) => Some("Last index: "@ + age(ts, now)),
            None => None,
        },
    )
}

/// Whether the token counts can be worked with, where they are shown.
pub open spec fn tokens_ok(p: Option<PendingEmbeds>, embedded: i64) -> bool {
    match p {
        Some(p) => 0 < p.embeddable_count && embedded < p.embeddable_count ==> p.total_tokens >= 0
            && p.total_tokens - p.pending_tokens <= i64::MAX,
        None => true,
    }
}

fn push_size(out: &mut Vec<Line>, s: &StatusInput)
    ensures
        line_models(final(out)@) == line_models(old(out)@) + size_lines(*s),
{
    let ghost first = line_models(out@);
    if let Some(root) = &s.project_root {
        push_styled(out, "Project: \x1b[1m".to_owned().concat(root.as_str()).concat("\x1b[0m"));
    }
    push_plain(out, "Index:      ".to_owned().concat(s.db_path.as_str()));
    push_plain(out, "Files:      ".to_owned().concat(dec_i64(s.stats.file_count).as_str()));
    push_plain(out, "Chunks:     ".to_owned().concat(dec_i64(s.stats.chunk_count).as_str()));
    let text_only = if s.text_only_count > 0 {
        " (".to_owned().concat(dec_i64(s.text_only_count).as_str()).concat(
            " chunks full-text only)",
        )
    } else {
        String::new()
    };
    push_plain(
        out,
        "Embeddings: ".to_owned().concat(dec_i64(s.stats.embedding_count).as_str()).concat(
            text_only.as_str(),
        ),
    );
    assert(line_models(out@) =~= first + size_lines(*s));
}

fn push_pending(out: &mut Vec<Line>, p: &PendingEmbeds, embedded: i64)
    requires
        tokens_ok(Some(*p), embedded),
    ensures
        line_models(final(out)@) == line_models(old(out)@) + pending_lines(*p, embedded),
{
    let ghost first = line_models(out@);
    push_maybe_styled(
        out,
        embedding_state_line(
            p.worker_alive,
            p.embedder_unavailable,
            p.embeddable_count,
            embedded,
            p.total_tokens,
            p.pending_tokens,
            p.eta,
        ),
    );
    push_maybe_styled(out, embed_threads_line(p.embed_threads));
    assert(line_models(out@) =~= first + pending_lines(*p, embedded));
}

fn push_state(out: &mut Vec<Line>, s: &StatusInput, now: i64)
    requires
        tokens_ok(s.pending, s.stats.embedding_count),
    ensures
        line_models(final(out)@) == line_models(old(out)@) + state_lines(*s, now),
{
    let ghost first = line_models(out@);
    push_maybe_styled(out, rebuilt_line(s.rebuilt_from));
    if let Some(p) = &s.pending {
        push_pending(out, p, s.stats.embedding_count);
    }
    push_maybe_styled(out, memory_embedding_line(s.memory_exists, s.memory_missing));
    let last = match s.stats.last_indexed {
        Some(ts) => Some("Last index: ".to_owned().concat(format_age(ts, now).as_str())),
        None => None,
    };
    push_maybe_plain(out, last);
    assert(line_models(out@) =~= first + state_lines(*s, now));
}

/// One dependency, as a line.
pub open spec fn dep_line(d: DepEntry) -> Seq<char> {
    "  → "@ + d.root_path@ + "  ("@ + (match d.size {
        Some((files, chunks)) => dec_int(files as int) + " files, "@ + dec_int(chunks as int)
            + " chunks"@,
        None => "not indexed"@,
    }) + ")"@
}

/// The lines of the dependencies.
pub open spec fn deps_lines(deps: Seq<DepEntry>) -> Seq<(bool, Seq<char>)> {
    if deps.len() == 0 {
        Seq::<(bool, Seq<char>)>::empty()
    } else {
        seq![(false, "\nDependencies:"@)] + deps.map_values(|d: DepEntry| (false, dep_line(d)))
    }
}

fn push_deps(out: &mut Vec<Line>, deps: &Vec<DepEntry>)
    ensures
        line_models(final(out)@) == line_models(old(out)@) + deps_lines(deps@),
{
    let ghost first = line_models(out@);
    let ghost want = deps_lines(deps@);
    if deps.len() == 0 {
        assert(line_models(out@) =~= first + want);
        return ;
    }
    push_plain(out, "\nDependencies:".to_owned());
    let mut i: usize = 0;
    assert(line_models(out@) =~= first + want.take(1));
    while i < deps.len()
        invariant
            i <= deps.len(),
            deps.len() > 0,
            want == deps_lines(deps@),
            line_models(out@) == first + want.take(i + 1),
        decreases deps.len() - i,
    {
        let d = &deps[i];
        let size = match d.size {
            Some((files, chunks)) => dec_i64(files).concat(" files, ").concat(
                dec_i64(chunks).as_str(),
            ).concat(" chunks"),
            None => "not indexed".to_owned(),
        };
        let line = "  → ".to_owned().concat(d.root_path.as_str()).concat("  (").concat(
            size.as_str(),
        ).concat(")");
        proof {
            assert(line@ == dep_line(*d));
            assert(want[i + 1] == (false, dep_line(*d)));
            assert(first + want.take(i + 2) =~= (first + want.take(i + 1)).push((false, line@)));
        }
        push_plain(out, line);
        i = i + 1;
    }
    assert(want.take(i + 1) =~= want);
}

/// One file that fell behind, as a line.
pub open spec fn drift_line(d: DriftEntry) -> Seq<char> {
    "  "@ + left_aligned(dec_int(d.days_behind as int), 6) + "  "@ + left_aligned(
        if d.caller_count > 0 {
            dec_int(d.caller_count as int)
        } else {
            "—"@
        },
        8,
    ) + "  "@ + d.path@
}

/// The lines of the files that fell behind.
pub open spec fn drift_lines(drift: Seq<DriftEntry>) -> Seq<(bool, Seq<char>)> {
    if drift.len() == 0 {
        Seq::<(bool, Seq<char>)>::empty()
    } else {
        seq![
            (true, "\n\x1b[33mDrift signals\x1b[0m  (unchanged while project evolved):"@),
            (
                false,
                "  "@ + left_aligned("Days"@, 6) + "  "@ + left_aligned("Callers"@, 8) + "  File"@,
            ),
            (false, "  "@ + repeated('─', 60)),
        ] + drift.map_values(|d: DriftEntry| (false, drift_line(d))) + seq![
            (
                true,
                "  \x1b[2mRun `inkentry search \"<topic>\"` to check if these are still relevant.\x1b[0m"@,
            ),
        ]
    }
}

fn push_drift(out: &mut Vec<Line>, drift: &Vec<DriftEntry>)
    ensures
        line_models(final(out)@) == line_models(old(out)@) + drift_lines(drift@),
{
    let ghost first = line_models(out@);
    let ghost want = drift_lines(drift@);
    if drift.len() == 0 {
        assert(line_models(out@) =~= first + want);
        return ;
    }
    push_styled(
        out,
        "\n\x1b[33mDrift signals\x1b[0m  (unchanged while project evolved):".to_owned(),
    );
    push_plain(
        out,
        "  ".to_owned().concat(pad_right("Days", 6).as_str()).concat("  ").concat(
            pad_right("Callers", 8).as_str(),
        ).concat("  File"),
    );
    push_plain(out, "  ".to_owned().concat(repeat_char('─', 60).as_str()));
    let mut i: usize = 0;
    assert(line_models(out@) =~= first + want.take(3));
    while i < drift.len()
        invariant
            i <= drift.len(),
            drift.len() > 0,
            want == drift_lines(drift@),
            line_models(out@) == first + want.take(i + 3),
        decreases drift.len() - i,
    {
        let d = &drift[i];
        let callers = if d.caller_count > 0 {
            dec_i64(d.caller_count)
        } else {
            "—".to_owned()
        };
        let line = "  ".to_owned().concat(
            pad_right(dec_i64(d.days_behind).as_str(), 6).as_str(),
        ).concat("  ").concat(pad_right(callers.as_str(), 8).as_str()).concat("  ").concat(
            d.path.as_str(),
        );
        proof {
            assert(line@ == drift_line(*d));
            assert(want[i + 3] == (false, drift_line(*d)));
            assert(first + want.take(i + 4) =~= (first + want.take(i + 3)).push((false, line@)));
        }
        push_plain(out, line);
        i = i + 1;
    }
    push_styled(
        out,
        "  \x1b[2mRun `inkentry search \"<topic>\"` to check if these are still relevant.\x1b[0m".to_owned(),
    );
    assert(line_models(out@) =~= first + want);
}

/// All uses of the first `n` commands together.
pub open spec fn total_usage(usage: Seq<UsageCount>, n: int) -> int
    decreases n,
{
    if n <= 0 {
        0
    } else {
        total_usage(usage, n - 1) + usage[n - 1].count
    }
}

/// How often a command ran: what the first entry of that name says, and zero
/// without one.
pub open spec fn usage_of(usage: Seq<UsageCount>, command: Seq<char>) -> i64
    decreases usage.len(),
{
    if usage.len() == 0 {
        0
    } else if usage[0].command@ == command {
        usage[0].count
    } else {
        usage_of(usage.skip(1), command)
    }
}

/// How often a command ran: what the last entry of that name says, and zero
/// without one.
pub open spec fn last_usage_of(usage: Seq<UsageCount>, command: Seq<char>) -> i64
    decreases usage.len(),
{
    if usage.len() == 0 {
        0
    } else if usage.last().command@ == command {
        usage.last().count
    } else {
        last_usage_of(usage.drop_last(), command)
    }
}

/// How often a command ran, by its last entry.
pub fn last_usage(usage: &Vec<UsageCount>, command: &str) -> (r: i64)
    ensures
        r == last_usage_of(usage@, command@),
{
    let mut i: usize = usage.len();
    assert(usage@.take(i as int) =~= usage@);
    while i > 0
        invariant
            i <= usage.len(),
            last_usage_of(usage@.take(i as int), command@) == last_usage_of(usage@, command@),
        decreases i,
    {
        assert(usage@.take(i as int).drop_last() =~= usage@.take(i - 1));
        if same(usage[i - 1].command.as_str(), command) {
            return usage[i - 1].count;
        }
        i = i - 1;
    }
    0
}

/// How often a command ran, by its first entry.
pub fn count_usage(usage: &Vec<UsageCount>, command: &str) -> (r: i64)
    ensures
        r == usage_of(usage@, command@),
{
    let mut i: usize = 0;
    assert(usage@.skip(0) =~= usage@);
    while i < usage.len()
        invariant
            i <= usage.len(),
            usage_of(usage@.skip(i as int), command@) == usage_of(usage@, command@),
        decreases usage.len() - i,
    {
        assert(usage@.skip(i as int).skip(1) =~= usage@.skip(i + 1));
        if same(usage[i].command.as_str(), command) {
            return usage[i].count;
        }
        i = i + 1;
    }
    0
}

fn any_usage(usage: &Vec<UsageCount>) -> (r: bool)
    ensures
        r == (total_usage(usage@, usage.len() as int) > 0),
{
    let mut total: i128 = 0;
    let mut i: usize = 0;
    while i < usage.len()
        invariant
            i <= usage.len(),
            total == total_usage(usage@, i as int),
            -(i as int) * 0x8000_0000_0000_0000 <= total <= (i as int) * 0x8000_0000_0000_0000,
        decreases usage.len() - i,
    {
        total = total + usage[i].count as i128;
        i = i + 1;
    }
    total > 0
}

/// The line of one command's use, where it was used.
pub open spec fn usage_line(usage: Seq<UsageCount>, command: Seq<char>) -> Seq<(bool, Seq<char>)> {
    if usage_of(usage, command) > 0 {
        seq![
            (
                false,
                "  "@ + left_aligned(command, 16) + "  "@ + dec_int(
                    usage_of(usage, command) as int,
                ) + " calls"@,
            ),
        ]
    } else {
        Seq::<(bool, Seq<char>)>::empty()
    }
}

/// The lines of what was used in the last week.
pub open spec fn usage_lines(usage: Seq<UsageCount>) -> Seq<(bool, Seq<char>)> {
    if total_usage(usage, usage.len() as int) > 0 {
        seq![(false, "\nUsage (last 7 days)"@)] + usage_line(usage, "search"@) + usage_line(
            usage,
            "context"@,
        )
    } else {
        Seq::<(bool, Seq<char>)>::empty()
    }
}

fn push_usage_line(out: &mut Vec<Line>, usage: &Vec<UsageCount>, command: &str)
    ensures
        line_models(final(out)@) == line_models(old(out)@) + usage_line(usage@, command@),
{
    let ghost first = line_models(out@);
    let count: i64 = count_usage(usage, command);
    if count > 0 {
        push_plain(
            out,
            "  ".to_owned().concat(pad_right(command, 16).as_str()).concat("  ").concat(
                dec_i64(count).as_str(),
            ).concat(" calls"),
        );
    }
    assert(line_models(out@) =~= first + usage_line(usage@, command@));
}

fn push_usage(out: &mut Vec<Line>, usage: &Vec<UsageCount>)
    ensures
        line_models(final(out)@) == line_models(old(out)@) + usage_lines(usage@),
{
    let ghost first = line_models(out@);
    if any_usage(usage) {
        push_plain(out, "\nUsage (last 7 days)".to_owned());
        push_usage_line(out, usage, "search");
        push_usage_line(out, usage, "context");
    }
    assert(line_models(out@) =~= first + usage_lines(usage@));
}

/// The status of a project, but for its metrics.
pub open spec fn status_lines(s: StatusInput, now: i64) -> Seq<(bool, Seq<char>)> {
    tier_lines(s.tier, opt_text(s.mode_line), s.mem_label@) + size_lines(s) + state_lines(s, now) + deps_lines(
        s.deps@,
    ) + drift_lines(s.drift@) + usage_lines(s.usage@)
}

/// The status of a project, but for its metrics.
pub fn status(s: &StatusInput, now: i64) -> (r: Vec<Line>)
    requires
        tokens_ok(s.pending, s.stats.embedding_count),
    ensures
        line_models(r@) == status_lines(*s, now),
{
    let mut out = print_tier_section(&s.tier, s.mode_line.clone(), s.mem_label.as_str());
    push_size(&mut out, s);
    push_state(&mut out, s, now);
    push_deps(&mut out, &s.deps);
    push_drift(&mut out, &s.drift);
    push_usage(&mut out, &s.usage);
    out
}

/// The seconds of a week.
pub const SEVEN_DAYS_SECS: i64 = 604800;

/// The beginning of the week that ends now.
pub fn usage_cutoff(now: i64) -> (r: i64)
    requires
        now >= i64::MIN + SEVEN_DAYS_SECS,
    ensures
        r == now - SEVEN_DAYS_SECS,
{
    now - SEVEN_DAYS_SECS
}

// ---- for programs ----------------------------------------------------------

/// The parts of the status for programs that are decided and not just read.
pub struct StatusFields {
    pub embedding_dim: Option<u64>,
    pub has_semantic_search: bool,
    pub last_indexed_at: Option<String>,
    pub tier: String,
    pub server_url: Option<String>,
    pub embedder_state: Option<String>,
    pub worker_reported: bool,
    pub refresh_pending: Option<i64>,
    pub sync_pending: Option<i64>,
    pub sync_last_synced_at: Option<String>,
    pub search_calls: i64,
    pub memory_search_calls: i64,
}

/// The name of an embedder's state; nothing where it is not known.
pub open spec fn state_name(s: EmbedderState) -> Option<Seq<char>> {
    match s {
        EmbedderState::Loading => Some("loading"@),
        EmbedderState::Ready => Some("ready"@),
        EmbedderState::Unavailable => Some("unavailable"@),
        EmbedderState::Disabled => Some("disabled"@),
        EmbedderState::Unknown => None,
    }
}

fn embedder_name(s: EmbedderState) -> (r: Option<String>)
    ensures
        opt_text(r) == state_name(s),
{
    match s {
        EmbedderState::Loading => Some("loading".to_owned()),
        EmbedderState::Ready => Some("ready".to_owned()),
        EmbedderState::Unavailable => Some("unavailable".to_owned()),
        EmbedderState::Disabled => Some("disabled".to_owned()),
        EmbedderState::Unknown => None,
    }
}

/// The parts of the status for programs that are decided. The worker is spoken
/// of only while there is something to embed or to embed again: a drain of
/// stale vectors can run while all chunks have one. How far the store is in step
/// with the server is told only of one that is written first.
pub fn status_fields(
    tier: &TierReport,
    stats: &IndexStats,
    pending_chunks: i64,
    refresh_pending: i64,
    mode: SyncMode,
    sync_pending: Option<i64>,
    last_synced_at: Option<i64>,
    usage: &Vec<UsageCount>,
) -> (r: StatusFields)
    ensures
        r.embedding_dim == if stats.embedding_count > 0 {
            Some(crate::memory::sync::local_embed::EMBEDDING_DIM as u64)
        } else {
            None
        },
        r.has_semantic_search == (tier is Server && tier->semantic),
        opt_text(r.last_indexed_at) == match stats.last_indexed {
            Some(ts) => utc_time(ts, ISO_FORMAT@),
            None => None,
        },
        r.tier@ == if tier is Server {
            "server"@
        } else {
            "offline"@
        },
        opt_text(r.server_url) == match *tier {
            TierReport::Server { url, .. } => Some(url@),
            TierReport::Offline { .. } => None,
        },
        opt_text(r.embedder_state) == match *tier {
            TierReport::Server { embedder_state, .. } => state_name(embedder_state),
            TierReport::Offline { .. } => None,
        },
        r.worker_reported == (pending_chunks > 0 || refresh_pending > 0),
        r.refresh_pending == if refresh_pending > 0 {
            Some(refresh_pending)
        } else {
            None
        },
        r.sync_pending == if mode is LocalFirst {
            sync_pending
        } else {
            None
        },
        opt_text(r.sync_last_synced_at) == match last_synced_at {
            Some(ts) if mode is LocalFirst => utc_time(ts, ISO_FORMAT@),
            _ => None,
        },
        r.search_calls == last_usage_of(usage@, "search"@),
        r.memory_search_calls == last_usage_of(usage@, "memory search"@),
{
    let last_indexed_at = match stats.last_indexed {
        Some(ts) => crate::time::iso_time(ts),
        None => None,
    };
    let local_first = mode == SyncMode::LocalFirst;
    let sync_last_synced_at = match last_synced_at {
        Some(ts) => if local_first {
            crate::time::iso_time(ts)
        } else {
            None
        },
        None => None,
    };
    let (name, semantic, url, state) = match tier {
        TierReport::Server { url, semantic, embedder_state, .. } => (
            "server".to_owned(),
            *semantic,
            Some(url.clone()),
            embedder_name(*embedder_state),
        ),
        TierReport::Offline { .. } => ("offline".to_owned(), false, None, None),
    };
    StatusFields {
        embedding_dim: if stats.embedding_count > 0 {
            Some(crate::memory::sync::local_embed::EMBEDDING_DIM as u64)
        } else {
            None
        },
        has_semantic_search: semantic,
        last_indexed_at,
        tier: name,
        server_url: url,
        embedder_state: state,
        worker_reported: pending_chunks > 0 || refresh_pending > 0,
        refresh_pending: if refresh_pending > 0 {
            Some(refresh_pending)
        } else {
            None
        },
        sync_pending: if local_first {
            sync_pending
        } else {
            None
        },
        sync_last_synced_at,
        search_calls: last_usage(usage, "search"),
        memory_search_calls: last_usage(usage, "memory search"),
    }
}

// ---- what a status tells ---------------------------------------------------

/// Where entries are kept is told in words for the backends that are known, and by
/// its own name for any other.
pub proof fn law_a_backend_says_where_it_keeps_entries(kind: Seq<char>)
    ensures
        backend_label("sqlite"@) == "sqlite (local)"@,
        backend_label("git-notes"@) == "git-notes (local)"@,
        backend_label("remote"@) == "remote (server)"@,
        kind != "sqlite"@ && kind != "git-notes"@ && kind != "remote"@ ==> backend_label(kind)
            == kind,
{
    reveal_strlit("sqlite");
    reveal_strlit("git-notes");
    reveal_strlit("remote");
    assert("sqlite"@[0] != "git-notes"@[0]);
    assert("sqlite"@[0] != "remote"@[0]);
    assert("git-notes"@[0] != "remote"@[0]);
}

/// An embedder's state has a line unless it is not known. A model that failed on
/// another machine's server names that server.
pub proof fn law_an_embedder_tells_its_state(s: EmbedderState, remote_url: Option<Seq<char>>)
    ensures
        embedder_text(s, remote_url) is None <==> s is Unknown,
        s is Unavailable && remote_url is Some ==> occurs(
            embedder_text(s, remote_url)->0,
            remote_url->0,
        ),
        !(s is Unavailable) ==> embedder_text(s, remote_url) == embedder_text(s, None),
        state_name(s) is None <==> s is Unknown,
{
    if s is Unavailable && remote_url is Some {
        lemma_occurs_within(
            "  embedder        \x1b[31munavailable\x1b[0m  [model failed to load on team server "@,
            remote_url->0,
            "; check that server's own logs]"@,
        );
    }
}

/// Different states have different names.
pub proof fn law_states_are_told_apart(a: EmbedderState, b: EmbedderState)
    requires
        state_name(a) == state_name(b),
    ensures
        a == b,
{
    reveal_strlit("loading");
    reveal_strlit("ready");
    reveal_strlit("unavailable");
    reveal_strlit("disabled");
    assert("loading"@[0] != "ready"@[0]);
    assert("loading"@[0] != "unavailable"@[0]);
    assert("loading"@[0] != "disabled"@[0]);
    assert("ready"@[0] != "unavailable"@[0]);
    assert("ready"@[0] != "disabled"@[0]);
    assert("unavailable"@[0] != "disabled"@[0]);
}

/// The time that is left is told in seconds below a minute; below an hour in whole
/// minutes, a minute that was begun counting; and else in hours and whole minutes.
pub proof fn law_the_time_left_is_told_in_its_unit(secs: nat)
    ensures
        secs < 60 ==> eta_text(secs) == "~"@ + dec(secs) + "s left"@,
        60 <= secs < 3600 ==> exists|q: nat|
            60 * q < secs + 60 && secs <= 60 * q && eta_text(secs) == "~"@ + #[trigger] dec(q)
                + " min left"@,
        3600 <= secs ==> exists|h: nat, m: nat|
            m < 60 && 3600 * h + 60 * m <= secs < 3600 * h + 60 * m + 60 && eta_text(secs) == "~"@
                + #[trigger] dec(h) + "h"@ + #[trigger] two_digits(m) + "m left"@,
{
    if 60 <= secs < 3600 {
        assert(eta_text(secs) == "~"@ + dec((secs + 59) / 60) + " min left"@);
    } else if 3600 <= secs {
        let h = secs / 3600;
        let m = (secs % 3600) / 60;
        assert(m < 60 && 3600 * h + 60 * m <= secs < 3600 * h + 60 * m + 60);
        assert(eta_text(secs) == "~"@ + dec(h) + "h"@ + two_digits(m) + "m left"@);
    }
}

/// A number below a hundred takes two places, and reads as itself.
pub proof fn law_two_digits_take_two_places(n: nat)
    requires
        n < 100,
    ensures
        two_digits(n).len() == 2,
        crate::text::digits_value(two_digits(n)) == Some(n),
{
    if n < 10 {
        let s = two_digits(n);
        assert(s.drop_last() =~= seq!['0']);
        assert(s.last() == crate::text::digit(n as int));
        crate::text::law_digits_are_in_order(n as int);
        assert(crate::text::digits_value(seq!['0']) == Some(0nat));
    } else {
        crate::text::law_a_number_reads_back(n);
        assert(dec(n / 10).len() == 1);
    }
}

/// The work that is done is the share of the tokens that are not left, and none of
/// it where more are left than there are.
pub proof fn law_work_is_told_by_its_tokens(
    worker_alive: bool,
    total_tokens: int,
    pending_tokens: int,
    eta: Option<u64>,
)
    requires
        total_tokens > 0,
    ensures
        0 <= pending_tokens <= total_tokens ==> crate::text::begins(
            progress_text(worker_alive, total_tokens, pending_tokens, eta),
            dec(percent(total_tokens - pending_tokens, total_tokens)) + "% of work done"@,
        ),
        pending_tokens > total_tokens ==> crate::text::begins(
            progress_text(worker_alive, total_tokens, pending_tokens, eta),
            dec(0) + "% of work done"@,
        ),
        worker_alive && eta is Some ==> crate::text::ends(
            progress_text(worker_alive, total_tokens, pending_tokens, eta),
            eta_text(eta->0 as nat),
        ),
{
    let t = progress_text(worker_alive, total_tokens, pending_tokens, eta);
    if 0 <= pending_tokens <= total_tokens {
        let a = dec(percent(total_tokens - pending_tokens, total_tokens)) + "% of work done"@;
        assert(t.subrange(0, a.len() as int) =~= a);
    }
    if pending_tokens > total_tokens {
        assert(percent(0, total_tokens) == 0) by (nonlinear_arith)
            requires
                total_tokens > 0,
        ;
        let a = dec(0) + "% of work done"@;
        assert(t.subrange(0, a.len() as int) =~= a);
    }
    if worker_alive && eta is Some {
        let e = eta_text(eta->0 as nat);
        assert(t.subrange(t.len() - e.len(), t.len() as int) =~= e);
    }
}

/// The line of an unfinished embedding names what is searchable of what there is.
pub proof fn law_the_line_says_what_is_searchable(
    worker_alive: bool,
    embedder_unavailable: bool,
    embeddable: int,
    embedded: int,
    total_tokens: int,
    pending_tokens: int,
    eta: Option<u64>,
)
    ensures
        occurs(
            embedding_text(
                worker_alive,
                embedder_unavailable,
                embeddable,
                embedded,
                total_tokens,
                pending_tokens,
                eta,
            ),
            "searchable "@ + dec_int(embedded) + "/"@ + dec_int(embeddable) + " chunks ("@ + dec(
                percent(embedded, embeddable),
            ) + "%)"@,
        ),
{
    let told = "searchable "@ + dec_int(embedded) + "/"@ + dec_int(embeddable) + " chunks ("@ + dec(
        percent(embedded, embeddable),
    ) + "%)"@;
    let rest = "  \u{b7}  "@ + progress_text(worker_alive, total_tokens, pending_tokens, eta)
        + tail_text(worker_alive, embedder_unavailable);
    lemma_occurs_within(head_text(worker_alive), told, rest);
    assert(embedding_text(
        worker_alive,
        embedder_unavailable,
        embeddable,
        embedded,
        total_tokens,
        pending_tokens,
        eta,
    ) =~= head_text(worker_alive) + told + rest);
}

/// A project that has nothing to send and never synced says nothing of it; any other
/// says how much waits, or that it is up to date, and what went wrong, as far as
/// eighty characters tell it.
pub proof fn law_a_sync_that_never_was_is_not_told(
    pending: i64,
    last_synced_at: Option<i64>,
    last_error: Option<Seq<char>>,
    now: i64,
)
    ensures
        sync_suffix_text(pending, last_synced_at, last_error, now) is None <==> pending == 0
            && last_synced_at is None && last_error is None,
        pending > 0 ==> crate::text::begins(
            sync_suffix_text(pending, last_synced_at, last_error, now)->0,
            "  \u{b7}  "@ + dec_int(pending as int) + " pending"@,
        ),
        pending <= 0 && sync_suffix_text(pending, last_synced_at, last_error, now) is Some
            ==> crate::text::begins(
            sync_suffix_text(pending, last_synced_at, last_error, now)->0,
            "  \u{b7}  "@ + "up to date"@,
        ),
        last_error is Some && last_error->0.len() <= 80 ==> last_error->0.is_suffix_of(
            sync_suffix_text(pending, last_synced_at, last_error, now)->0,
        ),
        last_synced_at is Some && last_error is None ==> (", last synced "@ + age(
            last_synced_at->0,
            now,
        )).is_suffix_of(sync_suffix_text(pending, last_synced_at, last_error, now)->0),
{
    if sync_suffix_text(pending, last_synced_at, last_error, now) is Some {
        let t = sync_suffix_text(pending, last_synced_at, last_error, now)->0;
        let a = if pending > 0 {
            "  \u{b7}  "@ + dec_int(pending as int) + " pending"@
        } else {
            "  \u{b7}  "@ + "up to date"@
        };
        assert(t.subrange(0, a.len() as int) =~= a);
        if last_error is Some && last_error->0.len() <= 80 {
            let e = last_error->0;
            assert(t.subrange(t.len() - e.len(), t.len() as int) =~= e);
        }
        if last_synced_at is Some && last_error is None {
            let s = ", last synced "@ + age(last_synced_at->0, now);
            assert(t.subrange(t.len() - s.len(), t.len() as int) =~= s);
        }
    }
}

/// The tier names the server it found, says that search is semantic if and only if
/// it is, and where memory is kept.
#[verifier::rlimit(60)]
pub proof fn law_a_tier_says_what_search_can_do(
    tier: TierReport,
    mode_line: Option<Seq<char>>,
    mem_label: Seq<char>,
)
    ensures
        ({
            let ls = tier_lines(tier, mode_line, mem_label);
            &&& ls[ls.len() - 2] == (false, "  memory          "@ + mem_label)
            &&& ls[ls.len() - 1] == (false, Seq::<char>::empty())
            &&& mode_line is Some ==> ls[1] == (false, mode_line->0)
            &&& ls[0].0
            &&& tier is Server ==> occurs(ls[0].1, tier->url@)
            &&& tier is Server && mode_line is None && tier->semantic ==> ls[1] == (
                false,
                "  search          "@ + "text + semantic"@,
            )
            &&& tier is Server && mode_line is None && !tier->semantic ==> ls[1] == (
                false,
                "  search          "@ + "text"@,
            )
            &&& tier is Offline && mode_line is None ==> ls[1] == (
                false,
                "  search          text"@ + tier->hint@,
            )
        }),
{
    if let TierReport::Server { url, auto_discovered, semantic, embedder_state } = tier {
        let head = "Capability tier:  \x1b[32mServer\x1b[0m  \x1b[2m("@;
        let rest = (if auto_discovered {
            "  \x1b[2m(local, auto)\x1b[0m"@
        } else {
            ""@
        }) + ")\x1b[0m"@;
        lemma_occurs_within(head, url@, rest);
        assert(tier_lines(tier, mode_line, mem_label)[0].1 =~= head + url@ + rest);
    }
}

/// A project's row begins with its files, its chunks and its embeddings, and ends
/// with its root, which is marked where it is gone.
pub proof fn law_a_row_shows_a_project_and_its_size(p: ProjectEntry, now: i64)
    ensures
        p.stats is Some ==> crate::text::begins(
            list_row(p, now),
            left_aligned(dec_int(p.stats->0.file_count as int), 6) + "  "@ + left_aligned(
                dec_int(p.stats->0.chunk_count as int),
                8,
            ) + "  "@ + left_aligned(dec_int(p.stats->0.embedding_count as int), 10),
        ),
        p.root_exists ==> p.root_path@.is_suffix_of(list_row(p, now)),
        !p.root_exists ==> (p.root_path@ + " [missing]"@).is_suffix_of(list_row(p, now)),
{
    reveal_strlit("");
    let r = list_row(p, now);
    if p.stats is Some {
        let s = p.stats->0;
        let a = left_aligned(dec_int(s.file_count as int), 6) + "  "@ + left_aligned(
            dec_int(s.chunk_count as int),
            8,
        ) + "  "@ + left_aligned(dec_int(s.embedding_count as int), 10);
        assert(r.subrange(0, a.len() as int) =~= a);
    }
    let end = if p.root_exists {
        p.root_path@
    } else {
        p.root_path@ + " [missing]"@
    };
    assert(r.subrange(r.len() - end.len(), r.len() as int) =~= end);
}

/// A list has two lines of headings and then a row for each project, in order.
pub proof fn law_each_project_has_its_row(ps: Seq<ProjectEntry>, now: i64, i: int)
    requires
        0 <= i < ps.len(),
    ensures
        list_lines(ps, now).len() == ps.len() + 2,
        list_lines(ps, now)[2 + i] == (false, list_row(ps[i], now)),
        project_blocks(ps, now, i + 1) == project_blocks(ps, now, i) + project_block(ps[i], now),
        all_lines(ps, now) == project_blocks(ps, now, ps.len() as int),
{
}

/// A project's block shows its root, its database, its size and what it depends on,
/// each dependency in a line of its own.
#[verifier::rlimit(60)]
pub proof fn law_a_block_shows_a_project(p: ProjectEntry, now: i64, i: int)
    ensures
        ({
            let b = project_block(p, now);
            let at = if p.root_exists {
                1int
            } else {
                2int
            };
            let deps = if p.deps@.len() > 0 {
                1 + p.deps@.len() as int
            } else {
                0
            };
            &&& b[0] == (true, "\x1b[1m"@ + p.root_path@ + "\x1b[0m"@)
            &&& b[at] == (false, "  DB: "@ + p.db_path@)
            &&& b[at + 1] == (false, "  Registered: "@ + age(p.registered_at, now))
            &&& p.stats is Some ==> b[at + 2] == (
                false,
                "  Files: "@ + dec_int(p.stats->0.file_count as int) + "  Chunks: "@ + dec_int(
                    p.stats->0.chunk_count as int,
                ) + "  Embeddings: "@ + dec_int(p.stats->0.embedding_count as int),
            )
            &&& 0 <= i < p.deps@.len() ==> b[b.len() - 1 - p.deps@.len() + i] == (
                false,
                "    → "@ + p.deps@[i]@,
            )
            &&& b.len() == at + 3 + (if p.stats is Some && p.stats->0.last_indexed is Some {
                1int
            } else {
                0
            }) + deps + 1
        }),
{
    lemma_occurs_within("\x1b[1m"@, p.root_path@, "\x1b[0m"@);
}

/// The size of an index is told in four lines: where it is, and how many files,
/// chunks and embeddings it has.
#[verifier::rlimit(60)]
pub proof fn law_the_size_of_an_index_is_told(s: StatusInput)
    ensures
        ({
            let ls = size_lines(s);
            let n = ls.len();
            &&& n == (if s.project_root is Some {
                5int
            } else {
                4
            })
            &&& s.project_root is Some ==> occurs(ls[0].1, s.project_root->0@)
            &&& ls[n - 4] == (false, "Index:      "@ + s.db_path@)
            &&& ls[n - 3] == (false, "Files:      "@ + dec_int(s.stats.file_count as int))
            &&& ls[n - 2] == (false, "Chunks:     "@ + dec_int(s.stats.chunk_count as int))
            &&& crate::text::begins(
                ls[n - 1].1,
                "Embeddings: "@ + dec_int(s.stats.embedding_count as int),
            )
            &&& s.text_only_count > 0 ==> crate::text::ends(
                ls[n - 1].1,
                " ("@ + dec_int(s.text_only_count as int) + " chunks full-text only)"@,
            )
        }),
{
    let ls = size_lines(s);
    let last = ls.last().1;
    let a = "Embeddings: "@ + dec_int(s.stats.embedding_count as int);
    let b = if s.text_only_count > 0 {
        " ("@ + dec_int(s.text_only_count as int) + " chunks full-text only)"@
    } else {
        Seq::<char>::empty()
    };
    assert(last == a + b);
    lemma_begin_and_end(a, b);
    if s.project_root is Some {
        lemma_occurs_within("Project: \x1b[1m"@, s.project_root->0@, "\x1b[0m"@);
    }
}

proof fn lemma_begin_and_end(a: Seq<char>, b: Seq<char>)
    ensures
        crate::text::begins(a + b, a),
        crate::text::ends(a + b, b),
{
    let t = a + b;
    assert(t.subrange(0, a.len() as int) =~= a);
    assert(t.subrange(t.len() - b.len(), t.len() as int) =~= b);
}

/// What is wrong with an index is told, and nothing where nothing is: that a rebuild
/// emptied it, that chunks or entries have no vector; and when it was last made.
pub proof fn law_only_what_is_wrong_is_told(s: StatusInput, now: i64)
    ensures
        s.rebuilt_from is None && s.pending is None && (!s.memory_exists || s.memory_missing is None
            || s.memory_missing->0 == 0) && s.stats.last_indexed is None ==> state_lines(
            s,
            now,
        ).len() == 0,
        s.rebuilt_from is Some ==> state_lines(s, now)[0] == (true, rebuilt_text(s.rebuilt_from->0)),
        s.stats.last_indexed is Some ==> state_lines(s, now).last() == (
            false,
            "Last index: "@ + age(s.stats.last_indexed->0, now),
        ),
        s.stats.last_indexed is None && s.memory_exists && s.memory_missing is Some
            && s.memory_missing->0 > 0 ==> state_lines(s, now).last() == (
            true,
            memory_pending_text(s.memory_missing->0 as nat),
        ),
        s.memory_missing is Some ==> occurs(
            memory_pending_text(s.memory_missing->0 as nat),
            dec(s.memory_missing->0 as nat),
        ),
        s.pending is Some ==> (pending_lines(s.pending->0, s.stats.embedding_count).len() == 0 <==> (
        s.pending->0.embeddable_count <= 0 || s.stats.embedding_count
            >= s.pending->0.embeddable_count) && s.pending->0.embed_threads != Some(1usize)),
{
    if s.memory_missing is Some {
        let m = s.memory_missing->0 as nat;
        let rest = " entr"@ + entry_ending(m as int)
            + " not in semantic search; run 'inkentry memory reindex']\x1b[0m"@;
        lemma_occurs_within("\x1b[33m[Memory: "@, dec(m), rest);
        assert(memory_pending_text(m) =~= "\x1b[33m[Memory: "@ + dec(m) + rest);
    }
}

/// Each dependency has a line, which names its root and its size.
pub proof fn law_each_dependency_has_its_line(deps: Seq<DepEntry>, i: int)
    requires
        0 <= i < deps.len(),
    ensures
        deps_lines(deps).len() == deps.len() + 1,
        deps_lines(deps)[1 + i] == (false, dep_line(deps[i])),
        crate::text::begins(dep_line(deps[i]), "  → "@ + deps[i].root_path@),
        match deps[i].size {
            Some((files, chunks)) => crate::text::ends(
                dep_line(deps[i]),
                "  ("@ + dec_int(files as int) + " files, "@ + dec_int(chunks as int) + " chunks"@
                    + ")"@,
            ),
            None => crate::text::ends(dep_line(deps[i]), "not indexed"@ + ")"@),
        },
{
    let l = dep_line(deps[i]);
    let a = "  → "@ + deps[i].root_path@;
    assert(l.subrange(0, a.len() as int) =~= a);
    if let Some((files, chunks)) = deps[i].size {
        let b = "  ("@ + dec_int(files as int) + " files, "@ + dec_int(chunks as int) + " chunks"@
            + ")"@;
        assert(l.subrange(l.len() - b.len(), l.len() as int) =~= b);
    } else {
        let b = "not indexed"@ + ")"@;
        assert(l.subrange(l.len() - b.len(), l.len() as int) =~= b);
    }
}

/// Each file that fell behind has a line, which begins with by how many days and
/// ends with its callers and its path.
pub proof fn law_each_stale_file_has_its_line(drift: Seq<DriftEntry>, i: int)
    requires
        0 <= i < drift.len(),
    ensures
        drift_lines(drift).len() == drift.len() + 4,
        drift_lines(drift)[3 + i] == (false, drift_line(drift[i])),
        crate::text::begins(
            drift_line(drift[i]),
            "  "@ + left_aligned(dec_int(drift[i].days_behind as int), 6),
        ),
        crate::text::ends(
            drift_line(drift[i]),
            left_aligned(
                if drift[i].caller_count > 0 {
                    dec_int(drift[i].caller_count as int)
                } else {
                    "—"@
                },
                8,
            ) + "  "@ + drift[i].path@,
        ),
{
    let a = "  "@ + left_aligned(dec_int(drift[i].days_behind as int), 6);
    let c = left_aligned(
        if drift[i].caller_count > 0 {
            dec_int(drift[i].caller_count as int)
        } else {
            "—"@
        },
        8,
    ) + "  "@ + drift[i].path@;
    assert(drift_line(drift[i]) =~= a + ("  "@ + c));
    assert(drift_line(drift[i]) =~= (a + "  "@) + c);
    lemma_begin_and_end(a, "  "@ + c);
    lemma_begin_and_end(a + "  "@, c);
}

/// How often a command ran is what its entry says: the first of several in the
/// lines, the last for programs; zero where there is none.
pub proof fn law_use_is_what_its_entry_says(usage: Seq<UsageCount>, command: Seq<char>, i: int)
    requires
        0 <= i < usage.len(),
        usage[i].command@ == command,
    ensures
        (forall|k: int| 0 <= k < i ==> (#[trigger] usage[k]).command@ != command) ==> usage_of(
            usage,
            command,
        ) == usage[i].count,
        (forall|k: int| i < k < usage.len() ==> (#[trigger] usage[k]).command@ != command)
            ==> last_usage_of(usage, command) == usage[i].count,
    decreases usage.len(),
{
    if i > 0 {
        let s = usage.skip(1);
        assert(s[i - 1] == usage[i]);
        law_use_is_what_its_entry_says(s, command, i - 1);
        if forall|k: int| 0 <= k < i ==> (#[trigger] usage[k]).command@ != command {
            assert(usage[0].command@ != command);
            assert forall|k: int| 0 <= k < i - 1 implies (#[trigger] s[k]).command@ != command by {
                assert(s[k] == usage[k + 1]);
            }
        }
    }
    if i < usage.len() - 1 {
        let d = usage.drop_last();
        assert(d[i] == usage[i]);
        law_use_is_what_its_entry_says(d, command, i);
        if forall|k: int| i < k < usage.len() ==> (#[trigger] usage[k]).command@ != command {
            assert(usage[usage.len() - 1].command@ != command);
            assert forall|k: int| i < k < d.len() implies (#[trigger] d[k]).command@
                != command by {
                assert(d[k] == usage[k]);
            }
        }
    }
}

/// A command without an entry was not used.
pub proof fn law_a_command_without_an_entry_was_not_used(
    usage: Seq<UsageCount>,
    command: Seq<char>,
)
    requires
        forall|k: int| 0 <= k < usage.len() ==> (#[trigger] usage[k]).command@ != command,
    ensures
        usage_of(usage, command) == 0,
        last_usage_of(usage, command) == 0,
    decreases usage.len(),
{
    if usage.len() > 0 {
        let s = usage.skip(1);
        let d = usage.drop_last();
        assert forall|k: int| 0 <= k < s.len() implies (#[trigger] s[k]).command@ != command by {
            assert(s[k] == usage[k + 1]);
        }
        assert forall|k: int| 0 <= k < d.len() implies (#[trigger] d[k]).command@ != command by {
            assert(d[k] == usage[k]);
        }
        law_a_command_without_an_entry_was_not_used(s, command);
        law_a_command_without_an_entry_was_not_used(d, command);
        assert(usage[0].command@ != command);
        assert(usage[usage.len() - 1].command@ != command);
    }
}

/// Uses are told where there were any: those of `search` and of `context`, each with
/// its count.
pub proof fn law_uses_are_told_where_there_were_any(usage: Seq<UsageCount>)
    ensures
        total_usage(usage, usage.len() as int) <= 0 ==> usage_lines(usage).len() == 0,
        total_usage(usage, usage.len() as int) > 0 ==> usage_lines(usage).len() == 1 + (if usage_of(
            usage,
            "search"@,
        ) > 0 {
            1int
        } else {
            0
        }) + (if usage_of(usage, "context"@) > 0 {
            1int
        } else {
            0
        }),
        total_usage(usage, usage.len() as int) > 0 && usage_of(usage, "search"@) > 0
            ==> usage_lines(usage)[1] == (
            false,
            "  "@ + left_aligned("search"@, 16) + "  "@ + dec_int(
                usage_of(usage, "search"@) as int,
            ) + " calls"@,
        ),
{
}

/// Where no project is registered, that is said and nothing else.
pub proof fn law_no_projects_are_told_as_none(now: i64)
    ensures
        all_lines(Seq::<ProjectEntry>::empty(), now) == seq![
            (false, "No projects registered. Run `inkentry index <path>` to get started."@),
        ],
        list_lines(Seq::<ProjectEntry>::empty(), now) == all_lines(
            Seq::<ProjectEntry>::empty(),
            now,
        ),
{
}

/// The uses of one more command add to all uses.
pub proof fn law_uses_add_up(usage: Seq<UsageCount>, n: int)
    requires
        0 <= n < usage.len(),
    ensures
        total_usage(usage, n + 1) == total_usage(usage, n) + usage[n].count,
        total_usage(usage, 0) == 0,
{
}

/// A status shows the tier, then the size of the index, what is wrong with it, the
/// dependencies, the files that fell behind, and the uses, each part whole.
pub proof fn law_a_status_shows_its_parts_in_order(s: StatusInput, now: i64)
    ensures
        ({
            let all = status_lines(s, now);
            let a = tier_lines(s.tier, opt_text(s.mode_line), s.mem_label@);
            let b = size_lines(s);
            let c = state_lines(s, now);
            let d = deps_lines(s.deps@);
            let e = drift_lines(s.drift@);
            let f = usage_lines(s.usage@);
            let ab = (a.len() + b.len()) as int;
            let abc = ab + c.len();
            let abcd = abc + d.len();
            let abcde = abcd + e.len();
            &&& all.subrange(0, a.len() as int) == a
            &&& all.subrange(a.len() as int, ab) == b
            &&& all.subrange(ab, abc) == c
            &&& all.subrange(abc, abcd) == d
            &&& all.subrange(abcd, abcde) == e
            &&& all.subrange(abcde, all.len() as int) == f
            &&& all.len() == abcde + f.len()
        }),
{
    let all = status_lines(s, now);
    let a = tier_lines(s.tier, opt_text(s.mode_line), s.mem_label@);
    let b = size_lines(s);
    let c = state_lines(s, now);
    let d = deps_lines(s.deps@);
    let e = drift_lines(s.drift@);
    let f = usage_lines(s.usage@);
    let ab = (a.len() + b.len()) as int;
    let abc = ab + c.len();
    let abcd = abc + d.len();
    let abcde = abcd + e.len();
    lemma_six(a, b, c, d, e, f);
    assert(all == a + b + c + d + e + f);
}

proof fn lemma_six(
    a: Seq<(bool, Seq<char>)>,
    b: Seq<(bool, Seq<char>)>,
    c: Seq<(bool, Seq<char>)>,
    d: Seq<(bool, Seq<char>)>,
    e: Seq<(bool, Seq<char>)>,
    f: Seq<(bool, Seq<char>)>,
)
    ensures
        ({
            let all = a + b + c + d + e + f;
            let ab = (a.len() + b.len()) as int;
            let abc = ab + c.len();
            let abcd = abc + d.len();
            let abcde = abcd + e.len();
            &&& all.subrange(0, a.len() as int) == a
            &&& all.subrange(a.len() as int, ab) == b
            &&& all.subrange(ab, abc) == c
            &&& all.subrange(abc, abcd) == d
            &&& all.subrange(abcd, abcde) == e
            &&& all.subrange(abcde, all.len() as int) == f
            &&& all.len() == abcde + f.len()
        }),
{
    let all = a + b + c + d + e + f;
    let ab = (a.len() + b.len()) as int;
    let abc = ab + c.len();
    let abcd = abc + d.len();
    let abcde = abcd + e.len();
    assert(all.subrange(0, a.len() as int) =~= a);
    assert(all.subrange(a.len() as int, ab) =~= b);
    assert(all.subrange(ab, abc) =~= c);
    assert(all.subrange(abc, abcd) =~= d);
    assert(all.subrange(abcd, abcde) =~= e);
    assert(all.subrange(abcde, all.len() as int) =~= f);
}

} // verus!
