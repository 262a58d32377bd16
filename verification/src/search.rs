//! Searching code and memory: how much is fetched, what is kept, and what is
//! said of what could not be searched.

use crate::order::{lemma_insert_at, positions, stable_order};
use crate::text::{
    chars_of, dec, dec_i64, dec_int, dec_u64, dec_usize, join, joined, lemma_occurs_between,
    lemma_texts_push, lines_of, occurs, opt_str, opt_text, same, texts,
};
use crate::ui::{
    at_most, chunk_name, display_name, indented, line_models, push_plain, push_preview, push_styled,
    Line,
};
use vstd::prelude::*;
use vstd::string::*;

verus! {

/// A chunk of code that a search found. `distance` orders the hits as the
/// distances themselves do: it is the rank of the distance among all floats.
pub struct CodeHit {
    pub chunk_id: i64,
    pub file_path: String,
    pub language: String,
    pub start_line: usize,
    pub end_line: usize,
    pub node_type: String,
    pub name: Option<String>,
    pub content: String,
    pub summary: Option<String>,
    pub token_count: usize,
    pub from_graph: bool,
    pub project_name: Option<String>,
    pub project_path: Option<String>,
    pub governing_specs: Vec<String>,
    pub distance: i32,
}

/// A memory entry that a search found.
pub struct MemoryHit {
    pub id: String,
    pub kind: String,
    pub title: String,
    pub body: String,
    pub source_project: Option<String>,
}

/// One result of either kind; without a rank it is an attachment.
pub struct UnifiedResult {
    pub code: Option<CodeHit>,
    pub memory: Option<MemoryHit>,
    pub fused_rank: Option<usize>,
}

// ---- what is searched ------------------------------------------------------

/// What a search reads and how much of it.
#[derive(Clone, Copy, PartialEq, Eq, Structural, Debug)]
pub struct SearchPlan {
    pub want_code: bool,
    pub want_memory: bool,
    /// Whether the query is embedded for the code corpus.
    pub embed_code: bool,
    /// Whether the query is embedded for the memory corpus.
    pub embed_memory: bool,
    /// How many results each corpus is asked for.
    pub fetch_limit: usize,
    /// How many results are kept once the two lists are fused.
    pub fuse_cap: usize,
    /// How many memory entries are attached.
    pub attach_limit: usize,
}

/// How many results are shown at most, whatever is asked for.
pub const MAX_RESULTS: usize = 100;

/// How many results each corpus is asked for: enough for fusion, never more
/// than a hundred.
pub open spec fn fetch_limit(limit: usize, budget: Option<usize>) -> int {
    match budget {
        Some(b) => if b / 50 < 20 {
            20
        } else if b / 50 > 100 {
            100
        } else {
            (b / 50) as int
        },
        None => at_most(limit as int, MAX_RESULTS as int),
    }
}

/// What a search reads and how much of it. A corpus that is left out is not
/// embedded for, and a text search embeds nothing.
pub open spec fn plan_of(
    only_code: bool,
    only_memory: bool,
    only_text: bool,
    limit: usize,
    budget: Option<usize>,
) -> SearchPlan {
    SearchPlan {
        want_code: !only_memory,
        want_memory: !only_code,
        embed_code: !only_text && !only_memory,
        embed_memory: !only_text && !only_code,
        fetch_limit: fetch_limit(limit, budget) as usize,
        fuse_cap: if budget is Some {
            (2 * fetch_limit(limit, budget)) as usize
        } else {
            fetch_limit(limit, None) as usize
        },
        attach_limit: at_most(limit as int, MAX_RESULTS as int) as usize,
    }
}

/// What a search reads and how much of it.
pub fn search_plan(
    only_code: bool,
    only_memory: bool,
    only_text: bool,
    limit: usize,
    budget: Option<usize>,
) -> (r: SearchPlan)
    ensures
        r == plan_of(only_code, only_memory, only_text, limit, budget),
        r.want_code == !only_memory,
        r.want_memory == !only_code,
        r.embed_code == (r.want_code && !only_text),
        r.embed_memory == (r.want_memory && !only_text),
        r.attach_limit <= limit && r.attach_limit <= 100,
        limit <= 100 ==> r.attach_limit == limit,
        budget is None ==> r.fetch_limit == r.attach_limit && r.fuse_cap == r.attach_limit,
        budget is Some ==> r.fuse_cap == r.fetch_limit + r.fetch_limit,
        budget is Some && 1000 <= budget->0 <= 5000 ==> 50 * r.fetch_limit <= budget->0 < 50 * (
        r.fetch_limit + 1),
        budget is Some ==> 20 <= r.fetch_limit,
        r.fetch_limit <= 100,
{
    let asked: usize = if limit < MAX_RESULTS {
        limit
    } else {
        MAX_RESULTS
    };
    let fetch: usize = match budget {
        Some(b) => {
            let wanted: usize = b / 50;
            if wanted < 20 {
                20
            } else if wanted > 100 {
                100
            } else {
                wanted
            }
        },
        None => asked,
    };
    SearchPlan {
        want_code: !only_memory,
        want_memory: !only_code,
        embed_code: !only_text && !only_memory,
        embed_memory: !only_text && !only_code,
        fetch_limit: fetch,
        fuse_cap: if budget.is_some() {
            fetch * 2
        } else {
            fetch
        },
        attach_limit: asked,
    }
}

/// A search reads just the corpora it was not kept from, and embeds for none that
/// it does not read; a text search embeds for none at all.
pub proof fn law_a_search_reads_what_it_is_asked(
    only_code: bool,
    only_memory: bool,
    only_text: bool,
    limit: usize,
    budget: Option<usize>,
)
    ensures
        ({
            let p = plan_of(only_code, only_memory, only_text, limit, budget);
            &&& p.want_code <==> !only_memory
            &&& p.want_memory <==> !only_code
            &&& p.embed_code ==> p.want_code
            &&& p.embed_memory ==> p.want_memory
            &&& only_text ==> !p.embed_code && !p.embed_memory
            &&& !only_text && p.want_code ==> p.embed_code
            &&& !only_text && p.want_memory ==> p.embed_memory
        }),
{
}

/// Without a budget as many results are kept as were fetched; with one, twice as
/// many, as the budget cuts the list. Entries are attached as far as results were
/// asked for, and a hundred at most, whatever the budget.
pub proof fn law_a_search_keeps_what_it_fetched(
    only_code: bool,
    only_memory: bool,
    only_text: bool,
    limit: usize,
    budget: Option<usize>,
)
    ensures
        ({
            let p = plan_of(only_code, only_memory, only_text, limit, budget);
            &&& p.fetch_limit == fetch_limit(limit, budget)
            &&& budget is None ==> p.fuse_cap == p.fetch_limit
            &&& budget is Some ==> p.fuse_cap == p.fetch_limit + p.fetch_limit
            &&& p.attach_limit <= limit && p.attach_limit <= 100
            &&& limit <= 100 ==> p.attach_limit == limit
            &&& limit > 100 ==> p.attach_limit == 100
        }),
{
}

/// A larger limit or budget never asks for less, and what is asked for stays
/// between the bounds.
pub proof fn law_more_is_never_less(limit: usize, more: usize, b: usize, c: usize)
    requires
        limit <= more,
        b <= c,
    ensures
        fetch_limit(limit, None) <= fetch_limit(more, None) <= 100,
        fetch_limit(limit, None) <= limit,
        limit <= 100 ==> fetch_limit(limit, None) == limit,
        20 <= fetch_limit(limit, Some(b)) <= fetch_limit(more, Some(c)) <= 100,
        fetch_limit(limit, Some(b)) == fetch_limit(more, Some(b)),
        fetch_limit(limit, Some(b)) > 20 ==> 50 * fetch_limit(limit, Some(b)) <= b,
        fetch_limit(limit, Some(b)) < 100 ==> b < 50 * (fetch_limit(limit, Some(b)) + 1),
{
}

/// Whether semantic ranking is missing from a search: there was no server, or
/// it gave no embedding for a corpus that is searched. A text search misses
/// nothing.
pub fn embed_degraded(
    only_text: bool,
    want_code: bool,
    want_memory: bool,
    has_client: bool,
    code_embedded: bool,
    memory_embedded: bool,
) -> (r: bool)
    ensures
        r == (!only_text && (!has_client || (want_code && !code_embedded) || (want_memory
            && !memory_embedded))),
{
    if only_text {
        return false;
    }
    !has_client || (want_code && !code_embedded) || (want_memory && !memory_embedded)
}

// ---- notices ---------------------------------------------------------------

/// `part` of `total` in whole percent, as far as the arithmetic goes.
pub open spec fn percent(part: int, total: int) -> nat {
    if total > 0 {
        let scaled = 100 * (if part > 0 {
            part
        } else {
            0
        });
        ((if scaled > u64::MAX {
            u64::MAX as int
        } else {
            scaled
        }) / total) as nat
    } else {
        0
    }
}

/// `part` of `total` in whole percent.
pub fn whole_percent(part: i64, total: i64) -> (r: u64)
    ensures
        r == percent(part as int, total as int),
{
    if total > 0 {
        let p: u64 = if part > 0 {
            part as u64
        } else {
            0
        };
        let scaled: u64 = match p.checked_mul(100) {
            Some(s) => s,
            None => u64::MAX,
        };
        scaled / (total as u64)
    } else {
        0
    }
}

/// A part is never more than all of it: the percentage is a hundred at most,
/// and a hundred for the whole.
pub proof fn law_percent_is_at_most_a_hundred(part: int, total: int)
    requires
        0 <= part <= total,
        100 * total <= u64::MAX,
    ensures
        percent(part, total) <= 100,
        total > 0 ==> percent(total, total) == 100,
{
    if total > 0 {
        assert((100 * part) / total <= 100) by (nonlinear_arith)
            requires
                0 <= part <= total,
                total > 0,
        ;
        assert((100 * total) / total == 100) by (nonlinear_arith)
            requires
                total > 0,
        ;
    }
}

/// The percentage is the share rounded down.
pub proof fn law_percent_is_the_share_rounded_down(part: int, total: int)
    requires
        0 <= part,
        0 < total,
        100 * part <= u64::MAX,
    ensures
        percent(part, total) * total <= 100 * part < (percent(part, total) + 1) * total,
{
    let scaled = 100 * part;
    let q = scaled / total;
    assert(q * total <= scaled < (q + 1) * total) by (nonlinear_arith)
        requires
            total > 0,
            scaled >= 0,
            q == scaled / total,
    ;
    assert(q >= 0) by (nonlinear_arith)
        requires
            total > 0,
            scaled >= 0,
            q == scaled / total,
    ;
}

/// The notice of a corpus that is embedded in part. The queue drains the most
/// referenced and the newest code first, so what is embedded is no sample.
pub open spec fn partial_text(embedded: int, total: int) -> Seq<char> {
    "[warmup: searchable "@ + dec_int(embedded) + "/"@ + dec_int(total) + " chunks ("@ + dec(
        percent(embedded, total),
    )
        + "%), front-loaded by importance and recency; a missing result may mean \"not embedded yet\", not \"not in the codebase\" (check `inkentry status`)]"@
}

pub fn warmup_notice_partial(embedded: i64, total: i64) -> (r: String)
    ensures
        r@ == partial_text(embedded as int, total as int),
{
    "[warmup: searchable ".to_owned().concat(dec_i64(embedded).as_str()).concat("/").concat(
        dec_i64(total).as_str(),
    ).concat(" chunks (").concat(dec_u64(whole_percent(embedded, total)).as_str()).concat(
        "%), front-loaded by importance and recency; a missing result may mean \"not embedded yet\", not \"not in the codebase\" (check `inkentry status`)]",
    )
}

/// The notice of chunks whose vector is out of date.
pub open spec fn refresh_text(pending: int) -> Seq<char> {
    "[refresh: "@ + dec_int(pending)
        + " chunk(s) awaiting re-embedding after an indexing-scheme change; they still return their previous vector, so rankings may shift until the refresh finishes (check `inkentry status`)]"@
}

pub fn refresh_pending_notice(pending: i64) -> (r: String)
    ensures
        r@ == refresh_text(pending as int),
{
    "[refresh: ".to_owned().concat(dec_i64(pending).as_str()).concat(
        " chunk(s) awaiting re-embedding after an indexing-scheme change; they still return their previous vector, so rankings may shift until the refresh finishes (check `inkentry status`)]",
    )
}

/// The notice of a corpus without any vector.
pub open spec fn zero_text(total: int) -> Seq<char> {
    "[warmup: 0/"@ + dec_int(total)
        + " chunks embedded; using full-text search while embeddings build in the background (check `inkentry status`)]"@
}

pub fn warmup_notice_zero(total: i64) -> (r: String)
    ensures
        r@ == zero_text(total as int),
{
    "[warmup: 0/".to_owned().concat(dec_i64(total).as_str()).concat(
        " chunks embedded; using full-text search while embeddings build in the background (check `inkentry status`)]",
    )
}

/// The ending that makes `entr` one entry or several.
pub open spec fn entry_ending(n: int) -> Seq<char> {
    if n == 1 {
        "y"@
    } else {
        "ies"@
    }
}

fn entry_suffix(n: i64) -> (r: &'static str)
    ensures
        r@ == entry_ending(n as int),
{
    if n == 1 {
        "y"
    } else {
        "ies"
    }
}

/// The notice of memory entries without a vector.
pub open spec fn memory_warmup_text(missing: int) -> Seq<char> {
    "[warmup: "@ + dec_int(missing) + " memory entr"@ + entry_ending(missing)
        + " not yet embedded; reachable via full-text search only (check `inkentry status`)]"@
}

pub fn memory_warmup_notice(missing: i64) -> (r: String)
    ensures
        r@ == memory_warmup_text(missing as int),
{
    "[warmup: ".to_owned().concat(dec_i64(missing).as_str()).concat(" memory entr").concat(
        entry_suffix(missing),
    ).concat(" not yet embedded; reachable via full-text search only (check `inkentry status`)]")
}

/// What is said of the code corpus before a search that embeds: of its
/// coverage, `(embedded, total)`, and of vectors out of date.
pub open spec fn code_notice_texts(coverage: Option<(i64, i64)>, refresh_pending: i64) -> Seq<
    Seq<char>,
> {
    (match coverage {
        Some((e, t)) => if t > 0 && e <= 0 {
            seq![zero_text(t as int)]
        } else if e < t {
            seq![partial_text(e as int, t as int)]
        } else {
            Seq::<Seq<char>>::empty()
        },
        None => Seq::<Seq<char>>::empty(),
    }) + (if refresh_pending > 0 {
        seq![refresh_text(refresh_pending as int)]
    } else {
        Seq::<Seq<char>>::empty()
    })
}

/// A complete corpus is passed over in silence; of one that is not there is one
/// notice, which names what is embedded and what there is; vectors out of date
/// have a notice of their own, which says how many they are.
#[verifier::rlimit(60)]
pub proof fn law_a_corpus_is_announced_only_where_it_is_incomplete(
    embedded: i64,
    total: i64,
    pending: i64,
)
    ensures
        code_notice_texts(Some((embedded, total)), 0).len() == (if embedded < total || (total > 0
            && embedded <= 0) {
            1int
        } else {
            0
        }),
        code_notice_texts(None, 0).len() == 0,
        code_notice_texts(None, pending).len() == (if pending > 0 {
            1int
        } else {
            0
        }),
        0 < embedded < total ==> occurs(
            code_notice_texts(Some((embedded, total)), pending)[0],
            dec_int(embedded as int) + "/"@ + dec_int(total as int),
        ),
        embedded <= 0 < total ==> occurs(
            code_notice_texts(Some((embedded, total)), pending)[0],
            "0/"@ + dec_int(total as int),
        ),
        pending > 0 ==> occurs(
            code_notice_texts(Some((embedded, total)), pending).last(),
            dec_int(pending as int),
        ),
{
    let tail = " chunks ("@ + dec(percent(embedded as int, total as int))
        + "%), front-loaded by importance and recency; a missing result may mean \"not embedded yet\", not \"not in the codebase\" (check `inkentry status`)]"@;
    let share = dec_int(embedded as int) + "/"@ + dec_int(total as int);
    lemma_occurs_between("[warmup: searchable "@, share, tail);
    assert(partial_text(embedded as int, total as int) =~= "[warmup: searchable "@ + share + tail);
    let rest = " chunks embedded; using full-text search while embeddings build in the background (check `inkentry status`)]"@;
    lemma_occurs_between("[warmup: "@, "0/"@ + dec_int(total as int), rest);
    reveal_strlit("[warmup: 0/");
    reveal_strlit("[warmup: ");
    reveal_strlit("0/");
    assert("[warmup: 0/"@ =~= "[warmup: "@ + "0/"@);
    assert(zero_text(total as int) =~= "[warmup: "@ + ("0/"@ + dec_int(total as int)) + rest);
    lemma_occurs_between(
        "[refresh: "@,
        dec_int(pending as int),
        " chunk(s) awaiting re-embedding after an indexing-scheme change; they still return their previous vector, so rankings may shift until the refresh finishes (check `inkentry status`)]"@,
    );
}

/// The notices before a search: of the code corpus where it is searched with
/// embeddings, then of the memory corpus where it is.
pub fn corpus_notices(
    want_code: bool,
    want_memory: bool,
    only_text: bool,
    coverage: Option<(i64, i64)>,
    refresh_pending: i64,
    memory_missing: i64,
) -> (r: Vec<String>)
    ensures
        texts(r@) == (if want_code && !only_text {
            code_notice_texts(coverage, refresh_pending)
        } else {
            Seq::<Seq<char>>::empty()
        }) + (if want_memory && !only_text && memory_missing > 0 {
            seq![memory_warmup_text(memory_missing as int)]
        } else {
            Seq::<Seq<char>>::empty()
        }),
{
    let mut out: Vec<String> = Vec::new();
    if want_code && !only_text {
        if let Some((e, t)) = coverage {
            if t > 0 && e <= 0 {
                out.push(warmup_notice_zero(t));
            } else if e < t {
                out.push(warmup_notice_partial(e, t));
            }
        }
        if refresh_pending > 0 {
            out.push(refresh_pending_notice(refresh_pending));
        }
        assert(texts(out@) =~= code_notice_texts(coverage, refresh_pending));
    }
    if want_memory && !only_text && memory_missing > 0 {
        let n = memory_warmup_notice(memory_missing);
        proof {
            lemma_texts_push(out@, n);
        }
        out.push(n);
    }
    assert(texts(out@) =~= (if want_code && !only_text {
        code_notice_texts(coverage, refresh_pending)
    } else {
        Seq::<Seq<char>>::empty()
    }) + (if want_memory && !only_text && memory_missing > 0 {
        seq![memory_warmup_text(memory_missing as int)]
    } else {
        Seq::<Seq<char>>::empty()
    }));
    out
}

/// How many memory entries have no vector; none where there is no local store
/// to read, so that nothing is made up.
pub fn memory_missing_count(store_exists: bool, missing: Option<usize>) -> (r: i64)
    requires
        missing is Some ==> missing->0 <= i64::MAX,
    ensures
        r == if store_exists && missing is Some {
            missing->0 as int
        } else {
            0
        },
{
    if !store_exists {
        return 0;
    }
    match missing {
        Some(n) => n as i64,
        None => 0,
    }
}

/// The warning of an index that is out of date, where any sampled file has
/// changed.
pub fn stale_warning(stale: usize, sampled: usize) -> (r: Option<String>)
    ensures
        opt_text(r) == if stale > 0 {
            Some(
                "warning: index may be stale ("@ + dec(stale as nat) + "/"@ + dec(sampled as nat)
                    + " sampled files changed). Run `inkentry index .` to refresh."@,
            )
        } else {
            None
        },
{
    if stale > 0 {
        Some(
            "warning: index may be stale (".to_owned().concat(dec_usize(stale).as_str()).concat(
                "/",
            ).concat(dec_usize(sampled).as_str()).concat(
                " sampled files changed). Run `inkentry index .` to refresh.",
            ),
        )
    } else {
        None
    }
}

// ---- nothing found ---------------------------------------------------------

/// The schema that a rebuild replaced, in words. Zero is no version: it stands
/// for an index from before versions were stamped.
pub open spec fn replaced_schema_text(found: i32) -> Seq<char> {
    if found == 0 {
        "an older, unstamped schema"@
    } else {
        "schema version "@ + dec_int(found as int)
    }
}

/// The schema that a rebuild replaced, in words.
pub fn replaced_schema(found: i32) -> (r: String)
    ensures
        r@ == replaced_schema_text(found),
{
    if found == 0 {
        "an older, unstamped schema".to_owned()
    } else {
        "schema version ".to_owned().concat(dec_i64(found as i64).as_str())
    }
}

/// Whether the code corpus is embedded in part.
pub open spec fn partly_covered(coverage: Option<(i64, i64)>) -> bool {
    match coverage {
        Some((e, t)) => t > 0 && e < t,
        None => false,
    }
}

/// How much of the code corpus is embedded, in words.
pub open spec fn coverage_text(coverage: Option<(i64, i64)>) -> Seq<char> {
    match coverage {
        Some((e, t)) => "code searchable "@ + dec_int(e as int) + "/"@ + dec_int(t as int)
            + " chunks"@,
        None => Seq::<char>::empty(),
    }
}

/// What is missing from the corpora that were searched, in words.
pub open spec fn gaps(
    want_code: bool,
    want_memory: bool,
    only_text: bool,
    coverage: Option<(i64, i64)>,
    refresh_pending: i64,
    memory_missing: i64,
    rebuilt: Option<i32>,
) -> Seq<Seq<char>> {
    (if want_code && rebuilt is Some {
        seq![
            "the index was rebuilt from "@ + replaced_schema_text(rebuilt->0)
                + " and not reindexed since, so it holds nothing; run `inkentry index .`"@,
        ]
    } else {
        Seq::<Seq<char>>::empty()
    }) + (if want_code && !only_text && partly_covered(coverage) {
        seq![coverage_text(coverage)]
    } else {
        Seq::<Seq<char>>::empty()
    }) + (if want_code && !only_text && refresh_pending > 0 {
        seq![
            dec_int(refresh_pending as int)
                + " code chunk(s) await re-embedding, so rankings may still shift"@,
        ]
    } else {
        Seq::<Seq<char>>::empty()
    }) + (if want_memory && !only_text && memory_missing > 0 {
        seq![
            dec_int(memory_missing as int) + " memory entr"@ + entry_ending(memory_missing as int)
                + " not embedded yet"@,
        ]
    } else {
        Seq::<Seq<char>>::empty()
    })
}

/// What is said when nothing was found: bare when all that was searched is
/// complete, and otherwise with what is missing, so that an absence is never
/// taken for more than it is.
pub fn empty_message(
    want_code: bool,
    want_memory: bool,
    only_text: bool,
    code_coverage: Option<(i64, i64)>,
    code_refresh_pending: i64,
    memory_missing: i64,
    rebuilt_unpopulated: Option<i32>,
) -> (r: String)
    ensures
        ({
            let g = gaps(
                want_code,
                want_memory,
                only_text,
                code_coverage,
                code_refresh_pending,
                memory_missing,
                rebuilt_unpopulated,
            );
            r@ == if g.len() == 0 {
                "No results found."@
            } else {
                "No results found ("@ + joined(g, "; "@) + ")."@
            }
        }),
{
    let ghost want = gaps(
        want_code,
        want_memory,
        only_text,
        code_coverage,
        code_refresh_pending,
        memory_missing,
        rebuilt_unpopulated,
    );
    let mut parts: Vec<String> = Vec::new();
    if want_code {
        if let Some(found) = rebuilt_unpopulated {
            parts.push(
                "the index was rebuilt from ".to_owned().concat(
                    replaced_schema(found).as_str(),
                ).concat(
                    " and not reindexed since, so it holds nothing; run `inkentry index .`",
                ),
            );
        }
        if !only_text {
            if let Some((e, t)) = code_coverage {
                if t > 0 && e < t {
                    parts.push(
                        "code searchable ".to_owned().concat(dec_i64(e).as_str()).concat(
                            "/",
                        ).concat(dec_i64(t).as_str()).concat(" chunks"),
                    );
                }
            }
            if code_refresh_pending > 0 {
                parts.push(
                    dec_i64(code_refresh_pending).concat(
                        " code chunk(s) await re-embedding, so rankings may still shift",
                    ),
                );
            }
        }
    }
    if want_memory && !only_text && memory_missing > 0 {
        parts.push(
            dec_i64(memory_missing).concat(" memory entr").concat(
                entry_suffix(memory_missing),
            ).concat(" not embedded yet"),
        );
    }
    assert(texts(parts@) =~= want);
    if parts.len() == 0 {
        return "No results found.".to_owned();
    }
    "No results found (".to_owned().concat(join(&parts, "; ").as_str()).concat(").")
}

/// The bare line is said only when nothing that was searched is incomplete.
pub proof fn law_a_bare_absence_is_complete(
    want_code: bool,
    want_memory: bool,
    only_text: bool,
    coverage: Option<(i64, i64)>,
    refresh_pending: i64,
    memory_missing: i64,
    rebuilt: Option<i32>,
)
    ensures
        gaps(want_code, want_memory, only_text, coverage, refresh_pending, memory_missing, rebuilt).len()
            == 0 <==> {
            &&& want_code ==> rebuilt is None
            &&& want_code && !only_text ==> !partly_covered(coverage) && refresh_pending <= 0
            &&& want_memory && !only_text ==> memory_missing <= 0
        },
{
}

/// What is printed when nothing was found: machine-readable output stays
/// clean.
pub fn print_empty(
    format: &str,
    want_code: bool,
    want_memory: bool,
    only_text: bool,
    code_coverage: Option<(i64, i64)>,
    code_refresh_pending: i64,
    memory_missing: i64,
    rebuilt_unpopulated: Option<i32>,
) -> (r: Option<String>)
    ensures
        ({
            let g = gaps(
                want_code,
                want_memory,
                only_text,
                code_coverage,
                code_refresh_pending,
                memory_missing,
                rebuilt_unpopulated,
            );
            opt_text(r) == if format@ == "json"@ {
                Some("[]"@)
            } else if format@ == "jsonl"@ {
                None
            } else if g.len() == 0 {
                Some("No results found."@)
            } else {
                Some("No results found ("@ + joined(g, "; "@) + ")."@)
            }
        }),
{
    if same(format, "json") {
        return Some("[]".to_owned());
    }
    if same(format, "jsonl") {
        return None;
    }
    Some(
        empty_message(
            want_code,
            want_memory,
            only_text,
            code_coverage,
            code_refresh_pending,
            memory_missing,
            rebuilt_unpopulated,
        ),
    )
}

// ---- a token budget --------------------------------------------------------

/// Where the token count of a result comes from.
pub enum TokenSource {
    /// It is known.
    Known(usize),
    /// It is estimated from this text.
    Estimate(String),
}

/// Where the token count of a result comes from: a chunk's own count, or else
/// an estimate of its content; for a memory entry an estimate of its title and
/// body.
pub open spec fn token_source_is(s: TokenSource, u: UnifiedResult) -> bool {
    match u.code {
        Some(c) => if c.token_count > 0 {
            s == TokenSource::Known(c.token_count)
        } else {
            s is Estimate && s->Estimate_0@ == c.content@
        },
        None => match u.memory {
            Some(m) => s is Estimate && s->Estimate_0@ == m.title@ + "\n"@ + m.body@,
            None => s == TokenSource::Known(0),
        },
    }
}

/// What is counted for a memory entry is its title, a line end and its body.
pub proof fn law_the_whole_text_is_counted(u: UnifiedResult)
    ensures
        forall|s: TokenSource| #[trigger]
            token_source_is(s, u) && u.code is None && u.memory is Some ==> s is Estimate
                && u.memory->0.title@.is_prefix_of(s->Estimate_0@)
                && u.memory->0.body@.is_suffix_of(s->Estimate_0@) && s->Estimate_0@.len()
                == u.memory->0.title@.len() + 1 + u.memory->0.body@.len(),
        forall|s: TokenSource| #[trigger]
            token_source_is(s, u) && u.code is Some ==> s == TokenSource::Known(
                u.code->0.token_count,
            ) || (u.code->0.token_count == 0 && s is Estimate && s->Estimate_0@
                == u.code->0.content@),
{
    reveal_strlit("\n");
    assert forall|s: TokenSource| #[trigger]
        token_source_is(s, u) && u.code is None && u.memory is Some implies s is Estimate
        && u.memory->0.title@.is_prefix_of(s->Estimate_0@) && u.memory->0.body@.is_suffix_of(
        s->Estimate_0@,
    ) && s->Estimate_0@.len() == u.memory->0.title@.len() + 1 + u.memory->0.body@.len() by {
        let t = s->Estimate_0@;
        let (a, b) = (u.memory->0.title@, u.memory->0.body@);
        assert(t.subrange(0, a.len() as int) =~= a);
        assert(t.subrange(t.len() - b.len(), t.len() as int) =~= b);
    }
}

/// Where the token count of a result comes from.
pub fn token_source(u: &UnifiedResult) -> (r: TokenSource)
    ensures
        token_source_is(r, *u),
        u.code is Some && u.code->0.token_count > 0 ==> r == TokenSource::Known(
            u.code->0.token_count,
        ),
        u.code is Some && u.code->0.token_count == 0 ==> r is Estimate && r->Estimate_0@
            == u.code->0.content@,
        u.code is None && u.memory is Some ==> r is Estimate && u.memory->0.title@.is_prefix_of(
            r->Estimate_0@,
        ) && u.memory->0.body@.is_suffix_of(r->Estimate_0@) && r->Estimate_0@.len()
            == u.memory->0.title@.len() + 1 + u.memory->0.body@.len(),
{
    proof {
        law_the_whole_text_is_counted(*u);
    }
    match &u.code {
        Some(c) => if c.token_count > 0 {
            TokenSource::Known(c.token_count)
        } else {
            TokenSource::Estimate(c.content.clone())
        },
        None => match &u.memory {
            Some(m) => TokenSource::Estimate(
                m.title.clone().concat("\n").concat(m.body.as_str()),
            ),
            None => TokenSource::Known(0),
        },
    }
}

/// The tokens of a result: those that are known, or else the estimate for its
/// text.
pub fn unified_token_estimate(source: &TokenSource, estimate: usize) -> (r: usize)
    ensures
        r == match source {
            TokenSource::Known(n) => *n,
            TokenSource::Estimate(_) => estimate,
        },
{
    match source {
        TokenSource::Known(n) => *n,
        TokenSource::Estimate(_) => estimate,
    }
}

/// What a budget leaves once the first `n` results were looked at, and whether
/// packing goes on. It ends when less than ten tokens are left.
pub open spec fn left_after(costs: Seq<usize>, budget: int, n: int) -> int
    decreases n, 0int,
{
    if n <= 0 {
        budget
    } else {
        let left = left_after(costs, budget, n - 1);
        if packing_ended(costs, budget, n - 1) || costs[n - 1] > left {
            left
        } else {
            left - costs[n - 1]
        }
    }
}

/// Whether packing has ended before result `n`: some result was looked at, and
/// less than ten tokens were left after it.
pub open spec fn packing_ended(costs: Seq<usize>, budget: int, n: int) -> bool
    decreases n, 1int,
{
    n > 0 && (packing_ended(costs, budget, n - 1) || left_after(costs, budget, n) < 10)
}

/// The positions below `n` of the results that a budget takes.
pub open spec fn packed_upto(costs: Seq<usize>, budget: int, n: int) -> Seq<int>
    decreases n,
{
    if n <= 0 {
        Seq::<int>::empty()
    } else {
        let before = packed_upto(costs, budget, n - 1);
        if !packing_ended(costs, budget, n - 1) && costs[n - 1] <= left_after(costs, budget, n - 1) {
            before.push(n - 1)
        } else {
            before
        }
    }
}

/// The results that fit a budget, and what is left of it.
pub struct Packed {
    pub kept: Vec<usize>,
    pub used: usize,
    pub remaining: usize,
}

/// The tokens that the positions `kept` cost.
pub open spec fn cost_of(costs: Seq<usize>, kept: Seq<int>) -> int
    decreases kept.len(),
{
    if kept.len() == 0 {
        0
    } else {
        cost_of(costs, kept.drop_last()) + costs[kept.last()]
    }
}

proof fn lemma_packing(costs: Seq<usize>, budget: int, n: int)
    requires
        0 <= n <= costs.len(),
        budget >= 0,
    ensures
        cost_of(costs, packed_upto(costs, budget, n)) + left_after(costs, budget, n) == budget,
        0 <= left_after(costs, budget, n) <= budget,
    decreases n,
{
    if n > 0 {
        lemma_packing(costs, budget, n - 1);
        let before = packed_upto(costs, budget, n - 1);
        let now = packed_upto(costs, budget, n);
        if now.len() > before.len() {
            assert(now.drop_last() =~= before);
        }
    }
}

/// What a budget takes costs no more than the budget, and what it costs and
/// what is left make up the budget.
pub proof fn law_packing_stays_within_the_budget(costs: Seq<usize>, budget: usize)
    ensures
        cost_of(costs, packed_upto(costs, budget as int, costs.len() as int)) + left_after(
            costs,
            budget as int,
            costs.len() as int,
        ) == budget,
        cost_of(costs, packed_upto(costs, budget as int, costs.len() as int)) <= budget,
{
    lemma_packing(costs, budget as int, costs.len() as int);
}

proof fn lemma_ended_stays(costs: Seq<usize>, budget: int, i: int, n: int)
    requires
        0 <= i <= n,
        packing_ended(costs, budget, i),
    ensures
        packing_ended(costs, budget, n),
        left_after(costs, budget, n) == left_after(costs, budget, i),
        packed_upto(costs, budget, n) == packed_upto(costs, budget, i),
    decreases n - i,
{
    if i < n {
        lemma_ended_stays(costs, budget, i, n - 1);
    }
}

proof fn lemma_packed_below(costs: Seq<usize>, budget: int, n: int)
    requires
        0 <= n <= costs.len(),
    ensures
        forall|k: int|
            0 <= k < packed_upto(costs, budget, n).len() ==> 0 <= #[trigger] packed_upto(
                costs,
                budget,
                n,
            )[k] < n,
        forall|a: int, b: int|
            0 <= a < b < packed_upto(costs, budget, n).len() ==> #[trigger] packed_upto(
                costs,
                budget,
                n,
            )[a] < #[trigger] packed_upto(costs, budget, n)[b],
    decreases n,
{
    if n > 0 {
        lemma_packed_below(costs, budget, n - 1);
        let before = packed_upto(costs, budget, n - 1);
        let now = packed_upto(costs, budget, n);
        assert forall|k: int| 0 <= k < now.len() implies 0 <= #[trigger] now[k] < n by {
            if k < before.len() {
                assert(now[k] == before[k]);
            }
        }
        assert forall|a: int, b: int| 0 <= a < b < now.len() implies #[trigger] now[a]
            < #[trigger] now[b] by {
            assert(now[a] == before[a]);
            if b < before.len() {
                assert(now[b] == before[b]);
            }
        }
    }
}

proof fn lemma_packed_part(costs: Seq<usize>, budget: int, i: int, n: int)
    requires
        0 <= i <= n <= costs.len(),
    ensures
        packed_upto(costs, budget, n).filter(|p: int| p < i) == packed_upto(costs, budget, i),
    decreases n,
{
    reveal(Seq::filter);
    let now = packed_upto(costs, budget, n);
    let below = |p: int| p < i;
    if i < n {
        lemma_packed_part(costs, budget, i, n - 1);
        let before = packed_upto(costs, budget, n - 1);
        if now.len() > before.len() {
            assert(now.drop_last() =~= before);
        }
    } else {
        lemma_packed_below(costs, budget, n);
        lemma_all_pass(now, i);
    }
}

proof fn lemma_all_pass(s: Seq<int>, i: int)
    requires
        forall|k: int| 0 <= k < s.len() ==> #[trigger] s[k] < i,
    ensures
        s.filter(|p: int| p < i) == s,
    decreases s.len(),
{
    reveal(Seq::filter);
    if s.len() > 0 {
        let d = s.drop_last();
        assert forall|k: int| 0 <= k < d.len() implies #[trigger] d[k] < i by {
            assert(d[k] == s[k]);
        }
        lemma_all_pass(d, i);
        assert(s[s.len() - 1] == s.last());
        assert(d.push(s.last()) =~= s);
    }
}

proof fn lemma_ended_is_short(costs: Seq<usize>, budget: int, n: int)
    requires
        0 <= n <= costs.len(),
    ensures
        packing_ended(costs, budget, n) <==> n > 0 && left_after(costs, budget, n) < 10,
    decreases n,
{
    if n > 0 {
        lemma_ended_is_short(costs, budget, n - 1);
        if packing_ended(costs, budget, n - 1) {
            lemma_ended_stays(costs, budget, n - 1, n);
        }
    }
}

/// A result is taken if and only if it costs no more than what those taken before
/// it left of the budget, and, unless it is the first, at least ten tokens were
/// left. So nothing that fits is left out while ten tokens remain.
pub proof fn law_what_fits_is_taken(costs: Seq<usize>, budget: int, i: int)
    requires
        0 <= i < costs.len(),
        budget >= 0,
    ensures
        ({
            let kept = packed_upto(costs, budget, costs.len() as int);
            let left = budget - cost_of(costs, kept.filter(|p: int| p < i));
            kept.contains(i) <==> costs[i] <= left && (i == 0 || left >= 10)
        }),
        forall|a: int, b: int|
            0 <= a < b < packed_upto(costs, budget, costs.len() as int).len()
                ==> #[trigger] packed_upto(costs, budget, costs.len() as int)[a]
                < #[trigger] packed_upto(costs, budget, costs.len() as int)[b],
{
    let n = costs.len() as int;
    let kept = packed_upto(costs, budget, n);
    let before = packed_upto(costs, budget, i);
    let now = packed_upto(costs, budget, i + 1);
    lemma_packed_part(costs, budget, i, n);
    lemma_packed_part(costs, budget, i + 1, n);
    lemma_packing(costs, budget, i);
    lemma_ended_is_short(costs, budget, i);
    lemma_packed_below(costs, budget, n);
    lemma_packed_below(costs, budget, i);
    let upto = |p: int| p < i + 1;
    if kept.contains(i) {
        let k = choose|k: int| 0 <= k < kept.len() && kept[k] == i;
        kept.lemma_filter_contains(upto, k);
        let j = choose|j: int| 0 <= j < now.len() && now[j] == i;
        if now == before {
            assert(before[j] < i);
        }
    }
    if now.len() > before.len() {
        assert(now[before.len() as int] == i);
        assert(now.contains(i));
        kept.lemma_filter_contains_rev(upto, i);
    }
}

/// Where at least ten tokens remain at the end, whatever was left out costs more
/// than remains.
pub proof fn law_what_is_left_out_would_not_fit(costs: Seq<usize>, budget: int, i: int)
    requires
        0 <= i < costs.len(),
        budget >= 0,
        left_after(costs, budget, costs.len() as int) >= 10,
        !packed_upto(costs, budget, costs.len() as int).contains(i),
    ensures
        costs[i] > left_after(costs, budget, costs.len() as int),
{
    let n = costs.len() as int;
    law_what_fits_is_taken(costs, budget, i);
    lemma_packed_part(costs, budget, i, n);
    lemma_packing(costs, budget, i);
    lemma_left_shrinks(costs, budget, i, n);
}

proof fn lemma_left_shrinks(costs: Seq<usize>, budget: int, i: int, n: int)
    requires
        0 <= i <= n <= costs.len(),
    ensures
        left_after(costs, budget, n) <= left_after(costs, budget, i),
    decreases n,
{
    if i < n {
        lemma_left_shrinks(costs, budget, i, n - 1);
    }
}

proof fn lemma_all_that_fits(costs: Seq<usize>, budget: usize)
    ensures
        ({
            let kept = packed_upto(costs, budget as int, costs.len() as int);
            &&& cost_of(costs, kept) + left_after(costs, budget as int, costs.len() as int)
                == budget
            &&& forall|i: int|
                0 <= i < costs.len() ==> (#[trigger] kept.contains(i) <==> ({
                    let left = budget - cost_of(costs, kept.filter(|p: int| p < i));
                    costs[i] <= left && (i == 0 || left >= 10)
                }))
        }),
{
    let kept = packed_upto(costs, budget as int, costs.len() as int);
    law_packing_stays_within_the_budget(costs, budget);
    assert forall|i: int| 0 <= i < costs.len() implies (#[trigger] kept.contains(i) <==> ({
        let left = budget - cost_of(costs, kept.filter(|p: int| p < i));
        costs[i] <= left && (i == 0 || left >= 10)
    })) by {
        law_what_fits_is_taken(costs, budget as int, i);
    }
}

/// Takes results in order while they fit, and stops when less than ten tokens
/// are left.
pub fn pack_budget(costs: &Vec<usize>, budget: usize) -> (r: Packed)
    ensures
        positions(r.kept@) == packed_upto(costs@, budget as int, costs.len() as int),
        r.remaining == left_after(costs@, budget as int, costs.len() as int),
        r.used + r.remaining == budget,
        forall|i: int| 0 <= i < r.kept.len() ==> (#[trigger] r.kept@[i]) < costs.len(),
        r.used == cost_of(costs@, positions(r.kept@)),
        forall|i: int|
            0 <= i < costs.len() ==> (#[trigger] positions(r.kept@).contains(i) <==> ({
                let left = budget - cost_of(
                    costs@,
                    positions(r.kept@).filter(|p: int| p < i),
                );
                costs@[i] <= left && (i == 0 || left >= 10)
            })),
{
    let mut remaining: usize = budget;
    let mut kept: Vec<usize> = Vec::new();
    let mut i: usize = 0;
    assert(positions(kept@) =~= Seq::<int>::empty());
    while i < costs.len()
        invariant
            i <= costs.len(),
            remaining <= budget,
            !packing_ended(costs@, budget as int, i as int),
            positions(kept@) == packed_upto(costs@, budget as int, i as int),
            remaining == left_after(costs@, budget as int, i as int),
            forall|k: int| 0 <= k < kept.len() ==> (#[trigger] kept@[k]) < i,
        decreases costs.len() - i,
    {
        let cost: usize = costs[i];
        if cost <= remaining {
            remaining = remaining - cost;
            let ghost before = positions(kept@);
            kept.push(i);
            assert(positions(kept@) =~= before.push(i as int));
        }
        assert(left_after(costs@, budget as int, i + 1) == remaining);
        assert(packing_ended(costs@, budget as int, i + 1) == (remaining < 10));
        if remaining < 10 {
            proof {
                lemma_ended_stays(costs@, budget as int, i + 1, costs.len() as int);
                lemma_all_that_fits(costs@, budget);
            }
            return Packed { kept, used: budget - remaining, remaining };
        }
        i = i + 1;
    }
    proof {
        lemma_all_that_fits(costs@, budget);
    }
    Packed { kept, used: budget - remaining, remaining }
}

/// The line under a budgeted list.
pub fn budget_line(used: usize, budget: usize) -> (r: String)
    ensures
        r@ == budget_text(used as int, budget as int),
{
    "tokens used: ".to_owned().concat(dec_usize(used).as_str()).concat("/").concat(
        dec_usize(budget).as_str(),
    )
}

// ---- several indexes -------------------------------------------------------

/// How many results each index is asked for, so that enough are left once the
/// same chunk of several projects counts once.
pub fn linearrag_fetch(limit: usize) -> (r: usize)
    requires
        2 * limit <= usize::MAX,
        limit + 10 <= usize::MAX,
    ensures
        r == if limit < 10 {
            limit + 10
        } else {
            2 * limit
        },
{
    if limit < 10 {
        limit + 10
    } else {
        limit * 2
    }
}

/// Marks the results of a linked project with its name and path.
pub fn annotate_dep_results(
    results: &mut Vec<CodeHit>,
    project_name: Option<String>,
    project_path: String,
)
    ensures
        final(results).len() == old(results).len(),
        forall|i: int|
            0 <= i < old(results).len() ==> #[trigger] final(results)@[i] == (CodeHit {
                project_name: project_name,
                project_path: Some(project_path),
                ..old(results)@[i]
            }),
{
    let n: usize = results.len();
    let ghost before = results@;
    let mut i: usize = 0;
    while i < n
        invariant
            i <= n,
            n == results.len(),
            n == before.len(),
            forall|k: int|
                0 <= k < i ==> #[trigger] results@[k] == (CodeHit {
                    project_name: project_name,
                    project_path: Some(project_path),
                    ..before[k]
                }),
            forall|k: int| i <= k < n ==> #[trigger] results@[k] == before[k],
        decreases n - i,
    {
        results[i].project_name = project_name.clone();
        results[i].project_path = Some(project_path.clone());
        i = i + 1;
    }
}

/// Puts on each result the specs that govern its file, where any file has one
/// and the lookup for this file worked.
pub fn annotate_specs(all: &mut Vec<CodeHit>, any_specs: bool, per_file: &Vec<Option<Vec<String>>>)
    requires
        per_file.len() == old(all).len(),
    ensures
        final(all).len() == old(all).len(),
        forall|i: int|
            0 <= i < old(all).len() ==> {
                &&& any_specs && per_file@[i] is Some ==> texts(
                    (#[trigger] final(all)@[i]).governing_specs@,
                ) == texts(per_file@[i]->0@)
                &&& !(any_specs && per_file@[i] is Some) ==> final(all)@[i].governing_specs
                    == old(all)@[i].governing_specs
                &&& final(all)@[i] == (CodeHit {
                    governing_specs: final(all)@[i].governing_specs,
                    ..old(all)@[i]
                })
            },
{
    if !any_specs {
        return ;
    }
    let n: usize = all.len();
    let ghost before = all@;
    let mut i: usize = 0;
    while i < n
        invariant
            i <= n,
            n == all.len(),
            n == before.len(),
            per_file.len() == n,
            forall|k: int|
                0 <= k < i ==> {
                    &&& per_file@[k] is Some ==> texts((#[trigger] all@[k]).governing_specs@)
                        == texts(per_file@[k]->0@)
                    &&& !(per_file@[k] is Some) ==> all@[k].governing_specs
                        == before[k].governing_specs
                    &&& all@[k] == (CodeHit {
                        governing_specs: all@[k].governing_specs,
                        ..before[k]
                    })
                },
            forall|k: int| i <= k < n ==> #[trigger] all@[k] == before[k],
        decreases n - i,
    {
        if let Some(specs) = &per_file[i] {
            let copy = specs.clone();
            assert(texts(copy@) =~= texts(specs@));
            all[i].governing_specs = copy;
        }
        i = i + 1;
    }
}

/// Whether `a` stands before `b`, or is `b`, in the order of a dictionary by
/// code points.
pub open spec fn lex_le(a: Seq<char>, b: Seq<char>) -> bool
    decreases a.len(),
{
    if a.len() == 0 {
        true
    } else if b.len() == 0 {
        false
    } else if a[0] != b[0] {
        a[0] < b[0]
    } else {
        lex_le(a.skip(1), b.skip(1))
    }
}

fn text_le(a: &str, b: &str) -> (r: bool)
    ensures
        r == lex_le(a@, b@),
{
    let x = chars_of(a);
    let y = chars_of(b);
    let mut i: usize = 0;
    assert(x@.skip(0) =~= x@ && y@.skip(0) =~= y@);
    while i < x.len() && i < y.len()
        invariant
            i <= x.len(),
            i <= y.len(),
            x@ == a@,
            y@ == b@,
            lex_le(x@.skip(i as int), y@.skip(i as int)) == lex_le(a@, b@),
        decreases x.len() - i,
    {
        proof {
            assert(x@.skip(i as int).skip(1) =~= x@.skip(i + 1));
            assert(y@.skip(i as int).skip(1) =~= y@.skip(i + 1));
        }
        if x[i] != y[i] {
            return x[i] < y[i];
        }
        i = i + 1;
    }
    i == x.len()
}

proof fn lemma_lex(a: Seq<char>, b: Seq<char>, c: Seq<char>)
    ensures
        lex_le(a, b) || lex_le(b, a),
        lex_le(a, b) && lex_le(b, a) ==> a == b,
        lex_le(a, b) && lex_le(b, c) ==> lex_le(a, c),
    decreases a.len(),
{
    if a.len() == 0 {
        if b.len() == 0 {
            assert(a =~= b);
        }
    } else if b.len() > 0 {
        if a[0] == b[0] {
            lemma_lex(a.skip(1), b.skip(1), c.skip(1));
            if a.skip(1) == b.skip(1) {
                assert(a =~= b) by {
                    assert forall|i: int| 0 < i < a.len() implies a[i] == b[i] by {
                        assert(a.skip(1)[i - 1] == a[i]);
                        assert(b.skip(1)[i - 1] == b[i]);
                    }
                    assert(a.skip(1).len() == b.skip(1).len());
                }
            }
        }
    }
}

/// Whether `a` may stand before `b`: by distance, then by place and number, so
/// that which of two equal copies comes first never depends on chance.
pub open spec fn hit_le(a: CodeHit, b: CodeHit) -> bool {
    if a.distance != b.distance {
        a.distance < b.distance
    } else if a.file_path@ != b.file_path@ {
        lex_le(a.file_path@, b.file_path@)
    } else if a.start_line != b.start_line {
        a.start_line < b.start_line
    } else if a.end_line != b.end_line {
        a.end_line < b.end_line
    } else {
        a.chunk_id <= b.chunk_id
    }
}

/// Of two texts the one with the smaller character at the first difference stands
/// first, and a beginning stands before what it begins.
pub proof fn law_the_first_difference_decides(
    p: Seq<char>,
    c: char,
    d: char,
    s: Seq<char>,
    t: Seq<char>,
)
    requires
        c != d,
    ensures
        lex_le(p + seq![c] + s, p + seq![d] + t) <==> c < d,
        lex_le(p, p + t),
        t.len() > 0 ==> !lex_le(p + t, p),
    decreases p.len(),
{
    if p.len() > 0 {
        let q = p.skip(1);
        law_the_first_difference_decides(q, c, d, s, t);
        assert((p + seq![c] + s).skip(1) =~= q + seq![c] + s);
        assert((p + seq![d] + t).skip(1) =~= q + seq![d] + t);
        assert((p + t).skip(1) =~= q + t);
    } else {
        assert((p + seq![c] + s)[0] == c);
        assert((p + seq![d] + t)[0] == d);
    }
}

/// Hits are ordered by distance; at one distance by file, then by the line they
/// begin at, then by the line they end at, then by number. Two hits that may
/// stand either way agree in all of these.
pub proof fn law_ties_go_by_place(a: CodeHit, b: CodeHit)
    ensures
        a.distance < b.distance ==> hit_le(a, b) && !hit_le(b, a),
        a.distance == b.distance && a.file_path@ != b.file_path@ ==> hit_le(a, b) == lex_le(
            a.file_path@,
            b.file_path@,
        ),
        a.distance == b.distance && a.file_path@ == b.file_path@ && a.start_line < b.start_line
            ==> hit_le(a, b) && !hit_le(b, a),
        a.distance == b.distance && a.file_path@ == b.file_path@ && a.start_line == b.start_line
            && a.end_line < b.end_line ==> hit_le(a, b) && !hit_le(b, a),
        hit_le(a, b) && hit_le(b, a) ==> a.distance == b.distance && a.file_path@ == b.file_path@
            && a.start_line == b.start_line && a.end_line == b.end_line && a.chunk_id == b.chunk_id,
{
    lemma_lex(a.file_path@, b.file_path@, b.file_path@);
}

/// Compares positions by the hits that stand there.
pub open spec fn by_rank(hits: Seq<CodeHit>) -> spec_fn(int, int) -> bool {
    |a: int, b: int| hit_le(hits[a], hits[b])
}

fn hit_may_precede(a: &CodeHit, b: &CodeHit) -> (r: bool)
    ensures
        r == hit_le(*a, *b),
{
    if a.distance != b.distance {
        return a.distance < b.distance;
    }
    if !same(a.file_path.as_str(), b.file_path.as_str()) {
        return text_le(a.file_path.as_str(), b.file_path.as_str());
    }
    if a.start_line != b.start_line {
        return a.start_line < b.start_line;
    }
    if a.end_line != b.end_line {
        return a.end_line < b.end_line;
    }
    a.chunk_id <= b.chunk_id
}

/// The order of the hits compares any two of them, and chains.
pub proof fn lemma_rank_is_total(hits: Seq<CodeHit>)
    ensures
        crate::order::total_preorder(by_rank(hits)),
{
    let le = by_rank(hits);
    assert forall|a: int, b: int| #[trigger] le(a, b) || le(b, a) by {
        lemma_lex(hits[a].file_path@, hits[b].file_path@, hits[b].file_path@);
    }
    assert forall|a: int, b: int, c: int| #[trigger] le(a, b) && #[trigger] le(b, c) implies le(
        a,
        c,
    ) by {
        let (pa, pb, pc) = (hits[a].file_path@, hits[b].file_path@, hits[c].file_path@);
        lemma_lex(pa, pb, pc);
        lemma_lex(pc, pb, pa);
        lemma_lex(pb, pc, pa);
        lemma_lex(pa, pc, pb);
    }
}

/// Whether two hits are the same span of the same file.
pub open spec fn same_span(a: CodeHit, b: CodeHit) -> bool {
    a.file_path@ == b.file_path@ && a.start_line == b.start_line && a.end_line == b.end_line
}

/// Whether the hit at place `i` of `order` is the first of its span there.
pub open spec fn first_of_span(hits: Seq<CodeHit>, order: Seq<int>, i: int) -> bool {
    forall|k: int| 0 <= k < i ==> !same_span(hits[#[trigger] order[k]], hits[order[i]])
}

/// The first hit of each span, among the first `n` places of `order`.
pub open spec fn first_spans(hits: Seq<CodeHit>, order: Seq<int>, n: int) -> Seq<int>
    decreases n,
{
    if n <= 0 {
        Seq::<int>::empty()
    } else {
        let before = first_spans(hits, order, n - 1);
        if first_of_span(hits, order, n - 1) {
            before.push(order[n - 1])
        } else {
            before
        }
    }
}

/// The hits of several indexes as one list: nearest first, each span once, at
/// most `limit`.
pub open spec fn merged_hits(hits: Seq<CodeHit>, limit: int) -> Seq<int> {
    let order = stable_order(hits.len(), by_rank(hits));
    let all = first_spans(hits, order, order.len() as int);
    all.take(at_most(all.len() as int, limit))
}

fn rank_hits(hits: &Vec<CodeHit>) -> (r: Vec<usize>)
    ensures
        positions(r@) == stable_order(hits@.len(), by_rank(hits@)),
        r.len() == hits.len(),
        forall|i: int| 0 <= i < r.len() ==> (#[trigger] r@[i]) < hits.len(),
{
    let ghost le = by_rank(hits@);
    let mut out: Vec<usize> = Vec::new();
    let mut n: usize = 0;
    assert(positions(out@) =~= Seq::<int>::empty());
    while n < hits.len()
        invariant
            n <= hits.len(),
            out.len() == n,
            le == by_rank(hits@),
            positions(out@) == stable_order(n as nat, le),
            forall|i: int| 0 <= i < out.len() ==> (#[trigger] out@[i]) < n,
        decreases hits.len() - n,
    {
        let mut at: usize = out.len();
        while at > 0 && !hit_may_precede(&hits[out[at - 1]], &hits[n])
            invariant
                at <= out.len(),
                n < hits.len(),
                out.len() == n,
                le == by_rank(hits@),
                forall|i: int| 0 <= i < out.len() ==> (#[trigger] out@[i]) < n,
                forall|k: int|
                    at <= k < positions(out@).len() ==> !le(#[trigger] positions(out@)[k], n as int),
            decreases at,
        {
            at = at - 1;
        }
        proof {
            let p = positions(out@);
            if at > 0 {
                assert(p[at - 1] == out@[at - 1] as int);
            }
            lemma_insert_at(p, n as int, at as int, le);
            assert(positions(out@.insert(at as int, n)) =~= p.insert(at as int, n as int));
        }
        out.insert(at, n);
        n = n + 1;
    }
    out
}

fn spans_equal(a: &CodeHit, b: &CodeHit) -> (r: bool)
    ensures
        r == same_span(*a, *b),
{
    same(a.file_path.as_str(), b.file_path.as_str()) && a.start_line == b.start_line && a.end_line
        == b.end_line
}

fn is_first_of_span(hits: &Vec<CodeHit>, order: &Vec<usize>, i: usize) -> (r: bool)
    requires
        i < order.len(),
        forall|k: int| 0 <= k < order.len() ==> (#[trigger] order@[k]) < hits.len(),
    ensures
        r == first_of_span(hits@, positions(order@), i as int),
{
    let ghost p = positions(order@);
    let mut k: usize = 0;
    while k < i
        invariant
            k <= i,
            i < order.len(),
            p == positions(order@),
            forall|k: int| 0 <= k < order.len() ==> (#[trigger] order@[k]) < hits.len(),
            forall|j: int| 0 <= j < k ==> !same_span(hits@[#[trigger] p[j]], hits@[p[i as int]]),
        decreases i - k,
    {
        assert(p[k as int] == order@[k as int] as int);
        assert(p[i as int] == order@[i as int] as int);
        if spans_equal(&hits[order[k]], &hits[order[i]]) {
            return false;
        }
        k = k + 1;
    }
    true
}

/// The hits of several indexes as one list: nearest first, each span once, at
/// most `limit`. The result names the hits by their positions.
pub fn merge_hits(hits: &Vec<CodeHit>, limit: usize) -> (r: Vec<usize>)
    ensures
        positions(r@) == merged_hits(hits@, limit as int),
        forall|i: int| 0 <= i < r.len() ==> (#[trigger] r@[i]) < hits.len(),
{
    let order = rank_hits(hits);
    let ghost p = positions(order@);
    let mut out: Vec<usize> = Vec::new();
    let mut i: usize = 0;
    assert(positions(out@) =~= Seq::<int>::empty());
    while i < order.len()
        invariant
            i <= order.len(),
            p == positions(order@),
            forall|k: int| 0 <= k < order.len() ==> (#[trigger] order@[k]) < hits.len(),
            forall|k: int| 0 <= k < out.len() ==> (#[trigger] out@[k]) < hits.len(),
            positions(out@) == first_spans(hits@, p, i as int),
        decreases order.len() - i,
    {
        if is_first_of_span(hits, &order, i) {
            let ghost before = positions(out@);
            out.push(order[i]);
            assert(p[i as int] == order@[i as int] as int);
            assert(positions(out@) =~= before.push(p[i as int]));
        }
        i = i + 1;
    }
    let ghost all = positions(out@);
    if out.len() > limit {
        out.truncate(limit);
    }
    assert(positions(out@) =~= all.take(at_most(all.len() as int, limit as int)));
    out
}

/// Whether `v` is among the first `n` places of `order`.
spec fn among(order: Seq<int>, n: int, v: int) -> bool {
    exists|k: int| 0 <= k < n && #[trigger] order[k] == v
}

proof fn lemma_spans_from_order(hits: Seq<CodeHit>, order: Seq<int>, n: int, a: int)
    requires
        0 <= n <= order.len(),
        0 <= a < first_spans(hits, order, n).len(),
    ensures
        among(order, n, first_spans(hits, order, n)[a]),
    decreases n,
{
    let now = first_spans(hits, order, n);
    let before = first_spans(hits, order, n - 1);
    if a < before.len() {
        lemma_spans_from_order(hits, order, n - 1, a);
        let k = choose|k: int| 0 <= k < n - 1 && #[trigger] order[k] == before[a];
        assert(order[k] == now[a]);
    } else {
        assert(order[n - 1] == now[a]);
    }
}

proof fn lemma_spans_distinct(hits: Seq<CodeHit>, order: Seq<int>, n: int, a: int, b: int)
    requires
        0 <= n <= order.len(),
        0 <= a < b < first_spans(hits, order, n).len(),
    ensures
        !same_span(hits[first_spans(hits, order, n)[a]], hits[first_spans(hits, order, n)[b]]),
    decreases n,
{
    let before = first_spans(hits, order, n - 1);
    if b < before.len() {
        lemma_spans_distinct(hits, order, n - 1, a, b);
    } else {
        lemma_spans_from_order(hits, order, n - 1, a);
        let k = choose|k: int| 0 <= k < n - 1 && #[trigger] order[k] == before[a];
        assert(!same_span(hits[order[k]], hits[order[n - 1]]));
    }
}

/// Whether `kept` has a hit of the span of `h` that may stand before it.
pub open spec fn has_as_near(hits: Seq<CodeHit>, kept: Seq<int>, h: CodeHit) -> bool {
    exists|a: int|
        0 <= a < kept.len() && same_span(hits[#[trigger] kept[a]], h) && hits[kept[a]].distance
            <= h.distance
}

proof fn lemma_as_near_pushed(hits: Seq<CodeHit>, kept: Seq<int>, v: int, h: CodeHit)
    requires
        has_as_near(hits, kept, h),
    ensures
        has_as_near(hits, kept.push(v), h),
{
    let a = choose|a: int|
        0 <= a < kept.len() && same_span(hits[#[trigger] kept[a]], h) && hits[kept[a]].distance
            <= h.distance;
    assert(kept.push(v)[a] == kept[a]);
}

proof fn lemma_spans_cover(hits: Seq<CodeHit>, order: Seq<int>, n: int, i: int)
    requires
        0 <= i < n <= order.len(),
        forall|x: int, y: int|
            0 <= x < y < order.len() ==> hits[#[trigger] order[x]].distance
                <= hits[#[trigger] order[y]].distance,
    ensures
        has_as_near(hits, first_spans(hits, order, n), hits[order[i]]),
    decreases n, i,
{
    let now = first_spans(hits, order, n);
    let before = first_spans(hits, order, n - 1);
    if i < n - 1 {
        lemma_spans_cover(hits, order, n - 1, i);
        if now != before {
            lemma_as_near_pushed(hits, before, order[n - 1], hits[order[i]]);
        }
    } else if first_of_span(hits, order, n - 1) {
        assert(now[before.len() as int] == order[i]);
    } else {
        let k = choose|k: int|
            0 <= k < n - 1 && same_span(hits[#[trigger] order[k]], hits[order[n - 1]]);
        lemma_spans_cover(hits, order, n - 1, k);
        assert(now == before);
        let a = choose|a: int|
            0 <= a < before.len() && same_span(hits[#[trigger] before[a]], hits[order[k]])
                && hits[before[a]].distance <= hits[order[k]].distance;
        assert(hits[order[k]].distance <= hits[order[i]].distance);
        assert(same_span(hits[before[a]], hits[order[i]]));
    }
}

/// Whether every hit that is kept is as near as `h`.
pub open spec fn all_as_near(hits: Seq<CodeHit>, kept: Seq<int>, h: CodeHit) -> bool {
    forall|a: int| 0 <= a < kept.len() ==> hits[#[trigger] kept[a]].distance <= h.distance
}

/// Of every span that was found a copy is kept that is as near as any, or else
/// the list is full of hits that are as near. What is kept of a span is the
/// nearest of its copies.
pub proof fn law_the_nearest_copy_is_kept(hits: Seq<CodeHit>, limit: int, h: int)
    requires
        limit >= 0,
        0 <= h < hits.len(),
    ensures
        has_as_near(hits, merged_hits(hits, limit), hits[h]) || (limit < hits.len()
            && merged_hits(hits, limit).len() == limit && all_as_near(
            hits,
            merged_hits(hits, limit),
            hits[h],
        )),
        forall|a: int|
            0 <= a < merged_hits(hits, limit).len() && same_span(
                hits[#[trigger] merged_hits(hits, limit)[a]],
                hits[h],
            ) ==> hits[merged_hits(hits, limit)[a]].distance <= hits[h].distance,
{
    let le = by_rank(hits);
    let order = stable_order(hits.len(), le);
    lemma_rank_is_total(hits);
    crate::order::lemma_stable_order_sorted(hits.len(), le);
    crate::order::lemma_stable_order_positions(hits.len(), le);
    assert forall|x: int, y: int| 0 <= x < y < order.len() implies hits[#[trigger] order[x]].distance
        <= hits[#[trigger] order[y]].distance by {
        assert(le(order[x], order[y]));
    }
    assert(order.contains(h));
    let i = choose|i: int| 0 <= i < order.len() && order[i] == h;
    lemma_spans_cover(hits, order, order.len() as int, i);
    let all = first_spans(hits, order, order.len() as int);
    let kept = merged_hits(hits, limit);
    let c = choose|c: int|
        0 <= c < all.len() && same_span(hits[#[trigger] all[c]], hits[h]) && hits[all[c]].distance
            <= hits[h].distance;
    assert forall|a: int| 0 <= a < kept.len() && same_span(hits[#[trigger] kept[a]], hits[h]) implies
        hits[kept[a]].distance <= hits[h].distance by {
        assert(kept[a] == all[a]);
        if a < c {
            lemma_spans_distinct(hits, order, order.len() as int, a, c);
        } else if c < a {
            lemma_spans_distinct(hits, order, order.len() as int, c, a);
        }
    }
    if c < kept.len() {
        assert(kept[c] == all[c]);
    } else {
        lemma_spans_count(hits, order, order.len() as int);
        assert forall|a: int| 0 <= a < kept.len() implies hits[#[trigger] kept[a]].distance
            <= hits[h].distance by {
            assert(kept[a] == all[a]);
            lemma_spans_in_order(hits, order, order.len() as int, a, c);
            let (x, y) = choose|x: int, y: int|
                0 <= x < y < order.len() && #[trigger] order[x] == all[a] && #[trigger] order[y]
                    == all[c];
            assert(hits[order[x]].distance <= hits[order[y]].distance);
        }
    }
}

/// Two hits of a merged list differ in the file or in the lines, and hits that
/// differ there are never dropped for one another: where the limit leaves room, a
/// copy of every hit's file and lines is in the list.
pub proof fn law_every_place_found_is_listed(hits: Seq<CodeHit>, limit: int, h: int)
    requires
        0 <= h < hits.len(),
        limit >= hits.len(),
    ensures
        exists|a: int|
            #![trigger merged_hits(hits, limit)[a]]
            0 <= a < merged_hits(hits, limit).len() && 0 <= merged_hits(hits, limit)[a]
                < hits.len() && hits[merged_hits(hits, limit)[a]].file_path@ == hits[h].file_path@
                && hits[merged_hits(hits, limit)[a]].start_line == hits[h].start_line
                && hits[merged_hits(hits, limit)[a]].end_line == hits[h].end_line
                && hits[merged_hits(hits, limit)[a]].distance <= hits[h].distance,
        forall|a: int, b: int|
            #![trigger merged_hits(hits, limit)[a], merged_hits(hits, limit)[b]]
            0 <= a < b < merged_hits(hits, limit).len() ==> hits[merged_hits(
                hits,
                limit,
            )[a]].file_path@ != hits[merged_hits(hits, limit)[b]].file_path@ || hits[merged_hits(
                hits,
                limit,
            )[a]].start_line != hits[merged_hits(hits, limit)[b]].start_line || hits[merged_hits(
                hits,
                limit,
            )[a]].end_line != hits[merged_hits(hits, limit)[b]].end_line,
{
    let m = merged_hits(hits, limit);
    law_the_nearest_copy_is_kept(hits, limit, h);
    let a = choose|a: int|
        0 <= a < m.len() && same_span(hits[#[trigger] m[a]], hits[h]) && hits[m[a]].distance
            <= hits[h].distance;
    law_merged_hits_were_found(hits, limit, a);
    assert(hits[m[a]].file_path@ == hits[h].file_path@);
    assert forall|a: int, b: int| #![trigger m[a], m[b]] 0 <= a < b < m.len() implies hits[m[a]].file_path@
        != hits[m[b]].file_path@ || hits[m[a]].start_line != hits[m[b]].start_line
        || hits[m[a]].end_line != hits[m[b]].end_line by {
        law_merged_spans_are_distinct(hits, limit, a, b);
    }
}

/// A merged list names hits that were found, and no more than the limit.
pub proof fn law_merged_hits_were_found(hits: Seq<CodeHit>, limit: int, a: int)
    requires
        limit >= 0,
        0 <= a < merged_hits(hits, limit).len(),
    ensures
        0 <= merged_hits(hits, limit)[a] < hits.len(),
        merged_hits(hits, limit).len() <= limit,
{
    let le = by_rank(hits);
    let order = stable_order(hits.len(), le);
    crate::order::lemma_stable_order_positions(hits.len(), le);
    lemma_spans_from_order(hits, order, order.len() as int, a);
    let all = first_spans(hits, order, order.len() as int);
    let k = choose|k: int| 0 <= k < order.len() && #[trigger] order[k] == all[a];
    assert(order.contains(order[k]));
}

proof fn lemma_spans_count(hits: Seq<CodeHit>, order: Seq<int>, n: int)
    requires
        0 <= n <= order.len(),
    ensures
        first_spans(hits, order, n).len() <= n,
    decreases n,
{
    if n > 0 {
        lemma_spans_count(hits, order, n - 1);
    }
}

/// No span is in a merged list twice.
pub proof fn law_merged_spans_are_distinct(hits: Seq<CodeHit>, limit: int, a: int, b: int)
    requires
        limit >= 0,
        0 <= a < b < merged_hits(hits, limit).len(),
    ensures
        !same_span(hits[merged_hits(hits, limit)[a]], hits[merged_hits(hits, limit)[b]]),
{
    let order = stable_order(hits.len(), by_rank(hits));
    lemma_spans_distinct(hits, order, order.len() as int, a, b);
}

/// A merged list is in the order of distance.
pub proof fn law_merged_hits_are_nearest_first(hits: Seq<CodeHit>, limit: int, a: int, b: int)
    requires
        limit >= 0,
        0 <= a < b < merged_hits(hits, limit).len(),
    ensures
        hits[merged_hits(hits, limit)[a]].distance <= hits[merged_hits(hits, limit)[b]].distance,
{
    let le = by_rank(hits);
    let order = stable_order(hits.len(), le);
    lemma_rank_is_total(hits);
    crate::order::lemma_stable_order_sorted(hits.len(), le);
    lemma_spans_in_order(hits, order, order.len() as int, a, b);
    let all = first_spans(hits, order, order.len() as int);
    let (i, j) = choose|i: int, j: int|
        0 <= i < j < order.len() && #[trigger] order[i] == all[a] && #[trigger] order[j] == all[b];
    assert(le(order[i], order[j]));
}

proof fn lemma_spans_in_order(hits: Seq<CodeHit>, order: Seq<int>, n: int, a: int, b: int)
    requires
        0 <= n <= order.len(),
        0 <= a < b < first_spans(hits, order, n).len(),
    ensures
        exists|i: int, j: int|
            0 <= i < j < n && #[trigger] order[i] == first_spans(hits, order, n)[a]
                && #[trigger] order[j] == first_spans(hits, order, n)[b],
    decreases n,
{
    let now = first_spans(hits, order, n);
    let before = first_spans(hits, order, n - 1);
    if b < before.len() {
        lemma_spans_in_order(hits, order, n - 1, a, b);
        let (i, j) = choose|i: int, j: int|
            0 <= i < j < n - 1 && #[trigger] order[i] == before[a] && #[trigger] order[j]
                == before[b];
        assert(order[i] == now[a] && order[j] == now[b]);
    } else {
        lemma_spans_from_order(hits, order, n - 1, a);
        let i = choose|i: int| 0 <= i < n - 1 && #[trigger] order[i] == before[a];
        assert(order[i] == now[a] && order[n - 1] == now[b]);
    }
}

/// What the index of a linked project gave.
pub struct DepHits {
    pub project_name: String,
    pub project_path: String,
    pub hits: Vec<CodeHit>,
}

/// The hits of a linked project, marked with its name and path.
pub open spec fn marked_hits(d: DepHits) -> Seq<CodeHit> {
    d.hits@.map_values(
        |h: CodeHit|
            CodeHit {
                project_name: Some(d.project_name),
                project_path: Some(d.project_path),
                ..h
            },
    )
}

/// The hits of this project, then those of the first `n` linked ones.
pub open spec fn gathered(primary: Seq<CodeHit>, deps: Seq<DepHits>, n: int) -> Seq<CodeHit>
    decreases n,
{
    if n <= 0 {
        primary
    } else {
        gathered(primary, deps, n - 1) + marked_hits(deps[n - 1])
    }
}

/// The hits of this project stand first and as they are; each hit of a linked
/// project follows, as it is but for the name and path of its project.
pub proof fn law_hits_of_linked_projects_say_where_they_are_from(
    primary: Seq<CodeHit>,
    deps: Seq<DepHits>,
    n: int,
    d: int,
    k: int,
)
    requires
        0 <= d < n <= deps.len(),
        0 <= k < deps[d].hits@.len(),
    ensures
        primary.is_prefix_of(gathered(primary, deps, n)),
        gathered(primary, deps, n).contains(
            (CodeHit {
                project_name: Some(deps[d].project_name),
                project_path: Some(deps[d].project_path),
                ..deps[d].hits@[k]
            }),
        ),
        gathered(primary, deps, n).len() == gathered(primary, deps, n - 1).len() + deps[n - 1].hits@.len(),
        gathered(primary, deps, 0) == primary,
    decreases n,
{
    let marked = CodeHit {
        project_name: Some(deps[d].project_name),
        project_path: Some(deps[d].project_path),
        ..deps[d].hits@[k]
    };
    let before = gathered(primary, deps, n - 1);
    let now = gathered(primary, deps, n);
    lemma_primary_first(primary, deps, n);
    if d < n - 1 {
        law_hits_of_linked_projects_say_where_they_are_from(primary, deps, n - 1, d, k);
        let i = choose|i: int| 0 <= i < before.len() && before[i] == marked;
        assert(now[i] == marked);
    } else {
        assert(marked_hits(deps[d])[k] == marked);
        assert(now[before.len() + k] == marked);
    }
}

proof fn lemma_primary_first(primary: Seq<CodeHit>, deps: Seq<DepHits>, n: int)
    requires
        0 <= n <= deps.len(),
    ensures
        primary.is_prefix_of(gathered(primary, deps, n)),
    decreases n,
{
    if n > 0 {
        lemma_primary_first(primary, deps, n - 1);
        assert(gathered(primary, deps, n).take(primary.len() as int) =~= gathered(
            primary,
            deps,
            n - 1,
        ).take(primary.len() as int));
    } else {
        assert(primary.is_prefix_of(primary));
    }
}

fn pick_hits(all: Vec<CodeHit>, kept: &Vec<usize>) -> (r: Vec<CodeHit>)
    requires
        forall|i: int| 0 <= i < kept.len() ==> (#[trigger] kept@[i]) < all.len(),
        forall|i: int, j: int|
            0 <= i < j < kept.len() ==> #[trigger] kept@[i] != #[trigger] kept@[j],
    ensures
        r@ == positions(kept@).map_values(|p: int| all@[p]),
{
    let ghost hits = all@;
    let mut slots: Vec<Option<CodeHit>> = Vec::new();
    for h in it: all
        invariant
            it.seq() == hits,
            slots.len() == it.index(),
            forall|i: int| 0 <= i < it.index() ==> #[trigger] slots@[i] == Some(hits[i]),
    {
        slots.push(Some(h));
    }
    let mut out: Vec<CodeHit> = Vec::new();
    let ghost want = positions(kept@).map_values(|p: int| hits[p]);
    let mut k: usize = 0;
    while k < kept.len()
        invariant
            k <= kept.len(),
            slots.len() == hits.len(),
            want == positions(kept@).map_values(|p: int| hits[p]),
            forall|i: int| 0 <= i < kept.len() ==> (#[trigger] kept@[i]) < hits.len(),
            forall|i: int, j: int|
                0 <= i < j < kept.len() ==> #[trigger] kept@[i] != #[trigger] kept@[j],
            forall|i: int| k <= i < kept.len() ==> slots@[(#[trigger] kept@[i]) as int] == Some(
                hits[kept@[i] as int],
            ),
            out@ =~= want.take(k as int),
        decreases kept.len() - k,
    {
        let at: usize = kept[k];
        assert(slots@[kept@[k as int] as int] == Some(hits[at as int]));
        let slot = slots[at].take();
        if let Some(h) = slot {
            assert(want[k as int] == h);
            out.push(h);
        }
        k = k + 1;
    }
    assert(want.take(k as int) =~= want);
    out
}

/// The hits of this project and of those it is linked to, as one list: nearest
/// first, each span once, at most `limit`. Hits of linked projects say which
/// project they are from.
pub fn search_all_dbs_linearrag(primary: Vec<CodeHit>, deps: Vec<DepHits>, limit: usize) -> (r: Vec<
    CodeHit,
>)
    ensures
        ({
            let all = gathered(primary@, deps@, deps@.len() as int);
            r@ == merged_hits(all, limit as int).map_values(|p: int| all[p])
        }),
{
    let ghost projects = deps@;
    let mut all: Vec<CodeHit> = primary;
    for d in it: deps
        invariant
            it.seq() == projects,
            all@ == gathered(primary@, projects, it.index() as int),
    {
        let ghost before = all@;
        let ghost i = it.index() as int;
        assert(d == projects[i]);
        let mut hits = d.hits;
        annotate_dep_results(&mut hits, Some(d.project_name), d.project_path);
        assert(hits@ =~= marked_hits(projects[i]));
        all.append(&mut hits);
        assert(all@ =~= before + marked_hits(projects[i]));
    }
    let kept = merge_hits(&all, limit);
    proof {
        let m = merged_hits(all@, limit as int);
        assert forall|i: int, j: int| 0 <= i < j < kept.len() implies #[trigger] kept@[i]
            != #[trigger] kept@[j] by {
            law_merged_spans_are_distinct(all@, limit as int, i, j);
            assert(m[i] == kept@[i] as int && m[j] == kept@[j] as int);
        }
    }
    pick_hits(all, &kept)
}

// ---- the appendix ----------------------------------------------------------

/// Whether the neighbours of the results in the code graph are looked up.
pub fn graph_wanted(graph: bool, want_code: bool, fused: usize, named: usize) -> (r: bool)
    ensures
        r == (graph && want_code && fused > 0 && named > 0),
{
    graph && want_code && fused > 0 && named > 0
}

/// The neighbours among the first `n` that are no result yet.
pub open spec fn unseen_upto(neighbours: Seq<i64>, seen: Seq<i64>, n: int) -> Seq<i64>
    decreases n,
{
    if n <= 0 {
        Seq::<i64>::empty()
    } else {
        let before = unseen_upto(neighbours, seen, n - 1);
        if seen.contains(neighbours[n - 1]) {
            before
        } else {
            before.push(neighbours[n - 1])
        }
    }
}

/// A neighbour is new if and only if it is no result yet.
pub proof fn law_a_neighbour_is_new_unless_it_was_found(
    neighbours: Seq<i64>,
    seen: Seq<i64>,
    n: int,
)
    requires
        0 <= n <= neighbours.len(),
    ensures
        unseen_upto(neighbours, seen, n) == neighbours.take(n).filter(
            |id: i64| !seen.contains(id),
        ),
    decreases n,
{
    reveal(Seq::filter);
    if n > 0 {
        law_a_neighbour_is_new_unless_it_was_found(neighbours, seen, n - 1);
        assert(neighbours.take(n).drop_last() =~= neighbours.take(n - 1));
        assert(neighbours.take(n).last() == neighbours[n - 1]);
    } else {
        assert(neighbours.take(0).len() == 0);
        assert(unseen_upto(neighbours, seen, n) =~= neighbours.take(n).filter(
            |id: i64| !seen.contains(id),
        ));
    }
}

fn has_id(v: &Vec<i64>, id: i64) -> (r: bool)
    ensures
        r == v@.contains(id),
{
    let mut i: usize = 0;
    while i < v.len()
        invariant
            i <= v.len(),
            forall|k: int| 0 <= k < i ==> v@[k] != id,
        decreases v.len() - i,
    {
        if v[i] == id {
            return true;
        }
        i = i + 1;
    }
    false
}

/// The neighbours to append: those that are no result yet, at most `limit`.
pub fn graph_new_ids(neighbours: &Vec<i64>, seen: &Vec<i64>, limit: usize) -> (r: Vec<i64>)
    ensures
        ({
            let all = unseen_upto(neighbours@, seen@, neighbours.len() as int);
            r@ == all.take(at_most(all.len() as int, limit as int))
        }),
{
    let mut out: Vec<i64> = Vec::new();
    let mut i: usize = 0;
    while i < neighbours.len()
        invariant
            i <= neighbours.len(),
            out@ == unseen_upto(neighbours@, seen@, i as int),
        decreases neighbours.len() - i,
    {
        if !has_id(seen, neighbours[i]) {
            out.push(neighbours[i]);
        }
        i = i + 1;
    }
    let ghost all = out@;
    if out.len() > limit {
        out.truncate(limit);
    }
    assert(out@ =~= all.take(at_most(all.len() as int, limit as int)));
    out
}

/// A neighbour in the code graph, as an unranked result.
pub open spec fn graph_result(u: UnifiedResult, c: CodeHit) -> bool {
    &&& u.code == Some(CodeHit { from_graph: true, ..c })
    &&& u.memory is None
    &&& u.fused_rank is None
}

/// An attached memory entry, as an unranked result.
pub open spec fn attached_result(u: UnifiedResult, m: MemoryHit) -> bool {
    &&& u.code is None
    &&& u.memory == Some(m)
    &&& u.fused_rank is None
}

/// Whether `all` is the list that a search shows: the fused results, as many as
/// the plan keeps, then the neighbours in the code graph, then the attached
/// entries, as many as the plan attaches.
pub open spec fn is_result_list(
    all: Seq<UnifiedResult>,
    fused: Seq<UnifiedResult>,
    graph: Seq<CodeHit>,
    attachments: Seq<MemoryHit>,
    plan: SearchPlan,
) -> bool {
    let ranked = at_most(fused.len() as int, plan.fuse_cap as int);
    let attached = at_most(attachments.len() as int, plan.attach_limit as int);
    &&& all.len() == ranked + graph.len() + attached
    &&& all.take(ranked) == fused.take(ranked)
    &&& forall|i: int| 0 <= i < graph.len() ==> graph_result(all[ranked + i], #[trigger] graph[i])
    &&& forall|i: int|
        0 <= i < attached ==> attached_result(
            all[ranked + graph.len() + i],
            #[trigger] attachments[i],
        )
}

/// The list that a search shows. Attachments are bounded by the results asked
/// for, so that they never swamp the list they follow.
pub fn result_list(
    fused: Vec<UnifiedResult>,
    graph: Vec<CodeHit>,
    attachments: Vec<MemoryHit>,
    plan: &SearchPlan,
) -> (r: Vec<UnifiedResult>)
    ensures
        is_result_list(r@, fused@, graph@, attachments@, *plan),
{
    let ghost f = at_most(fused@.len() as int, plan.fuse_cap as int);
    let ghost ranked = fused@.take(f);
    let ghost hits = graph@;
    let ghost notes = attachments@;
    let mut attachments = attachments;
    if attachments.len() > plan.attach_limit {
        attachments.truncate(plan.attach_limit);
    }
    let ghost kept = attachments@;
    let mut out: Vec<UnifiedResult> = fused;
    if out.len() > plan.fuse_cap {
        out.truncate(plan.fuse_cap);
    }
    assert(out@ =~= ranked);
    assert(out@.take(f) =~= ranked);
    for c in it: graph
        invariant
            it.seq() == hits,
            f >= 0,
            out@.len() == f + it.index(),
            out@.take(f) == ranked,
            forall|i: int|
                0 <= i < it.index() ==> graph_result(out@[f + i], #[trigger] hits[i]),
    {
        let ghost before = out@;
        let mut marked = c;
        marked.from_graph = true;
        out.push(UnifiedResult { code: Some(marked), memory: None, fused_rank: None });
        assert(out@.take(f) =~= before.take(f));
    }
    for m in it: attachments
        invariant
            it.seq() == kept,
            f >= 0,
            out@.len() == f + hits.len() + it.index(),
            out@.take(f) == ranked,
            forall|i: int| 0 <= i < hits.len() ==> graph_result(out@[f + i], #[trigger] hits[i]),
            forall|i: int|
                0 <= i < it.index() ==> attached_result(
                    out@[f + hits.len() + i],
                    #[trigger] kept[i],
                ),
    {
        let ghost before = out@;
        out.push(UnifiedResult { code: None, memory: Some(m), fused_rank: None });
        assert(out@.take(f) =~= before.take(f));
    }
    assert forall|i: int| 0 <= i < kept.len() implies attached_result(
        out@[f + hits.len() + i],
        #[trigger] notes[i],
    ) by {
        assert(kept[i] == notes[i]);
    }
    out
}

/// A list begins with the fused results, as many as the plan keeps; then each
/// neighbour in the code graph, marked as one; then the attached entries, as many
/// as the plan attaches; and nothing else.
pub proof fn law_a_list_holds_each_part_in_its_place(
    all: Seq<UnifiedResult>,
    fused: Seq<UnifiedResult>,
    graph: Seq<CodeHit>,
    attachments: Seq<MemoryHit>,
    plan: SearchPlan,
    i: int,
)
    requires
        is_result_list(all, fused, graph, attachments, plan),
    ensures
        0 <= i < fused.len() && i < plan.fuse_cap ==> i < all.len() && all[i] == fused[i],
        fused.len() <= plan.fuse_cap && 0 <= i < graph.len() ==> all[fused.len() + i].code == Some(
            CodeHit { from_graph: true, ..graph[i] },
        ) && all[fused.len() + i].memory is None && all[fused.len() + i].fused_rank is None,
        fused.len() <= plan.fuse_cap && 0 <= i < attachments.len() && i < plan.attach_limit
            ==> all[fused.len() + graph.len() + i].memory == Some(attachments[i])
            && all[fused.len() + graph.len() + i].code is None && all[fused.len() + graph.len()
            + i].fused_rank is None,
        fused.len() <= plan.fuse_cap && attachments.len() <= plan.attach_limit ==> all.len()
            == fused.len() + graph.len() + attachments.len(),
        fused.len() > plan.fuse_cap && attachments.len() > plan.attach_limit ==> all.len()
            == plan.fuse_cap + graph.len() + plan.attach_limit,
{
    let f = at_most(fused.len() as int, plan.fuse_cap as int);
    if 0 <= i < f {
        assert(all.take(f)[i] == fused.take(f)[i]);
    }
    if 0 <= i < graph.len() {
        assert(graph_result(all[f + i], graph[i]));
    }
    if 0 <= i < attachments.len() && i < plan.attach_limit {
        assert(attached_result(all[f + graph.len() + i], attachments[i]));
    }
}

/// Nothing unranked stands before a ranked result: what is appended follows the
/// whole fused list.
pub proof fn law_attachments_follow_the_ranked(
    all: Seq<UnifiedResult>,
    fused: Seq<UnifiedResult>,
    graph: Seq<CodeHit>,
    attachments: Seq<MemoryHit>,
    plan: SearchPlan,
    i: int,
    j: int,
)
    requires
        is_result_list(all, fused, graph, attachments, plan),
        forall|k: int| 0 <= k < fused.len() ==> (#[trigger] fused[k]).fused_rank is Some,
        0 <= i < all.len(),
        0 <= j < all.len(),
        all[i].fused_rank is Some,
        all[j].fused_rank is None,
    ensures
        i < j,
{
    let f = at_most(fused.len() as int, plan.fuse_cap as int);
    if j < f {
        assert(all.take(f)[j] == fused.take(f)[j]);
        assert(fused.take(f)[j] == fused[j]);
    }
    lemma_unranked_from(all, fused, graph, attachments, plan, i);
}

proof fn lemma_unranked_from(
    all: Seq<UnifiedResult>,
    fused: Seq<UnifiedResult>,
    graph: Seq<CodeHit>,
    attachments: Seq<MemoryHit>,
    plan: SearchPlan,
    i: int,
)
    requires
        is_result_list(all, fused, graph, attachments, plan),
        0 <= i < all.len(),
    ensures
        i >= at_most(fused.len() as int, plan.fuse_cap as int) ==> all[i].fused_rank is None,
{
    let f = at_most(fused.len() as int, plan.fuse_cap as int);
    if i >= f {
        if i < f + graph.len() {
            assert(graph_result(all[f + (i - f)], graph[i - f]));
        } else {
            let k = i - f - graph.len();
            assert(attached_result(all[f + graph.len() + k], attachments[k]));
        }
    }
}

/// Without a budget, no more ranked results are shown than were asked for, and
/// never more than a hundred: they all stand among the first of the list.
pub proof fn law_ranked_results_are_at_most_a_hundred(
    all: Seq<UnifiedResult>,
    fused: Seq<UnifiedResult>,
    graph: Seq<CodeHit>,
    attachments: Seq<MemoryHit>,
    only_code: bool,
    only_memory: bool,
    only_text: bool,
    limit: usize,
    i: int,
)
    requires
        is_result_list(
            all,
            fused,
            graph,
            attachments,
            plan_of(only_code, only_memory, only_text, limit, None),
        ),
        0 <= i < all.len(),
        all[i].fused_rank is Some,
    ensures
        i < limit,
        i < MAX_RESULTS,
{
    lemma_unranked_from(
        all,
        fused,
        graph,
        attachments,
        plan_of(only_code, only_memory, only_text, limit, None),
        i,
    );
}

// ---- the list as text ------------------------------------------------------

/// The lines that show one result.
pub open spec fn result_block(u: UnifiedResult) -> Seq<(bool, Seq<char>)> {
    (match u.code {
        Some(c) => seq![
            (
                true,
                "\x1b[2m["@ + (if c.from_graph {
                    "code · graph"@
                } else {
                    "code"@
                }) + "]\x1b[0m "@ + (match c.project_name {
                    Some(p) => "\x1b[36m["@ + p@ + "]\x1b[0m "@,
                    None => Seq::<char>::empty(),
                }) + "\x1b[1m"@ + c.file_path@ + "\x1b[0m  \x1b[2m"@ + c.language@ + ":"@ + dec(
                    c.start_line as nat,
                ) + "-"@ + dec(c.end_line as nat) + "\x1b[0m  \x1b[33m["@ + c.node_type@ + ": "@
                    + chunk_name(c.name) + "]\x1b[0m"@,
            ),
        ] + (match c.summary {
            Some(s) => if s@.len() > 0 {
                seq![(false, "    Summary: "@ + s@)]
            } else {
                Seq::<(bool, Seq<char>)>::empty()
            },
            None => Seq::<(bool, Seq<char>)>::empty(),
        }) + indented(
            lines_of(c.content@),
            at_most(lines_of(c.content@).len() as int, 4),
        ),
        None => match u.memory {
            Some(m) => seq![
                (
                    true,
                    "\x1b[2m["@ + (if u.fused_rank is None {
                        "memory · attached"@
                    } else {
                        "memory"@
                    }) + "]\x1b[0m \x1b[33m["@ + m.kind@ + "]\x1b[0m #"@ + m.id@ + "  \x1b[1m"@
                        + m.title@ + "\x1b[0m"@ + (match m.source_project {
                        Some(p) => "  \x1b[36m[from: "@ + p@ + "]\x1b[0m"@,
                        None => Seq::<char>::empty(),
                    }),
                ),
            ] + indented(lines_of(m.body@), at_most(lines_of(m.body@).len() as int, 2)),
            None => Seq::<(bool, Seq<char>)>::empty(),
        },
    }) + seq![(false, Seq::<char>::empty())]
}

/// A result of code shows its file, then its language and lines, then what it
/// is, and, where it has no summary, how it begins.
#[verifier::rlimit(60)]
pub proof fn law_code_shows_where_it_stands(u: UnifiedResult, k: int)
    requires
        u.code is Some,
    ensures
        ({
            let c = u.code->0;
            &&& result_block(u)[0].0
            &&& occurs(
                result_block(u)[0].1,
                c.file_path@ + "\x1b[0m  \x1b[2m"@ + c.language@ + ":"@ + dec(c.start_line as nat)
                    + "-"@ + dec(c.end_line as nat) + "\x1b[0m  \x1b[33m["@ + c.node_type@ + ": "@
                    + chunk_name(c.name),
            )
            &&& result_block(u).last() == (false, Seq::<char>::empty())
            &&& c.summary is None && 0 <= k < 4 && k < lines_of(c.content@).len() ==> result_block(
                u,
            )[1 + k] == (false, "    "@ + lines_of(c.content@)[k])
        }),
{
    let c = u.code->0;
    let front = "\x1b[2m["@ + (if c.from_graph {
        "code · graph"@
    } else {
        "code"@
    }) + "]\x1b[0m "@ + (match c.project_name {
        Some(p) => "\x1b[36m["@ + p@ + "]\x1b[0m "@,
        None => Seq::<char>::empty(),
    }) + "\x1b[1m"@;
    let told = c.file_path@ + "\x1b[0m  \x1b[2m"@ + c.language@ + ":"@ + dec(c.start_line as nat)
        + "-"@ + dec(c.end_line as nat) + "\x1b[0m  \x1b[33m["@ + c.node_type@ + ": "@ + chunk_name(
        c.name,
    );
    assert(result_block(u)[0].1 =~= front + told + "]\x1b[0m"@);
    lemma_occurs_between(front, told, "]\x1b[0m"@);
}

/// A result of memory shows its kind, its id and its title, and how its body
/// begins.
#[verifier::rlimit(60)]
pub proof fn law_memory_shows_its_title(u: UnifiedResult, k: int)
    requires
        u.code is None,
        u.memory is Some,
    ensures
        ({
            let m = u.memory->0;
            &&& result_block(u)[0].0
            &&& occurs(
                result_block(u)[0].1,
                "["@ + m.kind@ + "]\x1b[0m #"@ + m.id@ + "  \x1b[1m"@ + m.title@,
            )
            &&& result_block(u).last() == (false, Seq::<char>::empty())
            &&& 0 <= k < 2 && k < lines_of(m.body@).len() ==> result_block(u)[1 + k] == (
                false,
                "    "@ + lines_of(m.body@)[k],
            )
        }),
{
    let m = u.memory->0;
    let label = "\x1b[2m["@ + (if u.fused_rank is None {
        "memory · attached"@
    } else {
        "memory"@
    });
    let from = match m.source_project {
        Some(p) => "  \x1b[36m[from: "@ + p@ + "]\x1b[0m"@,
        None => Seq::<char>::empty(),
    };
    let told = "["@ + m.kind@ + "]\x1b[0m #"@ + m.id@ + "  \x1b[1m"@ + m.title@;
    reveal_strlit("]\x1b[0m \x1b[33m[");
    reveal_strlit("]\x1b[0m \x1b[33m");
    reveal_strlit("[");
    assert("]\x1b[0m \x1b[33m["@ =~= "]\x1b[0m \x1b[33m"@ + "["@);
    let front = label + "]\x1b[0m \x1b[33m"@;
    assert(result_block(u)[0].1 =~= front + told + ("\x1b[0m"@ + from));
    lemma_occurs_between(front, told, "\x1b[0m"@ + from);
}

/// The lines that show the first `n` results.
pub open spec fn result_blocks(us: Seq<UnifiedResult>, n: int) -> Seq<(bool, Seq<char>)>
    decreases n,
{
    if n <= 0 {
        Seq::<(bool, Seq<char>)>::empty()
    } else {
        result_blocks(us, n - 1) + result_block(us[n - 1])
    }
}

fn push_result(out: &mut Vec<Line>, u: &UnifiedResult)
    ensures
        line_models(final(out)@) == line_models(old(out)@) + result_block(*u),
{
    let ghost first = line_models(out@);
    if let Some(c) = &u.code {
        let name = display_name(&c.name);
        let label = if c.from_graph {
            "code · graph"
        } else {
            "code"
        };
        let prefix = match &c.project_name {
            Some(p) => "\x1b[36m[".to_owned().concat(p.as_str()).concat("]\x1b[0m "),
            None => String::new(),
        };
        push_styled(
            out,
            "\x1b[2m[".to_owned().concat(label).concat("]\x1b[0m ").concat(
                prefix.as_str(),
            ).concat("\x1b[1m").concat(c.file_path.as_str()).concat("\x1b[0m  \x1b[2m").concat(
                c.language.as_str(),
            ).concat(":").concat(dec_usize(c.start_line).as_str()).concat("-").concat(
                dec_usize(c.end_line).as_str(),
            ).concat("\x1b[0m  \x1b[33m[").concat(c.node_type.as_str()).concat(": ").concat(
                name.as_str(),
            ).concat("]\x1b[0m"),
        );
        if let Some(summary) = &c.summary {
            if !summary.as_str().is_empty() {
                push_plain(out, "    Summary: ".to_owned().concat(summary.as_str()));
            }
        }
        push_preview(out, c.content.as_str(), 4);
    } else if let Some(m) = &u.memory {
        let source = match &m.source_project {
            Some(p) => "  \x1b[36m[from: ".to_owned().concat(p.as_str()).concat("]\x1b[0m"),
            None => String::new(),
        };
        let label = if u.fused_rank.is_none() {
            "memory · attached"
        } else {
            "memory"
        };
        push_styled(
            out,
            "\x1b[2m[".to_owned().concat(label).concat("]\x1b[0m \x1b[33m[").concat(
                m.kind.as_str(),
            ).concat("]\x1b[0m #").concat(m.id.as_str()).concat("  \x1b[1m").concat(
                m.title.as_str(),
            ).concat("\x1b[0m").concat(source.as_str()),
        );
        push_preview(out, m.body.as_str(), 2);
    }
    push_plain(out, String::new());
    assert(line_models(out@) =~= first + result_block(*u));
}

/// The lines that show a list of results in its order, each labelled with its
/// corpus.
pub fn print_unified_text(results: &Vec<UnifiedResult>) -> (r: Vec<Line>)
    ensures
        line_models(r@) == result_blocks(results@, results.len() as int),
{
    let mut out: Vec<Line> = Vec::new();
    let mut i: usize = 0;
    assert(line_models(out@) =~= Seq::<(bool, Seq<char>)>::empty());
    while i < results.len()
        invariant
            i <= results.len(),
            line_models(out@) == result_blocks(results@, i as int),
        decreases results.len() - i,
    {
        push_result(&mut out, &results[i]);
        i = i + 1;
    }
    out
}

/// How a list is printed.
#[derive(Clone, Copy, PartialEq, Eq, Structural, Debug)]
pub enum OutputFormat {
    Json,
    Jsonl,
    Text,
}

/// How a list is printed; any format that is not known is text.
pub fn output_format(format: &str) -> (r: OutputFormat)
    ensures
        r == if format@ == "json"@ {
            OutputFormat::Json
        } else if format@ == "jsonl"@ {
            OutputFormat::Jsonl
        } else {
            OutputFormat::Text
        },
{
    if same(format, "json") {
        OutputFormat::Json
    } else if same(format, "jsonl") {
        OutputFormat::Jsonl
    } else {
        OutputFormat::Text
    }
}

/// The lines that show the results at the first `n` of the positions `kept`.
pub open spec fn picked(us: Seq<UnifiedResult>, kept: Seq<int>, n: int) -> Seq<(bool, Seq<char>)>
    decreases n,
{
    if n <= 0 {
        Seq::<(bool, Seq<char>)>::empty()
    } else {
        picked(us, kept, n - 1) + result_block(us[kept[n - 1]])
    }
}

fn print_picked(all: &Vec<UnifiedResult>, kept: &Vec<usize>) -> (r: Vec<Line>)
    requires
        forall|k: int| 0 <= k < kept.len() ==> (#[trigger] kept@[k]) < all.len(),
    ensures
        line_models(r@) == picked(all@, positions(kept@), kept.len() as int),
{
    let ghost at = positions(kept@);
    let mut out: Vec<Line> = Vec::new();
    let mut i: usize = 0;
    assert(line_models(out@) =~= Seq::<(bool, Seq<char>)>::empty());
    while i < kept.len()
        invariant
            i <= kept.len(),
            at == positions(kept@),
            forall|k: int| 0 <= k < kept.len() ==> (#[trigger] kept@[k]) < all.len(),
            line_models(out@) == picked(all@, at, i as int),
        decreases kept.len() - i,
    {
        assert(at[i as int] == kept@[i as int] as int);
        push_result(&mut out, &all[kept[i]]);
        i = i + 1;
    }
    out
}

/// The line under a budgeted list.
pub open spec fn budget_text(used: int, budget: int) -> Seq<char> {
    "tokens used: "@ + dec(used as nat) + "/"@ + dec(budget as nat)
}

/// The results that fit a token budget, in the format asked for. The object for
/// programs says what the budget was, what is used and what is left; lines for
/// programs are the results alone; text ends with what is used. `costs` holds
/// the tokens of each result.
pub fn emit_budget(
    format: &str,
    all: &Vec<UnifiedResult>,
    costs: &Vec<usize>,
    budget: usize,
) -> (r: SearchReport)
    requires
        costs.len() == all.len(),
    ensures
        ({
            let kept = packed_upto(costs@, budget as int, costs.len() as int);
            let left = left_after(costs@, budget as int, costs.len() as int);
            match r {
                SearchReport::Json { kept: k, frame } => format@ == "json"@ && positions(k@) == kept
                    && frame == Some(
                    BudgetFrame {
                        token_budget: budget,
                        tokens_used: (budget - left) as usize,
                        tokens_remaining: left as usize,
                    },
                ),
                SearchReport::Jsonl { kept: k } => format@ == "jsonl"@ && positions(k@) == kept,
                SearchReport::Text { lines } => format@ != "json"@ && format@ != "jsonl"@
                    && line_models(lines@) == picked(all@, kept, kept.len() as int).push(
                    (false, budget_text(budget - left, budget as int)),
                ),
                SearchReport::Empty { .. } => false,
            }
        }),
{
    let packed = pack_budget(costs, budget);
    match output_format(format) {
        OutputFormat::Json => SearchReport::Json {
            frame: Some(
                BudgetFrame {
                    token_budget: budget,
                    tokens_used: packed.used,
                    tokens_remaining: packed.remaining,
                },
            ),
            kept: packed.kept,
        },
        OutputFormat::Jsonl => SearchReport::Jsonl { kept: packed.kept },
        OutputFormat::Text => {
            let mut lines = print_picked(all, &packed.kept);
            push_plain(&mut lines, budget_line(packed.used, budget));
            SearchReport::Text { lines }
        },
    }
}

/// What a budget was, and what became of it.
#[derive(Clone, Copy, PartialEq, Eq, Structural, Debug)]
pub struct BudgetFrame {
    pub token_budget: usize,
    pub tokens_used: usize,
    pub tokens_remaining: usize,
}

/// What a search prints. Results are named by their positions where they are
/// written for programs.
pub enum SearchReport {
    /// Nothing was found; this line is printed, if any.
    Empty { line: Option<String> },
    /// One object.
    Json { kept: Vec<usize>, frame: Option<BudgetFrame> },
    /// One object a line.
    Jsonl { kept: Vec<usize> },
    Text { lines: Vec<Line> },
}

/// What is known of the corpora that were searched.
#[derive(Clone, Copy, Debug)]
pub struct Corpora {
    pub want_code: bool,
    pub want_memory: bool,
    pub only_text: bool,
    pub code_coverage: Option<(i64, i64)>,
    pub code_refresh_pending: i64,
    pub memory_missing: i64,
    pub rebuilt_unpopulated: Option<i32>,
}

/// What is missing from the corpora, in words.
pub open spec fn gaps_of(c: Corpora) -> Seq<Seq<char>> {
    gaps(
        c.want_code,
        c.want_memory,
        c.only_text,
        c.code_coverage,
        c.code_refresh_pending,
        c.memory_missing,
        c.rebuilt_unpopulated,
    )
}

/// All positions below `n`.
pub open spec fn all_below(n: nat) -> Seq<int> {
    Seq::new(n, |i: int| i)
}

fn every_position(n: usize) -> (r: Vec<usize>)
    ensures
        positions(r@) == all_below(n as nat),
        forall|k: int| 0 <= k < r.len() ==> (#[trigger] r@[k]) < n,
{
    let mut out: Vec<usize> = Vec::new();
    let mut i: usize = 0;
    while i < n
        invariant
            i <= n,
            out.len() == i,
            forall|k: int| 0 <= k < i ==> #[trigger] out@[k] == k,
        decreases n - i,
    {
        out.push(i);
        i = i + 1;
    }
    assert(positions(out@) =~= all_below(n as nat));
    out
}

/// What a search prints of the list `all`: what is missing where it is empty,
/// what fits the budget where there is one, and all of it otherwise. `costs`
/// holds the tokens of each result.
pub fn search(
    format: &str,
    all: &Vec<UnifiedResult>,
    budget: Option<usize>,
    costs: &Vec<usize>,
    corpora: &Corpora,
) -> (r: SearchReport)
    requires
        costs.len() == all.len(),
    ensures
        ({
            let kept = match budget {
                Some(b) => packed_upto(costs@, b as int, costs.len() as int),
                None => all_below(all@.len()),
            };
            let left = match budget {
                Some(b) => left_after(costs@, b as int, costs.len() as int),
                None => 0,
            };
            match r {
                SearchReport::Empty { line } => all.len() == 0 && opt_text(line) == if format@
                    == "json"@ {
                    Some("[]"@)
                } else if format@ == "jsonl"@ {
                    None
                } else if gaps_of(*corpora).len() == 0 {
                    Some("No results found."@)
                } else {
                    Some("No results found ("@ + joined(gaps_of(*corpora), "; "@) + ")."@)
                },
                SearchReport::Json { kept: k, frame } => all.len() > 0 && format@ == "json"@
                    && positions(k@) == kept && frame == match budget {
                    Some(b) => Some(
                        BudgetFrame {
                            token_budget: b,
                            tokens_used: (b - left) as usize,
                            tokens_remaining: left as usize,
                        },
                    ),
                    None => None,
                },
                SearchReport::Jsonl { kept: k } => all.len() > 0 && format@ == "jsonl"@
                    && positions(k@) == kept,
                SearchReport::Text { lines } => all.len() > 0 && format@ != "json"@ && format@
                    != "jsonl"@ && line_models(lines@) == picked(all@, kept, kept.len() as int)
                    + match budget {
                    Some(b) => seq![(false, budget_text(b - left, b as int))],
                    None => Seq::<(bool, Seq<char>)>::empty(),
                },
            }
        }),
{
    if all.len() == 0 {
        let line = print_empty(
            format,
            corpora.want_code,
            corpora.want_memory,
            corpora.only_text,
            corpora.code_coverage,
            corpora.code_refresh_pending,
            corpora.memory_missing,
            corpora.rebuilt_unpopulated,
        );
        return SearchReport::Empty { line };
    }
    if let Some(b) = budget {
        let r = emit_budget(format, all, costs, b);
        proof {
            let kept = packed_upto(costs@, b as int, costs.len() as int);
            let left = left_after(costs@, b as int, costs.len() as int);
            let shown = picked(all@, kept, kept.len() as int);
            assert(shown.push((false, budget_text(b - left, b as int))) =~= shown + seq![
                (false, budget_text(b - left, b as int)),
            ]);
        }
        return r;
    }
    let kept = every_position(all.len());
    match output_format(format) {
        OutputFormat::Json => SearchReport::Json { kept, frame: None },
        OutputFormat::Jsonl => SearchReport::Jsonl { kept },
        OutputFormat::Text => {
            let lines = print_picked(all, &kept);
            assert(line_models(lines@) =~= line_models(lines@) + Seq::<(bool, Seq<char>)>::empty());
            SearchReport::Text { lines }
        },
    }
}

// ---- which index -----------------------------------------------------------

/// The index that is searched: the one given, or that of the project, which
/// goes before any other that was found.
pub fn index_path(given: Option<&str>, project_db: &str, resolved_db: &str) -> (r: String)
    ensures
        r@ == if given is Some {
            resolved_db@
        } else {
            project_db@
        },
{
    match given {
        Some(_) => resolved_db.to_owned(),
        None => project_db.to_owned(),
    }
}

/// Why a search cannot run: its index is needed and does not exist. A search of
/// memory alone needs none.
pub fn resolve_project_and_deps(
    given: bool,
    db_path: &str,
    require_index_file: bool,
    exists: bool,
) -> (r: Result<String, String>)
    ensures
        match r {
            Ok(p) => (!require_index_file || exists) && p@ == db_path@,
            Err(e) => require_index_file && !exists && e@ == if given {
                "Database not found at '"@ + db_path@ + "'. Run `inkentry index <path>` first."@
            } else {
                "No index found (checked current directory and parents).\nRun `inkentry index <path>` inside your project first."@
            },
        },
{
    if require_index_file && !exists {
        if given {
            return Err(
                "Database not found at '".to_owned().concat(db_path).concat(
                    "'. Run `inkentry index <path>` first.",
                ),
            );
        }
        return Err(
            "No index found (checked current directory and parents).\nRun `inkentry index <path>` inside your project first.".to_owned(),
        );
    }
    Ok(db_path.to_owned())
}

// ---- why there is no semantic ranking --------------------------------------

/// What a server says of its embedder.
#[derive(Clone, Copy, PartialEq, Eq, Structural, Debug)]
pub enum EmbedderState {
    Loading,
    Ready,
    Unavailable,
    Disabled,
    Unknown,
}

/// Why no server is used.
#[derive(Clone, Copy, PartialEq, Eq, Structural, Debug)]
pub enum OfflineReason {
    KillSwitch,
    ModeOfflineEnv,
    ModeOfflineConfig,
    ExplicitServerUnavailable,
    LocalServerUnusable,
    RecordedServerUnreachable,
    NoLocalServer,
}

/// What inference runs on.
pub enum Tier {
    /// A server that was reached.
    Server { url: String, auto_discovered: bool, embedder_state: EmbedderState },
    /// None. The advice is what every command gives for the reason, where they
    /// share one.
    Offline { reason: OfflineReason, advice: Option<String> },
}

/// The address of a server that was set and not found on this machine.
pub open spec fn explicit_remote(tier: Tier) -> Option<Seq<char>> {
    match tier {
        Tier::Server { url, auto_discovered, .. } => if auto_discovered {
            None
        } else {
            Some(url@)
        },
        Tier::Offline { .. } => None,
    }
}

impl Tier {
    /// The address of a server that was set and not found on this machine.
    pub fn explicit_remote_url(&self) -> (r: Option<&str>)
        ensures
            opt_str(r) == explicit_remote(*self),
    {
        match self {
            Tier::Server { url, auto_discovered, .. } => if *auto_discovered {
                None
            } else {
                Some(url.as_str())
            },
            Tier::Offline { .. } => None,
        }
    }
}

/// The notice where no server is used, by the reason and not by whether an
/// address happens to be set.
pub open spec fn offline_text(
    reason: OfflineReason,
    advice: Option<Seq<char>>,
    server_url: Option<Seq<char>>,
    is_windows: bool,
) -> Seq<char> {
    if advice is Some {
        "["@ + advice->0 + "; using full-text search]"@
    } else if reason is ExplicitServerUnavailable {
        "[no server reachable "@ + (match server_url {
            Some(url) => "at "@ + url
                + " (the configured server_url, overriding the auto-discovered local daemon)"@,
            None => "at the configured server_url"@,
        }) + ";"@ + (if is_windows {
            " On Windows, allow the loopback listener through Defender Firewall."@
        } else {
            ""@
        }) + " using full-text search]"@
    } else {
        "[no server running — start one with `inkentry server start` to enable semantic ranking; using full-text search]"@
    }
}

/// The notice where no server is used.
pub fn offline_semantic_notice(
    reason: OfflineReason,
    advice: Option<&str>,
    server_url: Option<&str>,
    is_windows: bool,
) -> (r: String)
    ensures
        r@ == offline_text(reason, opt_str(advice), opt_str(server_url), is_windows),
{
    if let Some(a) = advice {
        return "[".to_owned().concat(a).concat("; using full-text search]");
    }
    if reason == OfflineReason::ExplicitServerUnavailable {
        let windows_hint = if is_windows {
            " On Windows, allow the loopback listener through Defender Firewall."
        } else {
            ""
        };
        let target = match server_url {
            Some(url) => "at ".to_owned().concat(url).concat(
                " (the configured server_url, overriding the auto-discovered local daemon)",
            ),
            None => "at the configured server_url".to_owned(),
        };
        return "[no server reachable ".to_owned().concat(target.as_str()).concat(";").concat(
            windows_hint,
        ).concat(" using full-text search]");
    }
    "[no server running — start one with `inkentry server start` to enable semantic ranking; using full-text search]".to_owned()
}

/// A configured address is named only where it was the one that was tried.
pub proof fn law_an_address_that_was_not_tried_is_not_named(
    reason: OfflineReason,
    advice: Option<Seq<char>>,
    url: Option<Seq<char>>,
    other: Option<Seq<char>>,
    is_windows: bool,
)
    requires
        !(reason is ExplicitServerUnavailable) || advice is Some,
    ensures
        offline_text(reason, advice, url, is_windows) == offline_text(
            reason,
            advice,
            other,
            is_windows,
        ),
{
}

/// Why there is no semantic ranking, in words. The logs of this machine are
/// pointed at only for a server of this machine.
pub open spec fn unavailable_text(
    tier: Tier,
    server_url: Option<Seq<char>>,
    is_windows: bool,
) -> Seq<char> {
    match tier {
        Tier::Server { embedder_state, .. } => if embedder_state is Loading {
            "[semantic ranking unavailable: model still warming up — retry shortly (`inkentry server status`); using full-text search]"@
        } else if embedder_state is Unavailable {
            match explicit_remote(tier) {
                Some(url) => "[semantic ranking unavailable: embedder failed to load on team server "@
                    + url + "; check that server's own logs; using full-text search]"@,
                None => "[semantic ranking unavailable: embedder failed to load; see `inkentry server logs`; using full-text search]"@,
            }
        } else {
            "[semantic ranking unavailable on this server; using full-text search]"@
        },
        Tier::Offline { reason, advice } => offline_text(
            reason,
            opt_text(advice),
            server_url,
            is_windows,
        ),
    }
}

/// Why there is no semantic ranking, in words.
pub fn semantic_unavailable_message(tier: &Tier, server_url: Option<&str>, is_windows: bool) -> (r:
    String)
    ensures
        r@ == unavailable_text(*tier, opt_str(server_url), is_windows),
{
    match tier {
        Tier::Server { embedder_state, .. } => {
            if *embedder_state == EmbedderState::Loading {
                return "[semantic ranking unavailable: model still warming up — retry shortly (`inkentry server status`); using full-text search]".to_owned();
            }
            if *embedder_state == EmbedderState::Unavailable {
                return match tier.explicit_remote_url() {
                    Some(url) => "[semantic ranking unavailable: embedder failed to load on team server ".to_owned().concat(
                        url,
                    ).concat("; check that server's own logs; using full-text search]"),
                    None => "[semantic ranking unavailable: embedder failed to load; see `inkentry server logs`; using full-text search]".to_owned(),
                };
            }
            "[semantic ranking unavailable on this server; using full-text search]".to_owned()
        },
        Tier::Offline { reason, advice } => offline_semantic_notice(
            *reason,
            crate::text::opt_as_str(advice),
            server_url,
            is_windows,
        ),
    }
}

/// All positions below a number are each of them, in order.
pub proof fn law_all_below_leaves_none_out(n: nat)
    ensures
        all_below(n).len() == n,
        forall|i: int| 0 <= i < n ==> #[trigger] all_below(n)[i] == i,
{
}

/// The results that are kept are shown one after another.
pub proof fn law_kept_results_are_shown_in_order(
    us: Seq<UnifiedResult>,
    a: Seq<int>,
    b: Seq<int>,
    n: int,
)
    requires
        0 <= n <= b.len(),
    ensures
        picked(us, a + b, a.len() + n) == picked(us, a, a.len() as int) + picked(us, b, n),
        a.len() == 1 ==> picked(us, a, 1) == result_block(us[a[0]]),
    decreases n,
{
    if n > 0 {
        law_kept_results_are_shown_in_order(us, a, b, n - 1);
        assert((a + b)[a.len() + n - 1] == b[n - 1]);
        assert(picked(us, a + b, a.len() + n) =~= picked(us, a, a.len() as int) + picked(
            us,
            b,
            n,
        ));
    } else {
        lemma_picked_prefix(us, a, a + b, a.len() as int);
        assert(picked(us, a, a.len() as int) + picked(us, b, 0) =~= picked(us, a, a.len() as int));
    }
    if a.len() == 1 {
        assert(picked(us, a, 0) + result_block(us[a[0]]) =~= result_block(us[a[0]]));
    }
}

proof fn lemma_picked_prefix(us: Seq<UnifiedResult>, a: Seq<int>, b: Seq<int>, n: int)
    requires
        0 <= n <= a.len(),
        a.is_prefix_of(b),
    ensures
        picked(us, a, n) == picked(us, b, n),
    decreases n,
{
    if n > 0 {
        assert(a[n - 1] == b.take(a.len() as int)[n - 1]);
        lemma_picked_prefix(us, a, b, n - 1);
    }
}

/// What is missing of the corpora is told by its numbers: how much of the code is
/// searchable, how many chunks wait, how many entries have no vector.
#[verifier::rlimit(60)]
pub proof fn law_what_is_missing_is_told_by_its_numbers(
    embedded: i64,
    total: i64,
    pending: i64,
    missing: i64,
)
    ensures
        0 < total && embedded < total ==> gaps(
            true,
            false,
            false,
            Some((embedded, total)),
            0,
            missing,
            None,
        ) == seq![
            "code searchable "@ + dec_int(embedded as int) + "/"@ + dec_int(total as int)
                + " chunks"@,
        ],
        pending > 0 ==> gaps(true, false, false, None, pending, missing, None) == seq![
            dec_int(pending as int)
                + " code chunk(s) await re-embedding, so rankings may still shift"@,
        ],
        missing > 0 ==> gaps(false, true, false, Some((embedded, total)), pending, missing, None)
            == seq![
            dec_int(missing as int) + " memory entr"@ + entry_ending(missing as int)
                + " not embedded yet"@,
        ],
        partly_covered(Some((embedded, total))) <==> 0 < total && embedded < total,
        !partly_covered(None),
        entry_ending(1) == "y"@,
        missing != 1 ==> entry_ending(missing as int) == "ies"@,
        missing > 0 ==> crate::text::begins(
            memory_warmup_text(missing as int),
            "[warmup: "@ + dec_int(missing as int) + " memory entr"@ + entry_ending(missing as int),
        ),
{
    let none = Seq::<Seq<char>>::empty();
    if 0 < total && embedded < total {
        assert(gaps(true, false, false, Some((embedded, total)), 0, missing, None) =~= seq![
            coverage_text(Some((embedded, total))),
        ]);
    }
    if pending > 0 {
        assert(gaps(true, false, false, None, pending, missing, None) =~= seq![
            dec_int(pending as int)
                + " code chunk(s) await re-embedding, so rankings may still shift"@,
        ]);
    }
    if missing > 0 {
        assert(gaps(false, true, false, Some((embedded, total)), pending, missing, None) =~= seq![
            dec_int(missing as int) + " memory entr"@ + entry_ending(missing as int)
                + " not embedded yet"@,
        ]);
        let a = "[warmup: "@ + dec_int(missing as int) + " memory entr"@ + entry_ending(
            missing as int,
        );
        assert(memory_warmup_text(missing as int).subrange(0, a.len() as int) =~= a);
    }
}

/// A rebuilt index is told by the schema it replaced; zero is no version.
pub proof fn law_a_rebuild_names_the_schema_it_replaced(found: i32)
    ensures
        found != 0 ==> replaced_schema_text(found) == "schema version "@ + dec_int(found as int),
        found == 0 ==> replaced_schema_text(found) == "an older, unstamped schema"@,
{
}

/// The line under a budgeted list says what is used of what there is.
pub proof fn law_a_budget_is_used_of_its_total(used: int, budget: int)
    requires
        used >= 0,
        budget >= 0,
    ensures
        budget_text(used, budget) == "tokens used: "@ + dec(used as nat) + "/"@ + dec(
            budget as nat,
        ),
{
}

/// Corpora are spoken of as they were searched.
pub proof fn law_gaps_are_those_of_the_corpora(c: Corpora)
    ensures
        !c.want_code && !c.want_memory ==> gaps_of(c).len() == 0,
        gaps_of(c) == gaps(
            c.want_code,
            c.want_memory,
            c.only_text,
            c.code_coverage,
            c.code_refresh_pending,
            c.memory_missing,
            c.rebuilt_unpopulated,
        ),
{
}

/// A list is shown result by result.
pub proof fn law_a_list_is_shown_result_by_result(us: Seq<UnifiedResult>, n: int)
    requires
        0 <= n < us.len(),
    ensures
        result_blocks(us, n + 1) == result_blocks(us, n) + result_block(us[n]),
        result_blocks(us, 0).len() == 0,
{
}

/// A server is another machine's if and only if its address was set; only such a one
/// is named where its embedder failed. Without a server the reason that every
/// command gives is told where there is one, and the address that was tried where it
/// was.
#[verifier::rlimit(60)]
pub proof fn law_the_server_that_failed_is_named(
    tier: Tier,
    server_url: Option<Seq<char>>,
    is_windows: bool,
)
    ensures
        tier is Server ==> (explicit_remote(tier) is Some <==> !tier->auto_discovered),
        explicit_remote(tier) is Some ==> explicit_remote(tier)->0 == tier->url@,
        tier is Offline ==> explicit_remote(tier) is None,
        tier is Server && tier->embedder_state is Unavailable && !tier->auto_discovered ==> occurs(
            unavailable_text(tier, server_url, is_windows),
            tier->url@,
        ),
        tier is Offline && tier->advice is Some ==> occurs(
            unavailable_text(tier, server_url, is_windows),
            tier->advice->0@,
        ),
        tier is Offline && tier->advice is None && tier->reason is ExplicitServerUnavailable
            && server_url is Some ==> occurs(
            unavailable_text(tier, server_url, is_windows),
            server_url->0,
        ),
{
    let t = unavailable_text(tier, server_url, is_windows);
    match tier {
        Tier::Server { url, auto_discovered, embedder_state } => {
            lemma_occurs_between(
                "[semantic ranking unavailable: embedder failed to load on team server "@,
                url@,
                "; check that server's own logs; using full-text search]"@,
            );
        },
        Tier::Offline { reason, advice } => {
            if advice is Some {
                lemma_occurs_between("["@, advice->0@, "; using full-text search]"@);
            } else if reason is ExplicitServerUnavailable && server_url is Some {
                let rest = " (the configured server_url, overriding the auto-discovered local daemon)"@
                    + ";"@ + (if is_windows {
                    " On Windows, allow the loopback listener through Defender Firewall."@
                } else {
                    ""@
                }) + " using full-text search]"@;
                let front = "[no server reachable "@ + "at "@;
                lemma_occurs_between(front, server_url->0, rest);
                assert(t =~= front + server_url->0 + rest);
            }
        },
    }
}

/// A result says how it came to be in the list: code found through the code graph,
/// and memory that was attached and not found, are labelled so, and no others are.
/// One of a linked project names the project.
#[verifier::rlimit(60)]
pub proof fn law_a_result_says_how_it_came(u: UnifiedResult)
    ensures
        u.code is Some && u.code->0.project_name is None ==> crate::text::begins(
            result_block(u)[0].1,
            "\x1b[2m["@ + (if u.code->0.from_graph {
                "code · graph"@
            } else {
                "code"@
            }) + "]\x1b[0m "@ + "\x1b[1m"@,
        ),
        u.code is Some && u.code->0.project_name is Some ==> crate::text::begins(
            result_block(u)[0].1,
            "\x1b[2m["@ + (if u.code->0.from_graph {
                "code · graph"@
            } else {
                "code"@
            }) + "]\x1b[0m "@ + "\x1b[36m["@ + u.code->0.project_name->0@ + "]\x1b[0m "@,
        ),
        u.code is None && u.memory is Some ==> crate::text::begins(
            result_block(u)[0].1,
            "\x1b[2m["@ + (if u.fused_rank is None {
                "memory · attached"@
            } else {
                "memory"@
            }) + "]"@,
        ),
        u.code is None && u.memory is Some && u.memory->0.source_project is Some
            ==> crate::text::ends(
            result_block(u)[0].1,
            "  \x1b[36m[from: "@ + u.memory->0.source_project->0@ + "]\x1b[0m"@,
        ),
{
    let h = result_block(u)[0].1;
    if let Some(c) = u.code {
        let label = "\x1b[2m["@ + (if c.from_graph {
            "code · graph"@
        } else {
            "code"@
        }) + "]\x1b[0m "@;
        let rest = c.file_path@ + "\x1b[0m  \x1b[2m"@ + c.language@ + ":"@ + dec(
            c.start_line as nat,
        ) + "-"@ + dec(c.end_line as nat) + "\x1b[0m  \x1b[33m["@ + c.node_type@ + ": "@
            + chunk_name(c.name) + "]\x1b[0m"@;
        if let Some(p) = c.project_name {
            let told = label + "\x1b[36m["@ + p@ + "]\x1b[0m "@;
            assert(h =~= told + ("\x1b[1m"@ + rest));
            lemma_begins_with(told, "\x1b[1m"@ + rest);
        } else {
            let told = label + "\x1b[1m"@;
            assert(h =~= told + rest);
            lemma_begins_with(told, rest);
        }
    } else if let Some(m) = u.memory {
        let label = "\x1b[2m["@ + (if u.fused_rank is None {
            "memory · attached"@
        } else {
            "memory"@
        });
        reveal_strlit("]\x1b[0m \x1b[33m[");
        reveal_strlit("]");
        reveal_strlit("\x1b[0m \x1b[33m[");
        assert("]\x1b[0m \x1b[33m["@ =~= "]"@ + "\x1b[0m \x1b[33m["@);
        let from = match m.source_project {
            Some(p) => "  \x1b[36m[from: "@ + p@ + "]\x1b[0m"@,
            None => Seq::<char>::empty(),
        };
        let mid = "\x1b[0m \x1b[33m["@ + m.kind@ + "]\x1b[0m #"@ + m.id@ + "  \x1b[1m"@ + m.title@
            + "\x1b[0m"@;
        assert(h =~= (label + "]"@) + (mid + from));
        lemma_begins_with(label + "]"@, mid + from);
        assert(h =~= (label + "]"@ + mid) + from);
        lemma_begins_with(label + "]"@ + mid, from);
    }
}

proof fn lemma_begins_with(a: Seq<char>, b: Seq<char>)
    ensures
        crate::text::begins(a + b, a),
        crate::text::ends(a + b, b),
{
    let t = a + b;
    assert(t.subrange(0, a.len() as int) =~= a);
    assert(t.subrange(t.len() - b.len(), t.len() as int) =~= b);
}

} // verus!
