//! Making the vectors that rows lack. A push looks at rows that were never
//! synced, a pull at those that were; no row is in both.

use crate::config::Config;
use crate::memory::sync::pull::PullSummary;
use crate::memory::sync::push::PushSummary;
use crate::order::positions;
use crate::text::{dec, dec_usize, lemma_occurs_between, occurs};
use vstd::prelude::*;
use vstd::string::*;

verus! {

/// How many numbers a usable vector has.
pub const EMBEDDING_DIM: usize = 896;

/// Whether a sync makes missing vectors in the local store.
pub enum LocalEmbedPolicy {
    /// It does, with the embedder that this directory resolves to.
    Repair { project_root: String },
    /// It does not.
    Skip,
}

impl LocalEmbedPolicy {
    /// A store kept on the server is not the local one, so its rows are left
    /// alone.
    pub fn resolve(cfg: &Config, project_root: &str) -> (r: Self)
        ensures
            r is Skip <==> cfg.kept_remotely(),
            r is Repair ==> r->project_root@ == project_root@,
    {
        if cfg.routes_remote() {
            return LocalEmbedPolicy::Skip;
        }
        LocalEmbedPolicy::Repair { project_root: project_root.to_owned() }
    }
}

/// How many rows got a vector and how many are still without one.
#[derive(Clone, Copy, PartialEq, Eq, Structural, Debug)]
pub struct RepairCounts {
    pub embedded: usize,
    pub without_vector: usize,
}

/// The warning that `count` entries are left without a vector.
pub open spec fn pending_warning_text(count: nat) -> Seq<char> {
    "warning: "@ + dec(count) + " synced "@ + (if count == 1 {
        "entry"@
    } else {
        "entries"@
    })
        + " could not be embedded locally, so `inkentry memory search` cannot surface "@
        + (if count == 1 {
        "it"@
    } else {
        "them"@
    })
        + " semantically yet. The next sync or pull retries automatically; `inkentry memory reindex` does it now."@
}

/// The warning that `count` entries are left without a vector.
pub fn pending_embedding_warning(count: usize) -> (r: String)
    ensures
        r@ == pending_warning_text(count as nat),
{
    let entries = if count == 1 {
        "entry"
    } else {
        "entries"
    };
    let them = if count == 1 {
        "it"
    } else {
        "them"
    };
    "warning: ".to_owned().concat(dec_usize(count).as_str()).concat(" synced ").concat(
        entries,
    ).concat(
        " could not be embedded locally, so `inkentry memory search` cannot surface ",
    ).concat(them).concat(
        " semantically yet. The next sync or pull retries automatically; `inkentry memory reindex` does it now.",
    )
}

/// What a pull says of the vectors it made and of those still missing.
pub open spec fn pull_embed_clause(s: PullSummary) -> Seq<char> {
    if s.embedded_locally == 0 && s.without_local_vector == 0 {
        Seq::<char>::empty()
    } else if s.without_local_vector == 0 {
        " Embedded "@ + dec(s.embedded_locally as nat) + " synced entries locally."@
    } else if s.embedded_locally == 0 {
        " "@ + dec(s.without_local_vector as nat) + " synced entries pending embedding."@
    } else {
        " Embedded "@ + dec(s.embedded_locally as nat) + " synced entries locally, "@ + dec(
            s.without_local_vector as nat,
        ) + " pending embedding."@
    }
}

/// What a pull says of the vectors it made and of those still missing.
pub fn pull_embed_summary(summary: &PullSummary) -> (r: String)
    ensures
        r@ == pull_embed_clause(*summary),
{
    let embedded = dec_usize(summary.embedded_locally);
    let pending = dec_usize(summary.without_local_vector);
    if summary.embedded_locally == 0 && summary.without_local_vector == 0 {
        String::new()
    } else if summary.without_local_vector == 0 {
        " Embedded ".to_owned().concat(embedded.as_str()).concat(" synced entries locally.")
    } else if summary.embedded_locally == 0 {
        " ".to_owned().concat(pending.as_str()).concat(" synced entries pending embedding.")
    } else {
        " Embedded ".to_owned().concat(embedded.as_str()).concat(
            " synced entries locally, ",
        ).concat(pending.as_str()).concat(" pending embedding.")
    }
}

/// What a push says of the vectors it made and of those still missing.
pub open spec fn local_embed_clause(s: PushSummary) -> Seq<char> {
    if s.embedded_locally == 0 && s.without_local_vector == 0 {
        Seq::<char>::empty()
    } else if s.without_local_vector == 0 {
        " Embedded "@ + dec(s.embedded_locally as nat) + " locally."@
    } else {
        " Embedded "@ + dec(s.embedded_locally as nat) + " locally, "@ + dec(
            s.without_local_vector as nat,
        ) + " without a local embedding."@
    }
}

/// What a push says of the vectors it made and of those still missing.
pub fn local_embed_summary(summary: &PushSummary) -> (r: String)
    ensures
        r@ == local_embed_clause(*summary),
{
    let embedded = dec_usize(summary.embedded_locally);
    if summary.embedded_locally == 0 && summary.without_local_vector == 0 {
        String::new()
    } else if summary.without_local_vector == 0 {
        " Embedded ".to_owned().concat(embedded.as_str()).concat(" locally.")
    } else {
        " Embedded ".to_owned().concat(embedded.as_str()).concat(" locally, ").concat(
            dec_usize(summary.without_local_vector).as_str(),
        ).concat(" without a local embedding.")
    }
}

/// Whether a stored vector can be used: one that does not decode to the full
/// number of floats, as after a torn write, counts as none.
pub open spec fn usable(floats: Option<usize>) -> bool {
    floats == Some(EMBEDDING_DIM)
}

/// Whether a stored vector can be used, by how many floats it decodes to.
pub fn usable_vector(floats: Option<usize>) -> (r: bool)
    ensures
        r == usable(floats),
{
    match floats {
        Some(n) => n == EMBEDDING_DIM,
        None => false,
    }
}

/// The positions below `n` of the rows without a usable vector.
pub open spec fn missing_upto(floats: Seq<Option<usize>>, n: int) -> Seq<int>
    decreases n,
{
    if n <= 0 {
        Seq::<int>::empty()
    } else {
        let before = missing_upto(floats, n - 1);
        if usable(floats[n - 1]) {
            before
        } else {
            before.push(n - 1)
        }
    }
}

/// The rows a repair embeds: none under a policy that skips, and else those
/// without a usable vector.
pub open spec fn rows_to_embed(policy: LocalEmbedPolicy, floats: Seq<Option<usize>>) -> Seq<int> {
    if policy is Skip {
        Seq::<int>::empty()
    } else {
        missing_upto(floats, floats.len() as int)
    }
}

/// The rows a repair embeds; the embedder is looked up only if there is one.
pub fn repair_scope(policy: &LocalEmbedPolicy, floats: &Vec<Option<usize>>) -> (r: Vec<usize>)
    ensures
        positions(r@) == rows_to_embed(*policy, floats@),
        r.len() <= floats.len(),
{
    let mut out: Vec<usize> = Vec::new();
    assert(positions(out@) =~= Seq::<int>::empty());
    if matches!(policy, LocalEmbedPolicy::Skip) {
        return out;
    }
    let mut i: usize = 0;
    while i < floats.len()
        invariant
            i <= floats.len(),
            out.len() <= i,
            positions(out@) == missing_upto(floats@, i as int),
        decreases floats.len() - i,
    {
        if !usable_vector(floats[i]) {
            let ghost before = positions(out@);
            out.push(i);
            assert(positions(out@) =~= before.push(i as int));
        }
        i = i + 1;
    }
    out
}

/// How many of a run of embeddings succeeded.
pub open spec fn successes(results: Seq<bool>) -> nat
    decreases results.len(),
{
    if results.len() == 0 {
        0
    } else {
        successes(results.drop_last()) + if results.last() {
            1nat
        } else {
            0nat
        }
    }
}

/// What a repair did with the rows in its scope: without an embedder every row
/// stays as it is, and else each succeeded or failed by itself.
pub fn repair_local_embeddings(missing: usize, outcomes: &Option<Vec<bool>>) -> (r: RepairCounts)
    requires
        outcomes is Some ==> outcomes->0.len() == missing,
    ensures
        match outcomes {
            None => r.embedded == 0,
            Some(results) => r.embedded == successes(results@),
        },
        r.embedded + r.without_vector == missing,
{
    match outcomes {
        None => RepairCounts { embedded: 0, without_vector: missing },
        Some(results) => {
            let mut embedded: usize = 0;
            let mut i: usize = 0;
            assert(results@.take(0) =~= Seq::<bool>::empty());
            while i < results.len()
                invariant
                    i <= results.len(),
                    embedded <= i,
                    embedded == successes(results@.take(i as int)),
                decreases results.len() - i,
            {
                assert(results@.take(i + 1).drop_last() =~= results@.take(i as int));
                if results[i] {
                    embedded = embedded + 1;
                }
                i = i + 1;
            }
            assert(results@.take(i as int) =~= results@);
            RepairCounts { embedded, without_vector: missing - embedded }
        },
    }
}

/// A vector is usable only where it is whole: of the full number of floats.
pub proof fn law_only_a_whole_vector_is_usable(n: usize)
    ensures
        usable(Some(n)) <==> n == 896,
        !usable(None),
{
}

/// A repair embeds a row if and only if it has no usable vector, and under a policy
/// that skips none at all.
pub proof fn law_a_repair_embeds_what_is_missing(
    policy: LocalEmbedPolicy,
    floats: Seq<Option<usize>>,
    p: int,
)
    ensures
        rows_to_embed(policy, floats).contains(p) <==> !(policy is Skip) && 0 <= p < floats.len()
            && floats[p] != Some(EMBEDDING_DIM),
        forall|a: int, b: int|
            0 <= a < b < rows_to_embed(policy, floats).len() ==> #[trigger] rows_to_embed(
                policy,
                floats,
            )[a] < #[trigger] rows_to_embed(policy, floats)[b],
{
    lemma_missing(floats, floats.len() as int, p);
}

proof fn lemma_missing(floats: Seq<Option<usize>>, n: int, p: int)
    requires
        0 <= n <= floats.len(),
    ensures
        missing_upto(floats, n).contains(p) <==> 0 <= p < n && floats[p] != Some(EMBEDDING_DIM),
        forall|a: int|
            0 <= a < missing_upto(floats, n).len() ==> 0 <= #[trigger] missing_upto(floats, n)[a] < n,
        forall|a: int, b: int|
            0 <= a < b < missing_upto(floats, n).len() ==> #[trigger] missing_upto(floats, n)[a]
                < #[trigger] missing_upto(floats, n)[b],
    decreases n,
{
    if n > 0 {
        lemma_missing(floats, n - 1, p);
        let before = missing_upto(floats, n - 1);
        let now = missing_upto(floats, n);
        if before.contains(p) {
            let k = choose|k: int| 0 <= k < before.len() && before[k] == p;
            assert(now[k] == p);
        }
        if now.contains(p) {
            let k = choose|k: int| 0 <= k < now.len() && now[k] == p;
            if k < before.len() {
                assert(before[k] == p);
            }
        }
        if floats[n - 1] != Some(EMBEDDING_DIM) {
            assert(now[before.len() as int] == n - 1);
        }
        assert forall|a: int| 0 <= a < now.len() implies 0 <= #[trigger] now[a] < n by {
            if a < before.len() {
                assert(now[a] == before[a]);
            }
        }
        assert forall|a: int, b: int| 0 <= a < b < now.len() implies #[trigger] now[a]
            < #[trigger] now[b] by {
            assert(now[a] == before[a]);
            if b < before.len() {
                assert(now[b] == before[b]);
            }
        }
    }
}

/// The embeddings that succeeded are counted, and no others.
pub proof fn law_successes_are_counted(results: Seq<bool>)
    ensures
        successes(results) == results.filter(|ok: bool| ok).len(),
    decreases results.len(),
{
    reveal(Seq::filter);
    if results.len() > 0 {
        law_successes_are_counted(results.drop_last());
    }
}

/// Nothing is said of vectors where none was made and none is missing; else both
/// counts that are not zero are named.
#[verifier::rlimit(60)]
pub proof fn law_counts_of_vectors_are_named(pull: PullSummary, push: PushSummary)
    ensures
        pull_embed_clause(pull).len() == 0 <==> pull.embedded_locally == 0
            && pull.without_local_vector == 0,
        pull.embedded_locally > 0 ==> occurs(
            pull_embed_clause(pull),
            "Embedded "@ + dec(pull.embedded_locally as nat) + " synced entries locally"@,
        ),
        pull.without_local_vector > 0 ==> occurs(
            pull_embed_clause(pull),
            dec(pull.without_local_vector as nat),
        ),
        local_embed_clause(push).len() == 0 <==> push.embedded_locally == 0
            && push.without_local_vector == 0,
        push.embedded_locally > 0 ==> occurs(
            local_embed_clause(push),
            "Embedded "@ + dec(push.embedded_locally as nat) + " locally"@,
        ),
        push.without_local_vector > 0 ==> occurs(
            local_embed_clause(push),
            dec(push.without_local_vector as nat) + " without a local embedding"@,
        ),
{
    reveal_strlit(" ");
    reveal_strlit("Embedded ");
    reveal_strlit(" Embedded ");
    reveal_strlit(" synced entries locally");
    reveal_strlit(" synced entries locally.");
    reveal_strlit(" synced entries locally, ");
    reveal_strlit(" locally");
    reveal_strlit(" locally.");
    reveal_strlit(" locally, ");
    reveal_strlit(" without a local embedding");
    reveal_strlit(" without a local embedding.");
    assert(" Embedded "@ =~= " "@ + "Embedded "@);
    assert(" synced entries locally."@ =~= " synced entries locally"@ + seq!['.']);
    assert(" synced entries locally, "@ =~= " synced entries locally"@ + seq![',', ' ']);
    assert(" locally."@ =~= " locally"@ + seq!['.']);
    assert(" locally, "@ =~= " locally"@ + seq![',', ' ']);
    assert(" without a local embedding."@ =~= " without a local embedding"@ + seq!['.']);
    let e = dec(pull.embedded_locally as nat);
    let w = dec(pull.without_local_vector as nat);
    let c = pull_embed_clause(pull);
    let made = "Embedded "@ + e + " synced entries locally"@;
    if pull.embedded_locally > 0 && pull.without_local_vector == 0 {
        lemma_occurs_between(" "@, made, seq!['.']);
        assert(c =~= " "@ + made + seq!['.']);
    } else if pull.embedded_locally > 0 {
        lemma_occurs_between(" "@, made, seq![',', ' '] + w + " pending embedding."@);
        assert(c =~= " "@ + made + (seq![',', ' '] + w + " pending embedding."@));
        lemma_occurs_between(" "@ + made + seq![',', ' '], w, " pending embedding."@);
        assert(c =~= " "@ + made + seq![',', ' '] + w + " pending embedding."@);
    } else if pull.without_local_vector > 0 {
        lemma_occurs_between(" "@, w, " synced entries pending embedding."@);
    }
    let pe = dec(push.embedded_locally as nat);
    let pw = dec(push.without_local_vector as nat) + " without a local embedding"@;
    let pc = local_embed_clause(push);
    let pmade = "Embedded "@ + pe + " locally"@;
    if push.without_local_vector > 0 {
        lemma_occurs_between(" "@, pmade, seq![',', ' '] + pw + seq!['.']);
        assert(pc =~= " "@ + pmade + (seq![',', ' '] + pw + seq!['.']));
        lemma_occurs_between(" "@ + pmade + seq![',', ' '], pw, seq!['.']);
        assert(pc =~= " "@ + pmade + seq![',', ' '] + pw + seq!['.']);
    } else if push.embedded_locally > 0 {
        lemma_occurs_between(" "@, pmade, seq!['.']);
        assert(pc =~= " "@ + pmade + seq!['.']);
    }
}

/// The warning of missing vectors says how many entries lack one.
pub proof fn law_a_warning_says_how_many_entries_it_is_about(count: nat)
    ensures
        crate::text::begins(pending_warning_text(count), "warning: "@ + dec(count) + " synced "@),
{
    let a = "warning: "@ + dec(count) + " synced "@;
    assert(pending_warning_text(count).subrange(0, a.len() as int) =~= a);
}

} // verus!
