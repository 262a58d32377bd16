//! The smaller commands: the languages that are known, and the chunks of a
//! file.

use crate::search::CodeHit;
use crate::text::{ends, ends_with, lemma_texts_push, opt_text, same, texts};
use crate::ui::{chunk_blocks, line_models, print_chunks_text, Line};
use vstd::prelude::*;
use vstd::string::*;

verus! {

/// The lines that list the languages that are known.
pub open spec fn language_lines(langs: Seq<Seq<char>>) -> Seq<Seq<char>> {
    seq!["Supported languages:"@] + langs.map_values(|l: Seq<char>| "  "@ + l)
}

/// The lines that list the languages that are known.
pub fn languages(langs: &Vec<String>) -> (r: Vec<String>)
    ensures
        texts(r@) == language_lines(texts(langs@)),
{
    let ghost want = language_lines(texts(langs@));
    let mut out: Vec<String> = Vec::new();
    out.push("Supported languages:".to_owned());
    let mut i: usize = 0;
    assert(texts(out@) =~= want.take(1));
    while i < langs.len()
        invariant
            i <= langs.len(),
            want == language_lines(texts(langs@)),
            texts(out@) == want.take(i + 1),
        decreases langs.len() - i,
    {
        let line = "  ".to_owned().concat(langs[i].as_str());
        proof {
            lemma_texts_push(out@, line);
            assert(texts(langs@)[i as int] == langs@[i as int]@);
            assert(want[i + 1] == line@);
            assert(want.take(i + 2) =~= want.take(i + 1).push(line@));
        }
        out.push(line);
        i = i + 1;
    }
    assert(want.take(i + 1) =~= want);
    out
}

/// What the index filter says of a file.
pub enum FilterVerdict {
    /// A pattern leaves it out.
    Excluded { pattern: String },
    /// Its header says that it is generated, in these words.
    Generated { marker: String },
    /// Nothing leaves it out.
    Kept,
}

/// Why the filter leaves a file out, in words.
pub open spec fn filter_reason(v: FilterVerdict) -> Seq<char> {
    match v {
        FilterVerdict::Excluded { pattern } => "it matches the exclude pattern `"@ + pattern@ + "`"@,
        FilterVerdict::Generated { marker } => "its header declares it generated (`"@ + marker@
            + "`)"@,
        FilterVerdict::Kept => Seq::<char>::empty(),
    }
}

/// The setting that takes a file in again. A file under a directory that is
/// left out cannot be named by itself, so there the directory is named.
pub open spec fn filter_recipe(v: FilterVerdict, norm: Seq<char>) -> Seq<char> {
    match v {
        FilterVerdict::Excluded { pattern } => if ends(pattern@, "/"@) {
            "[\"!"@ + pattern@ + "\", \"!"@ + pattern@ + "**\"]"@
        } else {
            "[\"!"@ + norm + "\"]"@
        },
        _ => "[\"!"@ + norm + "\"]"@,
    }
}

/// Why a file has no chunks, where the filter left it out, and how to take it
/// in again. `path` is the file as it was asked for and `norm` as it is stored.
pub fn index_filter_explanation(verdict: &FilterVerdict, path: &str, norm: &str) -> (r: Option<
    String,
>)
    ensures
        opt_text(r) == if verdict is Kept {
            None
        } else {
            Some(
                "No chunks found for '"@ + path@
                    + "': the built-in index filter skipped it because "@ + filter_reason(*verdict)
                    + ", so it was never indexed.\nTo index it anyway, add a re-include to [index] in .inkentry/config.toml:\n\n  [index]\n  exclude = "@
                    + filter_recipe(*verdict, norm@) + "\n"@,
            )
        },
{
    let plain = "[\"!".to_owned().concat(norm).concat("\"]");
    let (reason, recipe) = match verdict {
        FilterVerdict::Excluded { pattern } => {
            let reason = "it matches the exclude pattern `".to_owned().concat(
                pattern.as_str(),
            ).concat("`");
            let recipe = if ends_with(pattern.as_str(), "/") {
                "[\"!".to_owned().concat(pattern.as_str()).concat("\", \"!").concat(
                    pattern.as_str(),
                ).concat("**\"]")
            } else {
                plain
            };
            (reason, recipe)
        },
        FilterVerdict::Generated { marker } => {
            let reason = "its header declares it generated (`".to_owned().concat(
                marker.as_str(),
            ).concat("`)");
            (reason, plain)
        },
        FilterVerdict::Kept => {
            return None;
        },
    };
    Some(
        "No chunks found for '".to_owned().concat(path).concat(
            "': the built-in index filter skipped it because ",
        ).concat(reason.as_str()).concat(
            ", so it was never indexed.\nTo index it anyway, add a re-include to [index] in .inkentry/config.toml:\n\n  [index]\n  exclude = ",
        ).concat(recipe.as_str()).concat("\n"),
    )
}

/// How the chunks of a file are printed.
pub enum ChunksReport {
    /// There are none; this is printed as it is.
    Missing(String),
    /// As one array.
    Json,
    Text(Vec<Line>),
}

/// What is printed when a file has no chunks: why the filter left it out, or
/// else just that there are none.
pub open spec fn missing_text(verdict: FilterVerdict, path: Seq<char>, norm: Seq<char>) -> Seq<
    char,
> {
    if verdict is Kept {
        "No chunks found for '"@ + path + "'.\n"@
    } else {
        "No chunks found for '"@ + path + "': the built-in index filter skipped it because "@
            + filter_reason(verdict)
            + ", so it was never indexed.\nTo index it anyway, add a re-include to [index] in .inkentry/config.toml:\n\n  [index]\n  exclude = "@
            + filter_recipe(verdict, norm) + "\n"@
    }
}

/// How the chunks of a file are printed.
pub fn chunks(
    results: &Vec<CodeHit>,
    format: &str,
    verdict: &FilterVerdict,
    path: &str,
    norm: &str,
) -> (r: ChunksReport)
    ensures
        match r {
            ChunksReport::Missing(s) => results.len() == 0 && s@ == missing_text(
                *verdict,
                path@,
                norm@,
            ),
            ChunksReport::Json => results.len() > 0 && format@ == "json"@,
            ChunksReport::Text(lines) => results.len() > 0 && format@ != "json"@ && line_models(
                lines@,
            ) == chunk_blocks(results@, results.len() as int),
        },
{
    if results.len() == 0 {
        let text = match index_filter_explanation(verdict, path, norm) {
            Some(s) => s,
            None => "No chunks found for '".to_owned().concat(path).concat("'.\n"),
        };
        return ChunksReport::Missing(text);
    }
    if same(format, "json") {
        return ChunksReport::Json;
    }
    ChunksReport::Text(print_chunks_text(results))
}

/// Each language has a line, in order, below the heading.
pub proof fn law_each_language_has_its_line(langs: Seq<Seq<char>>, i: int)
    requires
        0 <= i < langs.len(),
    ensures
        language_lines(langs).len() == langs.len() + 1,
        language_lines(langs)[1 + i] == "  "@ + langs[i],
{
}

/// A file that the filter left out is told by what left it out, and taken in again
/// by naming it, or by naming the directory where that is what was left out.
#[verifier::rlimit(60)]
pub proof fn law_what_was_left_out_can_be_taken_in(v: FilterVerdict, path: Seq<char>, norm: Seq<char>)
    ensures
        v is Excluded ==> crate::text::occurs(filter_reason(v), v->pattern@),
        v is Generated ==> crate::text::occurs(filter_reason(v), v->marker@),
        v is Generated ==> filter_recipe(v, norm) == "[\"!"@ + norm + "\"]"@,
        v is Excluded && !ends(v->pattern@, "/"@) ==> filter_recipe(v, norm) == "[\"!"@ + norm
            + "\"]"@,
        v is Excluded && ends(v->pattern@, "/"@) ==> filter_recipe(v, norm) == "[\"!"@ + v->pattern@
            + "\", \"!"@ + v->pattern@ + "**\"]"@,
        crate::text::begins(missing_text(v, path, norm), "No chunks found for '"@ + path + "'"@),
        !(v is Kept) ==> crate::text::occurs(missing_text(v, path, norm), filter_reason(v))
            && crate::text::occurs(missing_text(v, path, norm), filter_recipe(v, norm)),
{
    let t = missing_text(v, path, norm);
    let head = "No chunks found for '"@ + path + "'"@;
    reveal_strlit("'");
    reveal_strlit("'.\n");
    reveal_strlit("': the built-in index filter skipped it because ");
    assert(t.subrange(0, head.len() as int) =~= head);
    if let FilterVerdict::Excluded { pattern } = v {
        crate::text::lemma_occurs_between("it matches the exclude pattern `"@, pattern@, "`"@);
    }
    if let FilterVerdict::Generated { marker } = v {
        crate::text::lemma_occurs_between(
            "its header declares it generated (`"@,
            marker@,
            "`)"@,
        );
    }
    if !(v is Kept) {
        let front = "No chunks found for '"@ + path
            + "': the built-in index filter skipped it because "@;
        let mid = ", so it was never indexed.\nTo index it anyway, add a re-include to [index] in .inkentry/config.toml:\n\n  [index]\n  exclude = "@;
        let (a, b) = (filter_reason(v), filter_recipe(v, norm));
        crate::text::lemma_occurs_between(front, a, mid + b + "\n"@);
        assert(t =~= front + a + (mid + b + "\n"@));
        crate::text::lemma_occurs_between(front + a + mid, b, "\n"@);
        assert(t =~= (front + a + mid) + b + "\n"@);
    }
}

} // verus!
