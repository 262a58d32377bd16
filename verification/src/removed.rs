//! Hints for commands that are gone. They are looked for once the arguments
//! were rejected; as commands of their own they would be listed in the help.

use crate::text::{begins, same, starts_with, texts};
use vstd::prelude::*;
use vstd::string::*;

verus! {

/// What is said of `inkentry memory search`.
pub const MEMORY_SEARCH: &'static str = "error: `inkentry memory search` was removed; memory is searched by `inkentry search`.\n\n  inkentry search \"<query>\" --only-memory    memory entries only\n  inkentry search \"<query>\"                  code and memory, one ranked list\n\n`--as-of`, `--expand-graph` and `--local-only` carry over unchanged. The rest of\nthe `inkentry memory` family is unaffected.";

/// What is said of `inkentry graph`.
pub const GRAPH: &'static str = "error: `inkentry graph` was removed; the code graph is reached through `search`.\n\n  inkentry search \"<symbol>\" --graph              the symbol plus its 1-hop neighbours\n  inkentry plumbing graph-edges --symbol <name>   exact edges, as JSONL\n\n`inkentry memory graph` is a different command and still exists.";

/// What is said of `inkentry search --mode`.
pub const SEARCH_MODE: &'static str = "error: `--mode` was removed from `inkentry search`; ranking is always best-available.\n\n  --mode text                   ->  --only-text\n  --mode semantic|hybrid|auto   ->  no flag; that is the default\n  --mode ast-grep               ->  no replacement; structural search was removed\n\nUse `--only-code` / `--only-memory` to pick a corpus.";

/// Whether an argument is a global flag whose value is the next argument.
pub open spec fn takes_a_value(a: Seq<char>) -> bool {
    a == "--config"@ || a == "-c"@ || a == "--color"@
}

/// The words among the arguments from `i` on that are neither flags nor the
/// values of global ones.
pub open spec fn words(argv: Seq<Seq<char>>, i: int) -> Seq<Seq<char>>
    decreases argv.len() + 1 - i,
{
    if i < 0 || i >= argv.len() {
        Seq::<Seq<char>>::empty()
    } else if takes_a_value(argv[i]) {
        words(argv, i + 2)
    } else if begins(argv[i], "-"@) {
        words(argv, i + 1)
    } else {
        seq![argv[i]] + words(argv, i + 1)
    }
}

/// At most the first two of `s`.
pub open spec fn first_two(s: Seq<Seq<char>>) -> Seq<Seq<char>> {
    if s.len() <= 2 {
        s
    } else {
        s.take(2)
    }
}

fn is_value_flag(a: &str) -> (r: bool)
    ensures
        r == takes_a_value(a@),
{
    same(a, "--config") || same(a, "-c") || same(a, "--color")
}

/// The command and subcommand named by the arguments, the program's own name
/// left out.
pub fn subcommand_path(argv: &Vec<String>) -> (r: Vec<String>)
    ensures
        texts(r@) == first_two(words(texts(argv@), 1)),
{
    let ghost all = texts(argv@);
    let mut path: Vec<String> = Vec::new();
    let mut i: usize = 1;
    assert(texts(path@) + words(all, 1) =~= words(all, 1));
    while i < argv.len() && path.len() < 2
        invariant
            path.len() <= 2,
            i >= 1,
            all == texts(argv@),
            texts(path@) + words(all, i as int) == words(all, 1),
        decreases argv.len() - i,
    {
        let a = &argv[i];
        assert(all[i as int] == a@);
        if is_value_flag(a.as_str()) {
            if argv.len() - i <= 2 {
                proof {
                    assert(words(all, i + 2) =~= Seq::<Seq<char>>::empty());
                    assert(words(all, argv.len() as int) =~= Seq::<Seq<char>>::empty());
                }
                i = argv.len();
            } else {
                i = i + 2;
            }
        } else if starts_with(a.as_str(), "-") {
            i = i + 1;
        } else {
            let word = a.clone();
            let ghost before = texts(path@);
            proof {
                crate::text::lemma_texts_push(path@, word);
                assert(before + (seq![a@] + words(all, i + 1)) =~= before.push(a@) + words(
                    all,
                    i + 1,
                ));
            }
            path.push(word);
            i = i + 1;
        }
    }
    proof {
        if path.len() < 2 {
            assert(words(all, i as int) =~= Seq::<Seq<char>>::empty());
            assert(texts(path@) =~= words(all, 1));
        } else {
            assert(first_two(words(all, 1)) =~= texts(path@));
        }
    }
    path
}

/// Whether an argument is the `--mode` flag, with or without its value.
pub open spec fn is_mode_flag(a: Seq<char>) -> bool {
    a == "--mode"@ || begins(a, "--mode="@)
}

fn has_mode_flag(argv: &Vec<String>) -> (r: bool)
    ensures
        r == exists|i: int| 0 <= i < argv.len() && is_mode_flag((#[trigger] argv@[i])@),
{
    let mut i: usize = 0;
    while i < argv.len()
        invariant
            i <= argv.len(),
            forall|k: int| 0 <= k < i ==> !is_mode_flag((#[trigger] argv@[k])@),
        decreases argv.len() - i,
    {
        if same(argv[i].as_str(), "--mode") || starts_with(argv[i].as_str(), "--mode=") {
            assert(is_mode_flag(argv@[i as int]@));
            return true;
        }
        i = i + 1;
    }
    false
}

/// Whether the command path is `memory search`.
pub open spec fn is_memory_search(path: Seq<Seq<char>>) -> bool {
    path.len() >= 2 && path[0] == "memory"@ && path[1] == "search"@
}

/// Whether the command path begins with `name`.
pub open spec fn is_command(path: Seq<Seq<char>>, name: Seq<char>) -> bool {
    path.len() >= 1 && path[0] == name
}

/// What is said of a command that is gone; nothing for any other.
pub fn hint(argv: &Vec<String>) -> (r: Option<&'static str>)
    ensures
        ({
            let path = first_two(words(texts(argv@), 1));
            crate::text::opt_str(r) == if is_memory_search(path) {
                Some(MEMORY_SEARCH@)
            } else if is_command(path, "graph"@) {
                Some(GRAPH@)
            } else if is_command(path, "search"@) && exists|i: int|
                0 <= i < argv.len() && is_mode_flag((#[trigger] argv@[i])@) {
                Some(SEARCH_MODE@)
            } else {
                None
            }
        }),
{
    let path = subcommand_path(argv);
    let ghost p = texts(path@);
    if path.len() >= 2 && same(path[0].as_str(), "memory") && same(path[1].as_str(), "search") {
        assert(p[0] == path@[0]@ && p[1] == path@[1]@);
        return Some(MEMORY_SEARCH);
    }
    if path.len() == 0 {
        return None;
    }
    assert(p[0] == path@[0]@);
    assert(p.len() >= 2 ==> p[1] == path@[1]@);
    if same(path[0].as_str(), "graph") {
        return Some(GRAPH);
    }
    if same(path[0].as_str(), "search") && has_mode_flag(argv) {
        return Some(SEARCH_MODE);
    }
    None
}

/// A flag adds no word; a flag that takes a value adds none with it; and any other
/// argument is a word, in front of those that follow.
pub proof fn law_flags_are_no_words(argv: Seq<Seq<char>>, i: int)
    requires
        0 <= i < argv.len(),
    ensures
        argv[i] == "--config"@ || argv[i] == "-c"@ || argv[i] == "--color"@ ==> words(argv, i)
            == words(argv, i + 2),
        argv[i].len() > 0 && argv[i][0] == '-' && argv[i] != "--config"@ && argv[i] != "-c"@
            && argv[i] != "--color"@ ==> words(argv, i) == words(argv, i + 1),
        argv[i].len() > 0 && argv[i][0] != '-' ==> words(argv, i) == seq![argv[i]] + words(
            argv,
            i + 1,
        ),
        words(argv, argv.len() as int).len() == 0,
{
    reveal_strlit("-");
    reveal_strlit("--config");
    reveal_strlit("-c");
    reveal_strlit("--color");
    if argv[i].len() > 0 {
        if argv[i][0] == '-' {
            assert(argv[i].subrange(0, 1) =~= "-"@);
        } else if begins(argv[i], "-"@) {
            assert(argv[i].subrange(0, 1)[0] == "-"@[0]);
        }
    }
}

/// A command path is the beginning of the words, of two at most.
pub proof fn law_a_path_is_two_words_at_most(s: Seq<Seq<char>>)
    ensures
        first_two(s).is_prefix_of(s),
        first_two(s).len() == if s.len() < 2 {
            s.len() as int
        } else {
            2
        },
{
}

/// The flag that is gone is known with a value behind it and with one attached, and
/// no other flag is taken for it.
pub proof fn law_the_mode_flag_is_known(value: Seq<char>, a: Seq<char>)
    ensures
        is_mode_flag("--mode"@),
        is_mode_flag("--mode="@ + value),
        is_mode_flag(a) ==> begins(a, "--mode"@),
{
    reveal_strlit("--mode");
    reveal_strlit("--mode=");
    assert(("--mode="@ + value).subrange(0, 7) =~= "--mode="@);
    if a == "--mode"@ {
        assert(a.subrange(0, 6) =~= "--mode"@);
    } else if begins(a, "--mode="@) {
        assert forall|i: int| 0 <= i < 6 implies a.subrange(0, 6)[i] == "--mode"@[i] by {
            assert(a.subrange(0, 7)[i] == "--mode="@[i]);
        }
        assert(a.subrange(0, 6) =~= "--mode"@);
    }
}

/// The commands that are gone are told by their words, whatever follows.
pub proof fn law_a_command_is_told_by_its_words(path: Seq<Seq<char>>, name: Seq<char>)
    ensures
        is_memory_search(path) <==> path.len() > 1 && path[0] == "memory"@ && path[1] == "search"@,
        is_command(path, name) <==> path.len() > 0 && path[0] == name,
{
}

} // verus!
