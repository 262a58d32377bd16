//! Reading a title and a body out of a page.

use crate::text::{
    byte_boundary, byte_prefix, opt_text, replace, replaced, split_at_first, split_first,
    starts_with, take_bytes, trim, trim_start, trimmed, trimmed_start,
};
use vstd::prelude::*;
use vstd::string::*;

verus! {

/// An issue or a pull request on GitHub: its owner, repository and number.
pub const GITHUB_ISSUE: &'static str = "https?://github\\.com/([^/]+)/([^/]+)/(?:issues|pull)/(\\d+)";

/// The title of a page.
pub const PAGE_TITLE: &'static str = "(?i)<title[^>]*>([\\s\\S]*?)</title>";

/// Scripts and styles in a page.
pub const PAGE_SCRIPT: &'static str = "(?is)<(?:script|style)[^>]*>[\\s\\S]*?</(?:script|style)>";

/// A tag.
pub const PAGE_TAG: &'static str = "<[^>]+>";

/// A long run of whitespace.
pub const LONG_BLANK: &'static str = "\\s{3,}";

/// Whether `p` is one of the patterns that are in use.
pub open spec fn known_pattern(p: Seq<char>) -> bool {
    p == GITHUB_ISSUE@ || p == PAGE_TITLE@ || p == PAGE_SCRIPT@ || p == PAGE_TAG@ || p
        == LONG_BLANK@
}

/// What `regex::Regex::captures` finds for a group of a pattern in the first
/// match in a text; nothing where there is no match, or the group has no part
/// in it.
pub uninterp spec fn regex_group(pattern: Seq<char>, text: Seq<char>, group: nat) -> Option<
    Seq<char>,
>;

/// Calls `regex::Regex::captures` and takes one group. What it finds is a
/// function of the pattern, the text and the group. The pattern must be one
/// that `regex` compiles.
#[verifier::external_body]
fn captured(pattern: &str, text: &str, group: usize) -> (r: Option<String>)
    requires
        known_pattern(pattern@),
    ensures
        opt_text(r) == regex_group(pattern@, text@, group as nat),
{
    let re = regex::Regex::new(pattern).unwrap();
    match re.captures(text) {
        Some(found) => match found.get(group) {
            Some(m) => Some(m.as_str().to_string()),
            None => None,
        },
        None => None,
    }
}

/// What `regex::Regex::replace_all` makes of a text.
pub uninterp spec fn regex_replaced(pattern: Seq<char>, text: Seq<char>, with: Seq<char>) -> Seq<
    char,
>;

/// Calls `regex::Regex::replace_all`. What it makes of the text is a function
/// of the pattern, the text and the replacement. The pattern must be one that
/// `regex` compiles.
#[verifier::external_body]
fn replaced_all(pattern: &str, text: &str, with: &str) -> (r: String)
    requires
        known_pattern(pattern@),
    ensures
        r@ == regex_replaced(pattern@, text@, with@),
{
    let re = regex::Regex::new(pattern).unwrap();
    re.replace_all(text, with).to_string()
}

/// What `serde_json` reads under a name in a JSON object: an error in its own
/// words where the bytes are no JSON, and no text where none stands there.
pub uninterp spec fn json_field(bytes: Seq<u8>, name: Seq<char>) -> Result<
    Option<Seq<char>>,
    Seq<char>,
>;

/// Calls `serde_json::from_slice` and takes the text under a name. The text, or
/// the error where the bytes are no JSON, is a function of the bytes and the
/// name.
#[verifier::external_body]
fn json_text(bytes: &Vec<u8>, name: &str) -> (r: Result<Option<String>, String>)
    ensures
        match r {
            Ok(t) => json_field(bytes@, name@) == Ok::<Option<Seq<char>>, Seq<char>>(opt_text(t)),
            Err(e) => json_field(bytes@, name@) == Err::<Option<Seq<char>>, Seq<char>>(e@),
        },
{
    match serde_json::from_slice::<serde_json::Value>(bytes) {
        Ok(v) => Ok(v[name].as_str().map(str::to_string)),
        Err(e) => Err(e.to_string()),
    }
}

// ---- GitHub ----------------------------------------------------------------

/// The path of an issue in GitHub's API.
pub open spec fn api_path(owner: Seq<char>, repo: Seq<char>, number: Seq<char>) -> Seq<char> {
    "repos/"@ + owner + "/"@ + repo + "/issues/"@ + number
}

/// The path of an issue in GitHub's API.
pub fn issue_api_path(owner: &str, repo: &str, number: &str) -> (r: String)
    ensures
        r@ == api_path(owner@, repo@, number@),
{
    "repos/".to_owned().concat(owner).concat("/").concat(repo).concat("/issues/").concat(number)
}

/// The path in GitHub's API for the address of an issue or pull request.
pub fn github_api_path(url: &str) -> (r: Option<String>)
    ensures
        match (
            regex_group(GITHUB_ISSUE@, url@, 1),
            regex_group(GITHUB_ISSUE@, url@, 2),
            regex_group(GITHUB_ISSUE@, url@, 3),
        ) {
            (Some(owner), Some(repo), Some(number)) => opt_text(r) == Some(
                api_path(owner, repo, number),
            ),
            _ => r is None,
        },
{
    let owner = captured(GITHUB_ISSUE, url, 1);
    let repo = captured(GITHUB_ISSUE, url, 2);
    let number = captured(GITHUB_ISSUE, url, 3);
    match (owner, repo, number) {
        (Some(o), Some(r), Some(n)) => Some(
            issue_api_path(o.as_str(), r.as_str(), n.as_str()),
        ),
        _ => None,
    }
}

/// A title and a body.
pub struct PageContent {
    pub title: String,
    pub body: String,
}

/// The content of an issue, by the title and body that were read.
pub fn issue_fields(title: Option<String>, body: Option<String>) -> (r: PageContent)
    ensures
        r.title@ == match title {
            Some(t) => t@,
            None => "GitHub Issue"@,
        },
        r.body@ == match body {
            Some(b) => b@,
            None => Seq::<char>::empty(),
        },
{
    PageContent {
        title: match title {
            Some(t) => t,
            None => "GitHub Issue".to_owned(),
        },
        body: match body {
            Some(b) => b,
            None => String::new(),
        },
    }
}

/// What an answer of GitHub holds: the texts under `title` and `body`, or else
/// the first error.
pub open spec fn answer_fields(answer: Seq<u8>) -> Result<
    (Option<Seq<char>>, Option<Seq<char>>),
    Seq<char>,
> {
    match (json_field(answer, "title"@), json_field(answer, "body"@)) {
        (Ok(title), Ok(body)) => Ok((title, body)),
        (Err(e), _) => Err(e),
        (Ok(_), Err(e)) => Err(e),
    }
}

/// The content of an issue, as GitHub answers for it.
pub fn issue_content(answer: &Vec<u8>) -> (r: Result<PageContent, String>)
    ensures
        match answer_fields(answer@) {
            Ok((title, body)) => r is Ok && r->Ok_0.title@ == (match title {
                Some(t) => t,
                None => "GitHub Issue"@,
            }) && r->Ok_0.body@ == (match body {
                Some(b) => b,
                None => Seq::<char>::empty(),
            }),
            Err(e) => r is Err && r->Err_0@ == "parsing gh api response: "@ + e,
        },
{
    match json_text(answer, "title") {
        Err(e) => Err("parsing gh api response: ".to_owned().concat(e.as_str())),
        Ok(title) => match json_text(answer, "body") {
            Err(e) => Err("parsing gh api response: ".to_owned().concat(e.as_str())),
            Ok(body) => Ok(issue_fields(title, body)),
        },
    }
}

// ---- Markdown --------------------------------------------------------------

/// The title and body of a page that was turned into Markdown: a heading at its
/// front is the title, and without one the address is.
pub open spec fn markdown_content(md: Seq<char>, url: Seq<char>) -> (Seq<char>, Seq<char>) {
    let t = trimmed(md);
    if crate::text::begins(t, "# "@) {
        let (line, rest) = split_first(t.skip(2), '\n');
        (trimmed(line), trimmed_start(rest))
    } else {
        (url, t)
    }
}

/// The title and body of a page that was turned into Markdown.
pub fn parse_web_to_md_output(md: &str, url: &str) -> (r: Result<(String, String), String>)
    ensures
        r is Ok,
        ((r->Ok_0).0@, (r->Ok_0).1@) == markdown_content(md@, url@),
{
    let t = trim(md);
    if starts_with(t.as_str(), "# ") {
        let v = crate::text::chars_of(t.as_str());
        proof {
            reveal_strlit("# ");
            assert(v@.subrange(2, v.len() as int) =~= t@.skip(2));
        }
        let rest = crate::text::text_of(&v, 2, v.len());
        let (line, body) = split_at_first(rest.as_str(), '\n');
        Ok((trim(line.as_str()), trim_start(body.as_str())))
    } else {
        Ok((url.to_owned(), t))
    }
}

// ---- HTML ------------------------------------------------------------------

/// A text with the common HTML entities written out, one after another.
pub open spec fn unescaped(s: Seq<char>) -> Seq<char> {
    replaced(
        replaced(
            replaced(
                replaced(
                    replaced(replaced(s, "&amp;"@, "&"@), "&lt;"@, "<"@),
                    "&gt;"@,
                    ">"@,
                ),
                "&quot;"@,
                "\""@,
            ),
            "&#39;"@,
            "'"@,
        ),
        "&nbsp;"@,
        " "@,
    )
}

/// A text with the common HTML entities written out.
pub fn html_unescape(s: &str) -> (r: String)
    ensures
        r@ == unescaped(s@),
{
    let a = replace(s, "&amp;", "&");
    let b = replace(a.as_str(), "&lt;", "<");
    let c = replace(b.as_str(), "&gt;", ">");
    let d = replace(c.as_str(), "&quot;", "\"");
    let e = replace(d.as_str(), "&#39;", "'");
    replace(e.as_str(), "&nbsp;", " ")
}

/// The title of a page, by what stands in its title tag; the address where
/// there is none.
pub fn title_or_address(tag: Option<&str>, url: &str) -> (r: String)
    ensures
        r@ == match tag {
            Some(t) => unescaped(trimmed(t@)),
            None => url@,
        },
{
    match tag {
        Some(t) => html_unescape(trim(t).as_str()),
        None => url.to_owned(),
    }
}

/// The title of a page.
pub fn page_title(html: &str, url: &str) -> (r: String)
    ensures
        r@ == match regex_group(PAGE_TITLE@, html@, 1) {
            Some(t) => unescaped(trimmed(t)),
            None => url@,
        },
{
    let tag = captured(PAGE_TITLE, html, 1);
    title_or_address(crate::text::opt_as_str(&tag), url)
}

/// How many bytes of a page are kept.
pub const PAGE_BYTES: usize = 8192;

/// The text of a page: without scripts, styles and tags, long blanks made into
/// paragraphs.
pub open spec fn page_text(html: Seq<char>) -> Seq<char> {
    regex_replaced(
        LONG_BLANK@,
        trimmed(
            regex_replaced(PAGE_TAG@, regex_replaced(PAGE_SCRIPT@, html, " "@), " "@),
        ),
        "\n\n"@,
    )
}

/// The beginning of a text that is kept. It must be such that the cut splits no
/// character.
pub fn kept_text(text: &str) -> (r: String)
    requires
        byte_boundary(text@, PAGE_BYTES as int),
    ensures
        r@ == byte_prefix(text@, PAGE_BYTES as int),
{
    take_bytes(text, PAGE_BYTES)
}

/// Whether a text can be cut to the bytes that are kept.
pub fn can_be_cut(text: &str) -> (r: bool)
    ensures
        r == byte_boundary(text@, PAGE_BYTES as int),
{
    crate::text::is_byte_boundary(text, PAGE_BYTES)
}

/// The body of a page: the beginning of its text. Nothing where the cut would
/// split a character.
pub fn page_body(html: &str) -> (r: Option<String>)
    ensures
        opt_text(r) == if byte_boundary(page_text(html@), PAGE_BYTES as int) {
            Some(byte_prefix(page_text(html@), PAGE_BYTES as int))
        } else {
            None
        },
        r is Some ==> r->0@ == byte_prefix(
            regex_replaced(
                LONG_BLANK@,
                trimmed(
                    regex_replaced(PAGE_TAG@, regex_replaced(PAGE_SCRIPT@, html@, " "@), " "@),
                ),
                "\n\n"@,
            ),
            8192,
        ),
{
    let plain = replaced_all(PAGE_SCRIPT, html, " ");
    let untagged = replaced_all(PAGE_TAG, plain.as_str(), " ");
    let text = replaced_all(LONG_BLANK, trim(untagged.as_str()).as_str(), "\n\n");
    if can_be_cut(text.as_str()) {
        Some(kept_text(text.as_str()))
    } else {
        None
    }
}

/// How the content of an address is found.
pub enum FetchStep {
    /// Through GitHub's API, at this path.
    GitHub(String),
    /// Through the script that turns pages into Markdown.
    Script,
    /// From the page itself.
    Page,
}

/// How the content of an address is found, after those ways that failed. The
/// script runs only where it was installed.
pub fn fetch_step(github: Option<String>, github_failed: bool, script: bool, script_failed: bool) -> (r:
    FetchStep)
    ensures
        match r {
            FetchStep::GitHub(p) => !github_failed && opt_text(github) == Some(p@),
            FetchStep::Script => (github_failed || github is None) && script && !script_failed,
            FetchStep::Page => (github_failed || github is None) && (!script || script_failed),
        },
{
    if !github_failed {
        if let Some(p) = github {
            return FetchStep::GitHub(p);
        }
    }
    if script && !script_failed {
        FetchStep::Script
    } else {
        FetchStep::Page
    }
}

/// A page that begins with a heading has the heading as its title and what follows
/// as its body; any other has its address as the title and all of it as the body.
pub proof fn law_a_heading_is_the_title(title: Seq<char>, body: Seq<char>, url: Seq<char>)
    requires
        title.len() > 0,
        body.len() > 0,
        !title.contains('\n'),
        !crate::text::white(title[0]) && !crate::text::white(title.last()),
        !crate::text::white(body[0]) && !crate::text::white(body.last()),
    ensures
        markdown_content("# "@ + title + seq!['\n'] + body, url) == (title, body),
        body[0] != '#' ==> markdown_content(body, url) == (url, body),
{
    reveal_strlit("# ");
    let md = "# "@ + title + seq!['\n'] + body;
    assert(md[0] == '#');
    assert(md.last() == body.last());
    lemma_trimmed_already(md);
    assert(md.subrange(0, 2) =~= "# "@);
    let rest = md.skip(2);
    assert(rest =~= title + seq!['\n'] + body);
    crate::text::law_a_split_is_put_together_again(rest, '\n');
    assert(rest[title.len() as int] == '\n');
    let (line, tail) = split_first(rest, '\n');
    assert(line.len() == title.len()) by {
        if line.len() < title.len() {
            assert(rest[line.len() as int] == '\n');
            assert(title[line.len() as int] == '\n');
        }
        if line.len() > title.len() {
            assert(line[title.len() as int] == rest[title.len() as int]);
        }
    }
    assert(line =~= title) by {
        assert forall|i: int| 0 <= i < title.len() implies line[i] == title[i] by {
            assert(rest[i] == title[i]);
        }
    }
    assert(tail =~= body) by {
        assert forall|i: int| 0 <= i < body.len() implies tail[i] == body[i] by {
            assert(rest[title.len() + 1 + i] == body[i]);
        }
        assert(rest.len() == line.len() + 1 + tail.len());
    }
    lemma_trimmed_already(title);
    lemma_trimmed_already(body);
    if body[0] != '#' {
        if crate::text::begins(body, "# "@) {
            assert(body.subrange(0, 2)[0] == "# "@[0]);
        }
    }
}

proof fn lemma_trimmed_already(s: Seq<char>)
    requires
        s.len() > 0,
        !crate::text::white(s[0]),
        !crate::text::white(s.last()),
    ensures
        trimmed(s) == s,
        trimmed_start(s) == s,
{
}

/// A text without an ampersand has no entities, and is left as it is.
pub proof fn law_a_text_without_entities_is_left_as_it_is(s: Seq<char>)
    requires
        !s.contains('&'),
    ensures
        unescaped(s) == s,
{
    reveal_strlit("&amp;");
    reveal_strlit("&lt;");
    reveal_strlit("&gt;");
    reveal_strlit("&quot;");
    reveal_strlit("&#39;");
    reveal_strlit("&nbsp;");
    lemma_no_entity(s, "&amp;"@);
    lemma_no_entity(s, "&lt;"@);
    lemma_no_entity(s, "&gt;"@);
    lemma_no_entity(s, "&quot;"@);
    lemma_no_entity(s, "&#39;"@);
    lemma_no_entity(s, "&nbsp;"@);
    crate::text::law_replacing_what_is_not_there(s, "&amp;"@, "&"@);
    crate::text::law_replacing_what_is_not_there(s, "&lt;"@, "<"@);
    crate::text::law_replacing_what_is_not_there(s, "&gt;"@, ">"@);
    crate::text::law_replacing_what_is_not_there(s, "&quot;"@, "\""@);
    crate::text::law_replacing_what_is_not_there(s, "&#39;"@, "'"@);
    crate::text::law_replacing_what_is_not_there(s, "&nbsp;"@, " "@);
}

proof fn lemma_no_entity(s: Seq<char>, entity: Seq<char>)
    requires
        !s.contains('&'),
        entity.len() > 0,
        entity[0] == '&',
    ensures
        !crate::text::occurs(s, entity),
{
    if crate::text::occurs(s, entity) {
        let i = choose|i: int| crate::text::occurs_at(s, entity, i);
        assert(s.subrange(i, i + entity.len())[0] == '&');
        assert(s[i] == '&');
    }
}

/// The path of an issue names its owner, its repository and its number, in this
/// order.
pub proof fn law_an_issue_is_found_by_its_number(
    owner: Seq<char>,
    repo: Seq<char>,
    number: Seq<char>,
)
    ensures
        crate::text::begins(api_path(owner, repo, number), "repos/"@ + owner + "/"@ + repo),
        crate::text::ends(api_path(owner, repo, number), "/issues/"@ + number),
{
    let p = api_path(owner, repo, number);
    let a = "repos/"@ + owner + "/"@ + repo;
    let b = "/issues/"@ + number;
    assert(p.subrange(0, a.len() as int) =~= a);
    assert(p.subrange(p.len() - b.len(), p.len() as int) =~= b);
}

/// An issue's title and body are read from the fields of these names.
pub proof fn law_an_answer_is_read_by_its_fields(answer: Seq<u8>)
    ensures
        json_field(answer, "title"@) is Ok && json_field(answer, "body"@) is Ok ==> answer_fields(
            answer,
        ) == Ok::<_, Seq<char>>(
            (json_field(answer, "title"@)->Ok_0, json_field(answer, "body"@)->Ok_0),
        ),
        json_field(answer, "title"@) is Err ==> answer_fields(answer) is Err,
        json_field(answer, "body"@) is Err ==> answer_fields(answer) is Err,
{
}

proof fn lemma_other_entity(a: Seq<char>, entity: Seq<char>, b: Seq<char>, other: Seq<char>)
    requires
        !a.contains('&'),
        !b.contains('&'),
        entity.len() > 1,
        other.len() > 1,
        entity[0] == '&',
        other[0] == '&',
        entity[1] != other[1],
        forall|i: int| 1 <= i < entity.len() ==> entity[i] != '&',
    ensures
        !crate::text::occurs(a + entity + b, other),
{
    let s = a + entity + b;
    if crate::text::occurs(s, other) {
        let i = choose|i: int| crate::text::occurs_at(s, other, i);
        let at = s.subrange(i, i + other.len());
        assert(at[0] == other[0] && at[1] == other[1]);
        assert(s[i] == '&' && s[i + 1] == other[1]);
        if i < a.len() {
            assert(a[i] == '&');
        } else if i < a.len() + entity.len() {
            assert(entity[i - a.len()] == '&');
            assert(s[i + 1] == entity[1]);
        } else {
            assert(b[i - a.len() - entity.len()] == '&');
        }
    }
}

proof fn lemma_entity_replaced(a: Seq<char>, entity: Seq<char>, b: Seq<char>, with: Seq<char>)
    requires
        !a.contains('&'),
        !b.contains('&'),
        entity.len() > 1,
        entity[0] == '&',
        !with.contains('&'),
    ensures
        replaced(a + entity + b, entity, with) == a + with + b,
        !(a + with + b).contains('&'),
{
    let s = a + entity + b;
    assert forall|i: int| 0 <= i < a.len() implies !crate::text::occurs_at(s, entity, i) by {
        if crate::text::occurs_at(s, entity, i) {
            assert(s.subrange(i, i + entity.len())[0] == '&');
            assert(a[i] == '&');
        }
    }
    crate::text::law_replacing_goes_on_after_each_place(a, entity, b, with);
    lemma_no_entity(b, entity);
    crate::text::law_replacing_what_is_not_there(b, entity, with);
    let r = a + with + b;
    if r.contains('&') {
        let k = choose|k: int| 0 <= k < r.len() && r[k] == '&';
        if k < a.len() {
            assert(a[k] == '&');
        } else if k < a.len() + with.len() {
            assert(with[k - a.len()] == '&');
        } else {
            assert(b[k - a.len() - with.len()] == '&');
        }
    }
}

proof fn lemma_entities()
    ensures
        "&amp;"@.len() == 5 && "&amp;"@[0] == '&' && "&amp;"@[1] == 'a',
        "&lt;"@.len() == 4 && "&lt;"@[0] == '&' && "&lt;"@[1] == 'l',
        "&gt;"@.len() == 4 && "&gt;"@[0] == '&' && "&gt;"@[1] == 'g',
        "&quot;"@.len() == 6 && "&quot;"@[0] == '&' && "&quot;"@[1] == 'q',
        "&#39;"@.len() == 5 && "&#39;"@[0] == '&' && "&#39;"@[1] == '#',
        "&nbsp;"@.len() == 6 && "&nbsp;"@[0] == '&' && "&nbsp;"@[1] == 'n',
        forall|i: int| 1 <= i < 5 ==> #[trigger] "&amp;"@[i] != '&',
        forall|i: int| 1 <= i < 4 ==> #[trigger] "&lt;"@[i] != '&',
        forall|i: int| 1 <= i < 4 ==> #[trigger] "&gt;"@[i] != '&',
        forall|i: int| 1 <= i < 6 ==> #[trigger] "&quot;"@[i] != '&',
        forall|i: int| 1 <= i < 5 ==> #[trigger] "&#39;"@[i] != '&',
        forall|i: int| 1 <= i < 6 ==> #[trigger] "&nbsp;"@[i] != '&',
        !"<"@.contains('&') && !">"@.contains('&') && !"\""@.contains('&') && !"'"@.contains('&')
            && !" "@.contains('&'),
        "&"@ == seq!['&'],
{
    reveal_strlit("&amp;");
    reveal_strlit("&lt;");
    reveal_strlit("&gt;");
    reveal_strlit("&quot;");
    reveal_strlit("&#39;");
    reveal_strlit("&nbsp;");
    reveal_strlit("<");
    reveal_strlit(">");
    reveal_strlit("\"");
    reveal_strlit("'");
    reveal_strlit(" ");
    reveal_strlit("&");
    assert("&"@ =~= seq!['&']);
}

proof fn lemma_untouched(s: Seq<char>, entity: Seq<char>, with: Seq<char>)
    requires
        !crate::text::occurs(s, entity),
    ensures
        replaced(s, entity, with) == s,
{
    crate::text::law_replacing_what_is_not_there(s, entity, with);
}

proof fn lemma_rest_untouched(s: Seq<char>)
    requires
        !s.contains('&'),
    ensures
        replaced(s, "&amp;"@, "&"@) == s,
        replaced(s, "&lt;"@, "<"@) == s,
        replaced(s, "&gt;"@, ">"@) == s,
        replaced(s, "&quot;"@, "\""@) == s,
        replaced(s, "&#39;"@, "'"@) == s,
        replaced(s, "&nbsp;"@, " "@) == s,
{
    lemma_entities();
    lemma_no_entity(s, "&amp;"@);
    lemma_no_entity(s, "&lt;"@);
    lemma_no_entity(s, "&gt;"@);
    lemma_no_entity(s, "&quot;"@);
    lemma_no_entity(s, "&#39;"@);
    lemma_no_entity(s, "&nbsp;"@);
    lemma_untouched(s, "&amp;"@, "&"@);
    lemma_untouched(s, "&lt;"@, "<"@);
    lemma_untouched(s, "&gt;"@, ">"@);
    lemma_untouched(s, "&quot;"@, "\""@);
    lemma_untouched(s, "&#39;"@, "'"@);
    lemma_untouched(s, "&nbsp;"@, " "@);
}

proof fn lemma_others_untouched(a: Seq<char>, entity: Seq<char>, b: Seq<char>)
    requires
        !a.contains('&'),
        !b.contains('&'),
        entity.len() > 1,
        entity[0] == '&',
        forall|i: int| 1 <= i < entity.len() ==> entity[i] != '&',
    ensures
        entity[1] != 'a' ==> replaced(a + entity + b, "&amp;"@, "&"@) == a + entity + b,
        entity[1] != 'l' ==> replaced(a + entity + b, "&lt;"@, "<"@) == a + entity + b,
        entity[1] != 'g' ==> replaced(a + entity + b, "&gt;"@, ">"@) == a + entity + b,
        entity[1] != 'q' ==> replaced(a + entity + b, "&quot;"@, "\""@) == a + entity + b,
        entity[1] != '#' ==> replaced(a + entity + b, "&#39;"@, "'"@) == a + entity + b,
        entity[1] != 'n' ==> replaced(a + entity + b, "&nbsp;"@, " "@) == a + entity + b,
{
    let s = a + entity + b;
    lemma_entities();
    if entity[1] != 'a' {
        lemma_other_entity(a, entity, b, "&amp;"@);
        lemma_untouched(s, "&amp;"@, "&"@);
    }
    if entity[1] != 'l' {
        lemma_other_entity(a, entity, b, "&lt;"@);
        lemma_untouched(s, "&lt;"@, "<"@);
    }
    if entity[1] != 'g' {
        lemma_other_entity(a, entity, b, "&gt;"@);
        lemma_untouched(s, "&gt;"@, ">"@);
    }
    if entity[1] != 'q' {
        lemma_other_entity(a, entity, b, "&quot;"@);
        lemma_untouched(s, "&quot;"@, "\""@);
    }
    if entity[1] != '#' {
        lemma_other_entity(a, entity, b, "&#39;"@);
        lemma_untouched(s, "&#39;"@, "'"@);
    }
    if entity[1] != 'n' {
        lemma_other_entity(a, entity, b, "&nbsp;"@);
        lemma_untouched(s, "&nbsp;"@, " "@);
    }
}

/// An entity is written out as the character it stands for, and what is around it
/// stays as it is.
pub proof fn law_an_entity_is_written_out(a: Seq<char>, b: Seq<char>)
    requires
        !a.contains('&'),
        !b.contains('&'),
    ensures
        unescaped(a + "&lt;"@ + b) == a + "<"@ + b,
        unescaped(a + "&gt;"@ + b) == a + ">"@ + b,
        unescaped(a + "&quot;"@ + b) == a + "\""@ + b,
        unescaped(a + "&#39;"@ + b) == a + "'"@ + b,
        unescaped(a + "&nbsp;"@ + b) == a + " "@ + b,
{
    lemma_entities();
    lemma_others_untouched(a, "&lt;"@, b);
    lemma_others_untouched(a, "&gt;"@, b);
    lemma_others_untouched(a, "&quot;"@, b);
    lemma_others_untouched(a, "&#39;"@, b);
    lemma_others_untouched(a, "&nbsp;"@, b);
    lemma_entity_replaced(a, "&lt;"@, b, "<"@);
    lemma_entity_replaced(a, "&gt;"@, b, ">"@);
    lemma_entity_replaced(a, "&quot;"@, b, "\""@);
    lemma_entity_replaced(a, "&#39;"@, b, "'"@);
    lemma_entity_replaced(a, "&nbsp;"@, b, " "@);
    lemma_rest_untouched(a + "<"@ + b);
    lemma_rest_untouched(a + ">"@ + b);
    lemma_rest_untouched(a + "\""@ + b);
    lemma_rest_untouched(a + "'"@ + b);
    lemma_rest_untouched(a + " "@ + b);
}

} // verus!
