//! Organisations: which one an argument names, and how the cached ones are
//! listed.

use crate::text::{
    begins, chars_of, opt_str, opt_text, pieces, same, split_on, starts_with, text_of, texts,
};
use vstd::prelude::*;
use vstd::string::*;

verus! {

/// An organisation of the account, as the cloud lists it.
pub struct MeOrg {
    pub id: String,
    pub name: String,
    pub slug: String,
    pub workos_org_id: Option<String>,
}

/// Whether `arg` is a provider's id already, which needs no lookup.
pub fn is_workos_org_id(arg: &str) -> (r: bool)
    ensures
        r == begins(arg@, "org_"@),
{
    starts_with(arg, "org_")
}

/// Whether an organisation is named by `arg`, by its slug or its local id.
pub open spec fn named_by(o: MeOrg, arg: Seq<char>) -> bool {
    o.slug@ == arg || o.id@ == arg
}

/// Whether `i` is the first organisation that `arg` names.
pub open spec fn first_named(orgs: Seq<MeOrg>, arg: Seq<char>, i: int) -> bool {
    0 <= i < orgs.len() && named_by(orgs[i], arg) && forall|k: int|
        0 <= k < i ==> !named_by(#[trigger] orgs[k], arg)
}

/// The error for an argument that names no organisation of the account.
pub open spec fn unknown_org_text(arg: Seq<char>) -> Seq<char> {
    "not a member of org '"@ + arg + "', or unknown org"@
}

/// The error for an organisation without a provider's id.
pub open spec fn no_provider_id_text(arg: Seq<char>) -> Seq<char> {
    "org '"@ + arg
        + "' has no WorkOS org id on record; cannot switch (re-run `inkentry login` or contact support)"@
}

/// The provider's id of the first organisation that `arg` names. An entry
/// without one is an error; the local id is never used in its place.
pub fn resolve_arg_to_workos_org_id(orgs: &Vec<MeOrg>, arg: &str) -> (r: Result<String, String>)
    ensures
        match r {
            Ok(id) => exists|i: int|
                first_named(orgs@, arg@, i) && opt_text((#[trigger] orgs@[i]).workos_org_id)
                    == Some(id@),
            Err(e) => ({
                ||| e@ == unknown_org_text(arg@) && forall|k: int|
                    0 <= k < orgs.len() ==> !named_by(#[trigger] orgs@[k], arg@)
                ||| e@ == no_provider_id_text(arg@) && exists|i: int|
                    first_named(orgs@, arg@, i) && (#[trigger] orgs@[i]).workos_org_id is None
            }),
        },
{
    let mut i: usize = 0;
    while i < orgs.len()
        invariant
            i <= orgs.len(),
            forall|k: int| 0 <= k < i ==> !named_by(#[trigger] orgs@[k], arg@),
        decreases orgs.len() - i,
    {
        let o = &orgs[i];
        if same(o.slug.as_str(), arg) || same(o.id.as_str(), arg) {
            assert(first_named(orgs@, arg@, i as int));
            return match &o.workos_org_id {
                Some(id) => {
                    let out = id.clone();
                    assert(opt_text(orgs@[i as int].workos_org_id) == Some(out@));
                    Ok(out)
                },
                None => {
                    assert(orgs@[i as int].workos_org_id is None);
                    Err(
                        "org '".to_owned().concat(arg).concat(
                            "' has no WorkOS org id on record; cannot switch (re-run `inkentry login` or contact support)",
                        ),
                    )
                },
            };
        }
        i = i + 1;
    }
    Err("not a member of org '".to_owned().concat(arg).concat("', or unknown org"))
}

/// How an argument becomes a provider's id.
pub enum OrgResolution {
    /// It is one.
    Given(String),
    /// The account's organisations are to be looked up.
    LookUp,
}

/// How an argument becomes a provider's id.
pub fn resolve_workos_org_id(arg: &str) -> (r: OrgResolution)
    ensures
        match r {
            OrgResolution::Given(id) => begins(arg@, "org_"@) && id@ == arg@,
            OrgResolution::LookUp => !begins(arg@, "org_"@),
        },
{
    if is_workos_org_id(arg) {
        OrgResolution::Given(arg.to_owned())
    } else {
        OrgResolution::LookUp
    }
}

/// Whether `c` is a hexadecimal digit.
pub open spec fn hex(c: char) -> bool {
    '0' <= c <= '9' || 'a' <= c <= 'f' || 'A' <= c <= 'F'
}

/// Whether `s` is `n` hexadecimal digits.
pub open spec fn hex_group(s: Seq<char>, n: int) -> bool {
    s.len() == n && forall|i: int| 0 <= i < s.len() ==> hex(#[trigger] s[i])
}

/// Whether `s` has the shape of a UUID: groups of 8, 4, 4, 4 and 12
/// hexadecimal digits.
pub open spec fn uuid_shape(s: Seq<char>) -> bool {
    let g = pieces(s, '-');
    g.len() == 5 && hex_group(g[0], 8) && hex_group(g[1], 4) && hex_group(g[2], 4) && hex_group(
        g[3],
        4,
    ) && hex_group(g[4], 12)
}

fn is_hex_group(s: &str, n: usize) -> (r: bool)
    ensures
        r == hex_group(s@, n as int),
{
    let v = chars_of(s);
    if v.len() != n {
        return false;
    }
    let mut i: usize = 0;
    while i < v.len()
        invariant
            i <= v.len(),
            v@ == s@,
            forall|k: int| 0 <= k < i ==> hex(#[trigger] s@[k]),
        decreases v.len() - i,
    {
        let c = v[i];
        if !(('0' <= c && c <= '9') || ('a' <= c && c <= 'f') || ('A' <= c && c <= 'F')) {
            assert(!hex(s@[i as int]));
            return false;
        }
        i = i + 1;
    }
    true
}

/// Whether `s` has the shape of a UUID.
pub fn looks_like_uuid(s: &str) -> (r: bool)
    ensures
        r == uuid_shape(s@),
{
    let g = split_on(s, '-');
    let ghost gs = pieces(s@, '-');
    assert(gs.len() == g.len());
    if g.len() != 5 {
        return false;
    }
    proof {
        assert(forall|i: int| 0 <= i < 5 ==> gs[i] == (#[trigger] g@[i])@);
    }
    is_hex_group(g[0].as_str(), 8) && is_hex_group(g[1].as_str(), 4) && is_hex_group(
        g[2].as_str(),
        4,
    ) && is_hex_group(g[3].as_str(), 4) && is_hex_group(g[4].as_str(), 12)
}

/// The slug to record for a session: the argument, where it is neither a
/// provider's id nor a local one, which say nothing to a reader.
pub fn slug_hint(arg: &str) -> (r: Option<&str>)
    ensures
        opt_str(r) == if begins(arg@, "org_"@) || uuid_shape(arg@) {
            None
        } else {
            Some(arg@)
        },
{
    if !is_workos_org_id(arg) && !looks_like_uuid(arg) {
        Some(arg)
    } else {
        None
    }
}

/// `s` without the slashes at its end.
pub open spec fn without_end_slashes(s: Seq<char>) -> Seq<char>
    decreases s.len(),
{
    if s.len() > 0 && s.last() == '/' {
        without_end_slashes(s.drop_last())
    } else {
        s
    }
}

/// The address of the cloud: the one given, or else the hosted one, without
/// slashes at its end.
pub fn cloud_address(given: Option<&str>, hosted: &str) -> (r: String)
    ensures
        r@ == without_end_slashes(
            match given {
                Some(u) => u@,
                None => hosted@,
            },
        ),
{
    let url = match given {
        Some(u) => u,
        None => hosted,
    };
    let v = chars_of(url);
    let mut n: usize = v.len();
    assert(v@.take(n as int) =~= v@);
    while n > 0 && v[n - 1] == '/'
        invariant
            n <= v.len(),
            without_end_slashes(v@.take(n as int)) == without_end_slashes(v@),
        decreases n,
    {
        assert(v@.take(n as int).drop_last() =~= v@.take(n - 1));
        n = n - 1;
    }
    assert(v@.subrange(0, n as int) =~= v@.take(n as int));
    text_of(&v, 0, n)
}

/// An organisation with a cached session.
pub struct CachedOrg {
    pub org_id: String,
    pub slug: Option<String>,
    pub is_active: bool,
}

/// The line of an organisation, the active one marked.
pub open spec fn org_line(o: CachedOrg) -> Seq<char> {
    (if o.is_active {
        "* "@
    } else {
        "  "@
    }) + match o.slug {
        Some(slug) => slug@ + " ("@ + o.org_id@ + ")"@,
        None => o.org_id@,
    }
}

/// The lines of a list of organisations.
pub open spec fn org_lines(orgs: Seq<CachedOrg>) -> Seq<Seq<char>> {
    if orgs.len() == 0 {
        seq!["No organizations cached. Run `inkentry login` to sign in."@]
    } else {
        orgs.map_values(|o: CachedOrg| org_line(o))
    }
}

/// The lines of a list of organisations, the active one marked.
pub fn org_list(orgs: &Vec<CachedOrg>) -> (r: Vec<String>)
    ensures
        texts(r@) == org_lines(orgs@),
{
    let mut out: Vec<String> = Vec::new();
    if orgs.len() == 0 {
        out.push("No organizations cached. Run `inkentry login` to sign in.".to_owned());
        assert(texts(out@) =~= org_lines(orgs@));
        return out;
    }
    let ghost want = org_lines(orgs@);
    let mut i: usize = 0;
    assert(texts(out@) =~= want.take(0));
    while i < orgs.len()
        invariant
            i <= orgs.len(),
            orgs.len() > 0,
            want == org_lines(orgs@),
            texts(out@) == want.take(i as int),
        decreases orgs.len() - i,
    {
        let o = &orgs[i];
        let marker = if o.is_active {
            "* "
        } else {
            "  "
        };
        let label = match &o.slug {
            Some(slug) => slug.clone().concat(" (").concat(o.org_id.as_str()).concat(")"),
            None => o.org_id.clone(),
        };
        let line = marker.to_owned().concat(label.as_str());
        proof {
            crate::text::lemma_texts_push(out@, line);
            assert(want[i as int] == org_line(*o));
            assert(want.take(i + 1) =~= want.take(i as int).push(line@));
        }
        out.push(line);
        i = i + 1;
    }
    assert(want.take(i as int) =~= want);
    out
}

/// How a switch to an organisation goes on.
pub enum SwitchStep {
    /// Its session is cached and active now; this is said.
    Switched(String),
    /// It is taken on from the current session.
    Onboard,
    /// There is no session to take it on from.
    NotLoggedIn(String),
}

/// How a switch to an organisation goes on. One with a cached session only
/// becomes active; any other needs a current session.
pub fn org_switch(org: &str, cached: bool, logged_in: bool) -> (r: SwitchStep)
    ensures
        match r {
            SwitchStep::Switched(s) => cached && s@ == "Switched to organization '"@ + org@ + "'."@,
            SwitchStep::Onboard => !cached && logged_in,
            SwitchStep::NotLoggedIn(e) => !cached && !logged_in && e@
                == "Not logged in. Run `inkentry login` before switching organizations."@,
        },
{
    if cached {
        return SwitchStep::Switched(switched_message(org));
    }
    if logged_in {
        SwitchStep::Onboard
    } else {
        SwitchStep::NotLoggedIn(
            "Not logged in. Run `inkentry login` before switching organizations.".to_owned(),
        )
    }
}

/// What is said once an organisation is active.
pub fn switched_message(org: &str) -> (r: String)
    ensures
        r@ == "Switched to organization '"@ + org@ + "'."@,
{
    "Switched to organization '".to_owned().concat(org).concat("'.")
}

/// An organisation is named by its slug and by its id, and by nothing else.
pub proof fn law_an_organisation_is_named_by_slug_or_id(o: MeOrg, arg: Seq<char>)
    ensures
        named_by(o, arg) <==> arg == o.slug@ || arg == o.id@,
{
}

/// The digits of a group are those that hexadecimal numbers are written with.
pub proof fn law_hexadecimal_digits(c: char)
    ensures
        hex(c) <==> ('0' <= c && c <= '9') || ('a' <= c && c <= 'f') || ('A' <= c && c <= 'F'),
        !hex('g') && !hex('-') && !hex('G'),
{
}

/// Groups of eight, four, four, four and twelve hexadecimal digits, with hyphens
/// between them, have the shape of a UUID.
pub proof fn law_groups_with_hyphens_make_a_uuid(
    a: Seq<char>,
    b: Seq<char>,
    c: Seq<char>,
    d: Seq<char>,
    e: Seq<char>,
)
    requires
        hex_group(a, 8),
        hex_group(b, 4),
        hex_group(c, 4),
        hex_group(d, 4),
        hex_group(e, 12),
    ensures
        uuid_shape(a + seq!['-'] + b + seq!['-'] + c + seq!['-'] + d + seq!['-'] + e),
{
    let parts = seq![a, b, c, d, e];
    let sep = seq!['-'];
    assert forall|i: int| 0 <= i < parts.len() implies !(#[trigger] parts[i]).contains('-') by {
        if parts[i].contains('-') {
            let k = choose|k: int| 0 <= k < parts[i].len() && parts[i][k] == '-';
            assert(hex(parts[i][k]));
        }
    }
    crate::text::lemma_joined_pieces(parts, '-');
    let p4 = parts.drop_last();
    let p3 = p4.drop_last();
    let p2 = p3.drop_last();
    let p1 = p2.drop_last();
    assert(crate::text::joined(p1, sep) == a);
    assert(crate::text::joined(p2, sep) == a + sep + b);
    assert(crate::text::joined(p3, sep) == a + sep + b + sep + c);
    assert(crate::text::joined(p4, sep) == a + sep + b + sep + c + sep + d);
    assert(crate::text::joined(parts, sep) == a + sep + b + sep + c + sep + d + sep + e);
}

/// A text of that shape is thirty-six characters long, and is its groups with
/// hyphens between them.
pub proof fn law_a_uuid_is_its_groups(s: Seq<char>)
    requires
        uuid_shape(s),
    ensures
        s.len() == 36,
        crate::text::joined(pieces(s, '-'), seq!['-']) == s,
{
    crate::text::lemma_pieces_join(s, '-');
    let parts = pieces(s, '-');
    let sep = seq!['-'];
    let p4 = parts.drop_last();
    let p3 = p4.drop_last();
    let p2 = p3.drop_last();
    let p1 = p2.drop_last();
    assert(crate::text::joined(p1, sep) == parts[0]);
    assert(crate::text::joined(p2, sep).len() == 13);
    assert(crate::text::joined(p3, sep).len() == 18);
    assert(crate::text::joined(p4, sep).len() == 23);
}

/// An address loses the slashes at its end and nothing else.
pub proof fn law_only_slashes_are_cut_off(s: Seq<char>)
    ensures
        without_end_slashes(s).is_prefix_of(s),
        without_end_slashes(s).len() > 0 ==> without_end_slashes(s).last() != '/',
        forall|i: int| without_end_slashes(s).len() <= i < s.len() ==> #[trigger] s[i] == '/',
    decreases s.len(),
{
    if s.len() > 0 && s.last() == '/' {
        let d = s.drop_last();
        law_only_slashes_are_cut_off(d);
        assert forall|i: int| without_end_slashes(s).len() <= i < s.len() implies #[trigger] s[i]
            == '/' by {
            if i < d.len() {
                assert(d[i] == s[i]);
            }
        }
        let w = without_end_slashes(s);
        assert(s.subrange(0, w.len() as int) =~= d.subrange(0, w.len() as int));
    } else {
        assert(s.subrange(0, s.len() as int) =~= s);
    }
}

/// Each organisation has a line, in order, which marks the active one and names the
/// organisation by its slug, where it has one, and its id.
pub proof fn law_the_active_organisation_is_marked(orgs: Seq<CachedOrg>, i: int)
    requires
        0 <= i < orgs.len(),
    ensures
        org_lines(orgs).len() == orgs.len(),
        begins(org_lines(orgs)[i], "* "@) <==> orgs[i].is_active,
        orgs[i].slug is Some ==> (orgs[i].slug->0@ + " ("@ + orgs[i].org_id@ + ")"@).is_suffix_of(
            org_lines(orgs)[i],
        ),
        orgs[i].slug is None ==> orgs[i].org_id@.is_suffix_of(org_lines(orgs)[i]),
{
    reveal_strlit("* ");
    reveal_strlit("  ");
    let o = orgs[i];
    let l = org_lines(orgs)[i];
    assert(l == org_line(o));
    let label = match o.slug {
        Some(slug) => slug@ + " ("@ + o.org_id@ + ")"@,
        None => o.org_id@,
    };
    assert(l.subrange(l.len() - label.len(), l.len() as int) =~= label);
    if o.is_active {
        assert(l.subrange(0, 2) =~= "* "@);
    } else {
        assert(l[0] == ' ');
        if begins(l, "* "@) {
            assert(l.subrange(0, 2)[0] == "* "@[0]);
        }
    }
}

/// An argument names the first organisation that has it as its slug or its id, and
/// an error names the argument.
pub proof fn law_an_argument_names_the_first_organisation(
    orgs: Seq<MeOrg>,
    arg: Seq<char>,
    i: int,
    j: int,
)
    requires
        first_named(orgs, arg, i),
    ensures
        0 <= i < orgs.len(),
        orgs[i].slug@ == arg || orgs[i].id@ == arg,
        0 <= j < i ==> orgs[j].slug@ != arg && orgs[j].id@ != arg,
        first_named(orgs, arg, j) ==> i == j,
        unknown_org_text(arg) == "not a member of org '"@ + arg + "', or unknown org"@,
        begins(no_provider_id_text(arg), "org '"@ + arg + "' has no WorkOS org id on record"@),
{
    if 0 <= j < i {
        assert(!named_by(orgs[j], arg));
    }
    if first_named(orgs, arg, j) && i < j {
        assert(!named_by(orgs[i], arg));
    }
    let a = "org '"@ + arg + "' has no WorkOS org id on record"@;
    reveal_strlit("' has no WorkOS org id on record");
    reveal_strlit(
        "' has no WorkOS org id on record; cannot switch (re-run `inkentry login` or contact support)",
    );
    assert(no_provider_id_text(arg).subrange(0, a.len() as int) =~= a);
}

} // verus!
