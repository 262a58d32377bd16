//! Recording an entry: what it is made of, in which order it is written, and
//! what is said of it.

use crate::config::Config;
use crate::memory::{is_git_notes, wants_git_notes};
use crate::text::{
    is_blank, opt_str, opt_text, parse_i64, pieces, push_text, same, signed_number, split_on, texts,
    trim, trimmed,
};
use vstd::prelude::*;
use vstd::string::*;

verus! {

/// How many seconds an entry waits for its vector.
pub const INTERACTIVE_EMBED_SECS: u64 = 5;

/// The warning of an entry that was stored without a vector, and why.
pub fn pending_embedding_warning(reason: &str) -> (r: String)
    ensures
        r@ == "warning: entry stored, but "@ + reason@
            + ", so `inkentry search` cannot rank it semantically yet. `inkentry memory reindex` embeds it now; `inkentry sync` picks it up on its own."@,
{
    "warning: entry stored, but ".to_owned().concat(reason).concat(
        ", so `inkentry search` cannot rank it semantically yet. `inkentry memory reindex` embeds it now; `inkentry sync` picks it up on its own.",
    )
}

/// How the attempt to make a vector ended.
#[derive(Clone, Copy, PartialEq, Eq, Structural, Debug)]
pub enum EmbedOutcome {
    NoEmbedder,
    Failed,
    TimedOut,
    NotStored,
    Attached,
}

/// Why an entry is left without a vector; nothing where it has one.
pub open spec fn embed_reason(o: EmbedOutcome) -> Option<Seq<char>> {
    match o {
        EmbedOutcome::NoEmbedder => Some("no embedder was reachable"@),
        EmbedOutcome::Failed => Some("embedding it failed"@),
        EmbedOutcome::TimedOut => Some(
            "embedding it did not finish within "@ + crate::text::dec(
                INTERACTIVE_EMBED_SECS as nat,
            ) + "s"@,
        ),
        EmbedOutcome::NotStored => Some("its vector could not be stored"@),
        EmbedOutcome::Attached => None,
    }
}

/// Why an entry is left without a vector; nothing where it has one.
pub fn embed_and_attach(outcome: EmbedOutcome) -> (r: Option<String>)
    ensures
        opt_text(r) == embed_reason(outcome),
{
    match outcome {
        EmbedOutcome::NoEmbedder => Some("no embedder was reachable".to_owned()),
        EmbedOutcome::Failed => Some("embedding it failed".to_owned()),
        EmbedOutcome::TimedOut => Some(
            "embedding it did not finish within ".to_owned().concat(
                crate::text::dec_u64(INTERACTIVE_EMBED_SECS).as_str(),
            ).concat("s"),
        ),
        EmbedOutcome::NotStored => Some("its vector could not be stored".to_owned()),
        EmbedOutcome::Attached => None,
    }
}

// ---- what the entry holds --------------------------------------------------

/// What was given, or else what was fetched.
pub fn given_or_fetched(given: &Option<String>, fetched: String) -> (r: String)
    ensures
        r@ == match given {
            Some(g) => g@,
            None => fetched@,
        },
{
    match given {
        Some(g) => g.clone(),
        None => fetched,
    }
}

/// The items of a list that was given on the command line: trimmed, empty ones
/// kept; none where no list was given.
pub open spec fn listed(csv: Option<Seq<char>>) -> Seq<Seq<char>> {
    match csv {
        Some(s) => pieces(s, ',').map_values(|p: Seq<char>| trimmed(p)),
        None => Seq::<Seq<char>>::empty(),
    }
}

/// A list that was given has an item for each part between commas, which is that
/// part without the whitespace around it; two lists with a comma between them have
/// the items of both.
pub proof fn law_a_list_has_an_item_for_each_part(a: Seq<char>, b: Seq<char>, i: int)
    ensures
        listed(Some(a)).len() == pieces(a, ',').len(),
        0 <= i < pieces(a, ',').len() ==> listed(Some(a))[i] == trimmed(pieces(a, ',')[i]),
        listed(Some(a + seq![','] + b)) == listed(Some(a)) + listed(Some(b)),
        listed(None).len() == 0,
{
    crate::text::law_pieces_add_up(a, b, ',');
    assert(listed(Some(a + seq![','] + b)) =~= listed(Some(a)) + listed(Some(b)));
}

/// The items of a list that was given on the command line.
pub fn list_items(csv: Option<&str>) -> (r: Vec<String>)
    ensures
        texts(r@) == listed(opt_str(csv)),
{
    let mut out: Vec<String> = Vec::new();
    assert(texts(out@) =~= Seq::<Seq<char>>::empty());
    match csv {
        None => out,
        Some(s) => {
            let parts = split_on(s, ',');
            let ghost want = pieces(s@, ',').map_values(|p: Seq<char>| trimmed(p));
            let mut i: usize = 0;
            assert(texts(out@) =~= want.take(0));
            while i < parts.len()
                invariant
                    i <= parts.len(),
                    texts(parts@) == pieces(s@, ','),
                    want == pieces(s@, ',').map_values(|p: Seq<char>| trimmed(p)),
                    texts(out@) == want.take(i as int),
                decreases parts.len() - i,
            {
                let item = trim(parts[i].as_str());
                proof {
                    assert(texts(parts@)[i as int] == parts@[i as int]@);
                    assert(want[i as int] == item@);
                    assert(want.take(i + 1) =~= want.take(i as int).push(item@));
                }
                push_text(&mut out, item);
                i = i + 1;
            }
            assert(want.take(i as int) =~= want);
            out
        },
    }
}

/// The kinds that an entry can have.
pub open spec fn entry_kinds() -> Seq<Seq<char>> {
    seq![
        "decision"@,
        "context"@,
        "requirement"@,
        "note"@,
        "question"@,
        "answer"@,
        "handoff"@,
        "intent"@,
        "antipattern"@,
    ]
}

/// Whether an entry can have this kind. One of any other would be found by no
/// list.
pub fn is_note_kind(kind: &str) -> (r: bool)
    ensures
        r == entry_kinds().contains(kind@),
        r == (kind@ == "decision"@ || kind@ == "context"@ || kind@ == "requirement"@ || kind@
            == "note"@ || kind@ == "question"@ || kind@ == "answer"@ || kind@ == "handoff"@ || kind@
            == "intent"@ || kind@ == "antipattern"@),
{
    let r = same(kind, "decision") || same(kind, "context") || same(kind, "requirement") || same(
        kind,
        "note",
    ) || same(kind, "question") || same(kind, "answer") || same(kind, "handoff") || same(
        kind,
        "intent",
    ) || same(kind, "antipattern");
    proof {
        let ks = entry_kinds();
        assert(ks[0] == "decision"@ && ks[1] == "context"@ && ks[2] == "requirement"@ && ks[3]
            == "note"@ && ks[4] == "question"@ && ks[5] == "answer"@ && ks[6] == "handoff"@ && ks[7]
            == "intent"@ && ks[8] == "antipattern"@);
    }
    r
}

/// The linked files among the first `n` that are looked up: those that are not
/// blank.
pub open spec fn links_upto(files: Seq<Seq<char>>, n: int) -> Seq<Seq<char>>
    decreases n,
{
    if n <= 0 {
        Seq::<Seq<char>>::empty()
    } else if trimmed(files[n - 1]).len() == 0 {
        links_upto(files, n - 1)
    } else {
        links_upto(files, n - 1).push(files[n - 1])
    }
}

/// A file is looked up if and only if its name is not blank, and under the name as
/// it was given.
pub proof fn law_blank_names_are_no_files(files: Seq<Seq<char>>, n: int)
    requires
        0 <= n <= files.len(),
    ensures
        links_upto(files, n) == files.take(n).filter(|f: Seq<char>| trimmed(f).len() > 0),
    decreases n,
{
    reveal(Seq::filter);
    if n > 0 {
        law_blank_names_are_no_files(files, n - 1);
        assert(files.take(n).drop_last() =~= files.take(n - 1));
        assert(files.take(n).last() == files[n - 1]);
    } else {
        assert(links_upto(files, n) =~= files.take(n).filter(|f: Seq<char>| trimmed(f).len() > 0));
    }
}

/// The linked files that are looked up.
pub fn links_to_resolve(files: &Vec<String>) -> (r: Vec<String>)
    ensures
        texts(r@) == links_upto(texts(files@), files@.len() as int),
{
    let mut out: Vec<String> = Vec::new();
    assert(texts(out@) =~= Seq::<Seq<char>>::empty());
    let mut i: usize = 0;
    while i < files.len()
        invariant
            i <= files.len(),
            texts(out@) == links_upto(texts(files@), i as int),
        decreases files.len() - i,
    {
        assert(texts(files@)[i as int] == files@[i as int]@);
        if !is_blank(files[i].as_str()) {
            push_text(&mut out, files[i].clone());
        }
        i = i + 1;
    }
    out
}

/// The error for an entry that holds a credential. What was found is not
/// repeated.
pub open spec fn secret_text() -> Seq<char> {
    "memory add: refusing to store entry — title or body matches a secret pattern. Remove the credential and try again. (No data was written to SQLite or git notes.)"@
}

fn refused_secret() -> (r: String)
    ensures
        r@ == secret_text(),
{
    "memory add: refusing to store entry — title or body matches a secret pattern. Remove the credential and try again. (No data was written to SQLite or git notes.)".to_owned()
}

/// Refuses an entry whose title or body holds a credential, before anything is
/// written.
pub fn refuse_secrets(title_has_secret: bool, body_has_secret: bool) -> (r: Result<(), String>)
    ensures
        r is Ok <==> !title_has_secret && !body_has_secret,
        r is Err ==> r->Err_0@ == secret_text(),
{
    if title_has_secret || body_has_secret {
        return Err(refused_secret());
    }
    Ok(())
}

/// The warning of a linked file that is not there.
pub fn missing_file_warning(path: &str) -> (r: String)
    ensures
        r@ == "warning: linked file '"@ + path@ + "' does not exist yet (state: missing)"@,
{
    "warning: linked file '".to_owned().concat(path).concat(
        "' does not exist yet (state: missing)",
    )
}

/// The entry that is replaced must be there and active before anything is
/// written: archiving one that is not does nothing, and would leave the new
/// entry without its predecessor.
pub fn check_supersedes(old_id: &str, old_status: Option<&str>) -> (r: Result<(), String>)
    ensures
        r is Ok <==> opt_str(old_status) == Some("active"@),
        r is Err ==> r->Err_0@ == "No active memory entry with id "@ + old_id@ + " (old)."@,
{
    if let Some(s) = old_status {
        if same(s, "active") {
            return Ok(());
        }
    }
    Err("No active memory entry with id ".to_owned().concat(old_id).concat(" (old)."))
}

// ---- the order of the writes -----------------------------------------------

/// Which parts a recording has.
#[derive(Clone, Copy, PartialEq, Eq, Structural, Debug)]
pub struct AddPlan {
    /// There is no store yet but the git notes.
    pub pre_init: bool,
    /// The path of the store only stands in for one.
    pub placeholder_path: bool,
    /// The entry is stored before its vector is made.
    pub store_first: bool,
    /// The vector is made before the entry is stored.
    pub embed_first: bool,
    /// A copy rides on git notes.
    pub write_through: bool,
    /// A local relay is told of the entry.
    pub nudge: bool,
    /// The use of the command is recorded.
    pub record_event: bool,
}

impl AddPlan {
    /// A vector is made on one side of the write, if at all.
    pub open spec fn wf(self) -> bool {
        !(self.store_first && self.embed_first)
    }
}

/// Which parts a recording has. Only a local row can get its vector later, so
/// only there is it stored first. Git notes hold no vector. What git notes
/// hold as the store is not written to them twice.
pub open spec fn add_plan_of(
    pre_init: bool,
    git_notes: bool,
    kept_remotely: bool,
    store_in_git_notes: bool,
) -> AddPlan {
    let placeholder = pre_init || git_notes;
    let store_first = !placeholder && !kept_remotely;
    AddPlan {
        pre_init,
        placeholder_path: placeholder,
        store_first,
        embed_first: !store_first && !pre_init,
        write_through: pre_init || (store_in_git_notes && !git_notes),
        nudge: !placeholder,
        record_event: !pre_init,
    }
}

/// An entry is stored before its vector is made just where it goes into a local
/// store. Before `init` nothing but the copy on git notes is made; a local relay is
/// told of local entries only; a copy rides on git notes where that is asked for
/// and they are not the store.
pub proof fn law_an_entry_goes_where_the_project_keeps_it(
    pre_init: bool,
    git_notes: bool,
    kept_remotely: bool,
    store_in_git_notes: bool,
)
    ensures
        ({
            let p = add_plan_of(pre_init, git_notes, kept_remotely, store_in_git_notes);
            &&& p.pre_init == pre_init
            &&& p.placeholder_path <==> pre_init || git_notes
            &&& p.store_first <==> !pre_init && !git_notes && !kept_remotely
            &&& p.embed_first <==> !pre_init && (git_notes || kept_remotely)
            &&& pre_init ==> p.write_through
            &&& !pre_init ==> (p.write_through <==> store_in_git_notes && !git_notes)
            &&& p.nudge <==> !pre_init && !git_notes
            &&& p.record_event <==> !pre_init
        }),
{
}

/// Which parts a recording has.
pub fn add_plan(
    pre_init: bool,
    backend: Option<&str>,
    cfg: &Config,
    store_in_git_notes: bool,
) -> (r: AddPlan)
    ensures
        r == add_plan_of(
            pre_init,
            is_git_notes(opt_str(backend)),
            cfg.kept_remotely(),
            store_in_git_notes,
        ),
        r.wf(),
{
    let git_notes = wants_git_notes(backend);
    let placeholder_path = pre_init || git_notes;
    let store_first = !placeholder_path && !cfg.routes_remote();
    AddPlan {
        pre_init,
        placeholder_path,
        store_first,
        embed_first: !store_first && !pre_init,
        write_through: pre_init || (store_in_git_notes && !git_notes),
        nudge: !placeholder_path,
        record_event: !pre_init,
    }
}

/// One step of a recording.
#[derive(Clone, Copy, PartialEq, Eq, Structural, Debug)]
pub enum AddStep {
    /// Title and body are fetched from a page.
    Fetch,
    /// The body is written in an editor.
    Edit,
    /// The linked files are looked up, and must lie in the project.
    ResolveFiles,
    /// Title and body are searched for credentials.
    RefuseSecrets,
    /// The vector is made, to go in with the entry.
    Embed,
    /// The entry that is replaced is looked up, and must be active.
    CheckOld,
    /// The entry that is related is looked up, and must be there.
    CheckRelated,
    /// The entry is stored.
    Store,
    /// The relation is stored, by a backend that stores relations.
    StoreEdge,
    /// A copy is put on git notes.
    Carry,
    /// The replacement is put on git notes.
    CarryOld,
    /// The entry is anchored to the commit that was given.
    Anchor,
    /// Where the entry was written is kept, for a later commit to claim it.
    RecordPending,
    /// The vector is made and put on the entry.
    EmbedAndAttach,
    /// What was done is said.
    Report,
    /// A local relay is told.
    Nudge,
    /// The use of the command is recorded.
    Record,
}

/// What was asked to be recorded.
#[derive(Clone, Copy, PartialEq, Eq, Structural, Debug)]
pub struct AddRequest {
    pub from_url: bool,
    pub has_title: bool,
    pub has_body: bool,
    pub supersedes: bool,
    pub relates: bool,
    /// A commit was given to anchor the entry to.
    pub commit: bool,
}

/// What was asked to be recorded, by the arguments that were given.
pub fn add_request(
    from_url: &Option<String>,
    title: &Option<String>,
    body: &Option<String>,
    supersedes: &Option<String>,
    relates_to: &Option<String>,
    commit: &Option<String>,
) -> (r: AddRequest)
    ensures
        r.from_url == (from_url is Some),
        r.has_title == (title is Some),
        r.has_body == (body is Some),
        r.supersedes == (supersedes is Some),
        r.relates == (relates_to is Some),
        r.commit == (commit is Some),
{
    AddRequest {
        from_url: from_url.is_some(),
        has_title: title.is_some(),
        has_body: body.is_some(),
        supersedes: supersedes.is_some(),
        relates: relates_to.is_some(),
        commit: commit.is_some(),
    }
}

/// When a recording has a step. Before `init` the carrier is the only store:
/// nothing is stored in front of it, and there is no graph. With a commit given
/// the entry is anchored at once; without one, a local entry waits for a commit
/// to claim it.
pub open spec fn has_step(step: AddStep, plan: AddPlan, req: AddRequest) -> bool {
    match step {
        AddStep::Fetch => req.from_url,
        AddStep::Edit => !req.from_url && !req.has_body,
        AddStep::ResolveFiles => true,
        AddStep::RefuseSecrets => true,
        AddStep::Embed => plan.embed_first,
        AddStep::CheckOld => req.supersedes,
        AddStep::CheckRelated => req.relates && !plan.pre_init,
        AddStep::Store => !plan.pre_init,
        AddStep::StoreEdge => req.relates && !plan.pre_init,
        AddStep::Carry => plan.write_through,
        AddStep::CarryOld => plan.write_through && req.supersedes,
        AddStep::Anchor => req.commit && !plan.pre_init,
        AddStep::RecordPending => !req.commit && plan.store_first,
        AddStep::EmbedAndAttach => plan.store_first,
        AddStep::Report => true,
        AddStep::Nudge => plan.nudge,
        AddStep::Record => plan.record_event,
    }
}

/// All steps, in the order in which a recording takes them.
pub open spec fn all_steps() -> Seq<AddStep> {
    seq![
        AddStep::Fetch,
        AddStep::Edit,
        AddStep::ResolveFiles,
        AddStep::RefuseSecrets,
        AddStep::Embed,
        AddStep::CheckOld,
        AddStep::CheckRelated,
        AddStep::Store,
        AddStep::StoreEdge,
        AddStep::Carry,
        AddStep::CarryOld,
        AddStep::Anchor,
        AddStep::RecordPending,
        AddStep::EmbedAndAttach,
        AddStep::Report,
        AddStep::Nudge,
        AddStep::Record,
    ]
}

/// The steps among the first `n` that a recording has.
pub open spec fn steps_upto(plan: AddPlan, req: AddRequest, n: int) -> Seq<AddStep>
    decreases n,
{
    if n <= 0 {
        Seq::<AddStep>::empty()
    } else if has_step(all_steps()[n - 1], plan, req) {
        steps_upto(plan, req, n - 1).push(all_steps()[n - 1])
    } else {
        steps_upto(plan, req, n - 1)
    }
}

/// The steps of a recording, in order.
pub open spec fn steps_of(plan: AddPlan, req: AddRequest) -> Seq<AddStep> {
    steps_upto(plan, req, 17)
}

fn is_due(step: AddStep, plan: &AddPlan, req: &AddRequest) -> (r: bool)
    ensures
        r == has_step(step, *plan, *req),
{
    match step {
        AddStep::Fetch => req.from_url,
        AddStep::Edit => !req.from_url && !req.has_body,
        AddStep::ResolveFiles => true,
        AddStep::RefuseSecrets => true,
        AddStep::Embed => plan.embed_first,
        AddStep::CheckOld => req.supersedes,
        AddStep::CheckRelated => req.relates && !plan.pre_init,
        AddStep::Store => !plan.pre_init,
        AddStep::StoreEdge => req.relates && !plan.pre_init,
        AddStep::Carry => plan.write_through,
        AddStep::CarryOld => plan.write_through && req.supersedes,
        AddStep::Anchor => req.commit && !plan.pre_init,
        AddStep::RecordPending => !req.commit && plan.store_first,
        AddStep::EmbedAndAttach => plan.store_first,
        AddStep::Report => true,
        AddStep::Nudge => plan.nudge,
        AddStep::Record => plan.record_event,
    }
}

fn steps_in_order() -> (r: Vec<AddStep>)
    ensures
        r@ == all_steps(),
{
    let r = vec![
        AddStep::Fetch,
        AddStep::Edit,
        AddStep::ResolveFiles,
        AddStep::RefuseSecrets,
        AddStep::Embed,
        AddStep::CheckOld,
        AddStep::CheckRelated,
        AddStep::Store,
        AddStep::StoreEdge,
        AddStep::Carry,
        AddStep::CarryOld,
        AddStep::Anchor,
        AddStep::RecordPending,
        AddStep::EmbedAndAttach,
        AddStep::Report,
        AddStep::Nudge,
        AddStep::Record,
    ];
    assert(r@ =~= all_steps());
    r
}

/// A recording under way: the steps it takes, how many are done, and the error
/// that ended it early, if one did.
pub struct AddRun {
    pub plan: AddPlan,
    pub request: AddRequest,
    pub steps: Vec<AddStep>,
    pub done: usize,
    pub failed: Option<String>,
}

/// What the failure of a step means.
pub ghost enum FailureModel {
    /// Nothing: the recording goes on.
    Ignored,
    /// A warning, with which the recording goes on.
    Warned(Seq<char>),
    /// The end of the recording.
    Fatal(Seq<char>),
}

/// What the failure of a step means. `subject` is what the step was about: the
/// address, the file or the entry. An entry without a vector is still an entry,
/// and so is one that no commit will claim; one that was to be anchored is not
/// done;
/// a copy that could not be made is a warning, unless it was the only one.
pub open spec fn failure_of(
    step: AddStep,
    pre_init: bool,
    subject: Seq<char>,
    cause: Seq<char>,
) -> FailureModel {
    match step {
        AddStep::Fetch => FailureModel::Fatal("fetching "@ + subject + ": "@ + cause),
        AddStep::Edit => FailureModel::Fatal("opening editor for body: "@ + cause),
        AddStep::ResolveFiles => FailureModel::Fatal(
            "resolving linked file '"@ + subject + "': "@ + cause,
        ),
        AddStep::RefuseSecrets => FailureModel::Fatal(secret_text()),
        AddStep::CheckOld | AddStep::CheckRelated | AddStep::Store | AddStep::Anchor
        | AddStep::Report => FailureModel::Fatal(cause),
        AddStep::StoreEdge => FailureModel::Fatal(
            "recording relates_to edge to "@ + subject + ": "@ + cause,
        ),
        AddStep::Carry => if pre_init {
            FailureModel::Fatal(only_copy_failed_text(cause))
        } else {
            FailureModel::Warned(copy_failed_text(cause))
        },
        AddStep::CarryOld => FailureModel::Warned(old_copy_failed_text(subject, cause)),
        AddStep::Embed | AddStep::RecordPending | AddStep::EmbedAndAttach | AddStep::Nudge
        | AddStep::Record => FailureModel::Ignored,
    }
}

impl AddRun {
    /// The steps are those of the recording, and an error stands at the step
    /// that gave it.
    pub open spec fn wf(self) -> bool {
        &&& self.steps@ == steps_of(self.plan, self.request)
        &&& self.done <= self.steps@.len()
        &&& !self.request.from_url && !self.request.has_title ==> self.failed is Some && self.done
            == 0
        &&& self.failed is Some && (self.request.from_url || self.request.has_title)
            ==> self.done < self.steps@.len()
    }

    /// The step that is due; none where all are done or one failed.
    pub open spec fn due(self) -> Option<AddStep> {
        if self.failed is None && self.done < self.steps@.len() {
            Some(self.steps@[self.done as int])
        } else {
            None
        }
    }

    /// The step that is due.
    pub fn current(&self) -> (r: Option<AddStep>)
        requires
            self.wf(),
        ensures
            r == self.due(),
    {
        if self.failed.is_none() && self.done < self.steps.len() {
            Some(self.steps[self.done])
        } else {
            None
        }
    }

    /// The step that was due is done.
    pub fn advance(&mut self)
        requires
            old(self).wf(),
            old(self).due() is Some,
        ensures
            final(self).wf(),
            final(self).done == old(self).done + 1,
            final(self).failed is None,
            final(self).steps@ == old(self).steps@,
            final(self).plan == old(self).plan,
            final(self).request == old(self).request,
    {
        assert(self.done < self.steps.len());
        self.done = self.done + 1;
    }

    /// The step that was due failed. What comes back is a warning to be shown;
    /// the recording then goes on, as it does where nothing is to be said.
    pub fn fail(&mut self, subject: &str, cause: &str) -> (r: Option<String>)
        requires
            old(self).wf(),
            old(self).due() is Some,
        ensures
            final(self).wf(),
            final(self).steps@ == old(self).steps@,
            final(self).plan == old(self).plan,
            final(self).request == old(self).request,
            match failure_of(old(self).due()->0, old(self).plan.pre_init, subject@, cause@) {
                FailureModel::Ignored => r is None && final(self).failed is None
                    && final(self).done == old(self).done + 1,
                FailureModel::Warned(w) => opt_text(r) == Some(w) && final(self).failed is None
                    && final(self).done == old(self).done + 1,
                FailureModel::Fatal(e) => r is None && opt_text(final(self).failed) == Some(e)
                    && final(self).done == old(self).done,
            },
    {
        assert(self.done < self.steps.len());
        let step = self.steps[self.done];
        let error: String = match step {
            AddStep::Embed | AddStep::RecordPending | AddStep::EmbedAndAttach | AddStep::Nudge
            | AddStep::Record => {
                self.done = self.done + 1;
                return None;
            },
            AddStep::CarryOld => {
                self.done = self.done + 1;
                return Some(carry_old_failed(subject, cause));
            },
            AddStep::Carry => match carry_failed(self.plan.pre_init, cause) {
                Ok(warning) => {
                    self.done = self.done + 1;
                    return Some(warning);
                },
                Err(e) => e,
            },
            AddStep::Fetch => "fetching ".to_owned().concat(subject).concat(": ").concat(cause),
            AddStep::Edit => "opening editor for body: ".to_owned().concat(cause),
            AddStep::ResolveFiles => "resolving linked file '".to_owned().concat(subject).concat(
                "': ",
            ).concat(cause),
            AddStep::RefuseSecrets => refused_secret(),
            AddStep::StoreEdge => "recording relates_to edge to ".to_owned().concat(subject).concat(
                ": ",
            ).concat(cause),
            AddStep::CheckOld | AddStep::CheckRelated | AddStep::Store | AddStep::Anchor
            | AddStep::Report => cause.to_owned(),
        };
        self.failed = Some(error);
        None
    }
}

/// A recording that is about to begin. Without a page to take it from there
/// must be a title: without one, the recording has failed and takes no step.
pub fn memory_add(plan: AddPlan, request: AddRequest) -> (r: AddRun)
    ensures
        r.wf(),
        r.plan == plan,
        r.request == request,
        r.done == 0,
        opt_text(r.failed) == if !request.from_url && !request.has_title {
            Some("--title is required when --from-url is not provided"@)
        } else {
            None
        },
{
    let all = steps_in_order();
    let mut steps: Vec<AddStep> = Vec::new();
    let mut i: usize = 0;
    while i < all.len()
        invariant
            i <= all.len(),
            all@ == all_steps(),
            steps@ == steps_upto(plan, request, i as int),
        decreases all.len() - i,
    {
        if is_due(all[i], &plan, &request) {
            steps.push(all[i]);
        }
        i = i + 1;
    }
    let failed = if !request.from_url && !request.has_title {
        Some("--title is required when --from-url is not provided".to_owned())
    } else {
        None
    };
    AddRun { plan, request, steps, done: 0, failed }
}

/// The place of a step among the others.
spec fn rank(s: AddStep) -> int {
    match s {
        AddStep::Fetch => 0,
        AddStep::Edit => 1,
        AddStep::ResolveFiles => 2,
        AddStep::RefuseSecrets => 3,
        AddStep::Embed => 4,
        AddStep::CheckOld => 5,
        AddStep::CheckRelated => 6,
        AddStep::Store => 7,
        AddStep::StoreEdge => 8,
        AddStep::Carry => 9,
        AddStep::CarryOld => 10,
        AddStep::Anchor => 11,
        AddStep::RecordPending => 12,
        AddStep::EmbedAndAttach => 13,
        AddStep::Report => 14,
        AddStep::Nudge => 15,
        AddStep::Record => 16,
    }
}

/// Steps below rank `k` that a recording has, each before those of higher rank.
spec fn in_order(s: Seq<AddStep>, k: int, plan: AddPlan, req: AddRequest) -> bool {
    &&& forall|i: int|
        0 <= i < s.len() ==> rank(#[trigger] s[i]) < k && has_step(s[i], plan, req)
    &&& forall|i: int, j: int|
        0 <= i < j < s.len() ==> rank(#[trigger] s[i]) < rank(#[trigger] s[j])
}

proof fn lemma_steps_in_order(plan: AddPlan, req: AddRequest, n: int)
    requires
        0 <= n <= 17,
    ensures
        in_order(steps_upto(plan, req, n), n, plan, req),
        forall|step: AddStep|
            rank(step) < n && has_step(step, plan, req) ==> #[trigger] steps_upto(
                plan,
                req,
                n,
            ).contains(step),
    decreases n,
{
    if n > 0 {
        lemma_steps_in_order(plan, req, n - 1);
        let before = steps_upto(plan, req, n - 1);
        let after = steps_upto(plan, req, n);
        let last = all_steps()[n - 1];
        assert(rank(last) == n - 1);
        assert forall|step: AddStep|
            rank(step) < n && has_step(step, plan, req) implies #[trigger] after.contains(step) by {
            if rank(step) < n - 1 {
                assert(before.contains(step));
                let k = choose|k: int| 0 <= k < before.len() && before[k] == step;
                assert(after[k] == step);
            } else {
                assert(step == last);
                assert(after.last() == last);
            }
        }
    }
}

/// Whether a step writes the entry, or what belongs to it, to a store.
pub open spec fn writes(step: AddStep) -> bool {
    step is Store || step is StoreEdge || step is Carry || step is CarryOld || step is Anchor || step
        is RecordPending
}

/// Whether a step can refuse the entry for what it holds or names.
pub open spec fn checks(step: AddStep) -> bool {
    step is Fetch || step is Edit || step is ResolveFiles || step is RefuseSecrets || step
        is CheckOld || step is CheckRelated
}

/// A recording takes exactly the steps it has, each once and in order.
pub proof fn law_steps_are_taken_once_and_in_order(plan: AddPlan, req: AddRequest, step: AddStep)
    ensures
        steps_of(plan, req).contains(step) <==> has_step(step, plan, req),
        steps_of(plan, req).no_duplicates(),
        forall|i: int, j: int|
            #![trigger steps_of(plan, req)[i], steps_of(plan, req)[j]]
            0 <= i < j < steps_of(plan, req).len() ==> all_steps().index_of(
                steps_of(plan, req)[i],
            ) < all_steps().index_of(steps_of(plan, req)[j]),
{
    let steps = steps_of(plan, req);
    lemma_steps_in_order(plan, req, 17);
    if steps.contains(step) {
        let k = choose|k: int| 0 <= k < steps.len() && steps[k] == step;
        assert(has_step(steps[k], plan, req));
    }
    assert forall|i: int, j: int|
        #![trigger steps[i], steps[j]]
        0 <= i < j < steps.len() implies all_steps().index_of(steps[i]) < all_steps().index_of(
        steps[j],
    ) by {
        lemma_rank_is_place(steps[i]);
        lemma_rank_is_place(steps[j]);
    }
}

proof fn lemma_rank_is_place(step: AddStep)
    ensures
        all_steps().index_of(step) == rank(step),
{
    let all = all_steps();
    assert(all[rank(step)] == step);
    let k = all.index_of(step);
    assert(0 <= k < all.len() && all[k] == step);
    assert(rank(all[k]) == k);
}

/// The steps have this order: what the entry holds is found and checked, then what it
/// names; it is stored, then what belongs to it; it is copied, anchored, embedded;
/// and what was done is told last.
pub proof fn law_the_steps_have_their_order()
    ensures
        all_steps().len() == 17,
        all_steps()[0] is Fetch && all_steps()[1] is Edit,
        all_steps()[2] is ResolveFiles && all_steps()[3] is RefuseSecrets,
        all_steps()[4] is Embed,
        all_steps()[5] is CheckOld && all_steps()[6] is CheckRelated,
        all_steps()[7] is Store && all_steps()[8] is StoreEdge,
        all_steps()[9] is Carry && all_steps()[10] is CarryOld,
        all_steps()[11] is Anchor && all_steps()[12] is RecordPending,
        all_steps()[13] is EmbedAndAttach,
        all_steps()[14] is Report && all_steps()[15] is Nudge && all_steps()[16] is Record,
{
}

/// The step that is due is the first that is not done, until all are or one failed.
pub proof fn law_the_next_step_is_due(run: AddRun)
    ensures
        run.due() is Some <==> run.failed is None && run.done < run.steps@.len(),
        run.due() is Some ==> run.due()->0 == run.steps@[run.done as int],
{
}

/// What is asked for has its steps: a page is fetched where one is named, an editor
/// opened where there is neither page nor body, the replaced and the related entry
/// looked up where they are named; files and credentials are always looked at, and
/// what was done is always said.
pub proof fn law_what_is_asked_for_is_done(plan: AddPlan, req: AddRequest)
    ensures
        steps_of(plan, req).contains(AddStep::Fetch) <==> req.from_url,
        steps_of(plan, req).contains(AddStep::Edit) <==> !req.from_url && !req.has_body,
        steps_of(plan, req).contains(AddStep::ResolveFiles),
        steps_of(plan, req).contains(AddStep::RefuseSecrets),
        steps_of(plan, req).contains(AddStep::Embed) <==> plan.embed_first,
        steps_of(plan, req).contains(AddStep::CheckOld) <==> req.supersedes,
        steps_of(plan, req).contains(AddStep::CheckRelated) <==> req.relates && !plan.pre_init,
        steps_of(plan, req).contains(AddStep::Store) <==> !plan.pre_init,
        steps_of(plan, req).contains(AddStep::StoreEdge) <==> req.relates && !plan.pre_init,
        steps_of(plan, req).contains(AddStep::Carry) <==> plan.write_through,
        steps_of(plan, req).contains(AddStep::CarryOld) <==> plan.write_through && req.supersedes,
        steps_of(plan, req).contains(AddStep::Anchor) <==> req.commit && !plan.pre_init,
        steps_of(plan, req).contains(AddStep::RecordPending) <==> !req.commit && plan.store_first,
        steps_of(plan, req).contains(AddStep::EmbedAndAttach) <==> plan.store_first,
        steps_of(plan, req).contains(AddStep::Report),
        steps_of(plan, req).contains(AddStep::Nudge) <==> plan.nudge,
        steps_of(plan, req).contains(AddStep::Record) <==> plan.record_event,
{
    law_steps_are_taken_once_and_in_order(plan, req, AddStep::Fetch);
    law_steps_are_taken_once_and_in_order(plan, req, AddStep::Edit);
    law_steps_are_taken_once_and_in_order(plan, req, AddStep::ResolveFiles);
    law_steps_are_taken_once_and_in_order(plan, req, AddStep::RefuseSecrets);
    law_steps_are_taken_once_and_in_order(plan, req, AddStep::Embed);
    law_steps_are_taken_once_and_in_order(plan, req, AddStep::CheckOld);
    law_steps_are_taken_once_and_in_order(plan, req, AddStep::CheckRelated);
    law_steps_are_taken_once_and_in_order(plan, req, AddStep::Store);
    law_steps_are_taken_once_and_in_order(plan, req, AddStep::StoreEdge);
    law_steps_are_taken_once_and_in_order(plan, req, AddStep::Carry);
    law_steps_are_taken_once_and_in_order(plan, req, AddStep::CarryOld);
    law_steps_are_taken_once_and_in_order(plan, req, AddStep::Anchor);
    law_steps_are_taken_once_and_in_order(plan, req, AddStep::RecordPending);
    law_steps_are_taken_once_and_in_order(plan, req, AddStep::EmbedAndAttach);
    law_steps_are_taken_once_and_in_order(plan, req, AddStep::Report);
    law_steps_are_taken_once_and_in_order(plan, req, AddStep::Nudge);
    law_steps_are_taken_once_and_in_order(plan, req, AddStep::Record);
}

/// A recording ends where what it needs cannot be had, or where its only copy
/// cannot be made. A vector, a waiting row, a relay and a record of use are never
/// worth an entry; a second copy is worth a warning. What went wrong is told.
pub proof fn law_only_what_an_entry_needs_ends_its_recording(
    step: AddStep,
    pre_init: bool,
    subject: Seq<char>,
    cause: Seq<char>,
)
    ensures
        failure_of(step, pre_init, subject, cause) is Fatal <==> checks(step) || step is Store
            || step is StoreEdge || step is Anchor || step is Report || (step is Carry && pre_init),
        failure_of(step, pre_init, subject, cause) is Warned <==> step is CarryOld || (step is Carry
            && !pre_init),
        failure_of(step, pre_init, subject, cause) is Fatal && !(step is RefuseSecrets)
            ==> cause.is_suffix_of(failure_of(step, pre_init, subject, cause)->Fatal_0),
        failure_of(step, pre_init, subject, cause) is Warned ==> cause.is_suffix_of(
            failure_of(step, pre_init, subject, cause)->Warned_0,
        ),
        step is CheckOld || step is CheckRelated || step is Store || step is Anchor || step is Report
            ==> failure_of(step, pre_init, subject, cause) == FailureModel::Fatal(cause),
{
    let f = failure_of(step, pre_init, subject, cause);
    let t = match f {
        FailureModel::Fatal(t) => t,
        FailureModel::Warned(t) => t,
        FailureModel::Ignored => cause,
    };
    if !(step is RefuseSecrets) {
        assert(t.subrange(t.len() - cause.len(), t.len() as int) =~= cause);
    }
}

/// An entry that is refused for what it holds or names leaves nothing behind:
/// a recording that ends at such a step has written to no store.
pub proof fn law_a_refused_entry_is_written_nowhere(run: AddRun, i: int)
    requires
        run.wf(),
        run.failed is Some,
        run.done < run.steps@.len() ==> checks(run.steps@[run.done as int]),
        0 <= i < run.done,
    ensures
        !writes(run.steps@[i]),
{
    lemma_steps_in_order(run.plan, run.request, 17);
    assert(rank(run.steps@[i]) < rank(run.steps@[run.done as int]));
}

/// Credentials are searched for before anything leaves the process: neither the
/// embedder nor a store sees an entry that was not searched.
pub proof fn law_credentials_are_looked_for_first(run: AddRun)
    requires
        run.wf(),
        run.due() is Some,
        run.due()->0 is Embed || run.due()->0 is EmbedAndAttach || writes(run.due()->0),
    ensures
        run.steps@.take(run.done as int).contains(AddStep::RefuseSecrets),
{
    let steps = run.steps@;
    lemma_steps_in_order(run.plan, run.request, 17);
    assert(steps.contains(AddStep::RefuseSecrets));
    let k = choose|k: int| 0 <= k < steps.len() && steps[k] == AddStep::RefuseSecrets;
    if run.done <= k {
        if run.done < k {
            assert(rank(steps[run.done as int]) < rank(steps[k]));
        }
        assert(false);
    }
    assert(steps.take(run.done as int)[k] == AddStep::RefuseSecrets);
}

/// Where a vector can be made later it is: by the time the embedder is asked
/// for it, the entry is stored, and all that belongs to it is written. No
/// vector is then made in front.
pub proof fn law_an_entry_is_durable_before_it_is_embedded(run: AddRun, step: AddStep)
    requires
        run.wf(),
        run.due() == Some(AddStep::EmbedAndAttach),
        run.plan.wf(),
        has_step(step, run.plan, run.request),
        writes(step),
    ensures
        run.steps@.take(run.done as int).contains(step),
        !run.steps@.contains(AddStep::Embed),
{
    let steps = run.steps@;
    lemma_steps_in_order(run.plan, run.request, 17);
    assert(steps.contains(step));
    let k = choose|k: int| 0 <= k < steps.len() && steps[k] == step;
    if run.done < k {
        assert(rank(steps[run.done as int]) < rank(steps[k]));
    }
    assert(steps.take(run.done as int)[k] == step);
    assert(has_step(steps[run.done as int], run.plan, run.request));
    if steps.contains(AddStep::Embed) {
        let m = choose|m: int| 0 <= m < steps.len() && steps[m] == AddStep::Embed;
        assert(has_step(steps[m], run.plan, run.request));
    }
}

/// An entry for which a commit was given is anchored to it, once it is stored,
/// and no pending anchor is kept: a recording that has ended without an error has
/// stored it and then anchored it. Without a commit nothing is anchored at once.
pub proof fn law_a_given_commit_anchors_at_once(run: AddRun, i: int)
    requires
        run.wf(),
        !run.plan.pre_init,
    ensures
        run.steps@.contains(AddStep::Anchor) <==> run.request.commit,
        run.request.commit ==> !run.steps@.contains(AddStep::RecordPending),
        run.failed is None && run.due() is None && run.request.commit ==> run.steps@.take(
            run.done as int,
        ).contains(AddStep::Anchor),
        0 <= i < run.steps@.len() && run.steps@[i] is Anchor ==> run.steps@.take(i).contains(
            AddStep::Store,
        ),
{
    let steps = run.steps@;
    lemma_steps_in_order(run.plan, run.request, 17);
    if steps.contains(AddStep::Anchor) {
        let k = choose|k: int| 0 <= k < steps.len() && steps[k] == AddStep::Anchor;
        assert(has_step(steps[k], run.plan, run.request));
    }
    if steps.contains(AddStep::RecordPending) {
        let k = choose|k: int| 0 <= k < steps.len() && steps[k] == AddStep::RecordPending;
        assert(has_step(steps[k], run.plan, run.request));
    }
    assert(run.request.commit ==> steps.contains(AddStep::Anchor));
    assert(steps.take(steps.len() as int) =~= steps);
    if 0 <= i < steps.len() && steps[i] is Anchor {
        assert(steps.contains(AddStep::Store));
        let k = choose|k: int| 0 <= k < steps.len() && steps[k] == AddStep::Store;
        if i < k {
            assert(rank(steps[i]) < rank(steps[k]));
        }
        assert(steps.take(i)[k] == AddStep::Store);
    }
}

/// Git notes that are the store get no second copy, an entry is never left
/// without any store, and its vector is made once at most.
pub proof fn law_an_entry_is_written_where_it_belongs(
    pre_init: bool,
    git_notes: bool,
    kept_remotely: bool,
    store_in_git_notes: bool,
    req: AddRequest,
)
    ensures
        ({
            let plan = add_plan_of(pre_init, git_notes, kept_remotely, store_in_git_notes);
            &&& git_notes && !pre_init ==> !has_step(AddStep::Carry, plan, req)
            &&& has_step(AddStep::Store, plan, req) || has_step(AddStep::Carry, plan, req)
            &&& !(has_step(AddStep::Embed, plan, req) && has_step(
                AddStep::EmbedAndAttach,
                plan,
                req,
            ))
            &&& pre_init ==> !has_step(AddStep::Embed, plan, req) && !has_step(
                AddStep::EmbedAndAttach,
                plan,
                req,
            )
        }),
{
}

// ---- the copy on git notes -------------------------------------------------

/// The number of an entry in its copy: its id where that is a number, and the
/// time in milliseconds otherwise.
pub fn record_id(id: &str, now_millis: i64) -> (r: i64)
    ensures
        r == match signed_number(id@) {
            Some(n) => n,
            None => now_millis as int,
        },
{
    match parse_i64(id) {
        Some(n) => n,
        None => now_millis,
    }
}

/// A relation, in a copy: by the identity of the other entry, the only name
/// that holds on another machine.
pub struct CarriedEdge {
    pub kind: String,
    pub to_entity_id: String,
}

/// A copy of an entry, as it rides on git notes.
pub struct NoteRecord {
    pub schema_version: u32,
    pub id: i64,
    pub kind: String,
    pub title: String,
    pub body: String,
    pub tags: Vec<String>,
    pub linked_files: Vec<String>,
    pub created_at: i64,
    pub status: String,
    pub valid_at: Option<i64>,
    pub entity_id: String,
    pub edges: Vec<CarriedEdge>,
}

/// The copy of a new entry: active, made now, and related to the one entry that
/// was named, if any.
pub fn note_record(
    id: &str,
    kind: String,
    title: String,
    body: String,
    tags: Vec<String>,
    linked_files: Vec<String>,
    valid_at: Option<i64>,
    entity_id: String,
    relates_to: Option<String>,
    now_secs: i64,
    now_millis: i64,
) -> (r: NoteRecord)
    ensures
        r.schema_version == 1,
        r.id == match signed_number(id@) {
            Some(n) => n,
            None => now_millis as int,
        },
        r.kind@ == kind@,
        r.title@ == title@,
        r.body@ == body@,
        r.tags@ == tags@,
        r.linked_files@ == linked_files@,
        r.created_at == now_secs,
        r.status@ == "active"@,
        r.valid_at == valid_at,
        r.entity_id@ == entity_id@,
        match relates_to {
            Some(to) => r.edges@.len() == 1 && r.edges@[0].kind@ == "relates_to"@
                && r.edges@[0].to_entity_id@ == to@,
            None => r.edges@.len() == 0,
        },
{
    let mut edges: Vec<CarriedEdge> = Vec::new();
    if let Some(to) = relates_to {
        edges.push(CarriedEdge { kind: "relates_to".to_owned(), to_entity_id: to });
    }
    NoteRecord {
        schema_version: 1,
        id: record_id(id, now_millis),
        kind,
        title,
        body,
        tags,
        linked_files,
        created_at: now_secs,
        status: "active".to_owned(),
        valid_at,
        entity_id,
        edges,
    }
}

/// What git said of keeping notes when a commit is rewritten.
#[derive(Clone, Copy, PartialEq, Eq, Structural, Debug)]
pub enum RewriteRefStatus {
    Configured,
    Failed,
    AlreadyCovered,
}

/// What is said of it, where anything is.
pub fn rewrite_note(status: RewriteRefStatus) -> (r: Option<&'static str>)
    ensures
        opt_str(r) == match status {
            RewriteRefStatus::Configured => Some(
                "Configured git notes.rewriteRef in this repo, so memory now survives `git commit --amend` and `git rebase`."@,
            ),
            RewriteRefStatus::Failed => Some(
                "Warning: could not set git notes.rewriteRef, so memory may not survive `git commit --amend` or `git rebase`. Set it with: git config --add notes.rewriteRef refs/notes/inkentry"@,
            ),
            RewriteRefStatus::AlreadyCovered => None,
        },
{
    match status {
        RewriteRefStatus::Configured => Some(
            "Configured git notes.rewriteRef in this repo, so memory now survives `git commit --amend` and `git rebase`.",
        ),
        RewriteRefStatus::Failed => Some(
            "Warning: could not set git notes.rewriteRef, so memory may not survive `git commit --amend` or `git rebase`. Set it with: git config --add notes.rewriteRef refs/notes/inkentry",
        ),
        RewriteRefStatus::AlreadyCovered => None,
    }
}

/// The error of a copy that was the only one.
pub open spec fn only_copy_failed_text(cause: Seq<char>) -> Seq<char> {
    "recording memory entry to git notes (no local project store to fall back on): "@ + cause
}

/// The warning of a copy that could not be made.
pub open spec fn copy_failed_text(cause: Seq<char>) -> Seq<char> {
    "Warning: entry stored locally, but the git-notes carry failed, so it will not travel with the repo: "@
        + cause
}

/// The warning that the replacement of an entry was not put on git notes.
pub open spec fn old_copy_failed_text(old_id: Seq<char>, cause: Seq<char>) -> Seq<char> {
    "Warning: entry stored locally, but carrying #"@ + old_id
        + "'s supersede edge to git notes failed, so it will not travel with the repo: "@ + cause
}

/// What a failed copy means: before `init` it was the only one, and the command
/// fails; later the entry is stored, and this is a warning.
pub fn carry_failed(pre_init: bool, cause: &str) -> (r: Result<String, String>)
    ensures
        match r {
            Ok(warning) => !pre_init && warning@ == copy_failed_text(cause@),
            Err(e) => pre_init && e@ == only_copy_failed_text(cause@),
        },
{
    if pre_init {
        return Err(
            "recording memory entry to git notes (no local project store to fall back on): ".to_owned().concat(
                cause,
            ),
        );
    }
    Ok(
        "Warning: entry stored locally, but the git-notes carry failed, so it will not travel with the repo: ".to_owned().concat(
            cause,
        ),
    )
}

/// The warning that the replacement of an entry was not put on git notes.
pub fn carry_old_failed(old_id: &str, cause: &str) -> (r: String)
    ensures
        r@ == old_copy_failed_text(old_id@, cause@),
{
    "Warning: entry stored locally, but carrying #".to_owned().concat(old_id).concat(
        "'s supersede edge to git notes failed, so it will not travel with the repo: ",
    ).concat(cause)
}

/// When an archived entry ceased to hold: as it says, or else now.
pub fn invalid_since(recorded: Option<i64>, now: i64) -> (r: i64)
    ensures
        r == match recorded {
            Some(ts) => ts,
            None => now,
        },
{
    match recorded {
        Some(ts) => ts,
        None => now,
    }
}

/// Whether a relation is stored by the backend: one on a server does not.
pub fn stores_edges(backend_kind: &str) -> (r: bool)
    ensures
        r == (backend_kind@ == "sqlite"@ || backend_kind@ == "git-notes"@),
{
    same(backend_kind, "sqlite") || same(backend_kind, "git-notes")
}

/// What is said of an entry that was recorded.
pub open spec fn stored_lines(
    created: bool,
    kind: Seq<char>,
    handle: Seq<char>,
    title: Seq<char>,
    entity_id: Seq<char>,
    id: Seq<char>,
    note: Option<Seq<char>>,
) -> Seq<Seq<char>> {
    seq![
        (if created {
            "Stored ["@
        } else {
            "Already recorded as ["@
        }) + kind + "] #"@ + handle + ": "@ + title,
        "entity_id:  "@ + entity_id,
        "id:         "@ + id,
    ] + (match note {
        Some(n) => seq![n],
        None => Seq::<Seq<char>>::empty(),
    })
}

/// What is said of an entry that was recorded, or that was there already.
pub fn stored_message(
    created: bool,
    kind: &str,
    handle: &str,
    title: &str,
    entity_id: &str,
    id: &str,
    note: Option<&str>,
) -> (r: Vec<String>)
    ensures
        texts(r@) == stored_lines(
            created,
            kind@,
            handle@,
            title@,
            entity_id@,
            id@,
            opt_str(note),
        ),
{
    let head = if created {
        "Stored ["
    } else {
        "Already recorded as ["
    };
    let mut out: Vec<String> = Vec::new();
    out.push(
        head.to_owned().concat(kind).concat("] #").concat(handle).concat(": ").concat(title),
    );
    out.push("entity_id:  ".to_owned().concat(entity_id));
    out.push("id:         ".to_owned().concat(id));
    if let Some(n) = note {
        out.push(n.to_owned());
    }
    assert(texts(out@) =~= stored_lines(
        created,
        kind@,
        handle@,
        title@,
        entity_id@,
        id@,
        opt_str(note),
    ));
    out
}

/// What is said of a recorded entry begins with its kind, handle and title, says
/// whether it is new, and names both of its identities.
pub proof fn law_a_recorded_entry_is_named(
    created: bool,
    kind: Seq<char>,
    handle: Seq<char>,
    title: Seq<char>,
    entity_id: Seq<char>,
    id: Seq<char>,
    note: Option<Seq<char>>,
)
    ensures
        ({
            let ls = stored_lines(created, kind, handle, title, entity_id, id, note);
            &&& (kind + "] #"@ + handle + ": "@ + title).is_suffix_of(ls[0])
            &&& "Stored ["@.is_prefix_of(ls[0]) <==> created
            &&& entity_id.is_suffix_of(ls[1])
            &&& id.is_suffix_of(ls[2])
            &&& note is Some ==> ls.len() == 4 && ls[3] == note->0
            &&& note is None ==> ls.len() == 3
        }),
{
    let ls = stored_lines(created, kind, handle, title, entity_id, id, note);
    let told = kind + "] #"@ + handle + ": "@ + title;
    reveal_strlit("Stored [");
    reveal_strlit("Already recorded as [");
    assert(ls[0].subrange(ls[0].len() - told.len(), ls[0].len() as int) =~= told);
    assert(ls[1].subrange(ls[1].len() - entity_id.len(), ls[1].len() as int) =~= entity_id);
    assert(ls[2].subrange(ls[2].len() - id.len(), ls[2].len() as int) =~= id);
    if created {
        assert(ls[0].subrange(0, "Stored ["@.len() as int) =~= "Stored ["@);
    } else {
        assert(ls[0][0] == 'A');
        if "Stored ["@.is_prefix_of(ls[0]) {
            assert("Stored ["@ == ls[0].subrange(0, "Stored ["@.len() as int));
            assert("Stored ["@[0] == ls[0][0]);
        }
    }
}

/// An entry without a vector says why, and one with a vector says nothing.
pub proof fn law_only_a_missing_vector_is_explained(o: EmbedOutcome)
    ensures
        embed_reason(o) is None <==> o is Attached,
{
}

} // verus!
