//! The server on this machine: what is recorded of it, when it is started,
//! stopped or left alone, and what is said of it.

use crate::text::{
    contains, dec, dec_u64, lines, lines_of, number_upto, occurs, opt_str,
    opt_text, parse_upto, push_text, same, texts, trim, trimmed,
};
use crate::ui::{line_models, push_plain, push_styled, Line};
use vstd::prelude::*;
use vstd::string::*;

verus! {

// ---- what is recorded ------------------------------------------------------

/// The file of the server's process id.
pub const PID_FILE: &'static str = "server.pid";

/// The file of the server's port.
pub const PORT_FILE: &'static str = "server.port";

/// The file of the database that the server was started on, so that a second
/// start on another one can be refused.
pub const DB_PATH_FILE: &'static str = "server.db-path";

/// The file of the id that the server gave itself when it was started. What a
/// server says of itself proves nothing; what was written down does.
pub const INSTANCE_ID_FILE: &'static str = "server.instance_id";

/// The server's log.
pub const LOG_FILE: &'static str = "server.log";

/// The files that are removed once the server is gone: all that speak of it but
/// the log. One that stayed would have the next server refused.
pub fn cleanup_state_files() -> (r: Vec<String>)
    ensures
        texts(r@) == seq![PID_FILE@, PORT_FILE@, DB_PATH_FILE@, INSTANCE_ID_FILE@],
{
    let mut out: Vec<String> = Vec::new();
    out.push(PID_FILE.to_owned());
    out.push(PORT_FILE.to_owned());
    out.push(DB_PATH_FILE.to_owned());
    out.push(INSTANCE_ID_FILE.to_owned());
    assert(texts(out@) =~= seq![PID_FILE@, PORT_FILE@, DB_PATH_FILE@, INSTANCE_ID_FILE@]);
    out
}

/// A file to write, and what goes into it.
pub struct StateFile {
    pub name: String,
    pub contents: String,
}

/// What the record of a server holds, file by file.
pub open spec fn record_of(pid: u32, port: u16, db: Seq<char>) -> Seq<(Seq<char>, Seq<char>)> {
    seq![
        (PID_FILE@, dec(pid as nat) + "\n"@),
        (PORT_FILE@, dec(port as nat) + "\n"@),
        (DB_PATH_FILE@, db + "\n"@),
    ]
}

/// The files of a record, as pairs.
pub open spec fn files_of(v: Seq<StateFile>) -> Seq<(Seq<char>, Seq<char>)> {
    v.map_values(|f: StateFile| (f.name@, f.contents@))
}

/// What is written down once a server was started.
pub fn start_record(pid: u32, port: u16, db: &str) -> (r: Vec<StateFile>)
    ensures
        files_of(r@) == record_of(pid, port, db@),
{
    let mut out: Vec<StateFile> = Vec::new();
    out.push(
        StateFile { name: PID_FILE.to_owned(), contents: dec_u64(pid as u64).concat("\n") },
    );
    out.push(
        StateFile { name: PORT_FILE.to_owned(), contents: dec_u64(port as u64).concat("\n") },
    );
    out.push(StateFile { name: DB_PATH_FILE.to_owned(), contents: db.to_owned().concat("\n") });
    assert(files_of(out@) =~= record_of(pid, port, db@));
    out
}

/// What is written down of the id that a server gave itself. One that gave none
/// leaves nothing, and is then not found by others.
pub fn record_instance_id(instance_id: Option<&str>) -> (r: Option<StateFile>)
    ensures
        match r {
            Some(f) => instance_id is Some && f.name@ == INSTANCE_ID_FILE@ && f.contents@
                == instance_id->0@ + "\n"@,
            None => instance_id is None,
        },
{
    match instance_id {
        Some(id) => Some(
            StateFile { name: INSTANCE_ID_FILE.to_owned(), contents: id.to_owned().concat("\n") },
        ),
        None => None,
    }
}

/// The process id that a file's contents record.
pub open spec fn recorded_pid(contents: Option<Seq<char>>) -> Option<nat> {
    match contents {
        Some(c) => number_upto(trimmed(c), u32::MAX as nat),
        None => None,
    }
}

/// The process id that a file records.
pub fn read_pid(contents: Option<&str>) -> (r: Option<u32>)
    ensures
        match r {
            Some(p) => recorded_pid(opt_str(contents)) == Some(p as nat),
            None => recorded_pid(opt_str(contents)) is None,
        },
{
    match contents {
        Some(c) => match parse_upto(trim(c).as_str(), u32::MAX as u64) {
            Some(v) => Some(v as u32),
            None => None,
        },
        None => None,
    }
}

/// The port that a file's contents record.
pub open spec fn recorded_port(contents: Option<Seq<char>>) -> Option<nat> {
    match contents {
        Some(c) => number_upto(trimmed(c), u16::MAX as nat),
        None => None,
    }
}

/// The port that a file records.
pub fn read_port(contents: Option<&str>) -> (r: Option<u16>)
    ensures
        match r {
            Some(p) => recorded_port(opt_str(contents)) == Some(p as nat),
            None => recorded_port(opt_str(contents)) is None,
        },
{
    match contents {
        Some(c) => match parse_upto(trim(c).as_str(), u16::MAX as u64) {
            Some(v) => Some(v as u16),
            None => None,
        },
        None => None,
    }
}

/// The text that a file's contents record; none where only whitespace is there.
pub open spec fn recorded_text(contents: Option<Seq<char>>) -> Option<Seq<char>> {
    match contents {
        Some(c) => if trimmed(c).len() > 0 {
            Some(trimmed(c))
        } else {
            None
        },
        None => None,
    }
}

fn read_text(contents: Option<&str>) -> (r: Option<String>)
    ensures
        opt_text(r) == recorded_text(opt_str(contents)),
{
    match contents {
        Some(c) => {
            let t = trim(c);
            if t.as_str().is_empty() {
                None
            } else {
                Some(t)
            }
        },
        None => None,
    }
}

/// The id that a file records.
pub fn read_instance_id(contents: Option<&str>) -> (r: Option<String>)
    ensures
        opt_text(r) == recorded_text(opt_str(contents)),
{
    read_text(contents)
}

/// The database that a file records.
pub fn read_db_path(contents: Option<&str>) -> (r: Option<String>)
    ensures
        opt_text(r) == recorded_text(opt_str(contents)),
{
    read_text(contents)
}

proof fn lemma_digits_of_dec(n: nat)
    ensures
        crate::text::digits_value(dec(n)) == Some(n),
        dec(n).len() >= 1,
        dec(n)[0] != '+',
        forall|i: int| 0 <= i < dec(n).len() ==> '0' <= #[trigger] dec(n)[i] <= '9',
    decreases n,
{
    if n < 10 {
        assert(dec(n).last() == crate::text::digit(n as int));
    } else {
        lemma_digits_of_dec(n / 10);
        let d = crate::text::digit((n % 10) as int);
        assert(dec(n) == dec(n / 10).push(d));
        assert(dec(n).drop_last() =~= dec(n / 10));
        assert(dec(n).last() == d);
        assert(crate::text::digit_value(d) == Some((n % 10) as nat));
        assert forall|i: int| 0 <= i < dec(n).len() implies '0' <= #[trigger] dec(n)[i]
            <= '9' by {
            if i < dec(n / 10).len() {
                assert(dec(n)[i] == dec(n / 10)[i]);
            }
        }
    }
}

proof fn lemma_trimmed_line(s: Seq<char>)
    requires
        s.len() >= 1,
        !crate::text::white(s[0]),
        !crate::text::white(s.last()),
    ensures
        trimmed(s + "\n"@) == s,
{
    reveal_strlit("\n");
    let t = s + "\n"@;
    assert(t[0] == s[0]);
    assert(crate::text::trimmed_start(t) == t);
    assert(t.last() == '\n');
    assert(t.drop_last() =~= s);
    assert(crate::text::trimmed_end(t) == crate::text::trimmed_end(t.drop_last()));
}

/// What was recorded of a started server reads back as it was: its process id,
/// its port and, where it neither begins nor ends with whitespace, its database.
pub proof fn law_a_record_reads_back(pid: u32, port: u16, db: Seq<char>)
    requires
        db.len() > 0,
        !crate::text::white(db[0]),
        !crate::text::white(db.last()),
    ensures
        recorded_pid(Some(record_of(pid, port, db)[0].1)) == Some(pid as nat),
        recorded_port(Some(record_of(pid, port, db)[1].1)) == Some(port as nat),
        recorded_text(Some(record_of(pid, port, db)[2].1)) == Some(db),
{
    lemma_digits_of_dec(pid as nat);
    lemma_digits_of_dec(port as nat);
    let p = dec(pid as nat);
    let q = dec(port as nat);
    assert('0' <= p[p.len() - 1] <= '9' && '0' <= p[0] <= '9');
    assert('0' <= q[q.len() - 1] <= '9' && '0' <= q[0] <= '9');
    lemma_trimmed_line(p);
    lemma_trimmed_line(q);
    lemma_trimmed_line(db);
}

// ---- whose process it is ---------------------------------------------------

/// The lowercase equivalent of a text, as `str::to_lowercase` gives it.
pub uninterp spec fn lowercased(s: Seq<char>) -> Seq<char>;

/// Calls `str::to_lowercase`, whose result is a function of the text alone.
#[verifier::external_body]
fn lowercase(s: &str) -> (r: String)
    ensures
        r@ == lowercased(s@),
{
    s.to_lowercase()
}

/// Whether a listing of processes names the server. Any process that has the
/// name among its arguments passes.
pub fn listing_names_server(listing: &str) -> (r: bool)
    ensures
        r == occurs(listing@, "inkentry-server"@),
{
    contains(listing, "inkentry-server")
}

/// Whether a listing of processes names the server, where the listing writes
/// names in a case of its own.
pub fn folded_listing_names_server(listing: &str) -> (r: bool)
    ensures
        r == occurs(lowercased(listing@), "inkentry-server"@),
{
    listing_names_server(lowercase(listing).as_str())
}

/// What the recorded process is.
#[derive(Clone, Copy, PartialEq, Eq, Structural, Debug)]
pub enum RunningServer {
    /// Our server, and it answers.
    Healthy { port: u16 },
    /// Our server, and it does not answer.
    HungOurs,
    /// Another process that got the recorded id; it is never signalled.
    Foreign,
}

/// What the recorded process is: by its answer on the recorded port, and else
/// by its name, so that a server that hangs is still known as ours.
pub fn classify_running_server(port: Option<u16>, answers: bool, named_like_ours: bool) -> (r:
    RunningServer)
    ensures
        r == if port is Some && answers {
            RunningServer::Healthy { port: port->0 }
        } else if named_like_ours {
            RunningServer::HungOurs
        } else {
            RunningServer::Foreign
        },
{
    if let Some(p) = port {
        if answers {
            return RunningServer::Healthy { port: p };
        }
    }
    if named_like_ours {
        RunningServer::HungOurs
    } else {
        RunningServer::Foreign
    }
}

/// What the server says of itself: an id that is blank is none.
pub fn probe_health(instance_id: Option<&str>) -> (r: Option<String>)
    ensures
        opt_text(r) == match instance_id {
            Some(id) => if trimmed(id@).len() > 0 {
                Some(id@)
            } else {
                None
            },
            None => None,
        },
{
    match instance_id {
        Some(id) => if crate::text::is_blank(id) {
            None
        } else {
            Some(id.to_owned())
        },
        None => None,
    }
}

/// The address at which a server on this machine answers.
pub fn health_url(port: u16) -> (r: String)
    ensures
        r@ == "http://127.0.0.1:"@ + dec(port as nat) + "/v1/health"@,
{
    "http://127.0.0.1:".to_owned().concat(dec_u64(port as u64).as_str()).concat("/v1/health")
}

/// The port of the relay, where a server answers on the recorded port and is
/// the recorded one. Where another answers, why it is not used.
pub enum RelayPort {
    Usable(u16),
    /// Nothing answers; there is nothing to say.
    Silent,
    /// Something answers and is not the recorded server.
    Untrusted(String),
}

/// The warning of a process that answers and is not the recorded server.
pub open spec fn untrusted_text(port: u16, state_dir: Seq<char>, why: Seq<char>) -> Seq<char> {
    "warning: the process answering 127.0.0.1:"@ + dec(port as nat)
        + " is not the server recorded in "@ + state_dir + ": "@ + why
        + ". No memory entries or credentials were sent to it. If that is your own daemon, run `inkentry server stop && inkentry server start`."@
}

/// The port of the relay.
pub fn probe_local_relay_port(
    port: Option<u16>,
    answers: bool,
    untrusted: Option<&str>,
    state_dir: &str,
) -> (r: RelayPort)
    ensures
        match r {
            RelayPort::Usable(p) => port == Some(p) && answers && untrusted is None,
            RelayPort::Silent => port is None || !answers,
            RelayPort::Untrusted(w) => port is Some && answers && untrusted is Some && w@
                == untrusted_text(port->0, state_dir@, untrusted->0@),
        },
{
    match port {
        None => RelayPort::Silent,
        Some(p) => {
            if !answers {
                return RelayPort::Silent;
            }
            match untrusted {
                None => RelayPort::Usable(p),
                Some(why) => RelayPort::Untrusted(
                    "warning: the process answering 127.0.0.1:".to_owned().concat(
                        dec_u64(p as u64).as_str(),
                    ).concat(" is not the server recorded in ").concat(state_dir).concat(
                        ": ",
                    ).concat(why).concat(
                        ". No memory entries or credentials were sent to it. If that is your own daemon, run `inkentry server stop && inkentry server start`.",
                    ),
                ),
            }
        },
    }
}

// ---- ending a process ------------------------------------------------------

/// How many seconds a process gets to end by itself.
pub const GRACEFUL_STOP_SECS: u64 = 10;

/// How many seconds a process gets to end once it was killed.
pub const FORCE_KILL_SECS: u64 = 5;

/// How ending a process goes on.
pub enum StopStep {
    /// Wait for it to end by itself.
    WaitGraceful,
    /// Kill it.
    ForceKill,
    /// Wait for the kill to take effect.
    WaitForced,
    /// It is over: whether the process is gone.
    Over(bool),
    Failed(String),
}

/// What ending a process has come to.
#[derive(Clone, Copy, PartialEq, Eq, Structural, Debug)]
pub enum StopPhase {
    /// It was asked to end.
    Asked,
    /// It had its time to end by itself.
    Waited,
    /// It was killed.
    Killed,
    /// It had its time after that.
    WaitedAgain,
}

/// What is seen of the process then.
pub struct StopSeen {
    /// Why it could not be asked or killed, where that is so.
    pub error: Option<String>,
    /// It ended while it was waited for.
    pub exited: bool,
    /// It is there.
    pub alive: bool,
    /// A process can be killed on this machine.
    pub can_kill: bool,
}

/// How ending a process goes on. A request that failed as the process is gone
/// already has succeeded; only a process that had its time and is still there is
/// killed, and only where that can be done.
pub open spec fn stop_goes_on(phase: StopPhase, seen: StopSeen, step: StopStep) -> bool {
    match phase {
        StopPhase::Asked => match seen.error {
            None => step is WaitGraceful,
            Some(e) => if seen.alive {
                step is Failed && step->Failed_0@ == e@
            } else {
                step == StopStep::Over(true)
            },
        },
        StopPhase::Waited => if !seen.exited && seen.alive && seen.can_kill {
            step is ForceKill
        } else {
            step == StopStep::Over(seen.exited || !seen.alive)
        },
        StopPhase::Killed => match seen.error {
            None => step is WaitForced,
            Some(e) => step is Failed && step->Failed_0@ == e@,
        },
        StopPhase::WaitedAgain => step == StopStep::Over(seen.exited || !seen.alive),
    }
}

/// How ending a process goes on.
pub fn terminate_and_wait(phase: StopPhase, seen: &StopSeen) -> (r: StopStep)
    ensures
        stop_goes_on(phase, *seen, r),
{
    match phase {
        StopPhase::Asked => match &seen.error {
            None => StopStep::WaitGraceful,
            Some(e) => if seen.alive {
                StopStep::Failed(e.clone())
            } else {
                StopStep::Over(true)
            },
        },
        StopPhase::Waited => if !seen.exited && seen.alive && seen.can_kill {
            StopStep::ForceKill
        } else {
            StopStep::Over(seen.exited || !seen.alive)
        },
        StopPhase::Killed => match &seen.error {
            None => StopStep::WaitForced,
            Some(e) => StopStep::Failed(e.clone()),
        },
        StopPhase::WaitedAgain => StopStep::Over(seen.exited || !seen.alive),
    }
}

/// A process is killed only after it had its time to end by itself; and that it
/// is gone is told only where it ended or is not there.
pub proof fn law_a_process_gets_its_time(phase: StopPhase, seen: StopSeen, step: StopStep)
    requires
        stop_goes_on(phase, seen, step),
    ensures
        step is ForceKill ==> phase is Waited && !seen.exited && seen.alive,
        step == StopStep::Over(true) ==> seen.exited || !seen.alive,
{
}

// ---- starting --------------------------------------------------------------

/// What is done with the recorded server before another is started by itself.
#[derive(Clone, Copy, PartialEq, Eq, Structural, Debug)]
pub enum AutoStart {
    /// It runs; nothing is started.
    Use { port: u16 },
    /// It hangs: it is ended, and its record removed. Leaving it would have two
    /// servers on one database.
    Reclaim { pid: u32 },
    /// The process is not ours: the record is removed, the process left alone.
    Forget,
    /// There is none.
    Start,
}

/// What is done with the recorded server before another is started by itself.
pub open spec fn auto_start_of(pid: Option<u32>, alive: bool, running: RunningServer) -> AutoStart {
    match pid {
        Some(p) => if alive {
            match running {
                RunningServer::Healthy { port } => AutoStart::Use { port },
                RunningServer::HungOurs => AutoStart::Reclaim { pid: p },
                RunningServer::Foreign => AutoStart::Forget,
            }
        } else {
            AutoStart::Start
        },
        None => AutoStart::Start,
    }
}

/// What is done with the recorded server before another is started by itself.
/// `running` says what a live process is.
pub fn ensure_server_running(pid: Option<u32>, alive: bool, running: RunningServer) -> (r: AutoStart)
    ensures
        r == auto_start_of(pid, alive, running),
{
    match pid {
        Some(p) => {
            if !alive {
                return AutoStart::Start;
            }
            match running {
                RunningServer::Healthy { port } => AutoStart::Use { port },
                RunningServer::HungOurs => AutoStart::Reclaim { pid: p },
                RunningServer::Foreign => AutoStart::Forget,
            }
        },
        None => AutoStart::Start,
    }
}

/// What is done with the recorded server before one is started on request.
pub enum StartStep {
    /// It runs on this database; that is said.
    AlreadyRunning(String),
    /// It runs on another database, and that is an error.
    OtherDatabase(String),
    /// It hangs: this is said, it is ended, and its record removed.
    Reclaim { pid: u32, message: String },
    /// The record is of a process that is gone or not ours; it is removed.
    Forget,
    /// There is none.
    Start,
}

/// A process and its port, in words.
pub open spec fn process_text(pid: u32, port: u16) -> Seq<char> {
    "(pid="@ + dec(pid as nat) + ", port="@ + dec(port as nat) + ")"@
}

fn process_words(pid: u32, port: u16) -> (r: String)
    ensures
        r@ == process_text(pid, port),
{
    "(pid=".to_owned().concat(dec_u64(pid as u64).as_str()).concat(", port=").concat(
        dec_u64(port as u64).as_str(),
    ).concat(")")
}

/// The error of a server that runs on another database.
pub open spec fn other_database_text(
    pid: u32,
    port: u16,
    running_db: Seq<char>,
    db: Seq<char>,
) -> Seq<char> {
    "a inkentry-server is already running "@ + process_text(pid, port) + " against "@ + running_db
        + ". Stop it first with `inkentry server stop` before starting one against "@ + db + "."@
}

/// Whether a start on request ends the recorded process first.
pub open spec fn start_ends_process(pid: Option<u32>, alive: bool, running: RunningServer) -> bool {
    pid is Some && alive && running is HungOurs
}

/// Whether a stop ends the recorded process.
pub open spec fn stop_ends_process(pid: Option<u32>, alive: bool, running: RunningServer) -> bool {
    pid is Some && alive && !(running is Foreign)
}

/// What is done with the recorded server before one is started on request.
/// `other_db` names the database that it was started on, where that is another
/// than `db`.
pub fn cmd_start(
    pid: Option<u32>,
    alive: bool,
    running: RunningServer,
    other_db: Option<&str>,
    db: &str,
) -> (r: StartStep)
    ensures
        r is Reclaim <==> start_ends_process(pid, alive, running),
        match pid {
            None => r is Start,
            Some(p) => if !alive {
                r is Forget
            } else {
                match running {
                    RunningServer::Healthy { port } => match other_db {
                        Some(other) => r is OtherDatabase && r->OtherDatabase_0@
                            == other_database_text(p, port, other@, db@),
                        None => r is AlreadyRunning && r->AlreadyRunning_0@
                            == "inkentry-server is already running "@ + process_text(p, port)
                            + "."@,
                    },
                    RunningServer::HungOurs => r is Reclaim && r->pid == p && r->message@
                        == "Reclaiming unresponsive inkentry-server (pid="@ + dec(p as nat)
                        + ")..."@,
                    RunningServer::Foreign => r is Forget,
                }
            },
        },
{
    match pid {
        None => StartStep::Start,
        Some(p) => {
            if !alive {
                return StartStep::Forget;
            }
            match running {
                RunningServer::Healthy { port } => match other_db {
                    Some(other) => StartStep::OtherDatabase(
                        "a inkentry-server is already running ".to_owned().concat(
                            process_words(p, port).as_str(),
                        ).concat(" against ").concat(other).concat(
                            ". Stop it first with `inkentry server stop` before starting one against ",
                        ).concat(db).concat("."),
                    ),
                    None => StartStep::AlreadyRunning(
                        "inkentry-server is already running ".to_owned().concat(
                            process_words(p, port).as_str(),
                        ).concat("."),
                    ),
                },
                RunningServer::HungOurs => StartStep::Reclaim {
                    pid: p,
                    message: "Reclaiming unresponsive inkentry-server (pid=".to_owned().concat(
                        dec_u64(p as u64).as_str(),
                    ).concat(")..."),
                },
                RunningServer::Foreign => StartStep::Forget,
            }
        },
    }
}

/// A process that is not our server is ended by none of the commands.
pub proof fn law_a_foreign_process_is_never_ended(pid: Option<u32>, alive: bool)
    ensures
        !(auto_start_of(pid, alive, RunningServer::Foreign) is Reclaim),
        !start_ends_process(pid, alive, RunningServer::Foreign),
        !stop_ends_process(pid, alive, RunningServer::Foreign),
{
}

/// No server is started beside one that answers, nor beside one that hangs
/// before that one is ended.
pub proof fn law_no_second_server_is_started(pid: u32, running: RunningServer)
    requires
        !(running is Foreign),
    ensures
        auto_start_of(Some(pid), true, running) is Use || auto_start_of(Some(pid), true, running)
            is Reclaim,
{
}

/// The error of a server that hangs and could not be ended.
pub fn reclaim_failed(pid: u32) -> (r: String)
    ensures
        r@ == "could not stop the unresponsive inkentry-server (pid="@ + dec(pid as nat)
            + "); it survived SIGTERM and SIGKILL. Kill it manually and retry."@,
{
    "could not stop the unresponsive inkentry-server (pid=".to_owned().concat(
        dec_u64(pid as u64).as_str(),
    ).concat("); it survived SIGTERM and SIGKILL. Kill it manually and retry.")
}

// ---- the order of a start --------------------------------------------------

/// One step of starting a server.
#[derive(Clone, Copy, PartialEq, Eq, Structural, Debug)]
pub enum LaunchStep {
    /// The recorded process, which hangs, is ended.
    EndProcess,
    /// The record of the server before is removed.
    RemoveRecord,
    /// The server's program is found.
    FindBinary,
    /// The port is found to be free.
    ClaimPort,
    OpenLog,
    /// The language model is settled.
    ResolveModel,
    Spawn,
    /// Process id, port and database are written down.
    WriteRecord,
    /// An id that the server before left is removed.
    DropInstanceId,
    /// The server's answer is awaited.
    AwaitHealth,
}

/// A start under way: its steps, how many are done, and the error that ended it
/// early, if one did.
pub struct LaunchRun {
    /// The start was asked for, and not made along with another command.
    pub on_request: bool,
    pub end_process: bool,
    pub remove_record: bool,
    pub steps: Vec<LaunchStep>,
    pub done: usize,
    pub failed: Option<String>,
}

/// The steps of a start, in order.
pub open spec fn launch_steps(end_process: bool, remove_record: bool) -> Seq<LaunchStep> {
    (if end_process {
        seq![LaunchStep::EndProcess]
    } else {
        Seq::<LaunchStep>::empty()
    }) + (if remove_record {
        seq![LaunchStep::RemoveRecord]
    } else {
        Seq::<LaunchStep>::empty()
    }) + seq![
        LaunchStep::FindBinary,
        LaunchStep::ClaimPort,
        LaunchStep::OpenLog,
        LaunchStep::ResolveModel,
        LaunchStep::Spawn,
        LaunchStep::WriteRecord,
        LaunchStep::DropInstanceId,
        LaunchStep::AwaitHealth,
    ]
}

/// Whether the failure of a step is passed over: files that cannot be removed
/// are, and so is a process that cannot be ended where the start was not asked
/// for.
pub open spec fn launch_failure_ignored(step: LaunchStep, on_request: bool) -> bool {
    step is RemoveRecord || step is DropInstanceId || (step is EndProcess && !on_request)
}

/// The error of a failed step: `subject` names the file that could not be
/// written.
pub open spec fn launch_failure(step: LaunchStep, subject: Seq<char>, cause: Seq<char>) -> Seq<
    char,
> {
    if step is WriteRecord {
        "writing "@ + subject + ": "@ + cause
    } else {
        cause
    }
}

impl LaunchRun {
    pub open spec fn wf(self) -> bool {
        &&& self.steps@ == launch_steps(self.end_process, self.remove_record)
        &&& self.done <= self.steps@.len()
        &&& self.failed is Some ==> self.done < self.steps@.len() && !launch_failure_ignored(
            self.steps@[self.done as int],
            self.on_request,
        )
        &&& self.end_process ==> self.remove_record
    }

    /// The step that is due; none where all are done or one failed.
    pub open spec fn due(self) -> Option<LaunchStep> {
        if self.failed is None && self.done < self.steps@.len() {
            Some(self.steps@[self.done as int])
        } else {
            None
        }
    }

    /// A start that is about to begin. A process that hangs is ended only where
    /// its record is removed as well.
    pub fn new(on_request: bool, end_process: bool, remove_record: bool) -> (r: Self)
        requires
            end_process ==> remove_record,
        ensures
            r.wf(),
            r.on_request == on_request,
            r.end_process == end_process,
            r.remove_record == remove_record,
            r.done == 0,
            r.failed is None,
    {
        let mut steps: Vec<LaunchStep> = Vec::new();
        if end_process {
            steps.push(LaunchStep::EndProcess);
        }
        if remove_record {
            steps.push(LaunchStep::RemoveRecord);
        }
        steps.push(LaunchStep::FindBinary);
        steps.push(LaunchStep::ClaimPort);
        steps.push(LaunchStep::OpenLog);
        steps.push(LaunchStep::ResolveModel);
        steps.push(LaunchStep::Spawn);
        steps.push(LaunchStep::WriteRecord);
        steps.push(LaunchStep::DropInstanceId);
        steps.push(LaunchStep::AwaitHealth);
        assert(steps@ =~= launch_steps(end_process, remove_record));
        LaunchRun { on_request, end_process, remove_record, steps, done: 0, failed: None }
    }

    /// The start that follows a look at the recorded server, where one follows.
    pub fn after_request(step: &StartStep) -> (r: Option<Self>)
        ensures
            match r {
                Some(run) => run.wf() && run.on_request && run.done == 0 && run.failed is None
                    && run.end_process == (step is Reclaim) && run.remove_record == (step is Reclaim
                    || step is Forget) && !(step is AlreadyRunning) && !(step is OtherDatabase),
                None => step is AlreadyRunning || step is OtherDatabase,
            },
    {
        match step {
            StartStep::AlreadyRunning(_) => None,
            StartStep::OtherDatabase(_) => None,
            StartStep::Reclaim { .. } => Some(Self::new(true, true, true)),
            StartStep::Forget => Some(Self::new(true, false, true)),
            StartStep::Start => Some(Self::new(true, false, false)),
        }
    }

    /// The start that another command makes, where one follows.
    pub fn along(step: AutoStart) -> (r: Option<Self>)
        ensures
            match r {
                Some(run) => run.wf() && !run.on_request && run.done == 0 && run.failed is None
                    && run.end_process == (step is Reclaim) && run.remove_record == (step is Reclaim
                    || step is Forget) && !(step is Use),
                None => step is Use,
            },
    {
        match step {
            AutoStart::Use { .. } => None,
            AutoStart::Reclaim { .. } => Some(Self::new(false, true, true)),
            AutoStart::Forget => Some(Self::new(false, false, true)),
            AutoStart::Start => Some(Self::new(false, false, false)),
        }
    }

    /// The step that is due.
    pub fn current(&self) -> (r: Option<LaunchStep>)
        ensures
            r == self.due(),
    {
        if self.failed.is_none() && self.done < self.steps.len() {
            Some(self.steps[self.done])
        } else {
            None
        }
    }

    /// The step that was due is done.
    pub fn advance(&mut self)
        requires
            old(self).wf(),
            old(self).due() is Some,
        ensures
            final(self).wf(),
            final(self).done == old(self).done + 1,
            final(self).failed is None,
            final(self).steps@ == old(self).steps@,
            final(self).on_request == old(self).on_request,
            final(self).end_process == old(self).end_process,
            final(self).remove_record == old(self).remove_record,
    {
        assert(self.done < self.steps.len());
        self.done = self.done + 1;
    }

    /// The step that was due failed: the start ends with an error, or goes on
    /// where the failure is passed over.
    pub fn fail(&mut self, subject: &str, cause: &str)
        requires
            old(self).wf(),
            old(self).due() is Some,
        ensures
            final(self).wf(),
            final(self).steps@ == old(self).steps@,
            final(self).on_request == old(self).on_request,
            final(self).end_process == old(self).end_process,
            final(self).remove_record == old(self).remove_record,
            if launch_failure_ignored(old(self).due()->0, old(self).on_request) {
                final(self).failed is None && final(self).done == old(self).done + 1
            } else {
                opt_text(final(self).failed) == Some(
                    launch_failure(old(self).due()->0, subject@, cause@),
                ) && final(self).done == old(self).done
            },
    {
        assert(self.done < self.steps.len());
        match self.steps[self.done] {
            LaunchStep::RemoveRecord | LaunchStep::DropInstanceId => {
                self.done = self.done + 1;
            },
            LaunchStep::EndProcess => {
                if self.on_request {
                    self.failed = Some(cause.to_owned());
                } else {
                    self.done = self.done + 1;
                }
            },
            LaunchStep::WriteRecord => {
                self.failed = Some(
                    "writing ".to_owned().concat(subject).concat(": ").concat(cause),
                );
            },
            _ => {
                self.failed = Some(cause.to_owned());
            },
        }
    }
}

/// By the time a server is started, one that hung was asked to end and its
/// record was removed; and by the time the new one's answer is awaited, its own
/// record is written and no id of the one before is left.
pub proof fn law_a_start_clears_the_way(run: LaunchRun)
    requires
        run.wf(),
    ensures
        run.due() == Some(LaunchStep::Spawn) && run.end_process ==> run.steps@.take(
            run.done as int,
        ).contains(LaunchStep::EndProcess) && run.steps@.take(run.done as int).contains(
            LaunchStep::RemoveRecord,
        ),
        run.due() == Some(LaunchStep::AwaitHealth) ==> run.steps@.take(run.done as int).contains(
            LaunchStep::WriteRecord,
        ) && run.steps@.take(run.done as int).contains(LaunchStep::DropInstanceId),
{
    let steps = run.steps@;
    let n = steps.len() as int;
    let taken = steps.take(run.done as int);
    assert(steps[n - 1] == LaunchStep::AwaitHealth);
    assert(steps[n - 2] == LaunchStep::DropInstanceId);
    assert(steps[n - 3] == LaunchStep::WriteRecord);
    if run.due() == Some(LaunchStep::Spawn) && run.end_process {
        assert(taken[0] == LaunchStep::EndProcess);
        assert(taken[1] == LaunchStep::RemoveRecord);
    }
    if run.due() == Some(LaunchStep::AwaitHealth) {
        assert(run.done == n - 1);
        assert(taken[n - 2] == LaunchStep::DropInstanceId);
        assert(taken[n - 3] == LaunchStep::WriteRecord);
    }
}

/// A start on request never goes past a server that hangs and could not be
/// ended: it starts none beside it.
pub proof fn law_a_server_that_stays_blocks_a_requested_start(run: LaunchRun)
    requires
        run.wf(),
        run.on_request,
        run.end_process,
        run.failed is Some,
        run.steps@[run.done as int] is EndProcess,
    ensures
        run.done == 0,
        run.due() is None,
{
}

// ---- the port and the answer -----------------------------------------------

/// How many times a port is tried before it counts as taken. A server that was
/// just ended may hold it a moment longer.
pub const PORT_ATTEMPTS: usize = 10;

/// Whether a port is tried again after the attempt with this number, counted
/// from zero.
pub fn port_retry(attempt: usize) -> (r: bool)
    ensures
        r == (attempt + 1 < PORT_ATTEMPTS),
{
    attempt < PORT_ATTEMPTS - 1
}

/// The error of a port that is taken. Another one is never taken in its place.
pub fn port_taken_error(port: u16) -> (r: String)
    ensures
        r@ == "port "@ + dec(port as nat)
            + " is already in use by another process. If it is a inkentry-server not managed here, stop it; otherwise free the port or pass `--port <N>`."@,
{
    "port ".to_owned().concat(dec_u64(port as u64).as_str()).concat(
        " is already in use by another process. If it is a inkentry-server not managed here, stop it; otherwise free the port or pass `--port <N>`.",
    )
}

/// How a start ended.
pub enum StartOutcome {
    /// The server answers.
    Ready,
    /// The process is gone, with this status.
    Exited(String),
    /// The process is there and does not answer.
    TimedOut,
}

/// What is said of a start: as output, or as a warning. A process that is gone
/// refused its settings; only one that is there and silent may be behind a
/// firewall.
pub open spec fn start_lines(
    outcome: StartOutcome,
    pid: u32,
    port: u16,
    log: Seq<char>,
) -> Seq<Seq<char>> {
    match outcome {
        StartOutcome::Ready => seq![
            "inkentry-server started "@ + process_text(pid, port) + "."@,
            "  Log: "@ + log,
        ],
        StartOutcome::Exited(status) => seq![
            "warning: inkentry-server (pid="@ + dec(pid as nat) + ") exited immediately ("@
                + status@ + ") instead of serving port "@ + dec(port as nat)
                + ". It rejected its own startup configuration; the reason is the last line of the log: "@
                + log,
        ],
        StartOutcome::TimedOut => seq![
            "warning: inkentry-server process started (pid="@ + dec(pid as nat)
                + ") but /v1/health did not respond on port "@ + dec(port as nat)
                + " within 30 s. A firewall may be blocking the local server (allow it, e.g. accept the Windows Defender Firewall prompt). Check the log: "@
                + log,
        ],
    }
}

/// What is said of a start.
pub fn start_message(outcome: &StartOutcome, pid: u32, port: u16, log: &str) -> (r: Vec<String>)
    ensures
        texts(r@) == start_lines(*outcome, pid, port, log@),
{
    let mut out: Vec<String> = Vec::new();
    match outcome {
        StartOutcome::Ready => {
            out.push(
                "inkentry-server started ".to_owned().concat(
                    process_words(pid, port).as_str(),
                ).concat("."),
            );
            out.push("  Log: ".to_owned().concat(log));
        },
        StartOutcome::Exited(status) => {
            out.push(
                "warning: inkentry-server (pid=".to_owned().concat(
                    dec_u64(pid as u64).as_str(),
                ).concat(") exited immediately (").concat(status.as_str()).concat(
                    ") instead of serving port ",
                ).concat(dec_u64(port as u64).as_str()).concat(
                    ". It rejected its own startup configuration; the reason is the last line of the log: ",
                ).concat(log),
            );
        },
        StartOutcome::TimedOut => {
            out.push(
                "warning: inkentry-server process started (pid=".to_owned().concat(
                    dec_u64(pid as u64).as_str(),
                ).concat(") but /v1/health did not respond on port ").concat(
                    dec_u64(port as u64).as_str(),
                ).concat(
                    " within 30 s. A firewall may be blocking the local server (allow it, e.g. accept the Windows Defender Firewall prompt). Check the log: ",
                ).concat(log),
            );
        },
    }
    assert(texts(out@) =~= start_lines(*outcome, pid, port, log@));
    out
}

/// What a wait for a server's answer has seen, once.
#[derive(Clone, Copy, PartialEq, Eq, Structural, Debug)]
pub enum HealthWait {
    Ready,
    Exited,
    /// Ask again after a pause.
    Again,
}

/// What a wait for a server's answer has seen. The answer counts first, so that
/// a server that answers and ends at once has started.
pub fn wait_for_health(answers: bool, exited: bool) -> (r: HealthWait)
    ensures
        r == if answers {
            HealthWait::Ready
        } else if exited {
            HealthWait::Exited
        } else {
            HealthWait::Again
        },
{
    if answers {
        HealthWait::Ready
    } else if exited {
        HealthWait::Exited
    } else {
        HealthWait::Again
    }
}

/// Where the server's program is looked for: beside this program first, so that
/// one of that name elsewhere on the path is not run in its place.
pub fn which_inkentry_server(sibling: Option<&str>, on_path: Option<&str>) -> (r: Result<
    String,
    String,
>)
    ensures
        match r {
            Ok(p) => match sibling {
                Some(s) => p@ == s@,
                None => on_path is Some && p@ == on_path->0@,
            },
            Err(e) => sibling is None && on_path is None && e@
                == "inkentry-server binary not found. Install it alongside `inkentry` or pass --bin <path>."@,
        },
{
    if let Some(s) = sibling {
        return Ok(s.to_owned());
    }
    match on_path {
        Some(p) => Ok(p.to_owned()),
        None => Err(
            "inkentry-server binary not found. Install it alongside `inkentry` or pass --bin <path>.".to_owned(),
        ),
    }
}

/// The error of a program that is not where it was said to be.
pub fn missing_binary_error(path: &str) -> (r: String)
    ensures
        r@ == "inkentry-server binary not found at "@ + path@,
{
    "inkentry-server binary not found at ".to_owned().concat(path)
}

// ---- the server's arguments ------------------------------------------------

/// The language model that a server is given.
pub struct LlmSpawn {
    pub url: Option<String>,
    pub model: Option<String>,
    pub key: Option<String>,
}

impl Default for LlmSpawn {
    fn default() -> (r: Self)
        ensures
            r.url is None && r.model is None && r.key is None,
    {
        LlmSpawn { url: None, model: None, key: None }
    }
}

/// A flag and its value, where there is one.
pub open spec fn flag(name: Seq<char>, value: Option<Seq<char>>) -> Seq<Seq<char>> {
    match value {
        Some(v) => seq![name, v],
        None => Seq::<Seq<char>>::empty(),
    }
}

/// The arguments of a server. It is bound to this machine always, as it asks
/// for no credential. The key of the language model is not among them, as
/// arguments can be read by every user of the machine.
pub open spec fn daemon_args(
    db: Seq<char>,
    port: nat,
    url: Option<Seq<char>>,
    model: Option<Seq<char>>,
) -> Seq<Seq<char>> {
    seq!["--host"@, "127.0.0.1"@, "--port"@, dec(port), "--db"@, db] + flag("--llm-url"@, url)
        + flag("--llm-model"@, model)
}

fn push_flag(out: &mut Vec<String>, name: &str, value: &Option<String>)
    ensures
        texts(final(out)@) == texts(old(out)@) + flag(name@, opt_text(*value)),
{
    let ghost before = texts(out@);
    if let Some(v) = value {
        push_text(out, name.to_owned());
        push_text(out, v.clone());
    }
    assert(texts(out@) =~= before + flag(name@, opt_text(*value)));
}

/// The arguments of a server.
pub fn build_daemon_args(db: &str, port: u16, llm: &LlmSpawn) -> (r: Vec<String>)
    ensures
        texts(r@) == daemon_args(db@, port as nat, opt_text(llm.url), opt_text(llm.model)),
{
    let mut args: Vec<String> = Vec::new();
    args.push("--host".to_owned());
    args.push("127.0.0.1".to_owned());
    args.push("--port".to_owned());
    args.push(dec_u64(port as u64));
    args.push("--db".to_owned());
    args.push(db.to_owned());
    assert(texts(args@) =~= seq![
        "--host"@,
        "127.0.0.1"@,
        "--port"@,
        dec(port as nat),
        "--db"@,
        db@,
    ]);
    push_flag(&mut args, "--llm-url", &llm.url);
    push_flag(&mut args, "--llm-model", &llm.model);
    args
}

/// A server is always told to bind to this machine, before anything else.
pub proof fn law_a_server_binds_loopback(
    db: Seq<char>,
    port: nat,
    url: Option<Seq<char>>,
    model: Option<Seq<char>>,
)
    ensures
        daemon_args(db, port, url, model).len() >= 6,
        daemon_args(db, port, url, model)[0] == "--host"@,
        daemon_args(db, port, url, model)[1] == "127.0.0.1"@,
{
}

/// The key of the language model shows in no argument: servers that differ in
/// their key alone are given the same ones.
pub proof fn law_the_key_is_in_no_argument(a: LlmSpawn, b: LlmSpawn, db: Seq<char>, port: nat)
    requires
        opt_text(a.url) == opt_text(b.url),
        opt_text(a.model) == opt_text(b.model),
    ensures
        daemon_args(db, port, opt_text(a.url), opt_text(a.model)) == daemon_args(
            db,
            port,
            opt_text(b.url),
            opt_text(b.model),
        ),
{
}

/// A change to the environment of a process that is started.
pub struct EnvChange {
    pub name: String,
    /// The value that is set; the variable is removed where there is none.
    pub value: Option<String>,
}

/// The changes to a server's environment, as pairs.
pub open spec fn env_pairs(v: Seq<EnvChange>) -> Seq<(Seq<char>, Option<Seq<char>>)> {
    v.map_values(|e: EnvChange| (e.name@, opt_text(e.value)))
}

/// The changes to a server's environment: each variable of the language model is
/// set or removed, so that none is inherited that was decided against.
pub fn apply_llm_child_env(llm: &LlmSpawn) -> (r: Vec<EnvChange>)
    ensures
        env_pairs(r@) == seq![
            ("INKENTRY_LLM_URL"@, opt_text(llm.url)),
            ("INKENTRY_LLM_MODEL"@, opt_text(llm.model)),
            ("INKENTRY_LLM_KEY"@, opt_text(llm.key)),
        ],
{
    let mut out: Vec<EnvChange> = Vec::new();
    out.push(EnvChange { name: "INKENTRY_LLM_URL".to_owned(), value: llm.url.clone() });
    out.push(EnvChange { name: "INKENTRY_LLM_MODEL".to_owned(), value: llm.model.clone() });
    out.push(EnvChange { name: "INKENTRY_LLM_KEY".to_owned(), value: llm.key.clone() });
    assert(env_pairs(out@) =~= seq![
        ("INKENTRY_LLM_URL"@, opt_text(llm.url)),
        ("INKENTRY_LLM_MODEL"@, opt_text(llm.model)),
        ("INKENTRY_LLM_KEY"@, opt_text(llm.key)),
    ]);
    out
}

// ---- stopping --------------------------------------------------------------

/// What is done to stop the recorded server.
pub enum StopDecision {
    /// None is recorded, and that is an error.
    NoRecord(String),
    /// It is gone: this is said, and its record removed.
    NotRunning(String),
    /// The process is not ours, and that is an error.
    Refused(String),
    /// It is ended.
    Terminate { pid: u32 },
}

/// The error where no server is recorded.
pub open spec fn no_record_text(state_dir: Seq<char>) -> Seq<char> {
    "no server.pid in "@ + state_dir
        + " — this CLI has no record of a running inkentry-server. If one is running anyway, it was not started from here (or its state files were removed): find it with `ps ax | grep inkentry-server` and stop that process directly."@
}

/// The error where the recorded process is not ours.
pub open spec fn refused_text(pid: u32, pid_file: Seq<char>, state_dir: Seq<char>) -> Seq<char> {
    "refusing to stop pid="@ + dec(pid as nat)
        + ": it does not look like the inkentry-server recorded in "@ + pid_file
        + ". If the server crashed and this PID was reused by an unrelated process, remove the stale state files manually (under "@
        + state_dir + ") and retry."@
}

/// What is done to stop the recorded server. One that hangs is ours to end as
/// much as one that answers; a process that is not ours is refused.
pub fn cmd_stop(
    pid: Option<u32>,
    alive: bool,
    running: RunningServer,
    pid_file: &str,
    state_dir: &str,
) -> (r: StopDecision)
    ensures
        r is Terminate <==> stop_ends_process(pid, alive, running),
        match pid {
            None => r is NoRecord && r->NoRecord_0@ == no_record_text(state_dir@),
            Some(p) => if !alive {
                r is NotRunning && r->NotRunning_0@ == "inkentry-server (pid="@ + dec(p as nat)
                    + ") is not running. Cleaning up state files."@
            } else if running is Foreign {
                r is Refused && r->Refused_0@ == refused_text(p, pid_file@, state_dir@)
            } else {
                r == StopDecision::Terminate { pid: p }
            },
        },
{
    match pid {
        None => StopDecision::NoRecord(
            "no server.pid in ".to_owned().concat(state_dir).concat(
                " — this CLI has no record of a running inkentry-server. If one is running anyway, it was not started from here (or its state files were removed): find it with `ps ax | grep inkentry-server` and stop that process directly.",
            ),
        ),
        Some(p) => {
            if !alive {
                return StopDecision::NotRunning(
                    "inkentry-server (pid=".to_owned().concat(dec_u64(p as u64).as_str()).concat(
                        ") is not running. Cleaning up state files.",
                    ),
                );
            }
            if running == RunningServer::Foreign {
                return StopDecision::Refused(
                    "refusing to stop pid=".to_owned().concat(dec_u64(p as u64).as_str()).concat(
                        ": it does not look like the inkentry-server recorded in ",
                    ).concat(pid_file).concat(
                        ". If the server crashed and this PID was reused by an unrelated process, remove the stale state files manually (under ",
                    ).concat(state_dir).concat(") and retry."),
                );
            }
            StopDecision::Terminate { pid: p }
        },
    }
}

/// How stopping ended: what is said, and the record removed; or the error of a
/// process that is still there, whose record stays.
pub fn stop_result(pid: u32, gone: bool) -> (r: Result<String, String>)
    ensures
        match r {
            Ok(s) => gone && s@ == "inkentry-server stopped."@,
            Err(e) => !gone && e@ == "inkentry-server (pid="@ + dec(pid as nat)
                + ") is still running after SIGTERM and SIGKILL. State files left in place; retry `inkentry server stop` or kill the process manually."@,
        },
{
    if gone {
        Ok("inkentry-server stopped.".to_owned())
    } else {
        Err(
            "inkentry-server (pid=".to_owned().concat(dec_u64(pid as u64).as_str()).concat(
                ") is still running after SIGTERM and SIGKILL. State files left in place; retry `inkentry server stop` or kill the process manually.",
            ),
        )
    }
}

// ---- status and logs -------------------------------------------------------

/// What a server says of its embedder.
pub struct EmbedderHealth {
    pub state: Option<String>,
    pub detail: Option<String>,
    pub engine: Option<String>,
    pub device: Option<String>,
}

/// What a server says of itself.
pub struct HealthBody {
    pub instance_id: Option<String>,
    pub version: Option<String>,
    pub embedder: Option<EmbedderHealth>,
}

/// What is shown of a server.
pub struct HealthInfo {
    pub instance_id: Option<String>,
    pub version: Option<String>,
    pub engine: Option<String>,
    pub device: Option<String>,
    /// A hint on how to do better.
    pub note: Option<String>,
}

/// What is shown of a server. What it says of its embedder in detail is a hint
/// only once the embedder is ready; before that it is the error of one that
/// failed.
pub fn probe_health_verbose(body: &HealthBody) -> (r: HealthInfo)
    ensures
        opt_text(r.instance_id) == opt_text(body.instance_id),
        opt_text(r.version) == opt_text(body.version),
        match body.embedder {
            Some(e) => opt_text(r.engine) == opt_text(e.engine) && opt_text(r.device) == opt_text(
                e.device,
            ) && opt_text(r.note) == (if opt_text(e.state) == Some("ready"@) {
                opt_text(e.detail)
            } else {
                None
            }),
            None => r.engine is None && r.device is None && r.note is None,
        },
{
    let (engine, device, note) = match &body.embedder {
        Some(e) => {
            let ready = match &e.state {
                Some(s) => same(s.as_str(), "ready"),
                None => false,
            };
            let note = if ready {
                e.detail.clone()
            } else {
                None
            };
            (e.engine.clone(), e.device.clone(), note)
        },
        None => (None, None, None),
    };
    HealthInfo {
        instance_id: body.instance_id.clone(),
        version: body.version.clone(),
        engine,
        device,
        note,
    }
}

/// An optional line with a label before it.
pub open spec fn labelled(label: Seq<char>, value: Option<Seq<char>>) -> Seq<(bool, Seq<char>)> {
    match value {
        Some(v) => seq![(false, label + v)],
        None => Seq::<(bool, Seq<char>)>::empty(),
    }
}

fn push_labelled(out: &mut Vec<Line>, label: &str, value: &Option<String>)
    ensures
        line_models(final(out)@) == line_models(old(out)@) + labelled(label@, opt_text(*value)),
{
    let ghost before = line_models(out@);
    if let Some(v) = value {
        push_plain(out, label.to_owned().concat(v.as_str()));
    }
    assert(line_models(out@) =~= before + labelled(label@, opt_text(*value)));
}

/// The lines of what a server says of itself.
pub open spec fn health_lines(port: u16, info: Option<HealthInfo>) -> Seq<(bool, Seq<char>)> {
    match info {
        Some(i) => seq![(false, "  URL:   http://127.0.0.1:"@ + dec(port as nat))] + labelled(
            "  ID:    "@,
            opt_text(i.instance_id),
        ) + labelled("  Ver:   "@, opt_text(i.version)) + labelled(
            "  Engine:"@,
            opt_text(i.engine),
        ) + labelled("  Device:"@, opt_text(i.device)) + (match i.note {
            Some(n) => seq![(true, "  \x1b[33mNote:  "@ + n@ + "\x1b[0m"@)],
            None => Seq::<(bool, Seq<char>)>::empty(),
        }),
        None => seq![
            (
                true,
                "  URL:   http://127.0.0.1:"@ + dec(port as nat)
                    + "  \x1b[31m(unreachable)\x1b[0m"@,
            ),
        ],
    }
}

fn push_health(out: &mut Vec<Line>, port: u16, info: &Option<HealthInfo>)
    ensures
        line_models(final(out)@) == line_models(old(out)@) + health_lines(port, *info),
{
    let ghost before = line_models(out@);
    match info {
        Some(i) => {
            push_plain(
                out,
                "  URL:   http://127.0.0.1:".to_owned().concat(dec_u64(port as u64).as_str()),
            );
            push_labelled(out, "  ID:    ", &i.instance_id);
            push_labelled(out, "  Ver:   ", &i.version);
            push_labelled(out, "  Engine:", &i.engine);
            push_labelled(out, "  Device:", &i.device);
            if let Some(n) = &i.note {
                push_styled(
                    out,
                    "  \x1b[33mNote:  ".to_owned().concat(n.as_str()).concat("\x1b[0m"),
                );
            }
        },
        None => {
            push_styled(
                out,
                "  URL:   http://127.0.0.1:".to_owned().concat(dec_u64(port as u64).as_str()).concat(
                    "  \x1b[31m(unreachable)\x1b[0m",
                ),
            );
        },
    }
    assert(line_models(out@) =~= before + health_lines(port, *info));
}

/// The lines of the server's status.
pub open spec fn server_lines(
    pid: Option<u32>,
    alive: bool,
    port: Option<u16>,
    log: Seq<char>,
    info: Option<HealthInfo>,
) -> Seq<(bool, Seq<char>)> {
    match pid {
        Some(p) => if alive {
            match port {
                Some(q) => seq![
                    (true, "inkentry-server  \x1b[32mrunning\x1b[0m"@),
                    (false, "  PID:   "@ + dec(p as nat)),
                    (false, "  Port:  "@ + dec(q as nat)),
                    (false, "  Log:   "@ + log),
                ] + health_lines(q, info),
                None => seq![
                    (true, "inkentry-server  \x1b[33mrunning\x1b[0m (port unknown)"@),
                    (false, "  PID: "@ + dec(p as nat)),
                ],
            }
        } else {
            seq![
                (
                    true,
                    "inkentry-server  \x1b[31mstopped\x1b[0m (stale pid="@ + dec(p as nat) + ")"@,
                ),
                (false, "  Run `inkentry server start` to start."@),
            ]
        },
        None => seq![
            (true, "inkentry-server  \x1b[31mnot started\x1b[0m"@),
            (false, "  Run `inkentry server start` to start."@),
        ],
    }
}

/// The lines of the server's status.
pub fn cmd_status(
    pid: Option<u32>,
    alive: bool,
    port: Option<u16>,
    log: &str,
    info: &Option<HealthInfo>,
) -> (r: Vec<Line>)
    ensures
        line_models(r@) == server_lines(pid, alive, port, log@, *info),
{
    let mut out: Vec<Line> = Vec::new();
    assert(line_models(out@) =~= Seq::<(bool, Seq<char>)>::empty());
    match pid {
        Some(p) => {
            if alive {
                match port {
                    Some(q) => {
                        push_styled(&mut out, "inkentry-server  \x1b[32mrunning\x1b[0m".to_owned());
                        push_plain(
                            &mut out,
                            "  PID:   ".to_owned().concat(dec_u64(p as u64).as_str()),
                        );
                        push_plain(
                            &mut out,
                            "  Port:  ".to_owned().concat(dec_u64(q as u64).as_str()),
                        );
                        push_plain(&mut out, "  Log:   ".to_owned().concat(log));
                        push_health(&mut out, q, info);
                    },
                    None => {
                        push_styled(
                            &mut out,
                            "inkentry-server  \x1b[33mrunning\x1b[0m (port unknown)".to_owned(),
                        );
                        push_plain(
                            &mut out,
                            "  PID: ".to_owned().concat(dec_u64(p as u64).as_str()),
                        );
                    },
                }
            } else {
                push_styled(
                    &mut out,
                    "inkentry-server  \x1b[31mstopped\x1b[0m (stale pid=".to_owned().concat(
                        dec_u64(p as u64).as_str(),
                    ).concat(")"),
                );
                push_plain(&mut out, "  Run `inkentry server start` to start.".to_owned());
            }
        },
        None => {
            push_styled(&mut out, "inkentry-server  \x1b[31mnot started\x1b[0m".to_owned());
            push_plain(&mut out, "  Run `inkentry server start` to start.".to_owned());
        },
    }
    assert(line_models(out@) =~= server_lines(pid, alive, port, log@, *info));
    out
}

/// The last `n` of some lines, or all of them.
pub open spec fn last_lines(ls: Seq<Seq<char>>, n: int) -> Seq<Seq<char>> {
    if ls.len() <= n {
        ls
    } else {
        ls.skip(ls.len() - n)
    }
}

/// The last lines of the log.
pub fn cmd_logs(content: &str, count: usize) -> (r: Vec<String>)
    ensures
        texts(r@) == last_lines(lines_of(content@), count as int),
{
    let ls = lines(content);
    let ghost all = lines_of(content@);
    assert(all.len() == ls.len());
    let start: usize = if ls.len() > count {
        ls.len() - count
    } else {
        0
    };
    let mut out: Vec<String> = Vec::new();
    let mut i: usize = start;
    assert(texts(out@) =~= all.subrange(start as int, start as int));
    while i < ls.len()
        invariant
            start <= i <= ls.len(),
            texts(ls@) == all,
            texts(out@) == all.subrange(start as int, i as int),
        decreases ls.len() - i,
    {
        proof {
            assert(all[i as int] == ls@[i as int]@);
            assert(all.subrange(start as int, i + 1) =~= all.subrange(
                start as int,
                i as int,
            ).push(all[i as int]));
        }
        push_text(&mut out, ls[i].clone());
        i = i + 1;
    }
    assert(all.subrange(start as int, i as int) =~= last_lines(all, count as int));
    out
}

/// The error where there is no log.
pub fn no_log_error(log: &str) -> (r: String)
    ensures
        r@ == "No log file at "@ + log@
            + ". Start the server first with `inkentry server start`."@,
{
    "No log file at ".to_owned().concat(log).concat(
        ". Start the server first with `inkentry server start`.",
    )
}

// ---- what holds of a server ------------------------------------------------

/// Each part of a record is in the file of its own name.
pub proof fn law_a_record_is_kept_by_name(pid: u32, port: u16, db: Seq<char>)
    ensures
        record_of(pid, port, db).len() == 3,
        record_of(pid, port, db)[0].0 == "server.pid"@,
        record_of(pid, port, db)[1].0 == "server.port"@,
        record_of(pid, port, db)[2].0 == "server.db-path"@,
        dec(pid as nat).is_prefix_of(record_of(pid, port, db)[0].1),
        dec(port as nat).is_prefix_of(record_of(pid, port, db)[1].1),
        db.is_prefix_of(record_of(pid, port, db)[2].1),
{
    let r = record_of(pid, port, db);
    let (p, q) = (dec(pid as nat), dec(port as nat));
    assert(r[0].1.subrange(0, p.len() as int) =~= p);
    assert(r[1].1.subrange(0, q.len() as int) =~= q);
    assert(r[2].1.subrange(0, db.len() as int) =~= db);
}

/// A file that is not there, or in which only whitespace stands, records nothing.
pub proof fn law_a_blank_file_records_nothing(c: Seq<char>)
    ensures
        recorded_pid(None) is None,
        recorded_port(None) is None,
        recorded_text(None) is None,
        crate::text::blank(c) <==> recorded_text(Some(c)) is None,
        crate::text::blank(c) ==> recorded_pid(Some(c)) is None && recorded_port(Some(c)) is None,
{
    crate::text::law_trimming_takes_the_outer_whitespace(c);
}

/// What is asked of a process that is to end: it is waited for once it was asked,
/// killed where it had its time and can be, waited for again once it was killed;
/// and the end tells whether it is gone.
pub proof fn law_a_process_is_asked_then_killed(phase: StopPhase, seen: StopSeen, step: StopStep)
    requires
        stop_goes_on(phase, seen, step),
    ensures
        phase is Asked && seen.error is None ==> step is WaitGraceful,
        phase is Asked && seen.error is Some && seen.alive ==> step is Failed && step->Failed_0@
            == seen.error->0@,
        phase is Asked && seen.error is Some && !seen.alive ==> step == StopStep::Over(true),
        phase is Waited && seen.alive && !seen.exited && seen.can_kill ==> step is ForceKill,
        phase is Waited && seen.alive && !seen.exited && !seen.can_kill ==> step == StopStep::Over(
            false,
        ),
        phase is Waited && (seen.exited || !seen.alive) ==> step == StopStep::Over(true),
        phase is Killed && seen.error is None ==> step is WaitForced,
        phase is Killed && seen.error is Some ==> step is Failed && step->Failed_0@
            == seen.error->0@,
        phase is WaitedAgain ==> step == StopStep::Over(seen.exited || !seen.alive),
{
}

/// A recorded server that lives and answers is used, on the port it answers on; one
/// that lives and hangs is ended; a process that is not ours is forgotten; and where
/// none is recorded or none lives, one is started.
pub proof fn law_a_server_that_answers_is_used(
    pid: Option<u32>,
    alive: bool,
    running: RunningServer,
)
    ensures
        auto_start_of(pid, alive, running) is Start <==> pid is None || !alive,
        auto_start_of(pid, alive, running) is Use <==> pid is Some && alive && running is Healthy,
        auto_start_of(pid, alive, running) is Use ==> auto_start_of(pid, alive, running)->port
            == running->port,
        auto_start_of(pid, alive, running) is Reclaim <==> pid is Some && alive && running
            is HungOurs,
        auto_start_of(pid, alive, running) is Reclaim ==> auto_start_of(pid, alive, running)->pid
            == pid->0,
        auto_start_of(pid, alive, running) is Forget <==> pid is Some && alive && running
            is Foreign,
        start_ends_process(pid, alive, running) <==> pid is Some && alive && running is HungOurs,
        stop_ends_process(pid, alive, running) <==> pid is Some && alive && (running is HungOurs
            || running is Healthy),
{
}

/// A start clears what is in the way, finds the program and a free port, opens the
/// log, settles the model, starts the server, writes its record, drops the id of the
/// one before, and awaits the answer last.
pub proof fn law_a_start_takes_its_steps_in_order(end_process: bool, remove_record: bool)
    ensures
        ({
            let s = launch_steps(end_process, remove_record);
            let n = s.len();
            &&& n == 8 + (if end_process {
                1int
            } else {
                0
            }) + (if remove_record {
                1int
            } else {
                0
            })
            &&& end_process ==> s[0] is EndProcess
            &&& remove_record ==> s[n - 9] is RemoveRecord
            &&& s[n - 8] is FindBinary
            &&& s[n - 7] is ClaimPort
            &&& s[n - 6] is OpenLog
            &&& s[n - 5] is ResolveModel
            &&& s[n - 4] is Spawn
            &&& s[n - 3] is WriteRecord
            &&& s[n - 2] is DropInstanceId
            &&& s[n - 1] is AwaitHealth
        }),
{
}

/// A start ends with an error wherever it could not do what the server needs; what
/// only tidies up may fail, and so may ending a process for a start nobody asked
/// for. The error tells the cause.
pub proof fn law_only_tidying_may_fail(
    step: LaunchStep,
    on_request: bool,
    subject: Seq<char>,
    cause: Seq<char>,
)
    ensures
        launch_failure_ignored(step, on_request) <==> step is RemoveRecord || step is DropInstanceId
            || (step is EndProcess && !on_request),
        cause.is_suffix_of(launch_failure(step, subject, cause)),
        !(step is WriteRecord) ==> launch_failure(step, subject, cause) == cause,
        step is WriteRecord ==> occurs(launch_failure(step, subject, cause), subject),
{
    let t = launch_failure(step, subject, cause);
    assert(t.subrange(t.len() - cause.len(), t.len() as int) =~= cause);
    if step is WriteRecord {
        crate::text::lemma_occurs_between("writing "@, subject, ": "@ + cause);
        assert(t =~= "writing "@ + subject + (": "@ + cause));
    }
}

/// A server is given its port and its database, and an address and a model for
/// language where there are any, each behind the flag of its own name.
pub proof fn law_a_server_is_given_its_settings(
    db: Seq<char>,
    port: nat,
    url: Option<Seq<char>>,
    model: Option<Seq<char>>,
)
    ensures
        ({
            let a = daemon_args(db, port, url, model);
            &&& a[2] == "--port"@ && a[3] == dec(port)
            &&& a[4] == "--db"@ && a[5] == db
            &&& url is Some ==> a[6] == "--llm-url"@ && a[7] == url->0
            &&& model is Some ==> a[a.len() - 2] == "--llm-model"@ && a[a.len() - 1] == model->0
            &&& a.len() == 6 + (if url is Some {
                2int
            } else {
                0
            }) + (if model is Some {
                2int
            } else {
                0
            })
        }),
{
}

/// What is said of a start names the process, the port and the log.
#[verifier::rlimit(60)]
pub proof fn law_a_start_names_its_process(
    outcome: StartOutcome,
    pid: u32,
    port: u16,
    log: Seq<char>,
)
    ensures
        outcome is Ready ==> start_lines(outcome, pid, port, log).len() == 2,
        !(outcome is Ready) ==> start_lines(outcome, pid, port, log).len() == 1,
        log.is_suffix_of(start_lines(outcome, pid, port, log).last()),
        occurs(start_lines(outcome, pid, port, log)[0], "pid="@ + dec(pid as nat)),
        outcome is Ready ==> occurs(
            start_lines(outcome, pid, port, log)[0],
            "port="@ + dec(port as nat),
        ),
        !(outcome is Ready) ==> occurs(
            start_lines(outcome, pid, port, log)[0],
            "port "@ + dec(port as nat),
        ),
{
    let ls = start_lines(outcome, pid, port, log);
    let l = ls.last();
    let p = "pid="@ + dec(pid as nat);
    let q = "port="@ + dec(port as nat);
    let w = "port "@ + dec(port as nat);
    assert(l.subrange(l.len() - log.len(), l.len() as int) =~= log);
    reveal_strlit("pid=");
    reveal_strlit("port=");
    reveal_strlit("port ");
    match outcome {
        StartOutcome::Ready => {
            reveal_strlit("(pid=");
            reveal_strlit(", port=");
            reveal_strlit(")");
            assert("(pid="@ =~= seq!['('] + "pid="@);
            assert(", port="@ =~= seq![',', ' '] + "port="@);
            let front = "inkentry-server started "@ + seq!['('];
            let gap = seq![',', ' '];
            let back = ")"@ + "."@;
            assert(ls[0] =~= front + p + (gap + q + back));
            crate::text::lemma_occurs_between(front, p, gap + q + back);
            assert(ls[0] =~= (front + p + gap) + q + back);
            crate::text::lemma_occurs_between(front + p + gap, q, back);
        },
        StartOutcome::Exited(status) => {
            reveal_strlit("warning: inkentry-server (pid=");
            reveal_strlit("warning: inkentry-server (");
            reveal_strlit(") instead of serving port ");
            reveal_strlit(") instead of serving ");
            assert("warning: inkentry-server (pid="@ =~= "warning: inkentry-server ("@ + "pid="@);
            assert(") instead of serving port "@ =~= ") instead of serving "@ + "port "@);
            let mid = ") exited immediately ("@ + status@ + ") instead of serving "@;
            let back = ". It rejected its own startup configuration; the reason is the last line of the log: "@
                + log;
            let front = "warning: inkentry-server ("@;
            assert(ls[0] =~= front + p + (mid + w + back));
            crate::text::lemma_occurs_between(front, p, mid + w + back);
            assert(ls[0] =~= (front + p + mid) + w + back);
            crate::text::lemma_occurs_between(front + p + mid, w, back);
        },
        StartOutcome::TimedOut => {
            reveal_strlit("warning: inkentry-server process started (pid=");
            reveal_strlit("warning: inkentry-server process started (");
            reveal_strlit(") but /v1/health did not respond on port ");
            reveal_strlit(") but /v1/health did not respond on ");
            assert("warning: inkentry-server process started (pid="@
                =~= "warning: inkentry-server process started ("@ + "pid="@);
            assert(") but /v1/health did not respond on port "@
                =~= ") but /v1/health did not respond on "@ + "port "@);
            let mid = ") but /v1/health did not respond on "@;
            let back = " within 30 s. A firewall may be blocking the local server (allow it, e.g. accept the Windows Defender Firewall prompt). Check the log: "@
                + log;
            let front = "warning: inkentry-server process started ("@;
            assert(ls[0] =~= front + p + (mid + w + back));
            crate::text::lemma_occurs_between(front, p, mid + w + back);
            assert(ls[0] =~= (front + p + mid) + w + back);
            crate::text::lemma_occurs_between(front + p + mid, w, back);
        },
    }
}

/// A status shows the process, the port and the log of a server that runs, what it
/// says of itself where it answers, and how to start one where none runs.
#[verifier::rlimit(60)]
pub proof fn law_a_status_shows_what_runs(
    pid: Option<u32>,
    alive: bool,
    port: Option<u16>,
    log: Seq<char>,
    info: Option<HealthInfo>,
)
    ensures
        pid is Some && alive && port is Some ==> ({
            let ls = server_lines(pid, alive, port, log, info);
            &&& ls[0] == (true, "inkentry-server  \x1b[32mrunning\x1b[0m"@)
            &&& ls[1] == (false, "  PID:   "@ + dec(pid->0 as nat))
            &&& ls[2] == (false, "  Port:  "@ + dec(port->0 as nat))
            &&& ls[3] == (false, "  Log:   "@ + log)
            &&& info is Some ==> ls[4] == (
                false,
                "  URL:   http://127.0.0.1:"@ + dec(port->0 as nat),
            )
            &&& info is Some && info->0.instance_id is Some ==> ls[5] == (
                false,
                "  ID:    "@ + info->0.instance_id->0@,
            )
            &&& info is Some ==> ls.len() == 5 + (if info->0.instance_id is Some {
                1int
            } else {
                0
            }) + (if info->0.version is Some {
                1int
            } else {
                0
            }) + (if info->0.engine is Some {
                1int
            } else {
                0
            }) + (if info->0.device is Some {
                1int
            } else {
                0
            }) + (if info->0.note is Some {
                1int
            } else {
                0
            })
            &&& info is Some && info->0.note is Some ==> ls.last() == (
                true,
                "  \x1b[33mNote:  "@ + info->0.note->0@ + "\x1b[0m"@,
            )
            &&& info is None ==> ls.len() == 5 && ls[4].0
        }),
        pid is None || !alive ==> server_lines(pid, alive, port, log, info).len() == 2
            && server_lines(pid, alive, port, log, info)[1] == (
            false,
            "  Run `inkentry server start` to start."@,
        ),
        pid is Some && !alive ==> server_lines(pid, alive, port, log, info)[0] == (
            true,
            "inkentry-server  \x1b[31mstopped\x1b[0m (stale pid="@ + dec(pid->0 as nat) + ")"@,
        ),
        pid is None ==> server_lines(pid, alive, port, log, info)[0] == (
            true,
            "inkentry-server  \x1b[31mnot started\x1b[0m"@,
        ),
        pid is Some && alive && port is None ==> server_lines(pid, alive, port, log, info) == seq![
            (true, "inkentry-server  \x1b[33mrunning\x1b[0m (port unknown)"@),
            (false, "  PID: "@ + dec(pid->0 as nat)),
        ],
{
}

/// The last lines of a log end it, and are as many as were asked for or there are.
pub proof fn law_the_last_lines_end_the_log(ls: Seq<Seq<char>>, n: int)
    requires
        n >= 0,
    ensures
        last_lines(ls, n).is_suffix_of(ls),
        last_lines(ls, n).len() == if ls.len() < n {
            ls.len() as int
        } else {
            n
        },
{
    let r = last_lines(ls, n);
    assert(ls.subrange(ls.len() - r.len(), ls.len() as int) =~= r);
}

/// Files and variables are what they are named and what they hold.
pub proof fn law_files_and_variables_are_what_they_hold(
    files: Seq<StateFile>,
    env: Seq<EnvChange>,
    i: int,
)
    ensures
        files_of(files).len() == files.len(),
        0 <= i < files.len() ==> files_of(files)[i].0 == files[i].name@ && files_of(files)[i].1
            == files[i].contents@,
        env_pairs(env).len() == env.len(),
        0 <= i < env.len() ==> env_pairs(env)[i].0 == env[i].name@ && env_pairs(env)[i].1
            == opt_text(env[i].value),
{
}

/// The errors of a server name the process, the files and the databases that they
/// are about: the one it runs on first, and then the one that was asked for.
#[verifier::rlimit(60)]
pub proof fn law_an_error_names_what_it_is_about(
    pid: u32,
    port: u16,
    running_db: Seq<char>,
    db: Seq<char>,
    state_dir: Seq<char>,
    why: Seq<char>,
)
    ensures
        process_text(pid, port) == "(pid="@ + dec(pid as nat) + ", port="@ + dec(port as nat)
            + ")"@,
        crate::text::begins(
            other_database_text(pid, port, running_db, db),
            "a inkentry-server is already running "@ + process_text(pid, port) + " against "@
                + running_db,
        ),
        crate::text::ends(
            other_database_text(pid, port, running_db, db),
            "before starting one against "@ + db + "."@,
        ),
        crate::text::begins(no_record_text(state_dir), "no server.pid in "@ + state_dir),
        crate::text::begins(
            refused_text(pid, running_db, state_dir),
            "refusing to stop pid="@ + dec(pid as nat),
        ),
        occurs(refused_text(pid, running_db, state_dir), running_db),
        crate::text::begins(
            untrusted_text(port, state_dir, why),
            "warning: the process answering 127.0.0.1:"@ + dec(port as nat)
                + " is not the server recorded in "@ + state_dir + ": "@ + why,
        ),
{
    let o = other_database_text(pid, port, running_db, db);
    let a = "a inkentry-server is already running "@ + process_text(pid, port) + " against "@
        + running_db;
    assert(o.subrange(0, a.len() as int) =~= a);
    reveal_strlit(". Stop it first with `inkentry server stop` before starting one against ");
    reveal_strlit(". Stop it first with `inkentry server stop` ");
    reveal_strlit("before starting one against ");
    assert(". Stop it first with `inkentry server stop` before starting one against "@
        =~= ". Stop it first with `inkentry server stop` "@ + "before starting one against "@);
    let b = "before starting one against "@ + db + "."@;
    assert(o.subrange(o.len() - b.len(), o.len() as int) =~= b);
    let n = "no server.pid in "@ + state_dir;
    assert(no_record_text(state_dir).subrange(0, n.len() as int) =~= n);
    let r = refused_text(pid, running_db, state_dir);
    let head = "refusing to stop pid="@ + dec(pid as nat);
    assert(r.subrange(0, head.len() as int) =~= head);
    let front = head + ": it does not look like the inkentry-server recorded in "@;
    let rest = ". If the server crashed and this PID was reused by an unrelated process, remove the stale state files manually (under "@
        + state_dir + ") and retry."@;
    crate::text::lemma_occurs_between(front, running_db, rest);
    assert(r =~= front + running_db + rest);
    let u = "warning: the process answering 127.0.0.1:"@ + dec(port as nat)
        + " is not the server recorded in "@ + state_dir + ": "@ + why;
    assert(untrusted_text(port, state_dir, why).subrange(0, u.len() as int) =~= u);
}

/// The step that is due is the first that is not done, until all are or one failed.
pub proof fn law_the_next_step_of_a_start_is_due(run: LaunchRun)
    ensures
        run.due() is Some <==> run.failed is None && run.done < run.steps@.len(),
        run.due() is Some ==> run.due()->0 == run.steps@[run.done as int],
{
}

} // verus!
