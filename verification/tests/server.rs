use inkentry_cli::server::{
    apply_llm_child_env,
    build_daemon_args, classify_running_server, cleanup_state_files, cmd_logs, cmd_start,
    cmd_status, cmd_stop, ensure_server_running, folded_listing_names_server, health_url,
    listing_names_server, missing_binary_error, no_log_error, port_retry, port_taken_error,
    probe_health, probe_health_verbose, probe_local_relay_port, read_db_path, read_instance_id,
    read_pid, read_port, reclaim_failed, record_instance_id, start_message, start_record,
    stop_result, wait_for_health, which_inkentry_server, AutoStart, EmbedderHealth, HealthBody,
    HealthWait, LlmSpawn, RelayPort, RunningServer, StartOutcome, StartStep, LaunchRun,
    LaunchStep, StopDecision, StopPhase, StopSeen, StopStep, terminate_and_wait,
};

#[test]
fn read_pid_returns_none_for_missing_file() {
    assert!(read_pid(None).is_none());
}

#[test]
fn read_pid_round_trips() {
    assert_eq!(read_pid(Some("12345\n")), Some(12345));
}

#[test]
fn read_port_round_trips() {
    assert_eq!(read_port(Some("4655\n")), Some(4655));
}

#[test]
fn read_db_path_round_trips() {
    assert_eq!(
        read_db_path(Some("/some/where/server.db\n")).as_deref(),
        Some("/some/where/server.db")
    );
}

#[test]
fn read_db_path_none_when_missing_or_empty() {
    assert!(read_db_path(None).is_none());
    assert!(read_db_path(Some("\n")).is_none());
}

#[test]
fn numbers_that_do_not_fit_or_are_none_are_not_read() {
    assert_eq!(read_port(Some("65535")), Some(65535));
    assert_eq!(read_port(Some("65536")), None);
    assert_eq!(read_pid(Some("4294967295")), Some(4294967295));
    assert_eq!(read_pid(Some("4294967296")), None);
    assert_eq!(read_pid(Some(" +7\r\n")), Some(7));
    assert_eq!(read_pid(Some("-7")), None);
    assert_eq!(read_pid(Some("1 2")), None);
    assert_eq!(read_pid(Some("")), None);
    assert_eq!(read_pid(Some("+")), None);
    assert_eq!(read_instance_id(Some(" id \n")).as_deref(), Some("id"));
}

#[test]
fn a_record_reads_back() {
    let files = start_record(77, 4655, "/x/server.db");
    assert_eq!(
        files.iter().map(|f| f.name.as_str()).collect::<Vec<_>>(),
        vec!["server.pid", "server.port", "server.db-path"]
    );
    assert_eq!(read_pid(Some(&files[0].contents)), Some(77));
    assert_eq!(read_port(Some(&files[1].contents)), Some(4655));
    assert_eq!(read_db_path(Some(&files[2].contents)).as_deref(), Some("/x/server.db"));
    let id = record_instance_id(Some("abc")).unwrap();
    assert_eq!((id.name.as_str(), id.contents.as_str()), ("server.instance_id", "abc\n"));
    assert!(record_instance_id(None).is_none());
}

#[test]
fn cleanup_removes_every_recorded_state_file() {
    let gone = cleanup_state_files();
    for f in start_record(1, 2, "d") {
        assert!(gone.contains(&f.name), "{} survived cleanup", f.name);
    }
    assert!(gone.contains(&record_instance_id(Some("x")).unwrap().name));
    assert!(!gone.contains(&"server.log".to_string()));
}

fn args_str(llm: &LlmSpawn, port: u16, db: &str) -> Vec<String> {
    build_daemon_args(db, port, llm)
}

#[test]
fn spawn_daemon_args_bind_loopback() {
    let args_str = args_str(&LlmSpawn::default(), 4655, "/tmp/test.db");

    assert!(
        args_str.contains(&"--host".to_string()),
        "daemon must bind loopback: --host flag missing from daemon args: {args_str:?}"
    );

    let host_idx = args_str
        .iter()
        .position(|a| a == "--host")
        .expect("--host must be present");
    let host_value = args_str
        .get(host_idx + 1)
        .expect("--host must be followed by a value");
    assert_eq!(
        host_value, "127.0.0.1",
        "daemon must bind 127.0.0.1 only, got {host_value:?}"
    );
}

#[test]
fn spawn_daemon_args_do_not_bind_wildcard() {
    let args_str = args_str(&LlmSpawn::default(), 4655, "/tmp/test.db");

    assert!(
        !args_str.contains(&"0.0.0.0".to_string()),
        "daemon args must not contain 0.0.0.0 (wildcard bind): {args_str:?}"
    );
}

#[test]
fn spawn_daemon_args_include_port() {
    let port: u16 = 7780;
    let args_str = args_str(&LlmSpawn::default(), port, "/tmp/test.db");

    let port_idx = args_str
        .iter()
        .position(|a| a == "--port")
        .expect("--port must be present in daemon args");
    let port_value = args_str
        .get(port_idx + 1)
        .expect("--port must be followed by a value");
    assert_eq!(
        port_value,
        &port.to_string(),
        "daemon arg --port value should match requested port"
    );
}

#[test]
fn spawn_daemon_args_include_db_path() {
    let db = "/tmp/server.db";
    let args_str = args_str(&LlmSpawn::default(), 4655, db);

    let db_idx = args_str
        .iter()
        .position(|a| a == "--db")
        .expect("--db must be present in daemon args");
    let db_value = args_str
        .get(db_idx + 1)
        .expect("--db must be followed by a value");
    assert_eq!(
        db_value, db,
        "daemon arg --db value should match supplied db path"
    );
}

#[test]
fn spawn_daemon_args_without_llm_are_host_port_db_only() {
    let db = "/tmp/server.db";
    let args_str = args_str(&LlmSpawn::default(), 4655, db);

    assert_eq!(
        args_str,
        vec![
            "--host".to_string(),
            "127.0.0.1".to_string(),
            "--port".to_string(),
            "4655".to_string(),
            "--db".to_string(),
            db.to_string(),
        ]
    );
}

fn llm_with_key() -> LlmSpawn {
    LlmSpawn {
        url: Some("https://gateway.example".to_string()),
        model: Some("gpt-oss".to_string()),
        key: Some("sk-llm-secret".to_string()),
    }
}

#[test]
fn spawn_daemon_args_carry_the_llm_url_and_model_but_never_the_key() {
    let args_str = args_str(&llm_with_key(), 4655, "/tmp/server.db");

    assert!(args_str.contains(&"--llm-url".to_string()));
    assert!(args_str.contains(&"https://gateway.example".to_string()));
    assert!(args_str.contains(&"--llm-model".to_string()));
    assert!(args_str.contains(&"gpt-oss".to_string()));
    assert!(
        args_str.iter().all(|a| !a.contains("sk-llm-secret")),
        "the LLM credential must never reach the process table: {args_str:?}"
    );
}

#[test]
fn the_key_travels_in_the_environment() {
    let env = apply_llm_child_env(&llm_with_key());
    assert!(env
        .iter()
        .any(|e| e.name == "INKENTRY_LLM_KEY" && e.value.as_deref() == Some("sk-llm-secret")));
    let cleared = apply_llm_child_env(&LlmSpawn::default());
    assert_eq!(cleared.len(), 3);
    assert!(cleared.iter().all(|e| e.value.is_none()));
}

#[test]
fn listing_names_a_real_server_process() {
    assert!(listing_names_server(
        "/usr/local/bin/inkentry-server --port 4655"
    ));
}

#[test]
fn listing_does_not_name_a_pre_rename_server() {
    assert!(!listing_names_server(
        "/usr/local/bin/spelunk-server --port 4655"
    ));
}

#[test]
fn listing_names_an_unrelated_process_carrying_the_string() {
    assert!(listing_names_server(
        "python3 -c import time; time.sleep(8) inkentry-server"
    ));
}

#[test]
fn listing_names_server_case_insensitively_on_windows() {
    assert!(folded_listing_names_server(
        "\"INKENTRY-SERVER.EXE\",\"4711\",\"Console\",\"1\",\"12,345 K\""
    ));
}

#[test]
fn listing_is_case_sensitive_on_unix() {
    assert!(!listing_names_server("/usr/local/bin/INKENTRY-SERVER"));
}

#[test]
fn a_process_is_told_by_its_answer_and_then_by_its_name() {
    assert_eq!(
        classify_running_server(Some(1), true, false),
        RunningServer::Healthy { port: 1 }
    );
    assert_eq!(classify_running_server(Some(1), false, true), RunningServer::HungOurs);
    assert_eq!(classify_running_server(None, true, true), RunningServer::HungOurs);
    assert_eq!(classify_running_server(None, false, false), RunningServer::Foreign);
}

#[test]
fn a_foreign_process_is_left_alone() {
    let f = RunningServer::Foreign;
    assert_eq!(ensure_server_running(Some(9), true, f), AutoStart::Forget);
    assert!(matches!(cmd_start(Some(9), true, f, None, "d"), StartStep::Forget));
    match cmd_stop(Some(9), true, f, "/s/server.pid", "/s") {
        StopDecision::Refused(e) => {
            assert!(e.starts_with("refusing to stop pid=9: "));
            assert!(e.contains("(under /s) and retry."));
        }
        _ => panic!("a foreign process must be refused"),
    }
}

#[test]
fn a_hung_server_is_ended_before_another_starts() {
    let h = RunningServer::HungOurs;
    assert_eq!(ensure_server_running(Some(9), true, h), AutoStart::Reclaim { pid: 9 });
    assert!(matches!(cmd_start(Some(9), true, h, None, "d"), StartStep::Reclaim { pid: 9, message }
        if message == "Reclaiming unresponsive inkentry-server (pid=9)..."));
    assert!(matches!(
        cmd_stop(Some(9), true, h, "p", "s"),
        StopDecision::Terminate { pid: 9 }
    ));
    assert!(reclaim_failed(9).contains("survived SIGTERM and SIGKILL"));
}

#[test]
fn a_running_server_is_used_unless_its_database_is_another() {
    let r = RunningServer::Healthy { port: 4655 };
    assert_eq!(ensure_server_running(Some(9), true, r), AutoStart::Use { port: 4655 });
    assert!(matches!(cmd_start(Some(9), true, r, None, "d"), StartStep::AlreadyRunning(s)
        if s == "inkentry-server is already running (pid=9, port=4655)."));
    assert!(matches!(cmd_start(Some(9), true, r, Some("/o"), "/d"), StartStep::OtherDatabase(e)
        if e == "a inkentry-server is already running (pid=9, port=4655) against /o. Stop it first with `inkentry server stop` before starting one against /d."));
    assert!(matches!(cmd_start(Some(9), false, r, None, "d"), StartStep::Forget));
    assert!(matches!(cmd_start(None, false, r, None, "d"), StartStep::Start));
    assert_eq!(ensure_server_running(Some(9), false, r), AutoStart::Start);
}

#[test]
fn stopping_without_a_record_or_a_process() {
    let r = RunningServer::HungOurs;
    assert!(matches!(cmd_stop(None, false, r, "p", "/s"), StopDecision::NoRecord(e)
        if e.starts_with("no server.pid in /s ")));
    assert!(matches!(cmd_stop(Some(3), false, r, "p", "/s"), StopDecision::NotRunning(s)
        if s == "inkentry-server (pid=3) is not running. Cleaning up state files."));
    assert_eq!(stop_result(3, true).unwrap(), "inkentry-server stopped.");
    assert!(stop_result(3, false).unwrap_err().contains("still running"));
}

fn seen(error: Option<&str>, exited: bool, alive: bool, can_kill: bool) -> StopSeen {
    StopSeen { error: error.map(str::to_string), exited, alive, can_kill }
}

#[test]
fn ending_a_process_goes_from_asking_to_killing() {
    let at = |p, e, x, a, k| terminate_and_wait(p, &seen(e, x, a, k));
    let (asked, waited) = (StopPhase::Asked, StopPhase::Waited);
    assert!(matches!(at(asked, None, false, true, true), StopStep::WaitGraceful));
    assert!(matches!(at(asked, Some("e"), false, false, true), StopStep::Over(true)));
    assert!(matches!(at(asked, Some("e"), false, true, true), StopStep::Failed(e) if e == "e"));
    assert!(matches!(at(waited, None, true, false, true), StopStep::Over(true)));
    assert!(matches!(at(waited, None, false, true, true), StopStep::ForceKill));
    assert!(matches!(at(waited, None, false, true, false), StopStep::Over(false)));
    assert!(matches!(at(waited, None, false, false, true), StopStep::Over(true)));
    assert!(matches!(at(StopPhase::Killed, None, false, true, true), StopStep::WaitForced));
    assert!(matches!(at(StopPhase::Killed, Some("k"), false, true, true), StopStep::Failed(_)));
    assert!(matches!(at(StopPhase::WaitedAgain, None, false, true, true), StopStep::Over(false)));
    assert!(matches!(at(StopPhase::WaitedAgain, None, false, false, true), StopStep::Over(true)));
}

#[test]
fn a_start_ends_what_hangs_before_it_spawns() {
    let mut run = LaunchRun::along(AutoStart::Reclaim { pid: 1 }).unwrap();
    let mut steps = Vec::new();
    while let Some(step) = run.current() {
        steps.push(step);
        run.advance();
    }
    assert_eq!(
        steps,
        vec![
            LaunchStep::EndProcess,
            LaunchStep::RemoveRecord,
            LaunchStep::FindBinary,
            LaunchStep::ClaimPort,
            LaunchStep::OpenLog,
            LaunchStep::ResolveModel,
            LaunchStep::Spawn,
            LaunchStep::WriteRecord,
            LaunchStep::DropInstanceId,
            LaunchStep::AwaitHealth,
        ]
    );
    assert!(LaunchRun::along(AutoStart::Use { port: 1 }).is_none());
    assert!(LaunchRun::after_request(&StartStep::AlreadyRunning(String::new())).is_none());
    assert!(LaunchRun::after_request(&StartStep::OtherDatabase(String::new())).is_none());
    let forget = LaunchRun::after_request(&StartStep::Forget).unwrap();
    assert_eq!(forget.current(), Some(LaunchStep::RemoveRecord));
}

#[test]
fn a_start_fails_where_the_server_would_not_be_found() {
    let reclaim = StartStep::Reclaim { pid: 1, message: String::new() };
    let mut asked = LaunchRun::after_request(&reclaim).unwrap();
    asked.fail("", &reclaim_failed(1));
    assert!(asked.failed.unwrap().contains("survived SIGTERM"));
    let mut along = LaunchRun::along(AutoStart::Reclaim { pid: 1 }).unwrap();
    along.fail("", "still there");
    assert_eq!(along.current(), Some(LaunchStep::RemoveRecord));
    let mut start = LaunchRun::after_request(&StartStep::Start).unwrap();
    while start.current() != Some(LaunchStep::WriteRecord) {
        start.advance();
    }
    start.fail("server.pid", "disk full");
    assert_eq!(start.failed.as_deref(), Some("writing server.pid: disk full"));
    assert_eq!(start.current(), None);
}

#[test]
fn a_port_is_tried_ten_times() {
    assert_eq!((0..20).filter(|a| port_retry(*a)).count(), 9);
    assert!(port_taken_error(80).starts_with("port 80 is already in use"));
}

#[test]
fn a_start_is_told_by_how_it_ended() {
    assert_eq!(
        start_message(&StartOutcome::Ready, 5, 6, "/l"),
        vec!["inkentry-server started (pid=5, port=6).", "  Log: /l"]
    );
    let exited = start_message(&StartOutcome::Exited("exit status: 2".to_string()), 5, 6, "/l");
    assert!(exited[0].contains("exited immediately (exit status: 2)"));
    assert!(!exited[0].contains("irewall"));
    assert!(start_message(&StartOutcome::TimedOut, 5, 6, "/l")[0].contains("firewall"));
    assert_eq!(wait_for_health(true, true), HealthWait::Ready);
    assert_eq!(wait_for_health(false, true), HealthWait::Exited);
    assert_eq!(wait_for_health(false, false), HealthWait::Again);
}

#[test]
fn the_program_beside_this_one_goes_first() {
    assert_eq!(which_inkentry_server(Some("/a"), Some("/b")).unwrap(), "/a");
    assert_eq!(which_inkentry_server(None, Some("/b")).unwrap(), "/b");
    assert!(which_inkentry_server(None, None).unwrap_err().contains("--bin <path>"));
    assert_eq!(missing_binary_error("/x"), "inkentry-server binary not found at /x");
}

#[test]
fn a_blank_id_is_none() {
    assert_eq!(probe_health(Some("  ")), None);
    assert_eq!(probe_health(Some(" a ")).as_deref(), Some(" a "));
    assert_eq!(probe_health(None), None);
    assert_eq!(health_url(4655), "http://127.0.0.1:4655/v1/health");
}

#[test]
fn a_relay_must_be_the_recorded_server() {
    assert!(matches!(probe_local_relay_port(Some(7), true, None, "/s"), RelayPort::Usable(7)));
    assert!(matches!(probe_local_relay_port(None, true, None, "/s"), RelayPort::Silent));
    assert!(matches!(probe_local_relay_port(Some(7), false, None, "/s"), RelayPort::Silent));
    assert!(matches!(probe_local_relay_port(Some(7), true, Some("no id"), "/s"),
        RelayPort::Untrusted(w) if w.contains("recorded in /s: no id. No memory entries")));
}

fn body(state: &str) -> HealthBody {
    HealthBody {
        instance_id: Some("id".to_string()),
        version: None,
        embedder: Some(EmbedderHealth {
            state: Some(state.to_string()),
            detail: Some("join the render group".to_string()),
            engine: Some("cpu".to_string()),
            device: None,
        }),
    }
}

#[test]
fn a_detail_is_a_hint_only_when_ready() {
    assert_eq!(
        probe_health_verbose(&body("ready")).note.as_deref(),
        Some("join the render group")
    );
    assert_eq!(probe_health_verbose(&body("unavailable")).note, None);
}

#[test]
fn the_status_of_a_server() {
    let info = Some(probe_health_verbose(&body("ready")));
    let lines = cmd_status(Some(5), true, Some(6), "/l", &info);
    let texts: Vec<&str> = lines.iter().map(|l| l.text.as_str()).collect();
    assert_eq!(
        texts,
        vec![
            "inkentry-server  \x1b[32mrunning\x1b[0m",
            "  PID:   5",
            "  Port:  6",
            "  Log:   /l",
            "  URL:   http://127.0.0.1:6",
            "  ID:    id",
            "  Engine:cpu",
            "  \x1b[33mNote:  join the render group\x1b[0m",
        ]
    );
    let silent = cmd_status(Some(5), true, Some(6), "/l", &None);
    assert!(silent.last().unwrap().text.contains("(unreachable)"));
    assert!(cmd_status(Some(5), true, None, "/l", &None)[0].text.contains("port unknown"));
    assert!(cmd_status(Some(5), false, None, "/l", &None)[0].text.contains("stale pid=5"));
    assert!(cmd_status(None, false, None, "/l", &None)[0].text.contains("not started"));
}

#[test]
fn the_last_lines_of_a_log() {
    assert_eq!(cmd_logs("a\nb\r\nc\n", 2), vec!["b", "c"]);
    assert_eq!(cmd_logs("a\nb", 5), vec!["a", "b"]);
    assert_eq!(cmd_logs("a\nb", 0), Vec::<String>::new());
    assert!(no_log_error("/l").starts_with("No log file at /l."));
}
