use llama_recipe_manager::process::build_command_from_words;
use llama_recipe_manager::db::Settings;
use llama_recipe_manager::process::{
    blocking_stop_step, build_command, cancel_start, claim_start, expand_tilde, push_log_line,
    request_stop, should_escalate, status_of, watch_step, BlockingStep, ChildPoll,
    LogLine, RunState, WatchStep, MAX_LOG_LINES,
};

fn strings(v: &[&str]) -> Vec<String> {
    v.iter().map(|s| s.to_string()).collect()
}

#[test]
fn tilde_expands_only_at_the_start() {
    assert_eq!(expand_tilde("~/Models", Some("/home/u")), "/home/u/Models");
    assert_eq!(expand_tilde("~user/x", Some("/home/u")), "~user/x");
    assert_eq!(expand_tilde("/a/~/b", Some("/home/u")), "/a/~/b");
    assert_eq!(expand_tilde("~/Models", None), "~/Models");
}

#[test]
fn command_from_default_settings() {
    let s = Settings::default();
    let (program, args) = build_command(
        "llama-server --ctx-size 4096 --mmproj-offload",
        Ok("/m/a.gguf".to_string()),
        "",
        Ok(String::new()),
        &s,
        Some("/home/u"),
    )
    .expect("command");
    assert_eq!(program, "llama-server");
    assert_eq!(
        args,
        strings(&[
            "--ctx-size", "4096", "--mmproj-offload", "-m", "/m/a.gguf", "--host", "127.0.0.1",
            "--port", "8080", "--metrics",
        ])
    );
}

#[test]
fn command_with_every_setting() {
    let mut s = Settings::default();
    s.llama_server_path = "~/bin/llama-server".to_string();
    s.api_key = "k".to_string();
    s.ssl_cert_file = "~/c.pem".to_string();
    s.ssl_key_file = "/k.pem".to_string();
    s.webui_enabled = false;
    s.metrics_enabled = false;
    s.slots_enabled = false;
    s.api_prefix = "/v".to_string();
    s.timeout_secs = 30;
    s.log_verbosity = 5;
    let (program, args) = build_command(
        "/opt/llama-server -c '8 k' ~/x",
        Ok("/m/a.gguf".to_string()),
        "p.gguf",
        Ok("/m/p.gguf".to_string()),
        &s,
        Some("/h"),
    )
    .expect("command");
    assert_eq!(program, "/h/bin/llama-server");
    assert_eq!(
        args,
        strings(&[
            "-c", "8 k", "/h/x", "-m", "/m/a.gguf", "--mmproj", "/m/p.gguf", "--host",
            "127.0.0.1", "--port", "8080", "--api-key", "k", "--ssl-cert-file", "/h/c.pem",
            "--ssl-key-file", "/k.pem", "--no-webui", "--no-slots", "--api-prefix", "/v",
            "--timeout", "30", "--log-verbosity", "5",
        ])
    );
}

#[test]
fn command_errors() {
    let s = Settings::default();
    assert_eq!(
        build_command("-c 'x", Ok("m".to_string()), "", Ok(String::new()), &s, None),
        Err("Invalid command: missing closing quote".to_string())
    );
    assert_eq!(
        build_command("-c 1", Err("bad model".to_string()), "", Ok(String::new()), &s, None),
        Err("bad model".to_string())
    );
    assert_eq!(
        build_command("-c 1", Ok("m".to_string()), "p", Err("bad mmproj".to_string()), &s, None),
        Err("bad mmproj".to_string())
    );
    // An mmproj that is not asked for is not looked at.
    assert!(build_command("-c 1", Ok("m".to_string()), "", Err("unused".to_string()), &s, None).is_ok());
}

fn line(n: usize) -> LogLine {
    LogLine { recipe_id: "r".to_string(), line: format!("line {}", n), is_stderr: n % 2 == 0 }
}

#[test]
fn log_keeps_the_latest_lines() {
    let mut logs = Vec::new();
    for n in 0..MAX_LOG_LINES + 5 {
        push_log_line(&mut logs, line(n));
    }
    assert_eq!(logs.len(), MAX_LOG_LINES);
    assert_eq!(logs[0].line, "line 5");
    assert_eq!(logs[MAX_LOG_LINES - 1].line, format!("line {}", MAX_LOG_LINES + 4));
}

#[test]
fn only_one_server_at_a_time() {
    let mut slot: Option<RunState> = None;
    assert!(claim_start(&mut slot, "abc".to_string()).is_ok());
    assert_eq!(
        claim_start(&mut slot, "def".to_string()),
        Err("A server is already running (recipe: abc). Stop it first.".to_string())
    );
    let st = status_of(&slot, Some(42)).expect("status");
    assert_eq!(st.recipe_id, "abc");
    assert!(st.running);
    assert_eq!(st.pid, Some(42));
}

#[test]
fn failed_start_gives_the_slot_back() {
    let mut slot: Option<RunState> = None;
    claim_start(&mut slot, "abc".to_string()).expect("claim");
    cancel_start(&mut slot, "other");
    assert!(slot.is_some());
    cancel_start(&mut slot, "abc");
    assert!(slot.is_none());
    assert!(claim_start(&mut slot, "def".to_string()).is_ok());
}

#[test]
fn stop_without_server_is_refused() {
    let mut slot: Option<RunState> = None;
    assert_eq!(request_stop(&mut slot), Err("No server is currently running".to_string()));
    assert!(status_of(&slot, None).is_none());
}

#[test]
fn requested_stop_is_reported_as_intentional_once() {
    let mut slot: Option<RunState> = None;
    claim_start(&mut slot, "abc".to_string()).expect("claim");
    assert!(matches!(watch_step(&mut slot, "abc", ChildPoll::StillRunning), WatchStep::KeepWatching));
    assert_eq!(request_stop(&mut slot), Ok("abc".to_string()));
    match watch_step(&mut slot, "abc", ChildPoll::Exited { code: None, signal: Some(15) }) {
        WatchStep::Report(e) => {
            assert_eq!(e.recipe_id, "abc");
            assert_eq!(e.code, None);
            assert_eq!(e.signal, Some(15));
            assert!(e.intentional);
        }
        _ => panic!("expected a report"),
    }
    assert!(slot.is_none());
    assert!(matches!(watch_step(&mut slot, "abc", ChildPoll::PollFailed), WatchStep::StopWatching));
}

#[test]
fn crash_is_reported_as_unintentional() {
    let mut slot: Option<RunState> = None;
    claim_start(&mut slot, "abc".to_string()).expect("claim");
    match watch_step(&mut slot, "abc", ChildPoll::Exited { code: Some(1), signal: None }) {
        WatchStep::Report(e) => {
            assert_eq!(e.code, Some(1));
            assert!(!e.intentional);
        }
        _ => panic!("expected a report"),
    }
}

#[test]
fn old_watcher_leaves_a_newer_run_alone() {
    let mut slot: Option<RunState> = None;
    claim_start(&mut slot, "new".to_string()).expect("claim");
    assert!(matches!(
        watch_step(&mut slot, "old", ChildPoll::Exited { code: Some(0), signal: None }),
        WatchStep::StopWatching
    ));
    assert_eq!(slot.as_ref().map(|s| s.recipe_id.as_str()), Some("new"));
    assert!(!should_escalate(&slot, "old"));
    assert!(should_escalate(&slot, "new"));
}

#[test]
fn blocking_stop_rounds() {
    let mut slot: Option<RunState> = None;
    claim_start(&mut slot, "r".to_string()).expect("claim");
    assert_eq!(request_stop(&mut slot), Ok("r".to_string()));
    assert!(matches!(blocking_stop_step(&slot, "r", false), BlockingStep::Wait));
    assert!(matches!(blocking_stop_step(&slot, "r", true), BlockingStep::Kill));
    assert!(slot.is_some());
    // The watcher still reports the exit of the stopped run, once.
    match watch_step(&mut slot, "r", ChildPoll::Exited { code: None, signal: Some(9) }) {
        WatchStep::Report(e) => assert!(e.intentional),
        _ => panic!("expected a report"),
    }
    assert!(matches!(blocking_stop_step(&slot, "r", true), BlockingStep::Done));
    claim_start(&mut slot, "s".to_string()).expect("claim");
    assert!(matches!(blocking_stop_step(&slot, "r", true), BlockingStep::Done));
}

#[test]
fn command_from_given_words() {
    let s = Settings::default();
    let words = vec!["llama-server".to_string(), "~/w".to_string()];
    let (p, a) =
        build_command_from_words(words, Ok("m".to_string()), "", Ok(String::new()), &s, Some("/h"))
            .expect("command");
    assert_eq!(p, "llama-server");
    assert_eq!(a, strings(&["/h/w", "-m", "m", "--host", "127.0.0.1", "--port", "8080", "--metrics"]));
}
