use ptah::luau::require::{NavigateFailure, ScriptRequirer};
use ptah::luau::state::{after_drain, after_script, ScriptEnd};

#[test]
fn navigates_sibling_module() {
    let mut req = ScriptRequirer::new("/w".to_string());
    req.reset("@/w/main.luau").unwrap();
    req.to_parent().unwrap();
    req.to_child("lib", true).unwrap();
    req.to_child("util", true).unwrap();
    assert_eq!(req.current(), "/w/lib/util");
}

#[test]
fn resolves_init_files() {
    let mut req = ScriptRequirer::new("/w".to_string());
    req.reset("@/w/main.luau").unwrap();
    req.to_parent().unwrap();
    req.to_child("lib", true).unwrap();
    req.to_child("sub", true).unwrap();
    assert_eq!(req.current(), "/w/lib/sub");
}

#[test]
fn missing_module_names_the_path() {
    let mut req = ScriptRequirer::new("/w".to_string());
    req.reset("@/w/main.luau").unwrap();
    req.to_parent().unwrap();
    req.to_child("lib", true).unwrap();
    match req.to_child("nope", false) {
        Err(NavigateFailure::Other(msg)) => assert!(msg.contains("/w/lib/nope"), "{msg}"),
        other => panic!("{other:?}"),
    }
    assert_eq!(req.current(), "/w/lib");
}

#[test]
fn relative_chunks_anchor_at_the_root_and_drop_line_suffixes() {
    let mut req = ScriptRequirer::new("/w".to_string());
    req.reset("@sub/../main.luau:12").unwrap();
    assert_eq!(req.current(), "/w/main.luau");
    assert!(matches!(req.reset("=stdin"), Err(NavigateFailure::NotFound)));
    assert!(req.is_require_allowed("@x"));
    assert!(!req.is_require_allowed("x"));
}

#[test]
fn navigation_stops_at_the_root() {
    let mut req = ScriptRequirer::new("/".to_string());
    assert!(matches!(req.to_parent(), Err(NavigateFailure::NotFound)));
    let mut req = ScriptRequirer::new("/a/b".to_string());
    req.to_parent().unwrap();
    assert_eq!(req.current(), "/a");
    req.to_parent().unwrap();
    assert_eq!(req.current(), "/");
    req.to_child("../../x", true).unwrap();
    assert_eq!(req.current(), "/x");
}

#[test]
fn non_relative_alias_targets_are_rejected() {
    let mut req = ScriptRequirer::new("/w".to_string());
    match req.jump_to_alias("/etc/passwd") {
        Err(NavigateFailure::Other(msg)) => {
            assert!(msg.contains("/etc/passwd"), "{msg}");
            assert!(msg.contains("only \"./\" and \"../\" targets are allowed"), "{msg}");
        }
        other => panic!("{other:?}"),
    }
}

#[test]
fn absolute_require_strings_rejected() {
    let mut req = ScriptRequirer::new("/tmp/ptah-require".to_string());
    let err = req.jump_to_alias("/etc/passwd").unwrap_err();
    assert!(matches!(err, NavigateFailure::Other(_)), "{err:?}");
}

#[test]
fn cancelled_flag_is_set_only_on_the_cancel_path() {
    let f = after_script(ScriptEnd::Cancelled(130)).unwrap();
    assert!(f.outcome.cancelled && f.outcome.code == 130 && f.cancel_turns);
    let f = after_drain(Some(143), None, None, Vec::new());
    assert!(f.outcome.cancelled && f.outcome.code == 143);
    let f = after_drain(None, None, Some(130), Vec::new());
    assert!(f.outcome.cancelled && f.outcome.code == 130);
}

#[test]
fn completed_run_is_not_cancelled() {
    assert!(after_script(ScriptEnd::Completed).is_none());
    let f = after_drain(None, None, None, Vec::new());
    assert_eq!(f.outcome.code, 0);
    assert!(!f.outcome.cancelled && !f.cancel_turns);
    assert!(f.outcome.error.is_none());
}

#[test]
fn explicit_signal_code_is_not_cancelled() {
    let f = after_script(ScriptEnd::Exited(130)).unwrap();
    assert_eq!(f.outcome.code, 130);
    assert!(!f.outcome.cancelled, "explicit exit is not a cancel: {:?}", f.outcome);
    let f = after_drain(None, Some(130), Some(143), vec!["lost".into()]);
    assert_eq!(f.outcome.code, 130);
    assert!(!f.outcome.cancelled && f.outcome.undelivered_errors.is_empty());
}

#[test]
fn undelivered_task_errors_fail_the_run() {
    let f = after_drain(None, None, None, vec!["task 2 failed".into()]);
    assert_eq!(f.outcome.code, 1);
    assert_eq!(f.outcome.undelivered_errors, vec!["task 2 failed".to_string()]);
    let f = after_script(ScriptEnd::Failed("boom".into())).unwrap();
    assert_eq!(f.outcome.code, 1);
    assert_eq!(f.outcome.error.as_deref(), Some("boom"));
}

use ptah::events::{AskAction, SessionEvent};
use ptah::luau::bindings::{
    ask_label, ask_request, ask_resolution, check_session_options, exec_completion,
    exec_timeout, json_indent, parallel_batches, parallel_concurrency, posture_error,
    script_root, session_cwd, session_label, AskPosture, AskReply, AskResolution, ExecResult,
    ScriptValue,
};

#[test]
fn session_ids_default_per_factory_and_exec_is_reserved() {
    assert_eq!(session_label("mock", None, 3).unwrap(), ("s3".to_string(), "mock/s3".to_string()));
    assert_eq!(session_label("mock", Some("review"), 1).unwrap().1, "mock/review");
    let err = session_label("mock", Some("exec"), 1).unwrap_err();
    assert!(err.contains("reserved"), "{err}");
    assert_eq!(session_cwd("/w", Some("sub")), "/w/sub");
    assert_eq!(session_cwd("/w", Some("/abs")), "/abs");
    assert_eq!(session_cwd("/w", None), "/w");
    assert!(check_session_options(true).unwrap_err().contains("setConfig"));
    assert!(check_session_options(false).is_ok());
}

#[test]
fn ask_arguments_are_checked_before_anything_is_asked() {
    let (p, d) = ask_request(ScriptValue::Table, ScriptValue::Text("Proceed?".into()), ScriptValue::Nil).unwrap();
    assert_eq!(p, "Proceed?");
    assert!(d.is_none());
    let err = ask_request(ScriptValue::Nil, ScriptValue::Nil, ScriptValue::Nil).unwrap_err();
    assert_eq!(err, "ptah.ask: expected a table argument { prompt = \"…\", details = \"…\"? }");
    let err = ask_request(ScriptValue::Other("number".into()), ScriptValue::Nil, ScriptValue::Nil).unwrap_err();
    assert!(err.ends_with(", got number"), "{err}");
    let err = ask_request(ScriptValue::Table, ScriptValue::Nil, ScriptValue::Nil).unwrap_err();
    assert_eq!(err, "ptah.ask: missing required `prompt` field (string)");
    let err = ask_request(ScriptValue::Table, ScriptValue::Table, ScriptValue::Nil).unwrap_err();
    assert_eq!(err, "ptah.ask: `prompt` must be a string, got table");
    let err = ask_request(ScriptValue::Table, ScriptValue::Text("x".into()), ScriptValue::Other("boolean".into())).unwrap_err();
    assert_eq!(err, "ptah.ask: `details` must be a string, got boolean");
}

#[test]
fn ask_postures_and_replies_map_to_distinct_outcomes() {
    assert!(posture_error(AskPosture::Provider).is_none());
    assert!(posture_error(AskPosture::Prohibited).unwrap().contains("prohibited"));
    assert!(posture_error(AskPosture::Unresolved).unwrap().contains("no ask provider configured"));
    assert_eq!(ask_label(2, "/w/flows/main.luau"), "ask 2 main.luau");
    match ask_resolution(AskReply::Respond("yes".into())) {
        AskResolution::Resolved { action: AskAction::Respond, text } => assert_eq!(text.as_deref(), Some("yes")),
        other => panic!("{other:?}"),
    }
    assert!(matches!(ask_resolution(AskReply::Abort), AskResolution::Resolved { action: AskAction::Abort, text: None }));
    match ask_resolution(AskReply::InputClosed) {
        AskResolution::Raised(m) => assert!(m.contains("end of input"), "{m}"),
        other => panic!("{other:?}"),
    }
    match ask_resolution(AskReply::Failed("tty gone".into())) {
        AskResolution::Raised(m) => assert_eq!(m, "ptah.ask: ask provider failed: tty gone"),
        other => panic!("{other:?}"),
    }
}

#[test]
fn exec_reports_exit_as_data_and_raises_on_timeout_or_spawn_failure() {
    assert_eq!(exec_timeout(ScriptValue::Nil, Some(5)).unwrap(), None);
    assert_eq!(exec_timeout(ScriptValue::Table, Some(100)).unwrap(), Some(100));
    assert!(exec_timeout(ScriptValue::Text("x".into()), None).unwrap_err().ends_with("got string"));
    let (ev, r) = exec_completion("sh -c 'exit 4'", None, 12, ExecResult::Exited { exit_code: Some(4), stdout: "o".into(), stderr: "e".into() });
    assert!(matches!(ev, SessionEvent::ExecEnd { exit_code: Some(4), timed_out: false, duration_ms: 12, .. }));
    let ret = r.unwrap();
    assert_eq!((ret.exit_code, ret.stdout.as_str(), ret.stderr.as_str()), (4, "o", "e"));
    let (_, r) = exec_completion("killed", None, 1, ExecResult::Exited { exit_code: None, stdout: String::new(), stderr: String::new() });
    assert_eq!(r.unwrap().exit_code, -1);
    let (ev, r) = exec_completion("sleep 5", Some(100), 100, ExecResult::TimedOut);
    assert!(matches!(ev, SessionEvent::ExecEnd { exit_code: None, timed_out: true, .. }));
    assert_eq!(r.unwrap_err(), "ptah.exec `sleep 5` timed out after 100ms");
    let (_, r) = exec_completion("nope", None, 0, ExecResult::SpawnFailed("not found".into()));
    assert_eq!(r.unwrap_err(), "ptah.exec: not found");
}

#[test]
fn parallel_runs_items_in_ordered_batches() {
    assert_eq!(parallel_concurrency(None), usize::MAX);
    assert_eq!(parallel_concurrency(Some(0)), 1);
    assert_eq!(parallel_batches(5, 2), vec![(0, 2), (2, 4), (4, 5)]);
    assert_eq!(parallel_batches(0, 3), vec![]);
    assert_eq!(parallel_batches(3, usize::MAX), vec![(0, 3)]);
    assert_eq!(json_indent(Some(0)), Some(1));
    assert_eq!(json_indent(Some(40)), Some(16));
    assert_eq!(json_indent(None), None);
    assert_eq!(script_root("/w/flows/main.luau"), "/w/flows");
    assert_eq!(script_root("/"), ".");
}

use ptah::luau::bindings::{close_session, config_value, ConfigValue};

#[test]
fn set_config_values_are_typed_before_sending() {
    assert!(matches!(config_value(ScriptValue::Text("fast".into())), Ok(ConfigValue::ValueId(id)) if id == "fast"));
    assert!(matches!(config_value(ScriptValue::Flag(true)), Ok(ConfigValue::Boolean(true))));
    let err = config_value(ScriptValue::Other("number".into())).unwrap_err();
    assert_eq!(err, "setConfig value must be a string (select value id) or boolean, got number");
}

#[test]
fn closing_a_session_unregisters_it_by_process_id() {
    let mut pids = vec![10, 11, 10, 12];
    close_session(&mut pids, 10);
    assert_eq!(pids, vec![11, 12]);
    close_session(&mut pids, 99);
    assert_eq!(pids, vec![11, 12]);
}
