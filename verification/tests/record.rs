use ptah::record::{run_start_line, LogWriter};

#[test]
fn log_write_failure_is_stashed_once() {
    let mut writer = LogWriter::new();
    assert!(writer.observe::<usize>(Err("disk full".to_string())).is_err());
    assert!(writer.observe::<usize>(Err("second failure".to_string())).is_err());
    assert_eq!(writer.take().as_deref(), Some("disk full"));
}

#[test]
fn run_start_line_renders_paths_under_the_established_rule() {
    let invocation = "/work/project";
    let home = "/home/u";
    assert_eq!(
        run_start_line(
            "/work/project/.ptah/runs/20260912143224-4821",
            invocation,
            Some(home),
        ),
        "run record: .ptah/runs/20260912143224-4821"
    );
    assert_eq!(
        run_start_line(
            "/home/u/project/.ptah/runs/20260912143224-4821",
            invocation,
            Some(home),
        ),
        "run record: ~/project/.ptah/runs/20260912143224-4821"
    );
    assert_eq!(
        run_start_line("/var/tmp/run", invocation, Some(home)),
        "run record: /var/tmp/run"
    );
    assert_eq!(
        run_start_line("/var/tmp/run", invocation, None),
        "run record: /var/tmp/run"
    );
}

use ptah::events::{AskAction, SessionEvent};
use ptah::record::{
    project_root, runs_dir, shorten_path, RunEnd, RunId, RunMeta, RunRecord, RunStatus,
    SessionRecord,
};

/// 2026-09-12T14:32:24Z.
const START: i64 = 1_789_223_544;

fn record_in(dir: &str) -> RunRecord {
    let id = RunId::candidate(START).unwrap();
    let meta = RunMeta::started(
        id.as_str(),
        "main.luau",
        &vec!["ptah".to_string(), "run".to_string()],
        dir,
        "0.1.0",
        START,
    );
    let run_dir = format!("{dir}/.ptah/runs/{}", id.as_str());
    RunRecord::new(id, run_dir, meta)
}

fn session(label: &str, acp_id: &str) -> SessionRecord {
    SessionRecord {
        label: label.into(),
        agent: "mock".into(),
        command: "mock-agent".into(),
        args: vec!["--flag".into()],
        env_keys: vec!["TOKEN".into()],
        acp_id: acp_id.into(),
    }
}

#[test]
fn run_id_shape_is_timestamp_dash_decimal() {
    let id = RunId::candidate(START).unwrap();
    let s = id.as_str();
    let suffix = s.strip_prefix("20260912143224-").expect("timestamp prefix");
    assert_eq!(suffix.len(), 4, "{s}");
    assert!(suffix.bytes().all(|b| b.is_ascii_digit()), "{s}");
}

#[test]
fn run_id_encodes_utc_regardless_of_local_zone() {
    // 21:32:24 at UTC+07:00 is 14:32:24 UTC: the same instant.
    let id = RunId::candidate(START).unwrap();
    assert!(id.as_str().starts_with("20260912143224-"), "{}", id.as_str());
}

#[test]
fn run_ids_sort_in_start_order_across_seconds() {
    let first = RunId::candidate(START).unwrap();
    let second = RunId::candidate(START + 1).unwrap();
    assert!(first.as_str() < second.as_str(), "{} !< {}", first.as_str(), second.as_str());
}

#[test]
fn run_id_suffix_is_four_padded_digits() {
    assert_eq!(RunId::from_parts("20260912143224", 7).as_str(), "20260912143224-0007");
    assert_eq!(RunId::from_parts("20260912143224", 123_456).as_str(), "20260912143224-3456");
}

#[test]
fn project_root_finds_nearest_ptah_ancestor() {
    // Ancestors of /t/project/sub/dir: itself, /t/project/sub, /t/project, /t, /.
    let marks = vec![false, false, true, false, false];
    assert_eq!(project_root("/t/project/sub/dir", &marks), "/t/project");
    assert_eq!(project_root("/t/project", &vec![true, false, false]), "/t/project");
}

#[test]
fn project_root_skips_intermediate_dirs_without_ptah() {
    let marks = vec![false, false, true, false, false];
    assert_eq!(project_root("/t/project/a/b", &marks), "/t/project");
}

#[test]
fn project_root_falls_back_to_invocation_dir() {
    assert_eq!(project_root("/t/lonely", &vec![false, false, false]), "/t/lonely");
}

#[test]
fn runs_live_under_the_project_ptah_dir() {
    assert_eq!(runs_dir("/t/project/sub", &vec![false, true, false, false]), "/t/project/.ptah/runs");
}

#[test]
fn shortened_paths_follow_the_display_rule() {
    assert_eq!(shorten_path("/w/p/x", "/w/p", Some("/h")), "x");
    assert_eq!(shorten_path("/h/q", "/w/p", Some("/h")), "~/q");
    assert_eq!(shorten_path("/v/q", "/w/p", Some("/h")), "/v/q");
}

#[test]
fn shortened_paths_keep_their_own_text() {
    assert_eq!(shorten_path("/work/project/a//b", "/work/project", None), "a//b");
    assert_eq!(shorten_path("/work/project/a/./b", "/work/project", None), "a/./b");
    assert_eq!(shorten_path("/work/project//a/", "/work/project", None), "a");
    assert_eq!(shorten_path("/h/x//y", "/w", Some("/h")), "~/x//y");
    assert_eq!(shorten_path("/work/project", "/work/project", None), "/work/project");
}

#[test]
fn status_derives_from_cancellation_and_exit_code() {
    let cases = [
        (0, false, RunStatus::Okay),
        (3, false, RunStatus::Failed),
        (130, false, RunStatus::Failed),
        (130, true, RunStatus::Cancelled),
    ];
    for (code, cancelled, want) in cases {
        let mut record = record_in("/t/p");
        assert!(record.finish(&RunEnd { code, error: None, undelivered_errors: Vec::new(), cancelled }));
        assert_eq!(record.meta().status, want, "code {code}, cancelled {cancelled}");
        assert_eq!(record.meta().exit_code, Some(code));
        assert!(record.meta().ended_at.as_deref().is_some_and(|e| e.ends_with('Z')));
    }
}

#[test]
fn undelivered_task_error_is_carried_as_the_error_text() {
    let mut record = record_in("/t/p");
    record.finish(&RunEnd {
        code: 1,
        error: None,
        undelivered_errors: vec!["task 2 failed".into()],
        cancelled: false,
    });
    let meta = record.meta();
    assert_eq!(meta.status, RunStatus::Failed);
    assert_eq!(meta.error.as_deref(), Some("task 2 failed"));
}

#[test]
fn several_undelivered_errors_join_with_semicolons() {
    let end = RunEnd {
        code: 1,
        error: None,
        undelivered_errors: vec!["a".into(), "b".into()],
        cancelled: false,
    };
    assert_eq!(end.error_text().as_deref(), Some("a; b"));
    assert_eq!(RunStatus::Okay.as_str(), "ok");
    assert_eq!(RunStatus::Cancelled.as_str(), "cancelled");
}

#[test]
fn start_write_has_running_status_and_no_end() {
    let record = record_in("/t/p");
    let meta = record.meta();
    assert_eq!(meta.status, RunStatus::Running);
    assert!(meta.ended_at.is_none());
    assert!(meta.exit_code.is_none());
    assert_eq!(meta.started_at, "2026-09-12T14:32:24Z");
}

#[test]
fn asks_are_ordinaled_in_issue_order_and_resolved_last_open() {
    let mut record = record_in("/t/p");
    record.ask_requested("first?", None);
    record.ask_requested("second?", Some("details"));
    record.ask_resolved(AskAction::Respond, Some("ship it"));
    let meta = record.meta();
    assert_eq!(meta.asks[0].ordinal, 1);
    assert!(meta.asks[0].action.is_none(), "first ask stays open");
    assert_eq!(meta.asks[1].ordinal, 2);
    assert_eq!(meta.asks[1].details.as_deref(), Some("details"));
    assert_eq!(meta.asks[1].action.as_deref(), Some("respond"));
    assert_eq!(meta.asks[1].text.as_deref(), Some("ship it"));
}

#[test]
fn sink_ingests_readiness_and_asks_from_structured_events() {
    let mut record = record_in("/t/p");
    assert!(record.ingest(SessionEvent::SessionReady {
        label: "mock/s1".into(),
        agent: "mock".into(),
        command: "mock-agent".into(),
        args: vec!["--flag".into()],
        env_keys: vec!["TOKEN".into()],
        acp_id: "acp-1".into(),
    }));
    assert!(record.ingest(SessionEvent::AskRequested { prompt: "Proceed?".into(), details: None }));
    assert!(!record.ingest(SessionEvent::TurnEnd));
    let meta = record.meta();
    let want = session("mock/s1", "acp-1");
    assert_eq!(meta.sessions.len(), 1);
    assert_eq!(meta.sessions[0].label, want.label);
    assert_eq!(meta.sessions[0].acp_id, want.acp_id);
    assert_eq!(meta.sessions[0].env_keys, want.env_keys);
    assert_eq!(meta.asks.len(), 1);
    assert_eq!(meta.asks[0].ordinal, 1);
}

#[test]
fn first_write_failure_disables_the_record() {
    let mut record = record_in("/t/p");
    assert!(record.session_ready(session("mock/s1", "acp-1")));
    record.write_failed("disk full".into());
    assert!(!record.rewrite());
    assert!(!record.ask_requested("Proceed?", None), "disabled record must not write");
    assert_eq!(record.meta().asks.len(), 0);
    record.write_failed("again".into());
    assert_eq!(record.take_failure().as_deref(), Some("disk full"), "exactly one failure is stashed");
    assert!(record.take_failure().is_none());
}

#[test]
fn take_failure_reports_a_log_write_failure_once() {
    let mut record = record_in("/t/p");
    record.log_failed("disk full".into());
    assert_eq!(record.take_failure().as_deref(), Some("disk full"));
    assert!(record.take_failure().is_none(), "taken exactly once");
}
