use ptah::events::{AskAction, PlanEntry, PlanStatus, SessionEvent};
use ptah::render::clock::timestamp;
use ptah::render::lines::{
    ask_prose_lines, ask_resolved_line, exec_start_line, plan_summary, prompt_preview,
};
use ptah::render::{lines_of, RenderOptions, Renderer};
use ptah::text::LINE_BUDGET;

/// Strip the leading timestamp — plain, or wrapped in the dim/reset pair
/// in colored mode — from every line.
fn strip(output: &str) -> String {
    output
        .lines()
        .map(|l| {
            if l.starts_with("\u{1b}[2m") && l.len() >= 28 && l.as_bytes()[27] == b' ' {
                &l[28..]
            } else if l.len() >= 20 && l.as_bytes()[19] == b' ' {
                &l[20..]
            } else {
                l
            }
        })
        .collect::<Vec<_>>()
        .join("\n")
}

#[test]
fn timestamp_shape_is_date_prefixed() {
    let ts = timestamp();
    let b = ts.as_bytes();
    assert_eq!(ts.len(), 19, "fixed width: {ts:?}");
    let digits = |r: std::ops::Range<usize>| b[r].iter().all(u8::is_ascii_digit);
    assert!(digits(0..4) && b[4] == b'-', "year: {ts:?}");
    assert!(digits(5..7) && b[7] == b'-', "month: {ts:?}");
    assert!(digits(8..10) && b[10] == b' ', "day: {ts:?}");
    assert!(digits(11..13) && b[13] == b':', "hour: {ts:?}");
    assert!(digits(14..16) && b[16] == b':', "minute: {ts:?}");
    assert!(digits(17..19), "second: {ts:?}");
}

#[test]
fn prompt_preview_collapses_and_truncates() {
    assert_eq!(prompt_preview("review\n  the\tauth\nmodule\n"), "review the auth module");
    let long = "y".repeat(LINE_BUDGET + 10);
    assert_eq!(prompt_preview(&long), format!("{}\u{2026}", "y".repeat(LINE_BUDGET)));
}

#[test]
fn plan_summary_renders_status_markers() {
    let entries = vec![
        PlanEntry { status: PlanStatus::Completed, content: "read the code".into() },
        PlanEntry { status: PlanStatus::InProgress, content: "fix the bug".into() },
    ];
    assert_eq!(plan_summary(&entries), "plan: [x] read the code [>] fix the bug");
}

#[test]
fn exec_start_line_carries_the_command() {
    assert_eq!(exec_start_line("printf hi"), "exec: printf hi");
    assert_eq!(exec_start_line("printf 'a\nb\nc'\n | wc -l"), "exec: printf 'a b c' | wc -l");
    let long = "x".repeat(LINE_BUDGET + 5);
    assert_eq!(exec_start_line(&long), format!("exec: {}…", "x".repeat(LINE_BUDGET)));
}

#[test]
fn ask_line_bodies_carry_attribution_and_action() {
    assert_eq!(
        ask_prose_lines("ask 1 main.luau", "Blocked: how   to\ncontinue?", None),
        ["ask 1 main.luau: Blocked: how   to", "  continue?",]
    );
    assert_eq!(ask_resolved_line("ask 2 main.luau", AskAction::Respond), "ask 2 main.luau: respond");
    assert_eq!(ask_resolved_line("ask 3 main.luau", AskAction::Abort), "ask 3 main.luau: abort");
}

#[test]
fn ask_prose_renders_in_full_beyond_the_shared_budget() {
    let label = "ask 1 main.luau";
    let long = "y".repeat(LINE_BUDGET + 10);
    assert_eq!(ask_prose_lines(label, &long, None), [format!("{label}: {long}")]);
    assert_eq!(
        ask_prose_lines(label, "Proceed?", Some(&long)),
        [String::from("ask 1 main.luau: Proceed?"), format!("  {long}")]
    );
}

#[test]
fn ask_events_render_verbatim_prose_and_resolution() {
    let mut renderer = Renderer::new(RenderOptions::default());
    renderer.emit(
        "ask 1 main.luau",
        SessionEvent::AskRequested {
            prompt: "Blocked: how to continue?\nPick one:\n\n1. retry\n2. abort".into(),
            details: Some("probe output …".into()),
        },
    );
    renderer.emit(
        "ask 1 main.luau",
        SessionEvent::AskResolved { action: AskAction::Respond, text: Some("secret answer".into()) },
    );
    let text = renderer.take_output();
    let stripped = strip(&text);
    let expected = [
        "[ptah] ask 1 main.luau: Blocked: how to continue?",
        "[ptah]   Pick one:",
        "[ptah] ",
        "[ptah]   1. retry",
        "[ptah]   2. abort",
        "[ptah]   probe output …",
    ]
    .join("\n");
    assert!(stripped.contains(&expected), "{text}");
    assert!(stripped.contains("[ptah] ask 1 main.luau: respond"), "{text}");
    assert!(!stripped.contains("secret answer"), "answer must not re-echo: {text}");
}

#[test]
fn ask_cue_lands_on_the_row_after_the_last_prose_line() {
    let mut renderer = Renderer::new(RenderOptions::default());
    renderer.ask_requested("ask 1 main.luau", "Multi-line\nquestion\n\nfollow-up", Some("detail line"));
    let text = renderer.take_output();
    let cue = text.find("> ").expect("cue present");
    assert_eq!(&text[cue..], "> ", "cue is the final write: {text:?}");
    assert!(text[..cue].ends_with('\n'), "cue follows the last prose row's newline: {text:?}");
}

#[test]
fn ask_lines_bypass_quiet() {
    let mut renderer = Renderer::new(RenderOptions::quiet());
    renderer.ask_requested("ask 1 main.luau", "Proceed?", None);
    renderer.ask_resolved("ask 1 main.luau", AskAction::Abort);
    let text = renderer.take_output();
    assert!(text.contains("ask 1 main.luau: Proceed?"), "{text}");
    assert!(text.contains("ask 1 main.luau: abort"), "{text}");
}

#[test]
fn ask_lines_follow_no_color() {
    let mut renderer = Renderer::new(RenderOptions { no_color: true, ..RenderOptions::default() });
    renderer.ask_requested("ask 1 main.luau", "Proceed?", None);
    let text = renderer.take_output();
    assert!(!text.contains('\u{1b}'), "no ANSI escapes: {text:?}");
    assert!(text.contains("[ptah] ask 1 main.luau: Proceed?"), "{text}");
}

#[test]
fn session_ready_renders_verbose_only() {
    let event = || SessionEvent::SessionReady {
        label: "mock/s1".into(),
        agent: "mock".into(),
        command: "mock-agent".into(),
        args: vec!["--flag".into()],
        env_keys: vec!["TOKEN".into()],
        acp_id: "acp-123".into(),
    };
    let mut renderer = Renderer::new(RenderOptions { verbose: true, ..RenderOptions::default() });
    renderer.emit("mock/s1", event());
    let stripped = strip(&renderer.take_output());
    assert!(stripped.contains("[ptah] mock/s1: session ready (acp acp-123)"), "{stripped}");

    let mut renderer = Renderer::new(RenderOptions::default());
    renderer.emit("mock/s1", event());
    let text = renderer.take_output();
    assert!(!text.contains("session ready"), "default mode must suppress the line: {text}");
}

#[test]
fn streamed_chunks_render_whole_lines_and_buffer_the_rest() {
    let mut renderer = Renderer::new(RenderOptions { no_color: true, ..RenderOptions::default() });
    renderer.chunk("a/s1", "hel", false);
    assert_eq!(renderer.take_output(), "");
    renderer.chunk("a/s1", "lo\nwor", false);
    let text = strip(&renderer.take_output());
    assert_eq!(text, "[a/s1] hello");
    renderer.flush_session("a/s1");
    assert_eq!(strip(&renderer.take_output()), "[a/s1] wor");
    renderer.flush_session("a/s1");
    assert_eq!(renderer.take_output(), "");
}

#[test]
fn quiet_suppresses_streaming_and_diagnostics_but_not_script_logs() {
    let mut renderer = Renderer::new(RenderOptions { verbose: true, agent_stderr: true, ..RenderOptions::quiet() });
    renderer.line("a/s1", "hello");
    renderer.agent_stderr("a/s1", "oops");
    renderer.lifecycle("starting");
    renderer.exec_line("exec: true");
    renderer.chunk("a/s1", "text\n", true);
    assert_eq!(renderer.take_output(), "");
    renderer.script_log("note");
    assert_eq!(strip(&renderer.take_output()), "[ptah] note");
}

#[test]
fn labels_keep_their_round_robin_colors() {
    let mut renderer = Renderer::new(RenderOptions::default());
    renderer.line("a/s1", "one");
    renderer.line("b/s1", "two");
    renderer.line("a/s1", "three");
    let text = renderer.take_output();
    let rows: Vec<&str> = text.lines().collect();
    assert!(rows[0].contains("[a/s1]\u{1b}[36m one"), "{text:?}");
    assert!(rows[1].contains("[b/s1]\u{1b}[33m two"), "{text:?}");
    assert!(rows[2].contains("[a/s1]\u{1b}[36m three"), "{text:?}");
}

#[test]
fn usage_events_render_the_context_line() {
    let mut renderer = Renderer::new(RenderOptions { no_color: true, ..RenderOptions::default() });
    renderer.emit("a/s1", SessionEvent::Usage { used: 1200, size: 200000 });
    assert_eq!(strip(&renderer.take_output()), "[a/s1] context: 1200/200000 tokens");
}

#[test]
fn lines_match_str_lines_on_carriage_returns() {
    for text in ["a\r", "a\r\nb\r", "foo\nbar\n\r\nbaz\r", "x\n", "", "\r\n", "a\r\r\n"] {
        let want: Vec<String> = text.lines().map(|l| l.to_string()).collect();
        assert_eq!(lines_of(text), want, "{text:?}");
    }
}

#[test]
fn chunk_boundaries_do_not_change_the_output() {
    let text = "alpha\nbe\n\ngamma\ndel";
    let mut whole = Renderer::new(RenderOptions { no_color: true, ..RenderOptions::default() });
    whole.chunk("a/s1", text, true);
    let want = strip(&whole.take_output());
    assert_eq!(want, "[a/s1] alpha\n[a/s1] be\n[a/s1] \n[a/s1] gamma\n[a/s1] del");
    for cuts in [vec![1, 7, 12], vec![5, 6], vec![0, 19], vec![3, 3, 9, 10, 11]] {
        let mut r = Renderer::new(RenderOptions { no_color: true, ..RenderOptions::default() });
        let mut start = 0;
        for &end in &cuts {
            r.chunk("a/s1", &text[start..end], false);
            start = end;
        }
        r.chunk("a/s1", &text[start..], true);
        assert_eq!(strip(&r.take_output()), want, "cuts {cuts:?}");
    }
}
