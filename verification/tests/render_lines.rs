use ptah::render::lines::{ask_prose_lines, exec_end_line, format_duration};

#[test]
fn exec_end_line_carries_code_or_marker() {
    assert_eq!(
        exec_end_line("true", Some(0), false, 980),
        "exec: true (exit 0, 1.0s)"
    );
    assert_eq!(
        exec_end_line("sh -c 'exit 4'", Some(4), false, 50),
        "exec: sh -c 'exit 4' (exit 4, 0.1s)"
    );
    assert_eq!(
        exec_end_line("sleep 5", None, true, 100),
        "exec: sleep 5 (timed out, 0.1s)"
    );
    assert_eq!(
        exec_end_line("definitely-not-a-command", None, false, 3),
        "exec: definitely-not-a-command (failed to run, 0.0s)"
    );
}

#[test]
fn exec_duration_formats_like_tool_lines() {
    assert_eq!(format_duration(0), "0.0s");
    assert_eq!(format_duration(2900), "2.9s");
    // 59.96s rounds up-front so seconds never display 60.0.
    assert_eq!(format_duration(59_960), "1m 00.0s");
    assert_eq!(format_duration(65_000), "1m 05.0s");
}

#[test]
fn ask_multi_line_prompt_indents_continuations() {
    assert_eq!(
        ask_prose_lines(
            "ask 1 main.luau",
            "How to continue?\nPick one:\n1. retry\n2. abort",
            None
        ),
        [
            "ask 1 main.luau: How to continue?",
            "  Pick one:",
            "  1. retry",
            "  2. abort",
        ]
    );
}

#[test]
fn ask_details_render_as_an_indented_block() {
    assert_eq!(
        ask_prose_lines("ask 1 main.luau", "Proceed?", Some("probe output …\nexit 3")),
        ["ask 1 main.luau: Proceed?", "  probe output …", "  exit 3",]
    );
}

#[test]
fn ask_interior_blank_lines_render_empty() {
    assert_eq!(
        ask_prose_lines("ask 1 main.luau", "Question?\n\nOptions follow", None),
        ["ask 1 main.luau: Question?", "", "  Options follow"]
    );
    assert_eq!(
        ask_prose_lines("ask 1 main.luau", "Question?\n   \nOptions", None),
        ["ask 1 main.luau: Question?", "", "  Options"]
    );
}

#[test]
fn ask_leading_and_trailing_blank_lines_trim() {
    assert_eq!(
        ask_prose_lines("ask 1 main.luau", "Question?\n", None),
        ["ask 1 main.luau: Question?"]
    );
    assert_eq!(
        ask_prose_lines("ask 1 main.luau", "\nQuestion?", None),
        ["ask 1 main.luau: Question?"]
    );
    assert_eq!(
        ask_prose_lines("ask 1 main.luau", "\n\nA\n\nB\n\n\n", None),
        ["ask 1 main.luau: A", "", "  B"]
    );
    assert_eq!(
        ask_prose_lines("ask 1 main.luau", "Proceed?", Some("hint\n")),
        ["ask 1 main.luau: Proceed?", "  hint"]
    );
}

#[test]
fn ask_blank_prompt_renders_the_bare_label_line() {
    assert_eq!(ask_prose_lines("ask 1 main.luau", "", None), ["ask 1 main.luau:"]);
    assert_eq!(
        ask_prose_lines("ask 1 main.luau", " \n\t\n", None),
        ["ask 1 main.luau:"]
    );
    assert_eq!(
        ask_prose_lines("ask 1 main.luau", "", Some("decide now")),
        ["ask 1 main.luau:", "  decide now"]
    );
    assert_eq!(
        ask_prose_lines("ask 1 main.luau", "Proceed?", Some(" \n ")),
        ["ask 1 main.luau: Proceed?"]
    );
}
