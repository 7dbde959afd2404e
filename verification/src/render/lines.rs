//! Line bodies: the text of each rendered line before attribution —
//! previews, durations, exec lines, plan summaries and ask rows.

use vstd::prelude::*;

use crate::events::{action_text, AskAction, PlanEntry, PlanStatus};
use crate::text::{
    char_is_space, collapse_whitespace, opt_view, collapse_ws, dec, dec_padded, dec_signed, is_blank, join,
    lemma_join_push, lemma_views_push, push_dec, push_dec_padded, push_dec_signed, push_str_chars, split_chars,
    split_on, text_is_blank, truncate_visible, truncated, LINE_BUDGET,
};

verus! {

/// One-line preview: whitespace runs collapsed to single spaces,
/// truncated to the shared visible-character budget.
pub open spec fn preview(text: Seq<char>) -> Seq<char> {
    truncated(collapse_ws(text), LINE_BUDGET as nat)
}

/// One-line preview of a prompt for the prompt line.
pub fn prompt_preview(text: &str) -> (out: String)
    ensures
        out@ == preview(text@),
{
    let collapsed = collapse_whitespace(text);
    truncate_visible(collapsed.as_str(), LINE_BUDGET)
}

/// One-line form of a command (same rule as prompt previews).
pub fn exec_command_preview(command: &str) -> (out: String)
    ensures
        out@ == preview(command@),
{
    let collapsed = collapse_whitespace(command);
    truncate_visible(collapsed.as_str(), LINE_BUDGET)
}

/// Tenths of a second, rounded half up, of a duration in milliseconds.
pub open spec fn tenths_of(millis: nat) -> nat {
    (millis + 50) / 100
}

/// `X.Ys` under a minute, `Mm SS.Ss` from a minute on, rounded to the
/// tenth first so the seconds field never reads `60.0`.
pub open spec fn duration_text(millis: nat) -> Seq<char> {
    let t = tenths_of(millis);
    if t < 600 {
        dec(t / 10) + seq!['.'] + dec(t % 10) + seq!['s']
    } else {
        dec(t / 600) + seq!['m', ' '] + dec_padded((t % 600) / 10, 2) + seq!['.'] + dec(t % 10)
            + seq!['s']
    }
}

/// Render a duration given in milliseconds.
pub fn format_duration(millis: u64) -> (out: String)
    ensures
        out@ == duration_text(millis as nat),
        // the seconds field of the minute form is always below 60
        tenths_of(millis as nat) >= 600 ==> (tenths_of(millis as nat) % 600) / 10 < 60,
{
    let tenths: u64 = millis / 100 + if millis % 100 >= 50 {
        1u64
    } else {
        0u64
    };
    assert(tenths == tenths_of(millis as nat)) by (nonlinear_arith)
        requires
            tenths == millis / 100 + if millis % 100 >= 50 {
                1u64
            } else {
                0u64
            },
    ;
    let mut out = String::new();
    if tenths < 600 {
        push_dec(&mut out, tenths / 10);
        out.push('.');
        push_dec(&mut out, tenths % 10);
        out.push('s');
        assert(out@ =~= dec((tenths / 10) as nat) + seq!['.'] + dec((tenths % 10) as nat) + seq![
            's',
        ]);
    } else {
        push_dec(&mut out, tenths / 600);
        out.push('m');
        out.push(' ');
        push_dec_padded(&mut out, (tenths % 600) / 10, 2);
        out.push('.');
        push_dec(&mut out, tenths % 10);
        out.push('s');
        assert(out@ =~= dec((tenths / 600) as nat) + seq!['m', ' '] + dec_padded(
            ((tenths % 600) / 10) as nat,
            2,
        ) + seq!['.'] + dec((tenths % 10) as nat) + seq!['s']);
    }
    out
}

/// The start line body of one exec.
pub open spec fn exec_start_text(command: Seq<char>) -> Seq<char> {
    "exec: "@ + preview(command)
}

/// Start line body for one exec: the command, collapsed and truncated.
pub fn exec_start_line(command: &str) -> (out: String)
    ensures
        out@ == exec_start_text(command@),
{
    let mut out = String::new();
    push_str_chars(&mut out, "exec: ");
    let p = exec_command_preview(command);
    push_str_chars(&mut out, p.as_str());
    proof {
        reveal_strlit("exec: ");
    }
    out
}

/// The outcome marker of an exec end line.
pub open spec fn exec_marker(exit_code: Option<i32>, timed_out: bool) -> Seq<char> {
    match exit_code {
        Some(code) => "exit "@ + dec_signed(code as int),
        None => if timed_out {
            "timed out"@
        } else {
            "failed to run"@
        },
    }
}

/// The end line body of one exec.
pub open spec fn exec_end_text(
    command: Seq<char>,
    exit_code: Option<i32>,
    timed_out: bool,
    millis: nat,
) -> Seq<char> {
    "exec: "@ + preview(command) + " ("@ + exec_marker(exit_code, timed_out) + ", "@
        + duration_text(millis) + ")"@
}

/// End line body for one exec: command plus exit code and duration, or
/// the timeout / failed-to-run marker when no exit status exists.
pub fn exec_end_line(command: &str, exit_code: Option<i32>, timed_out: bool, millis: u64) -> (out:
    String)
    ensures
        out@ == exec_end_text(command@, exit_code, timed_out, millis as nat),
{
    proof {
        reveal_strlit("exec: ");
        reveal_strlit(" (");
        reveal_strlit(", ");
        reveal_strlit(")");
        reveal_strlit("exit ");
        reveal_strlit("timed out");
        reveal_strlit("failed to run");
    }
    let mut out = String::new();
    push_str_chars(&mut out, "exec: ");
    let p = exec_command_preview(command);
    push_str_chars(&mut out, p.as_str());
    push_str_chars(&mut out, " (");
    let ghost before_marker = out@;
    match exit_code {
        Some(code) => {
            push_str_chars(&mut out, "exit ");
            push_dec_signed(&mut out, code as i64);
        },
        None => {
            if timed_out {
                push_str_chars(&mut out, "timed out");
            } else {
                push_str_chars(&mut out, "failed to run");
            }
        },
    }
    assert(out@ =~= before_marker + exec_marker(exit_code, timed_out));
    push_str_chars(&mut out, ", ");
    let d = format_duration(millis);
    push_str_chars(&mut out, d.as_str());
    push_str_chars(&mut out, ")");
    assert(out@ =~= exec_end_text(command@, exit_code, timed_out, millis as nat));
    out
}

/// Render marker for one plan status.
pub open spec fn plan_marker_char(status: PlanStatus) -> char {
    match status {
        PlanStatus::Pending => ' ',
        PlanStatus::InProgress => '>',
        PlanStatus::Completed => 'x',
        PlanStatus::Other => '?',
    }
}

/// Render marker for one plan status (matches the streaming plan line).
pub fn plan_marker(status: PlanStatus) -> (c: char)
    ensures
        c == plan_marker_char(status),
{
    match status {
        PlanStatus::Pending => ' ',
        PlanStatus::InProgress => '>',
        PlanStatus::Completed => 'x',
        PlanStatus::Other => '?',
    }
}

/// One plan entry as `[m] content`.
pub open spec fn plan_item(e: PlanEntry) -> Seq<char> {
    seq!['[', plan_marker_char(e.status), ']', ' '] + e.content@
}

/// Compact plan status list for the plan line: `plan: ` and each entry's
/// item, separated by single spaces.
pub open spec fn plan_text(entries: Seq<PlanEntry>) -> Seq<char> {
    "plan: "@ + join(entries.map_values(|e: PlanEntry| plan_item(e)), seq![' '])
}

/// Compact plan status list for the plan line.
pub fn plan_summary(entries: &Vec<PlanEntry>) -> (out: String)
    ensures
        out@ == plan_text(entries@),
{
    proof {
        reveal_strlit("plan: ");
    }
    let mut out = String::new();
    push_str_chars(&mut out, "plan: ");
    let ghost start = out@;
    let mut i: usize = 0;
    while i < entries.len()
        invariant
            i <= entries.len(),
            start == "plan: "@,
            out@ == start + join(
                entries@.take(i as int).map_values(|e: PlanEntry| plan_item(e)),
                seq![' '],
            ),
        decreases entries.len() - i,
    {
        let ghost items = entries@.take(i as int).map_values(|e: PlanEntry| plan_item(e));
        let ghost before = out@;
        if i > 0 {
            out.push(' ');
        }
        out.push('[');
        out.push(plan_marker(entries[i].status));
        out.push(']');
        out.push(' ');
        push_str_chars(&mut out, entries[i].content.as_str());
        proof {
            let item = plan_item(entries@[i as int]);
            assert(entries@.take(i as int + 1).map_values(|e: PlanEntry| plan_item(e))
                =~= items.push(item));
            lemma_join_push(items, seq![' '], item);
            if i > 0 {
                assert(out@ =~= before + seq![' '] + item);
            } else {
                assert(out@ =~= before + item);
            }
        }
        i += 1;
    }
    assert(entries@.take(entries.len() as int) =~= entries@);
    out
}

/// Drop leading blank rows.
pub open spec fn drop_leading_blank(rows: Seq<Seq<char>>) -> Seq<Seq<char>>
    decreases rows.len(),
{
    if rows.len() > 0 && is_blank(rows[0]) {
        drop_leading_blank(rows.drop_first())
    } else {
        rows
    }
}

/// Drop trailing blank rows.
pub open spec fn drop_trailing_blank(rows: Seq<Seq<char>>) -> Seq<Seq<char>>
    decreases rows.len(),
{
    if rows.len() > 0 && is_blank(rows.last()) {
        drop_trailing_blank(rows.drop_last())
    } else {
        rows
    }
}

/// The authored rows of one ask prose field: its lines, with leading and
/// trailing blank lines trimmed; interior lines kept verbatim.
pub open spec fn prose_rows(text: Seq<char>) -> Seq<Seq<char>> {
    drop_trailing_blank(drop_leading_blank(split_on(text, '\n')))
}

/// Dropping leading blanks is skipping to the first non-blank row.
proof fn lemma_drop_leading(rows: Seq<Seq<char>>, i: int)
    requires
        0 <= i <= rows.len(),
        forall|j: int| 0 <= j < i ==> is_blank(#[trigger] rows[j]),
    ensures
        drop_leading_blank(rows) == drop_leading_blank(rows.skip(i)),
    decreases i,
{
    if i > 0 {
        assert(rows.skip(1) =~= rows.drop_first());
        lemma_drop_leading(rows.drop_first(), i - 1);
        assert(rows.drop_first().skip(i - 1) =~= rows.skip(i));
    } else {
        assert(rows.skip(0) =~= rows);
    }
}

/// Dropping trailing blanks is cutting after the last non-blank row.
proof fn lemma_drop_trailing(rows: Seq<Seq<char>>, k: int)
    requires
        0 <= k <= rows.len(),
        forall|j: int| k <= j < rows.len() ==> is_blank(#[trigger] rows[j]),
    ensures
        drop_trailing_blank(rows) == drop_trailing_blank(rows.take(k)),
    decreases rows.len() - k,
{
    if k < rows.len() {
        lemma_drop_trailing(rows.drop_last(), k);
        assert(rows.drop_last().take(k) =~= rows.take(k));
    } else {
        assert(rows.take(k) =~= rows);
    }
}

/// A row is blank when its source line is empty or whitespace-only.
pub fn ask_line_is_blank(line: &str) -> (b: bool)
    ensures
        b == is_blank(line@),
{
    text_is_blank(line)
}

/// The authored lines of one ask prose field, verbatim, with blank runs
/// at both edges trimmed. A text that is blank after trimming yields no
/// lines.
pub fn ask_prose_rows(text: &str) -> (rows: Vec<String>)
    ensures
        rows@.map_values(|r: String| r@) == prose_rows(text@),
        // what remains starts and ends with a non-blank row
        rows.len() > 0 ==> !is_blank(rows@[0]@) && !is_blank(rows@[rows.len() - 1]@),
{
    let lines = split_chars(text, '\n');
    let ghost parts = split_on(text@, '\n');
    let ghost views = lines@.map_values(|p: String| p@);
    assert(views == parts);
    let mut first: usize = 0;
    while first < lines.len()
        invariant_except_break
            first <= lines.len(),
            views == lines@.map_values(|p: String| p@),
            forall|j: int| 0 <= j < first ==> is_blank(#[trigger] views[j]),
        ensures
            first <= lines.len(),
            forall|j: int| 0 <= j < first ==> is_blank(#[trigger] views[j]),
            first < lines.len() ==> !is_blank(views[first as int]),
        decreases lines.len() - first,
    {
        assert(lines@[first as int]@ == views[first as int]);
        if !text_is_blank(lines[first].as_str()) {
            break;
        }
        first += 1;
    }
    proof {
        lemma_drop_leading(views, first as int);
    }
    let mut rows: Vec<String> = Vec::new();
    if first == lines.len() {
        proof {
            assert(views.skip(first as int) =~= Seq::<Seq<char>>::empty());
            assert(drop_leading_blank(views) =~= Seq::<Seq<char>>::empty());
            assert(rows@.map_values(|r: String| r@) =~= Seq::<Seq<char>>::empty());
        }
        return rows;
    }
    assert(!is_blank(views[first as int]));
    let mut last: usize = lines.len();
    while last > first + 1
        invariant_except_break
            first < lines.len(),
            first + 1 <= last <= lines.len(),
            views == lines@.map_values(|p: String| p@),
            !is_blank(views[first as int]),
            forall|j: int| last <= j < views.len() ==> is_blank(#[trigger] views[j]),
        ensures
            first + 1 <= last <= lines.len(),
            forall|j: int| last <= j < views.len() ==> is_blank(#[trigger] views[j]),
            !is_blank(views[last - 1]),
        decreases last,
    {
        assert(lines@[last - 1]@ == views[last - 1]);
        if !text_is_blank(lines[last - 1].as_str()) {
            break;
        }
        last -= 1;
    }
    let ghost mid = views.skip(first as int);
    proof {
        assert(drop_leading_blank(views) == drop_leading_blank(mid));
        assert(mid.len() > 0 && !is_blank(mid[0]));
        assert(drop_leading_blank(mid) == mid);
        assert forall|j: int| last - first <= j < mid.len() implies is_blank(#[trigger] mid[j]) by {
            assert(mid[j] == views[j + first]);
        }
        lemma_drop_trailing(mid, last - first);
        let cut = mid.take(last - first);
        assert(cut.len() > 0);
        assert(cut.last() == views[last - 1]);
        assert(!is_blank(cut.last()));
        assert(drop_trailing_blank(cut) == cut);
    }
    let mut i: usize = first;
    while i < last
        invariant
            first <= i <= last <= lines.len(),
            views == lines@.map_values(|p: String| p@),
            rows@.map_values(|r: String| r@) == views.subrange(first as int, i as int),
        decreases last - i,
    {
        let r = lines[i].clone();
        assert(r@ == views[i as int]);
        let ghost before = rows@;
        rows.push(r);
        proof {
            lemma_views_push(before, r);
            assert(views.subrange(first as int, i as int + 1) =~= views.subrange(
                first as int,
                i as int,
            ).push(views[i as int]));
        }
        i += 1;
        assert(rows@.map_values(|r: String| r@) =~= views.subrange(first as int, i as int));
    }
    assert(views.subrange(first as int, last as int) =~= mid.take(last - first));
    rows
}

/// One indented continuation row: two spaces in, or empty for a blank
/// line (no padding-only rows).
pub open spec fn continuation(line: Seq<char>) -> Seq<char> {
    if is_blank(line) {
        Seq::<char>::empty()
    } else {
        seq![' ', ' '] + line
    }
}

/// One indented ask continuation row.
pub fn ask_continuation(line: &str) -> (out: String)
    ensures
        out@ == continuation(line@),
{
    if ask_line_is_blank(line) {
        String::new()
    } else {
        let mut out = String::new();
        out.push(' ');
        out.push(' ');
        push_str_chars(&mut out, line);
        assert(out@ =~= seq![' ', ' '] + line@);
        out
    }
}

/// Every rendered row of one ask: the prompt's first row rides the label
/// line (`{label}: {first}`, or a bare `{label}:` for a blank prompt);
/// further prompt rows and all details rows follow as continuations.
pub open spec fn ask_lines(label: Seq<char>, prompt: Seq<char>, details: Option<Seq<char>>) -> Seq<
    Seq<char>,
> {
    let rows = prose_rows(prompt);
    let head = if rows.len() > 0 {
        seq![label + ": "@ + rows[0]] + rows.drop_first().map_values(|l: Seq<char>| continuation(l))
    } else {
        seq![label + ":"@]
    };
    match details {
        Some(d) => head + prose_rows(d).map_values(|l: Seq<char>| continuation(l)),
        None => head,
    }
}

/// Append a continuation row for each row of `rows` from index `from`.
fn push_continuations(lines: &mut Vec<String>, rows: &Vec<String>, from: usize)
    requires
        from <= rows.len(),
    ensures
        final(lines)@.map_values(|r: String| r@) == old(lines)@.map_values(|r: String| r@)
            + rows@.map_values(|r: String| r@).skip(from as int).map_values(
            |l: Seq<char>| continuation(l),
        ),
{
    let ghost start = lines@.map_values(|r: String| r@);
    let ghost src = rows@.map_values(|r: String| r@);
    let mut i: usize = from;
    while i < rows.len()
        invariant
            from <= i <= rows.len(),
            src == rows@.map_values(|r: String| r@),
            lines@.map_values(|r: String| r@) == start + src.subrange(from as int, i as int).map_values(
                |l: Seq<char>| continuation(l),
            ),
        decreases rows.len() - i,
    {
        let c = ask_continuation(rows[i].as_str());
        assert(rows@[i as int]@ == src[i as int]);
        let ghost before = lines@;
        lines.push(c);
        proof {
            lemma_views_push(before, c);
            assert(src.subrange(from as int, i as int + 1) =~= src.subrange(
                from as int,
                i as int,
            ).push(src[i as int]));
            assert(src.subrange(from as int, i as int + 1).map_values(|l: Seq<char>| continuation(l))
                =~= src.subrange(from as int, i as int).map_values(|l: Seq<char>| continuation(l)).push(
                continuation(src[i as int]),
            ));
        }
        i += 1;
        assert(lines@.map_values(|r: String| r@) =~= start + src.subrange(
            from as int,
            i as int,
        ).map_values(|l: Seq<char>| continuation(l)));
    }
    assert(src.subrange(from as int, rows.len() as int) =~= src.skip(from as int));
}

/// Every rendered row of one ask, verbatim (ask prose is exempt from the
/// shared visible-character budget).
pub fn ask_prose_lines(label: &str, prompt: &str, details: Option<&str>) -> (lines: Vec<String>)
    ensures
        lines@.map_values(|r: String| r@) == ask_lines(label@, prompt@, opt_view(details)),
{
    proof {
        reveal_strlit(": ");
        reveal_strlit(":");
    }
    let mut lines: Vec<String> = Vec::new();
    let rows = ask_prose_rows(prompt);
    let ghost rv = rows@.map_values(|r: String| r@);
    if rows.len() > 0 {
        let mut first = String::new();
        push_str_chars(&mut first, label);
        push_str_chars(&mut first, ": ");
        push_str_chars(&mut first, rows[0].as_str());
        lines.push(first);
        push_continuations(&mut lines, &rows, 1);
        proof {
            assert(rv.skip(1) =~= rv.drop_first());
            assert(lines@.map_values(|r: String| r@) =~= seq![label@ + ": "@ + rv[0]]
                + rv.drop_first().map_values(|l: Seq<char>| continuation(l)));
        }
    } else {
        let mut only = String::new();
        push_str_chars(&mut only, label);
        only.push(':');
        let ghost only_view = only@;
        lines.push(only);
        proof {
            assert(":"@ =~= seq![':']);
            assert(only_view =~= label@ + ":"@);
            lemma_views_push(Seq::<String>::empty(), only);
            assert(lines@.map_values(|r: String| r@) =~= seq![label@ + ":"@]);
        }
    }
    let ghost head = lines@.map_values(|r: String| r@);
    match details {
        Some(d) => {
            let drows = ask_prose_rows(d);
            push_continuations(&mut lines, &drows, 0);
            proof {
                let dv = drows@.map_values(|r: String| r@);
                assert(dv.skip(0) =~= dv);
            }
        },
        None => {},
    }
    lines
}

/// Resolution line body: the attribution label plus the action, never
/// the answer text.
pub fn ask_resolved_line(label: &str, action: AskAction) -> (out: String)
    ensures
        out@ == label@ + ": "@ + action_text(action),
{
    proof {
        reveal_strlit(": ");
        reveal_strlit("respond");
        reveal_strlit("abort");
    }
    let mut out = String::new();
    push_str_chars(&mut out, label);
    push_str_chars(&mut out, ": ");
    push_str_chars(&mut out, action.as_str());
    out
}

} // verus!
