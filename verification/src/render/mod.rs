//! Terminal rendering of streaming agent output with per-session
//! attribution.
//!
//! No TUI: plain lines with a `[agent/session]` text prefix and a
//! per-session ANSI color assigned round-robin from a small palette.
//! `--no-color` drops the color codes; `--quiet` suppresses everything
//! but script logs and asks; `-vv` additionally passes agent stderr
//! through. The renderer accumulates the rendered text; the embedding
//! program drains it (`take_output`) into its writer.

pub mod clock;
pub mod lines;

use vstd::prelude::*;

use crate::events::{AskAction, SessionEvent};
use crate::render::clock::{is_timestamp, timestamp};
use crate::render::lines::{
    ask_lines, ask_prose_lines, ask_resolved_line, exec_end_line, exec_end_text, exec_start_line,
    exec_start_text, plan_summary, plan_text, preview, prompt_preview,
};
use crate::events::action_text;
use crate::text::{
    lemma_join_split, chars_of, dec, opt_as_str, opt_string_view, opt_view, join, lemma_split_on_nonempty, push_dec, push_str_chars, split_chars, split_on,
    string_of, text_eq, lemma_views_push, lemma_split_concat,
};

verus! {

/// Rendering switches, shared by the terminal and the record's log.
#[derive(Debug, Clone, Copy, PartialEq, Eq, Structural)]
pub struct RenderOptions {
    /// `--quiet`: suppress streaming render and diagnostics.
    pub quiet: bool,
    /// `--no-color`: emit text prefixes without ANSI sequences.
    pub no_color: bool,
    /// `-vv`: pass agent subprocess stderr through.
    pub agent_stderr: bool,
    /// `--verbose`: runtime lifecycle diagnostics.
    pub verbose: bool,
}

impl RenderOptions {
    /// All output suppressed but script logs and asks.
    pub fn quiet() -> (o: Self)
        ensures
            o == (RenderOptions { quiet: true, no_color: false, agent_stderr: false, verbose: false }),
    {
        RenderOptions { quiet: true, no_color: false, agent_stderr: false, verbose: false }
    }
}

impl Default for RenderOptions {
    fn default() -> (o: Self)
        ensures
            o == (RenderOptions { quiet: false, no_color: false, agent_stderr: false, verbose: false }),
    {
        RenderOptions { quiet: false, no_color: false, agent_stderr: false, verbose: false }
    }
}

/// A display event extracted from a session update.
#[derive(Debug)]
pub enum DisplayEvent {
    /// A chunk of the agent's message text (streamed).
    Chunk(String),
    /// One rendered tool line body.
    Tool(String),
    /// Compact plan status list.
    Plan(String),
    /// Context-window usage line.
    Usage { used: u64, size: u64 },
}

/// The escape character.
pub open spec fn esc() -> char {
    '\u{1b}'
}

/// Palette of distinct ANSI foreground hues, cycled per session label:
/// cyan, yellow, magenta, green, blue, bright red.
pub open spec fn palette(i: nat) -> Seq<char> {
    if i == 0 {
        seq![esc(), '[', '3', '6', 'm']
    } else if i == 1 {
        seq![esc(), '[', '3', '3', 'm']
    } else if i == 2 {
        seq![esc(), '[', '3', '5', 'm']
    } else if i == 3 {
        seq![esc(), '[', '3', '2', 'm']
    } else if i == 4 {
        seq![esc(), '[', '3', '4', 'm']
    } else {
        seq![esc(), '[', '9', '1', 'm']
    }
}

/// The number of palette entries.
pub open spec fn palette_len() -> nat {
    6
}

/// Reset all attributes.
pub open spec fn reset() -> Seq<char> {
    seq![esc(), '[', '0', 'm']
}

/// Dim.
pub open spec fn dim() -> Seq<char> {
    seq![esc(), '[', '2', 'm']
}

fn palette_code(i: usize) -> (s: String)
    requires
        i < 6,
    ensures
        s@ == palette(i as nat),
{
    let mut s = String::new();
    s.push('\u{1b}');
    s.push('[');
    if i == 0 {
        s.push('3');
        s.push('6');
    } else if i == 1 {
        s.push('3');
        s.push('3');
    } else if i == 2 {
        s.push('3');
        s.push('5');
    } else if i == 3 {
        s.push('3');
        s.push('2');
    } else if i == 4 {
        s.push('3');
        s.push('4');
    } else {
        s.push('9');
        s.push('1');
    }
    s.push('m');
    assert(s@ =~= palette(i as nat));
    s
}

fn push_reset(out: &mut String)
    ensures
        final(out)@ == old(out)@ + reset(),
{
    out.push('\u{1b}');
    out.push('[');
    out.push('0');
    out.push('m');
    assert(out@ =~= old(out)@ + reset());
}

fn push_dim(out: &mut String)
    ensures
        final(out)@ == old(out)@ + dim(),
{
    out.push('\u{1b}');
    out.push('[');
    out.push('2');
    out.push('m');
    assert(out@ =~= old(out)@ + dim());
}

/// One attributed line: timestamp, `[label]`, the label's color, the text.
pub open spec fn prefixed_row(
    no_color: bool,
    ts: Seq<char>,
    label: Seq<char>,
    code: Seq<char>,
    line: Seq<char>,
) -> Seq<char> {
    if no_color {
        ts + seq![' ', '['] + label + seq![']', ' '] + line + seq!['\n']
    } else {
        dim() + ts + reset() + seq![' ', '['] + label + seq![']'] + code + seq![' '] + line + reset()
            + seq!['\n']
    }
}

/// One `[ptah]` diagnostic line: timestamped but never label-colored.
pub open spec fn ptah_row(no_color: bool, ts: Seq<char>, msg: Seq<char>) -> Seq<char> {
    if no_color {
        ts + " [ptah] "@ + msg + seq!['\n']
    } else {
        dim() + ts + reset() + " [ptah] "@ + msg + seq!['\n']
    }
}

/// Consecutive attributed lines, the i-th stamped with `stamps[i]`.
pub open spec fn prefixed_rows(
    no_color: bool,
    stamps: Seq<Seq<char>>,
    label: Seq<char>,
    code: Seq<char>,
    lines: Seq<Seq<char>>,
) -> Seq<char>
    decreases lines.len(),
{
    if lines.len() == 0 {
        Seq::<char>::empty()
    } else {
        prefixed_rows(no_color, stamps, label, code, lines.drop_last()) + prefixed_row(
            no_color,
            stamps[lines.len() - 1],
            label,
            code,
            lines.last(),
        )
    }
}

/// Consecutive `[ptah]` lines, the i-th stamped with `stamps[i]`.
pub open spec fn ptah_rows(no_color: bool, stamps: Seq<Seq<char>>, msgs: Seq<Seq<char>>) -> Seq<
    char,
>
    decreases msgs.len(),
{
    if msgs.len() == 0 {
        Seq::<char>::empty()
    } else {
        ptah_rows(no_color, stamps, msgs.drop_last()) + ptah_row(
            no_color,
            stamps[msgs.len() - 1],
            msgs.last(),
        )
    }
}

/// `str::lines`: the pieces a `\n` ends, each with one trailing `\r`
/// stripped, then the text after the last `\n` as it stands, when it is
/// not empty.
pub open spec fn text_lines(s: Seq<char>) -> Seq<Seq<char>> {
    let parts = split_on(s, '\n');
    let ended = parts.drop_last().map_values(|l: Seq<char>| strip_cr(l));
    if parts.last().len() == 0 {
        ended
    } else {
        ended.push(parts.last())
    }
}

/// One trailing `\r` removed.
pub open spec fn strip_cr(l: Seq<char>) -> Seq<char> {
    if l.len() > 0 && l.last() == '\r' {
        l.drop_last()
    } else {
        l
    }
}

/// The lines of a text as `str::lines` yields them.
pub fn lines_of(text: &str) -> (ls: Vec<String>)
    ensures
        ls@.map_values(|r: String| r@) == text_lines(text@),
{
    let parts = split_chars(text, '\n');
    let ghost pv = parts@.map_values(|r: String| r@);
    proof {
        lemma_split_on_nonempty(text@, '\n');
    }
    let n = parts.len();
    let ghost ended = pv.drop_last();
    let mut ls: Vec<String> = Vec::new();
    let mut i: usize = 0;
    while i < n - 1
        invariant
            1 <= n == parts.len(),
            i <= n - 1,
            pv == parts@.map_values(|r: String| r@),
            ended == pv.drop_last(),
            ls@.map_values(|r: String| r@) == ended.take(i as int).map_values(|l: Seq<char>| strip_cr(l)),
        decreases n - 1 - i,
    {
        let v = chars_of(parts[i].as_str());
        assert(v@ == pv[i as int]);
        assert(ended[i as int] == pv[i as int]);
        let s = if v.len() > 0 && v[v.len() - 1] == '\r' {
            let mut w = v.clone();
            w.pop();
            assert(w@ =~= v@.drop_last());
            string_of(&w)
        } else {
            string_of(&v)
        };
        assert(s@ == strip_cr(ended[i as int]));
        let ghost before = ls@;
        ls.push(s);
        proof {
            lemma_views_push(before, s);
            assert(ended.take(i as int + 1).map_values(|l: Seq<char>| strip_cr(l)) =~= ended.take(
                i as int,
            ).map_values(|l: Seq<char>| strip_cr(l)).push(strip_cr(ended[i as int])));
        }
        i += 1;
    }
    assert(ended.take((n - 1) as int) =~= ended);
    assert(parts@[n - 1]@ == pv.last());
    if parts[n - 1].as_str().unicode_len() != 0 {
        let last = string_of(&chars_of(parts[n - 1].as_str()));
        let ghost before = ls@;
        ls.push(last);
        proof {
            lemma_views_push(before, last);
        }
    }
    ls
}

/// The note rendered for a typed-result submission that arrived with no
/// turn in flight (it is dropped, not errored).
pub open spec fn late_verdict_text() -> Seq<char> {
    ": dropped late typed-result submission (no turn in flight)"@
}

fn push_late_verdict(out: &mut String)
    ensures
        final(out)@ == old(out)@ + late_verdict_text(),
{
    proof {
        reveal_strlit(": dropped late typed-result submission (no turn in flight)");
    }
    push_str_chars(out, ": dropped late typed-result submission (no turn in flight)");
}

/// The context-usage line body.
pub open spec fn usage_text(used: nat, size: nat) -> Seq<char> {
    "context: "@ + dec(used) + seq!['/'] + dec(size) + " tokens"@
}

/// `context: {used}/{size} tokens`.
pub fn usage_line(used: u64, size: u64) -> (s: String)
    ensures
        s@ == usage_text(used as nat, size as nat),
{
    proof {
        reveal_strlit("context: ");
        reveal_strlit(" tokens");
    }
    let mut s = String::new();
    push_str_chars(&mut s, "context: ");
    push_dec(&mut s, used);
    s.push('/');
    push_dec(&mut s, size);
    push_str_chars(&mut s, " tokens");
    s
}

/// The complete lines and the remaining partial line of a chunk buffer
/// after `delta` arrives: the pieces between newlines, the last piece
/// staying buffered.
pub open spec fn chunk_lines(partial: Seq<char>, delta: Seq<char>) -> Seq<Seq<char>> {
    split_on(partial + delta, '\n').drop_last()
}

/// The partial line left buffered after `delta` arrives (before a flush).
pub open spec fn chunk_rest(partial: Seq<char>, delta: Seq<char>) -> Seq<char> {
    split_on(partial + delta, '\n').last()
}

/// The lines one `chunk` call renders for its label: the complete lines,
/// and, when flushing, the remaining partial line if it is not empty.
pub open spec fn chunk_emitted(partial: Seq<char>, delta: Seq<char>, flush: bool) -> Seq<Seq<char>> {
    let parts = split_on(partial + delta, '\n');
    if flush && parts.last().len() > 0 {
        parts
    } else {
        parts.drop_last()
    }
}

/// Texts concatenated in order.
pub open spec fn concat_texts(ds: Seq<Seq<char>>) -> Seq<char>
    decreases ds.len(),
{
    if ds.len() == 0 {
        Seq::<char>::empty()
    } else {
        ds[0] + concat_texts(ds.drop_first())
    }
}

/// The lines a run of `chunk` calls for one label renders, starting from
/// the buffered `partial`: every call but the last without flushing, the
/// last one with `flush`.
pub open spec fn stream_emitted(partial: Seq<char>, ds: Seq<Seq<char>>, flush: bool) -> Seq<Seq<char>>
    decreases ds.len(),
{
    if ds.len() == 0 {
        Seq::<Seq<char>>::empty()
    } else if ds.len() == 1 {
        chunk_emitted(partial, ds[0], flush)
    } else {
        chunk_lines(partial, ds[0]) + stream_emitted(chunk_rest(partial, ds[0]), ds.drop_first(), flush)
    }
}

/// The partial line buffered after such a run of calls.
pub open spec fn stream_rest(partial: Seq<char>, ds: Seq<Seq<char>>, flush: bool) -> Seq<char>
    decreases ds.len(),
{
    if ds.len() == 0 {
        partial
    } else if ds.len() == 1 {
        if flush {
            Seq::<char>::empty()
        } else {
            chunk_rest(partial, ds[0])
        }
    } else {
        stream_rest(chunk_rest(partial, ds[0]), ds.drop_first(), flush)
    }
}

proof fn lemma_chunk_two_steps(p: Seq<char>, d: Seq<char>, e: Seq<char>, flush: bool)
    ensures
        chunk_lines(p, d) + chunk_emitted(chunk_rest(p, d), e, flush) == chunk_emitted(p, d + e, flush),
        chunk_lines(p, d) + chunk_lines(chunk_rest(p, d), e) == chunk_lines(p, d + e),
        chunk_rest(chunk_rest(p, d), e) == chunk_rest(p, d + e),
{
    assert(p + (d + e) =~= (p + d) + e);
    lemma_split_concat(p + d, e, '\n');
    let a = split_on(p + d, '\n').drop_last();
    let x = split_on(chunk_rest(p, d) + e, '\n');
    lemma_split_on_nonempty(chunk_rest(p, d) + e, '\n');
    assert((a + x).last() == x.last());
    assert((a + x).drop_last() =~= a + x.drop_last());
}

/// How a label's text is cut into chunks never changes what renders: a
/// run of `chunk` calls (each one's effect being `chunk_done`) renders,
/// from a buffered `partial`, exactly the lines one call with the whole
/// text would — the complete lines of `partial` followed by all the text,
/// then, when the last call flushes, the non-empty remainder — and leaves
/// the same partial line buffered.
pub proof fn chunking_does_not_change_output(partial: Seq<char>, ds: Seq<Seq<char>>, flush: bool)
    requires
        ds.len() >= 1,
    ensures
        stream_emitted(partial, ds, flush) == chunk_emitted(partial, concat_texts(ds), flush),
        stream_rest(partial, ds, flush) == if flush {
            Seq::<char>::empty()
        } else {
            chunk_rest(partial, concat_texts(ds))
        },
    decreases ds.len(),
{
    if ds.len() == 1 {
        assert(ds.drop_first().len() == 0);
        assert(concat_texts(ds.drop_first()) == Seq::<char>::empty());
        assert(concat_texts(ds) == ds[0] + concat_texts(ds.drop_first()));
        assert(concat_texts(ds) =~= ds[0]);
    } else {
        let rest = ds.drop_first();
        chunking_does_not_change_output(chunk_rest(partial, ds[0]), rest, flush);
        lemma_chunk_two_steps(partial, ds[0], concat_texts(rest), flush);
    }
}

/// The lines a run of renderer states records for `label`, one `chunk`
/// call between each state and the next (`rs[i]` before the i-th call):
/// what each call emitted, in order.
pub open spec fn calls_emitted(rs: Seq<Renderer>, label: Seq<char>, ds: Seq<Seq<char>>, flush: bool) -> Seq<
    Seq<char>,
>
    decreases ds.len(),
{
    if ds.len() == 0 {
        Seq::<Seq<char>>::empty()
    } else if ds.len() == 1 {
        chunk_emitted(rs[0].partial(label), ds[0], flush)
    } else {
        chunk_emitted(rs[0].partial(label), ds[0], false) + calls_emitted(
            rs.drop_first(),
            label,
            ds.drop_first(),
            flush,
        )
    }
}

proof fn lemma_calls_follow_stream(rs: Seq<Renderer>, label: Seq<char>, ds: Seq<Seq<char>>, flush: bool)
    requires
        ds.len() >= 1,
        rs.len() == ds.len() + 1,
        !rs[0].opts().quiet,
        forall|i: int|
            #![trigger ds[i]]
            0 <= i < ds.len() ==> rs[i + 1].chunk_done(&rs[i], label, ds[i], flush && i == ds.len() - 1),
    ensures
        calls_emitted(rs, label, ds, flush) == stream_emitted(rs[0].partial(label), ds, flush),
        rs.last().partial(label) == stream_rest(rs[0].partial(label), ds, flush),
    decreases ds.len(),
{
    let d0 = ds[0];
    assert(rs[1].chunk_done(&rs[0], label, d0, flush && 0 == ds.len() - 1));
    if ds.len() > 1 {
        let rs1 = rs.drop_first();
        let ds1 = ds.drop_first();
        assert(rs[1].opts() == rs[0].opts());
        assert(rs[1].partial(label) == chunk_rest(rs[0].partial(label), d0));
        assert forall|i: int|
            #![trigger ds1[i]]
            0 <= i < ds1.len() implies rs1[i + 1].chunk_done(&rs1[i], label, ds1[i], flush && i == ds1.len() - 1) by {
            assert(ds[i + 1] == ds1[i]);
            assert(rs1[i + 1] == rs[i + 2] && rs1[i] == rs[i + 1]);
        }
        lemma_calls_follow_stream(rs1, label, ds1, flush);
        assert(rs1.last() == rs.last());
        assert(chunk_emitted(rs[0].partial(label), d0, false) == chunk_lines(rs[0].partial(label), d0));
    }
}

/// A run of `chunk` calls for one label, with no other call for it in
/// between, renders exactly what one call with the whole text would: the
/// lines the calls emit, taken in order, are the `\n`-ended pieces of the
/// buffered text followed by all the chunks, then (when the last call
/// flushes) the non-empty remainder; and the same partial line stays
/// buffered. `rs[i]` is the renderer before the i-th call and `rs[i + 1]`
/// after it, as `chunk`'s contract (`chunk_done`) relates them.
pub proof fn chunk_calls_render_as_one(rs: Seq<Renderer>, label: Seq<char>, ds: Seq<Seq<char>>, flush: bool)
    requires
        ds.len() >= 1,
        rs.len() == ds.len() + 1,
        !rs[0].opts().quiet,
        forall|i: int|
            #![trigger ds[i]]
            0 <= i < ds.len() ==> rs[i + 1].chunk_done(&rs[i], label, ds[i], flush && i == ds.len() - 1),
    ensures
        calls_emitted(rs, label, ds, flush) == chunk_emitted(rs[0].partial(label), concat_texts(ds), flush),
        rs.last().partial(label) == if flush {
            Seq::<char>::empty()
        } else {
            chunk_rest(rs[0].partial(label), concat_texts(ds))
        },
{
    lemma_calls_follow_stream(rs, label, ds, flush);
    chunking_does_not_change_output(rs[0].partial(label), ds, flush);
}

/// An `exec` lifecycle line shows in every mode but quiet, verbose or not:
/// unless quiet, `exec_line` appends exactly one freshly stamped
/// `[ptah] <msg>` row to the output; when quiet it writes nothing.
pub proof fn exec_lines_show_unless_quiet(after: Renderer, before: Renderer, msg: Seq<char>)
    requires
        after.exec_done(&before, msg),
    ensures
        !before.opts().quiet ==> {
            &&& after.stamps().len() == before.stamps().len() + 1
            &&& is_timestamp(after.stamps().last())
            &&& after.output() == before.output() + ptah_row(before.opts().no_color, after.stamps().last(), msg)
        },
        before.opts().quiet ==> after.output() == before.output() && after.stamps() == before.stamps(),
{
    if !before.opts().quiet {
        let k = before.stamps().len();
        lemma_ptah_rows_one(before.opts().no_color, after.stamps().skip(k as int), msg);
        assert(after.stamps().skip(k as int)[0] == after.stamps().last());
        assert(is_timestamp(after.stamps()[k as int]));
    }
}

/// Lines, each followed by a newline.
pub open spec fn lines_text(ls: Seq<Seq<char>>) -> Seq<char>
    decreases ls.len(),
{
    if ls.len() == 0 {
        Seq::<char>::empty()
    } else {
        lines_text(ls.drop_last()) + ls.last() + seq!['\n']
    }
}

proof fn lemma_join_as_lines(parts: Seq<Seq<char>>)
    requires
        parts.len() >= 1,
    ensures
        join(parts, seq!['\n']) == lines_text(parts.drop_last()) + parts.last(),
    decreases parts.len(),
{
    if parts.len() == 1 {
        assert(parts.drop_last().len() == 0);
        assert(lines_text(parts.drop_last()) + parts.last() =~= parts[0]);
    } else {
        let init = parts.drop_last();
        lemma_join_as_lines(init);
        assert(init.drop_last() =~= parts.drop_last().drop_last());
        assert(lines_text(parts.drop_last()) == lines_text(init.drop_last()) + init.last() + seq!['\n']);
        assert(join(parts, seq!['\n']) == join(init, seq!['\n']) + seq!['\n'] + parts.last());
        assert(lines_text(init.drop_last()) + init.last() + seq!['\n'] + parts.last() =~= lines_text(
            init.drop_last(),
        ) + init.last() + seq!['\n'] + parts.last());
    }
}

/// Streaming loses, duplicates and reorders nothing: a label's buffered
/// partial line followed by a chunk is exactly the lines the chunk
/// completes, each ended by its newline, followed by the partial line
/// left buffered.
pub proof fn streamed_text_is_conserved(partial: Seq<char>, delta: Seq<char>)
    ensures
        partial + delta == lines_text(chunk_lines(partial, delta)) + chunk_rest(partial, delta),
{
    lemma_join_split(partial + delta, '\n');
    lemma_split_on_nonempty(partial + delta, '\n');
    lemma_join_as_lines(split_on(partial + delta, '\n'));
}

/// A single row renders as itself.
pub proof fn lemma_prefixed_rows_one(
    no_color: bool,
    stamps: Seq<Seq<char>>,
    label: Seq<char>,
    code: Seq<char>,
    line: Seq<char>,
)
    requires
        stamps.len() >= 1,
    ensures
        prefixed_rows(no_color, stamps, label, code, seq![line]) == prefixed_row(
            no_color,
            stamps[0],
            label,
            code,
            line,
        ),
{
    assert(seq![line].drop_last() =~= Seq::<Seq<char>>::empty());
    assert(prefixed_rows(no_color, stamps, label, code, Seq::<Seq<char>>::empty()) =~= Seq::<
        char,
    >::empty());
}

/// A single `[ptah]` row renders as itself.
pub proof fn lemma_ptah_rows_one(no_color: bool, stamps: Seq<Seq<char>>, msg: Seq<char>)
    requires
        stamps.len() >= 1,
    ensures
        ptah_rows(no_color, stamps, seq![msg]) == ptah_row(no_color, stamps[0], msg),
{
    assert(seq![msg].drop_last() =~= Seq::<Seq<char>>::empty());
    assert(ptah_rows(no_color, stamps, Seq::<Seq<char>>::empty()) =~= Seq::<char>::empty());
}

fn push_prefixed_row(
    out: &mut String,
    no_color: bool,
    ts: &str,
    label: &str,
    code: &str,
    line: &str,
)
    ensures
        final(out)@ == old(out)@ + prefixed_row(no_color, ts@, label@, code@, line@),
{
    if no_color {
        push_str_chars(out, ts);
        out.push(' ');
        out.push('[');
        push_str_chars(out, label);
        out.push(']');
        out.push(' ');
        push_str_chars(out, line);
        out.push('\n');
    } else {
        push_dim(out);
        push_str_chars(out, ts);
        push_reset(out);
        out.push(' ');
        out.push('[');
        push_str_chars(out, label);
        out.push(']');
        push_str_chars(out, code);
        out.push(' ');
        push_str_chars(out, line);
        push_reset(out);
        out.push('\n');
    }
    assert(out@ =~= old(out)@ + prefixed_row(no_color, ts@, label@, code@, line@));
}

fn push_ptah_row(out: &mut String, no_color: bool, ts: &str, msg: &str)
    ensures
        final(out)@ == old(out)@ + ptah_row(no_color, ts@, msg@),
{
    proof {
        reveal_strlit(" [ptah] ");
    }
    if !no_color {
        push_dim(out);
    }
    push_str_chars(out, ts);
    if !no_color {
        push_reset(out);
    }
    push_str_chars(out, " [ptah] ");
    push_str_chars(out, msg);
    out.push('\n');
    assert(out@ =~= old(out)@ + ptah_row(no_color, ts@, msg@));
}

/// Rows depend only on the stamps they use.
pub proof fn lemma_prefixed_rows_stamps(
    no_color: bool,
    s1: Seq<Seq<char>>,
    s2: Seq<Seq<char>>,
    label: Seq<char>,
    code: Seq<char>,
    lines: Seq<Seq<char>>,
)
    requires
        s1.len() >= lines.len(),
        s2.len() >= lines.len(),
        forall|i: int| 0 <= i < lines.len() ==> s1[i] == s2[i],
    ensures
        prefixed_rows(no_color, s1, label, code, lines) == prefixed_rows(
            no_color,
            s2,
            label,
            code,
            lines,
        ),
    decreases lines.len(),
{
    if lines.len() > 0 {
        lemma_prefixed_rows_stamps(no_color, s1, s2, label, code, lines.drop_last());
    }
}

/// `[ptah]` rows depend only on the stamps they use.
pub proof fn lemma_ptah_rows_stamps(
    no_color: bool,
    s1: Seq<Seq<char>>,
    s2: Seq<Seq<char>>,
    msgs: Seq<Seq<char>>,
)
    requires
        s1.len() >= msgs.len(),
        s2.len() >= msgs.len(),
        forall|i: int| 0 <= i < msgs.len() ==> s1[i] == s2[i],
    ensures
        ptah_rows(no_color, s1, msgs) == ptah_rows(no_color, s2, msgs),
    decreases msgs.len(),
{
    if msgs.len() > 0 {
        lemma_ptah_rows_stamps(no_color, s1, s2, msgs.drop_last());
    }
}

/// The shared, single-writer renderer. It owns the per-label color
/// assignment and the per-label partial-line buffers, and accumulates
/// rendered text until the embedder drains it.
pub struct Renderer {
    opts: RenderOptions,
    /// Label -> palette index, in first-use order.
    styles: Vec<(String, usize)>,
    /// The next palette index to hand out.
    next_style: usize,
    /// Label -> partial line buffered for the next newline.
    bufs: Vec<(String, String)>,
    /// Rendered text not yet drained.
    out: String,
    /// Every timestamp stamped so far, in write order.
    stamps: Ghost<Seq<Seq<char>>>,
}

/// The color assignment after a label is first rendered: the next palette
/// entry, cycling; an already-assigned label keeps its color.
pub open spec fn assign_style(styles: Map<Seq<char>, nat>, next: nat, label: Seq<char>) -> (Map<
    Seq<char>,
    nat,
>, nat) {
    if styles.contains_key(label) {
        (styles, next)
    } else {
        (styles.insert(label, next), (next + 1) % palette_len())
    }
}

/// A label keeps the color it was first given: rendering more lines for
/// any label never changes the palette entry of a label already colored,
/// and a newly colored label takes the next entry of the cycle.
pub proof fn colors_are_stable(
    old: &Renderer,
    new: &Renderer,
    label: Seq<char>,
    lines: Seq<Seq<char>>,
    l: Seq<char>,
)
    requires
        new.wrote_prefixed_rows(old, label, lines),
    ensures
        old.style_map().contains_key(l) ==> new.style_map().contains_key(l) && new.style_map()[l]
            == old.style_map()[l],
        lines.len() > 0 && !old.opts().no_color && !old.style_map().contains_key(label) ==> new.style_map()[label]
            == old.next_style() && new.next_style() == (old.next_style() + 1) % palette_len(),
{
}

impl Renderer {
    /// The rendering switches.
    pub closed spec fn opts(&self) -> RenderOptions {
        self.opts
    }

    /// Rendered text not yet drained.
    pub closed spec fn output(&self) -> Seq<char> {
        self.out@
    }

    /// Every timestamp stamped so far.
    pub closed spec fn stamps(&self) -> Seq<Seq<char>> {
        self.stamps@
    }

    /// The label -> palette index assignment.
    pub closed spec fn style_map(&self) -> Map<Seq<char>, nat> {
        Map::new(
            |l: Seq<char>| exists|i: int| 0 <= i < self.styles.len() && self.styles@[i].0@ == l,
            |l: Seq<char>|
                self.styles@[choose|i: int| 0 <= i < self.styles.len() && self.styles@[i].0@ == l].1
                    as nat,
        )
    }

    /// The palette index the next new label receives.
    pub closed spec fn next_style(&self) -> nat {
        self.next_style as nat
    }

    /// The partial line buffered for a label (empty when none).
    pub closed spec fn partial(&self, label: Seq<char>) -> Seq<char> {
        if exists|i: int| 0 <= i < self.bufs.len() && self.bufs@[i].0@ == label {
            self.bufs@[choose|i: int| 0 <= i < self.bufs.len() && self.bufs@[i].0@ == label].1@
        } else {
            Seq::<char>::empty()
        }
    }

    /// Internal consistency: labels occur once per table, palette
    /// indices are in range.
    pub closed spec fn wf(&self) -> bool {
        &&& self.next_style < 6
        &&& forall|i: int| 0 <= i < self.styles.len() ==> #[trigger] self.styles@[i].1 < 6
        &&& forall|i: int, j: int|
            0 <= i < j < self.styles.len() ==> #[trigger] self.styles@[i].0@
                != #[trigger] self.styles@[j].0@
        &&& forall|i: int, j: int|
            0 <= i < j < self.bufs.len() ==> #[trigger] self.bufs@[i].0@
                != #[trigger] self.bufs@[j].0@
    }

    /// The color code a label renders with.
    pub open spec fn code_for(&self, label: Seq<char>) -> Seq<char> {
        if self.opts().no_color {
            Seq::<char>::empty()
        } else {
            palette(self.style_map()[label])
        }
    }

    /// Everything but the output, the stamps and the colors is unchanged.
    pub open spec fn same_buffers(&self, other: &Renderer) -> bool {
        &&& self.opts() == other.opts()
        &&& forall|l: Seq<char>| #[trigger] self.partial(l) == other.partial(l)
    }

    /// The stamps grew by `n`, each a rendered timestamp.
    pub open spec fn stamped(&self, old: &Renderer, n: nat) -> bool {
        let k = old.stamps().len();
        &&& self.stamps().len() == k + n
        &&& self.stamps().subrange(0, k as int) == old.stamps()
        &&& forall|i: int| k <= i < self.stamps().len() ==> is_timestamp(#[trigger] self.stamps()[i])
    }

    /// `lines` were written attributed to `label`: colors assigned when at
    /// least one line was written, one stamp per line.
    pub open spec fn wrote_prefixed(&self, old: &Renderer, label: Seq<char>, lines: Seq<Seq<char>>) -> bool {
        &&& self.same_buffers(old)
        &&& self.wrote_prefixed_rows(old, label, lines)
    }

    /// `lines` were rendered attributed to `label` (buffers aside).
    pub open spec fn wrote_prefixed_rows(&self, old: &Renderer, label: Seq<char>, lines: Seq<Seq<char>>) -> bool {
        let k = old.stamps().len();
        &&& self.wf()
        &&& self.opts() == old.opts()
        &&& self.stamped(old, lines.len())
        &&& if lines.len() > 0 && !old.opts().no_color {
            (self.style_map(), self.next_style()) == assign_style(
                old.style_map(),
                old.next_style(),
                label,
            )
        } else {
            self.style_map() == old.style_map() && self.next_style() == old.next_style()
        }
        &&& self.output() == old.output() + prefixed_rows(
            old.opts().no_color,
            self.stamps().skip(k as int),
            label,
            self.code_for(label),
            lines,
        )
    }

    /// `msgs` were written as `[ptah]` lines, one stamp each.
    pub open spec fn wrote_ptah(&self, old: &Renderer, msgs: Seq<Seq<char>>) -> bool {
        let k = old.stamps().len();
        &&& self.wf()
        &&& self.same_buffers(old)
        &&& self.stamped(old, msgs.len())
        &&& self.style_map() == old.style_map()
        &&& self.next_style() == old.next_style()
        &&& self.output() == old.output() + ptah_rows(
            old.opts().no_color,
            self.stamps().skip(k as int),
            msgs,
        )
    }

    /// Nothing changed.
    pub open spec fn unchanged(&self, old: &Renderer) -> bool {
        &&& self.wf()
        &&& self.same_buffers(old)
        &&& self.stamps() == old.stamps()
        &&& self.style_map() == old.style_map()
        &&& self.next_style() == old.next_style()
        &&& self.output() == old.output()
    }

    /// Equal switches and buffer tables give equal buffers.
    proof fn lemma_same_buffers(&self, other: &Renderer)
        requires
            self.opts == other.opts,
            self.bufs@ == other.bufs@,
        ensures
            self.same_buffers(other),
    {
        assert forall|l: Seq<char>| #[trigger] self.partial(l) == other.partial(l) by {
            if exists|i: int| 0 <= i < self.bufs.len() && self.bufs@[i].0@ == l {
                let i = choose|i: int| 0 <= i < self.bufs.len() && self.bufs@[i].0@ == l;
                assert(other.bufs@[i].0@ == l);
            }
            if exists|i: int| 0 <= i < other.bufs.len() && other.bufs@[i].0@ == l {
                let i = choose|i: int| 0 <= i < other.bufs.len() && other.bufs@[i].0@ == l;
                assert(self.bufs@[i].0@ == l);
            }
        }
    }

    /// Writing nothing.
    pub proof fn lemma_wrote_nothing(&self, label: Seq<char>)
        requires
            self.wf(),
        ensures
            self.wrote_prefixed(self, label, Seq::<Seq<char>>::empty()),
            self.wrote_ptah(self, Seq::<Seq<char>>::empty()),
    {
        assert(self.stamps().subrange(0, self.stamps().len() as int) =~= self.stamps());
        assert(self.output() + Seq::<char>::empty() =~= self.output());
    }

    /// Writing attributed rows one after another.
    pub proof fn lemma_wrote_prefixed_step(
        a: &Renderer,
        b: &Renderer,
        c: &Renderer,
        label: Seq<char>,
        lines: Seq<Seq<char>>,
        x: Seq<char>,
    )
        requires
            b.wrote_prefixed_rows(a, label, lines),
            c.wrote_prefixed_rows(b, label, seq![x]),
        ensures
            c.wrote_prefixed_rows(a, label, lines.push(x)),
    {
        let ka = a.stamps().len();
        let kb = b.stamps().len();
        let n = lines.len();
        assert(kb == ka + n);
        assert forall|i: int| 0 <= i < ka implies #[trigger] c.stamps()[i] == a.stamps()[i] by {
            assert(c.stamps().subrange(0, kb as int)[i] == b.stamps()[i]);
            assert(b.stamps().subrange(0, ka as int)[i] == a.stamps()[i]);
        }
        assert(c.stamps().subrange(0, ka as int) =~= a.stamps());
        assert forall|i: int| ka <= i < c.stamps().len() implies is_timestamp(
            #[trigger] c.stamps()[i],
        ) by {
            if i < kb {
                assert(c.stamps().subrange(0, kb as int)[i] == b.stamps()[i]);
            }
        }
        let nc = a.opts().no_color;
        if !nc {
            assert(b.style_map().contains_key(label) || n == 0);
        }
        let sc = c.stamps().skip(ka as int);
        let sb = b.stamps().skip(ka as int);
        assert forall|i: int| 0 <= i < n implies sc[i] == sb[i] by {
            assert(c.stamps().subrange(0, kb as int)[ka + i] == b.stamps()[ka + i]);
        }
        if n > 0 {
            assert(c.code_for(label) == b.code_for(label));
        }
        lemma_prefixed_rows_stamps(nc, sc, sb, label, c.code_for(label), lines);
        if n == 0 {
            assert(prefixed_rows(nc, sb, label, b.code_for(label), lines) =~= Seq::<char>::empty());
            assert(prefixed_rows(nc, sc, label, c.code_for(label), lines) =~= Seq::<char>::empty());
        }
        lemma_prefixed_rows_one(nc, c.stamps().skip(kb as int), label, c.code_for(label), x);
        assert(lines.push(x).drop_last() =~= lines);
        assert(c.stamps().skip(kb as int)[0] == sc[n as int]);
        assert(c.output() =~= a.output() + prefixed_rows(nc, sc, label, c.code_for(label), lines.push(x)));
    }

    /// Writing `[ptah]` rows one after another.
    pub proof fn lemma_wrote_ptah_step(
        a: &Renderer,
        b: &Renderer,
        c: &Renderer,
        msgs: Seq<Seq<char>>,
        x: Seq<char>,
    )
        requires
            b.wrote_ptah(a, msgs),
            c.wrote_ptah(b, seq![x]),
        ensures
            c.wrote_ptah(a, msgs.push(x)),
    {
        let ka = a.stamps().len();
        let kb = b.stamps().len();
        let n = msgs.len();
        assert forall|i: int| 0 <= i < ka implies #[trigger] c.stamps()[i] == a.stamps()[i] by {
            assert(c.stamps().subrange(0, kb as int)[i] == b.stamps()[i]);
            assert(b.stamps().subrange(0, ka as int)[i] == a.stamps()[i]);
        }
        assert(c.stamps().subrange(0, ka as int) =~= a.stamps());
        assert forall|i: int| ka <= i < c.stamps().len() implies is_timestamp(
            #[trigger] c.stamps()[i],
        ) by {
            if i < kb {
                assert(c.stamps().subrange(0, kb as int)[i] == b.stamps()[i]);
            }
        }
        assert forall|l: Seq<char>| #[trigger] c.partial(l) == a.partial(l) by {
            assert(c.partial(l) == b.partial(l));
        }
        let nc = a.opts().no_color;
        let sc = c.stamps().skip(ka as int);
        let sb = b.stamps().skip(ka as int);
        assert forall|i: int| 0 <= i < n implies sc[i] == sb[i] by {
            assert(c.stamps().subrange(0, kb as int)[ka + i] == b.stamps()[ka + i]);
        }
        lemma_ptah_rows_stamps(nc, sc, sb, msgs);
        lemma_ptah_rows_one(nc, c.stamps().skip(kb as int), x);
        assert(msgs.push(x).drop_last() =~= msgs);
        assert(c.stamps().skip(kb as int)[0] == sc[n as int]);
        assert(c.output() =~= a.output() + ptah_rows(nc, sc, msgs.push(x)));
    }

    /// A renderer with the given switches and nothing rendered yet.
    pub fn new(opts: RenderOptions) -> (r: Self)
        ensures
            r.wf(),
            r.opts() == opts,
            r.output().len() == 0,
            r.stamps().len() == 0,
            r.style_map() == Map::<Seq<char>, nat>::empty(),
            r.next_style() == 0,
            forall|l: Seq<char>| #[trigger] r.partial(l).len() == 0,
    {
        let r = Renderer {
            opts,
            styles: Vec::new(),
            next_style: 0,
            bufs: Vec::new(),
            out: String::new(),
            stamps: Ghost(Seq::empty()),
        };
        assert(r.style_map() =~= Map::<Seq<char>, nat>::empty());
        r
    }

    /// The rendering switches.
    pub fn options(&self) -> (o: RenderOptions)
        ensures
            o == self.opts(),
    {
        self.opts
    }

    /// Drain the rendered text.
    pub fn take_output(&mut self) -> (s: String)
        requires
            old(self).wf(),
        ensures
            s@ == old(self).output(),
            final(self).output().len() == 0,
            final(self).wf(),
            final(self).same_buffers(old(self)),
            final(self).stamps() == old(self).stamps(),
            final(self).style_map() == old(self).style_map(),
            final(self).next_style() == old(self).next_style(),
    {
        let ghost pre = *self;
        let mut s = String::new();
        std::mem::swap(&mut s, &mut self.out);
        proof {
            self.lemma_same_buffers(&pre);
        }
        s
    }

    /// Look up or assign the label's palette index.
    fn style_index(&mut self, label: &str) -> (idx: usize)
        requires
            old(self).wf(),
        ensures
            final(self).wf(),
            (final(self).style_map(), final(self).next_style()) == assign_style(
                old(self).style_map(),
                old(self).next_style(),
                label@,
            ),
            final(self).style_map()[label@] == idx as nat,
            idx < 6,
            final(self).output() == old(self).output(),
            final(self).stamps() == old(self).stamps(),
            final(self).same_buffers(old(self)),
    {
        let ghost old_map = self.style_map();
        let mut i: usize = 0;
        while i < self.styles.len()
            invariant
                i <= self.styles.len(),
                self.wf(),
                forall|j: int| 0 <= j < i ==> self.styles@[j].0@ != label@,
                self.style_map() == old_map,
            decreases self.styles.len() - i,
        {
            if text_eq(self.styles[i].0.as_str(), label) {
                let idx = self.styles[i].1;
                proof {
                    self.lemma_same_buffers(&*old(self));
                    assert(old_map.contains_key(label@));
                    let c = choose|j: int| 0 <= j < self.styles.len() && self.styles@[j].0@ == label@;
                    assert(c == i as int);
                }
                return idx;
            }
            i += 1;
        }
        let idx = self.next_style;
        let ghost old_styles = self.styles@;
        self.styles.push((label.to_string(), idx));
        self.next_style = if self.next_style == 5 {
            0
        } else {
            self.next_style + 1
        };
        proof {
            self.lemma_same_buffers(&*old(self));
            assert(!old_map.contains_key(label@));
            let n = old_styles.len() as int;
            assert forall|a: int, b: int|
                0 <= a < b < self.styles.len() implies #[trigger] self.styles@[a].0@
                != #[trigger] self.styles@[b].0@ by {
                if b == n {
                    assert(old_styles[a].0@ != label@);
                } else {
                    assert(old_styles[a].0@ != old_styles[b].0@);
                }
            }
            assert forall|a: int| 0 <= a < self.styles.len() implies #[trigger] self.styles@[a].1
                < 6 by {
                if a < n {
                    assert(old_styles[a].1 < 6);
                }
            }
            assert(self.styles@[n].0@ == label@);
            assert forall|l: Seq<char>| #[trigger] self.style_map().contains_key(l) == old_map.insert(
                label@,
                idx as nat,
            ).contains_key(l) by {
                if l != label@ {
                    if exists|j: int| 0 <= j < self.styles.len() && self.styles@[j].0@ == l {
                        let j = choose|j: int| 0 <= j < self.styles.len() && self.styles@[j].0@ == l;
                        assert(j < n);
                        assert(old_styles[j].0@ == l);
                    }
                    if exists|j: int| 0 <= j < old_styles.len() && old_styles[j].0@ == l {
                        let j = choose|j: int| 0 <= j < old_styles.len() && old_styles[j].0@ == l;
                        assert(self.styles@[j].0@ == l);
                    }
                }
            }
            assert forall|l: Seq<char>| self.style_map().contains_key(l) implies #[trigger] self.style_map()[l]
                == old_map.insert(label@, idx as nat)[l] by {
                let c = choose|j: int| 0 <= j < self.styles.len() && self.styles@[j].0@ == l;
                if l == label@ {
                    assert(c == n);
                } else {
                    assert(c < n);
                    assert(old_styles[c].0@ == l);
                    let c2 = choose|j: int| 0 <= j < old_styles.len() && old_styles[j].0@ == l;
                    assert(self.styles@[c2].0@ == l);
                    assert(c == c2);
                }
            }
            assert(self.style_map() =~= old_map.insert(label@, idx as nat));
        }
        idx
    }

    /// The label's color code (empty under `--no-color`, which assigns
    /// nothing).
    fn style_for(&mut self, label: &str) -> (code: String)
        requires
            old(self).wf(),
        ensures
            final(self).wf(),
            if old(self).opts().no_color {
                final(self).style_map() == old(self).style_map() && final(self).next_style()
                    == old(self).next_style()
            } else {
                (final(self).style_map(), final(self).next_style()) == assign_style(
                    old(self).style_map(),
                    old(self).next_style(),
                    label@,
                )
            },
            code@ == final(self).code_for(label@),
            final(self).output() == old(self).output(),
            final(self).stamps() == old(self).stamps(),
            final(self).same_buffers(old(self)),
    {
        if self.opts.no_color {
            return String::new();
        }
        let idx = self.style_index(label);
        palette_code(idx)
    }

    /// Write rows attributed to `label`, one per line, in order.
    fn prefixed_lines(&mut self, label: &str, lines: &Vec<String>)
        requires
            old(self).wf(),
        ensures
            final(self).wrote_prefixed(old(self), label@, lines@.map_values(|r: String| r@)),
    {
        let ghost pre = *self;
        let ghost ls = lines@.map_values(|r: String| r@);
        proof {
            self.lemma_wrote_nothing(label@);
            assert(ls.take(0) =~= Seq::<Seq<char>>::empty());
        }
        let mut i: usize = 0;
        while i < lines.len()
            invariant
                i <= lines.len(),
                ls == lines@.map_values(|r: String| r@),
                self.wf(),
                self.wrote_prefixed(&pre, label@, ls.take(i as int)),
            decreases lines.len() - i,
        {
            let ghost mid = *self;
            self.prefixed_line(label, lines[i].as_str());
            proof {
                assert(lines@[i as int]@ == ls[i as int]);
                Renderer::lemma_wrote_prefixed_step(&pre, &mid, &*self, label@, ls.take(i as int), ls[i as int]);
                assert(ls.take(i as int).push(ls[i as int]) =~= ls.take(i as int + 1));
                assert forall|l: Seq<char>| #[trigger] self.partial(l) == pre.partial(l) by {
                    assert(self.partial(l) == mid.partial(l));
                }
            }
            i += 1;
        }
        assert(ls.take(lines.len() as int) =~= ls);
    }

    /// Write `[ptah]` rows, one per message, in order.
    fn ptah_lines(&mut self, msgs: &Vec<String>)
        requires
            old(self).wf(),
        ensures
            final(self).wrote_ptah(old(self), msgs@.map_values(|r: String| r@)),
    {
        let ghost pre = *self;
        let ghost ms = msgs@.map_values(|r: String| r@);
        proof {
            self.lemma_wrote_nothing(Seq::<char>::empty());
            assert(ms.take(0) =~= Seq::<Seq<char>>::empty());
        }
        let mut i: usize = 0;
        while i < msgs.len()
            invariant
                i <= msgs.len(),
                ms == msgs@.map_values(|r: String| r@),
                self.wf(),
                self.wrote_ptah(&pre, ms.take(i as int)),
            decreases msgs.len() - i,
        {
            let ghost mid = *self;
            self.ptah_line(msgs[i].as_str());
            proof {
                assert(msgs@[i as int]@ == ms[i as int]);
                Renderer::lemma_wrote_ptah_step(&pre, &mid, &*self, ms.take(i as int), ms[i as int]);
                assert(ms.take(i as int).push(ms[i as int]) =~= ms.take(i as int + 1));
            }
            i += 1;
        }
        assert(ms.take(msgs.len() as int) =~= ms);
    }

    /// Write one complete prefixed line per line of `text` (suppressed by
    /// `--quiet`).
    pub fn line(&mut self, label: &str, text: &str)
        requires
            old(self).wf(),
        ensures
            final(self).line_done(old(self), label@, text@),
    {
        if self.opts.quiet {
            proof {
                self.lemma_same_buffers(&*old(self));
            }
            return;
        }
        let ls = lines_of(text);
        self.prefixed_lines(label, &ls);
    }

    /// `-vv`: pass one line of agent stderr through with attribution.
    pub fn agent_stderr(&mut self, label: &str, line: &str)
        requires
            old(self).wf(),
        ensures
            final(self).stderr_done(old(self), label@, line@),
    {
        if !self.opts.agent_stderr || self.opts.quiet {
            proof {
                self.lemma_same_buffers(&*old(self));
            }
            return;
        }
        self.prefixed_line(label, line);
    }

    /// `--verbose`: runtime lifecycle diagnostic.
    pub fn lifecycle(&mut self, msg: &str)
        requires
            old(self).wf(),
        ensures
            final(self).lifecycle_done(old(self), msg@),
    {
        if self.opts.quiet || !self.opts.verbose {
            proof {
                self.lemma_same_buffers(&*old(self));
            }
            return;
        }
        self.ptah_line(msg);
    }

    /// `ptah.exec` lifecycle line: `[ptah]`-attributed, rendered in every
    /// non-quiet mode.
    pub fn exec_line(&mut self, msg: &str)
        requires
            old(self).wf(),
        ensures
            final(self).exec_done(old(self), msg@),
    {
        if self.opts.quiet {
            proof {
                self.lemma_same_buffers(&*old(self));
            }
            return;
        }
        self.ptah_line(msg);
    }

    /// `ptah.log`: a script-initiated diagnostic, never suppressed.
    pub fn script_log(&mut self, msg: &str)
        requires
            old(self).wf(),
        ensures
            final(self).wrote_ptah(old(self), seq![msg@]),
    {
        self.ptah_line(msg);
    }

    /// An ask's prose rows, each a `[ptah]` line, then the `> ` input cue
    /// with no newline of its own. Required interaction: never suppressed.
    pub fn ask_requested(&mut self, label: &str, prompt: &str, details: Option<&str>)
        requires
            old(self).wf(),
        ensures
            final(self).ask_requested_done(old(self), label@, prompt@, opt_view(details)),
    {
        let rows = ask_prose_lines(label, prompt, details);
        self.ptah_lines(&rows);
        let ghost mid = *self;
        self.out.push('>');
        self.out.push(' ');
        proof {
            self.lemma_same_buffers(&mid);
            assert(self.output() =~= mid.output() + seq!['>', ' ']);
        }
    }

    /// An ask's resolution line: the label and the action, never the
    /// answer text. Never suppressed.
    pub fn ask_resolved(&mut self, label: &str, action: AskAction)
        requires
            old(self).wf(),
        ensures
            final(self).wrote_ptah(old(self), seq![label@ + ": "@ + action_text(action)]),
    {
        let l = ask_resolved_line(label, action);
        self.ptah_line(l.as_str());
    }

    /// The effect of `line`.
    pub open spec fn line_done(&self, old: &Renderer, label: Seq<char>, text: Seq<char>) -> bool {
        if old.opts().quiet {
            self.unchanged(old)
        } else {
            self.wrote_prefixed(old, label, text_lines(text))
        }
    }

    /// The effect of `agent_stderr`.
    pub open spec fn stderr_done(&self, old: &Renderer, label: Seq<char>, line: Seq<char>) -> bool {
        if !old.opts().agent_stderr || old.opts().quiet {
            self.unchanged(old)
        } else {
            self.wrote_prefixed(old, label, seq![line])
        }
    }

    /// The effect of `lifecycle`.
    pub open spec fn lifecycle_done(&self, old: &Renderer, msg: Seq<char>) -> bool {
        if old.opts().quiet || !old.opts().verbose {
            self.unchanged(old)
        } else {
            self.wrote_ptah(old, seq![msg])
        }
    }

    /// The effect of `exec_line`.
    pub open spec fn exec_done(&self, old: &Renderer, msg: Seq<char>) -> bool {
        if old.opts().quiet {
            self.unchanged(old)
        } else {
            self.wrote_ptah(old, seq![msg])
        }
    }

    /// The effect of `ask_requested`: the prose rows as `[ptah]` lines,
    /// then the bare `> ` cue.
    pub open spec fn ask_requested_done(
        &self,
        old: &Renderer,
        label: Seq<char>,
        prompt: Seq<char>,
        details: Option<Seq<char>>,
    ) -> bool {
        exists|mid: Renderer|
            {
                &&& #[trigger] mid.wrote_ptah(old, ask_lines(label, prompt, details))
                &&& self.unchanged_but_output(&mid)
                &&& self.output() == mid.output() + seq!['>', ' ']
            }
    }

    /// The effect of `chunk`: the complete lines of the buffered text
    /// plus `delta` render, the rest stays buffered (or renders too on
    /// `flush`).
    pub open spec fn chunk_done(&self, old: &Renderer, label: Seq<char>, delta: Seq<char>, flush: bool) -> bool {
        if old.opts().quiet {
            self.unchanged(old)
        } else {
            &&& self.wrote_prefixed_rows(old, label, chunk_emitted(old.partial(label), delta, flush))
            &&& self.partial(label) == if flush {
                Seq::<char>::empty()
            } else {
                chunk_rest(old.partial(label), delta)
            }
            &&& forall|l: Seq<char>| l != label ==> #[trigger] self.partial(l) == old.partial(l)
        }
    }

    /// The effect of `flush_session`: a pending partial line renders and
    /// the buffer empties.
    pub open spec fn flush_done(&self, old: &Renderer, label: Seq<char>) -> bool {
        if old.opts().quiet || old.partial(label).len() == 0 {
            self.unchanged(old)
        } else {
            &&& self.wrote_prefixed_rows(old, label, seq![old.partial(label)])
            &&& self.partial(label).len() == 0
            &&& forall|l: Seq<char>| l != label ==> #[trigger] self.partial(l) == old.partial(l)
        }
    }

    /// Flush a buffered partial line at turn end.
    pub fn flush_session(&mut self, label: &str)
        requires
            old(self).wf(),
        ensures
            final(self).flush_done(old(self), label@),
    {
        if self.opts.quiet {
            proof {
                self.lemma_same_buffers(&*old(self));
            }
            return;
        }
        let mut i: usize = 0;
        while i < self.bufs.len()
            invariant
                i <= self.bufs.len(),
                *self == *old(self),
                !old(self).opts.quiet,
                self.wf(),
                forall|j: int| 0 <= j < i ==> self.bufs@[j].0@ != label@,
            decreases self.bufs.len() - i,
        {
            if text_eq(self.bufs[i].0.as_str(), label) {
                proof {
                    self.lemma_partial_at(i as int);
                }
                if self.bufs[i].1.as_str().unicode_len() == 0 {
                    proof {
                        self.lemma_same_buffers(&*old(self));
                    }
                    return;
                }
                let line = self.bufs[i].1.clone();
                assert(line@ == old(self).partial(label@));
                self.set_partial(i, String::new());
                let ghost mid = *self;
                assert(mid.style_map() == old(self).style_map());
                assert(mid.stamps() == old(self).stamps());
                assert(mid.output() == old(self).output());
                self.prefixed_line(label, line.as_str());
                proof {
                    assert forall|l: Seq<char>| #[trigger] self.partial(l) == mid.partial(l) by {}
                    assert(self.wrote_prefixed_rows(&*old(self), label@, seq![line@]));
                    assert(mid.partial(label@).len() == 0);
                    assert(self.partial(label@).len() == 0);
                    assert forall|l: Seq<char>| l != label@ implies #[trigger] self.partial(l) == old(self).partial(l) by {
                        assert(mid.partial(l) == old(self).partial(l));
                    }
                }
                return;
            }
            i += 1;
        }
        proof {
            assert(!(exists|j: int| 0 <= j < self.bufs.len() && self.bufs@[j].0@ == label@));
            self.lemma_same_buffers(&*old(self));
        }
    }

    /// Render a display event derived from a session update.
    pub fn event(&mut self, label: &str, event: DisplayEvent)
        requires
            old(self).wf(),
        ensures
            match event {
                DisplayEvent::Chunk(text) => final(self).chunk_done(old(self), label@, text@, false),
                DisplayEvent::Tool(body) => final(self).line_done(old(self), label@, body@),
                DisplayEvent::Plan(summary) => final(self).line_done(old(self), label@, summary@),
                DisplayEvent::Usage { used, size } => final(self).line_done(
                    old(self),
                    label@,
                    usage_text(used as nat, size as nat),
                ),
            },
    {
        match event {
            DisplayEvent::Chunk(text) => self.chunk(label, text.as_str(), false),
            DisplayEvent::Tool(body) => self.line(label, body.as_str()),
            DisplayEvent::Plan(summary) => self.line(label, summary.as_str()),
            DisplayEvent::Usage { used, size } => {
                let text = usage_line(used, size);
                self.line(label, text.as_str());
            },
        }
    }

    /// Render one structured session event: the terminal sink's mapping
    /// from events onto display lines (every byte of formatting, gating and
    /// attribution is decided here).
    pub fn emit(&mut self, label: &str, event: SessionEvent)
        requires
            old(self).wf(),
        ensures
            match event {
                SessionEvent::Prompt { text } => final(self).line_done(
                    old(self),
                    label@,
                    "prompt: "@ + preview(text@),
                ),
                SessionEvent::TextDelta { delta } => final(self).chunk_done(
                    old(self),
                    label@,
                    delta@,
                    false,
                ),
                SessionEvent::ToolLine { body } => final(self).line_done(old(self), label@, body@),
                SessionEvent::Plan { entries } => final(self).line_done(
                    old(self),
                    label@,
                    plan_text(entries@),
                ),
                SessionEvent::Usage { used, size } => final(self).line_done(
                    old(self),
                    label@,
                    usage_text(used as nat, size as nat),
                ),
                SessionEvent::StderrLine { line } => final(self).stderr_done(old(self), label@, line@),
                SessionEvent::Lifecycle { message } => final(self).lifecycle_done(old(self), message@),
                SessionEvent::SessionReady { label: session, acp_id, .. } => final(self).lifecycle_done(
                    old(self),
                    session@ + ": session ready (acp "@ + acp_id@ + ")"@,
                ),
                SessionEvent::ExecStart { command } => final(self).exec_done(
                    old(self),
                    exec_start_text(command@),
                ),
                SessionEvent::ExecEnd { command, exit_code, timed_out, duration_ms } => final(self).exec_done(
                    old(self),
                    exec_end_text(command@, exit_code, timed_out, duration_ms as nat),
                ),
                SessionEvent::ResultVerdict { late } => if late {
                    final(self).lifecycle_done(old(self), label@ + late_verdict_text())
                } else {
                    final(self).unchanged(old(self))
                },
                SessionEvent::AskRequested { prompt, details } => final(self).ask_requested_done(
                    old(self),
                    label@,
                    prompt@,
                    opt_string_view(details),
                ),
                SessionEvent::AskResolved { action, .. } => final(self).wrote_ptah(
                    old(self),
                    seq![label@ + ": "@ + action_text(action)],
                ),
                SessionEvent::TurnEnd => final(self).flush_done(old(self), label@),
            },
    {
        proof {
            reveal_strlit("prompt: ");
            reveal_strlit(": session ready (acp ");
            reveal_strlit(")");
        }
        match event {
            SessionEvent::Prompt { text } => {
                let mut body = String::new();
                push_str_chars(&mut body, "prompt: ");
                let p = prompt_preview(text.as_str());
                push_str_chars(&mut body, p.as_str());
                self.line(label, body.as_str());
            },
            SessionEvent::TextDelta { delta } => self.event(label, DisplayEvent::Chunk(delta)),
            SessionEvent::ToolLine { body } => self.event(label, DisplayEvent::Tool(body)),
            SessionEvent::Plan { entries } => {
                let summary = plan_summary(&entries);
                self.event(label, DisplayEvent::Plan(summary));
            },
            SessionEvent::Usage { used, size } => {
                self.event(label, DisplayEvent::Usage { used, size });
            },
            SessionEvent::StderrLine { line } => self.agent_stderr(label, line.as_str()),
            SessionEvent::Lifecycle { message } => self.lifecycle(message.as_str()),
            SessionEvent::SessionReady { label: session, acp_id, .. } => {
                let mut msg = String::new();
                push_str_chars(&mut msg, session.as_str());
                push_str_chars(&mut msg, ": session ready (acp ");
                push_str_chars(&mut msg, acp_id.as_str());
                push_str_chars(&mut msg, ")");
                self.lifecycle(msg.as_str());
            },
            SessionEvent::ExecStart { command } => {
                let l = exec_start_line(command.as_str());
                self.exec_line(l.as_str());
            },
            SessionEvent::ExecEnd { command, exit_code, timed_out, duration_ms } => {
                let l = exec_end_line(command.as_str(), exit_code, timed_out, duration_ms);
                self.exec_line(l.as_str());
            },
            SessionEvent::ResultVerdict { late } => {
                if late {
                    let mut msg = String::new();
                    push_str_chars(&mut msg, label);
                    push_late_verdict(&mut msg);
                    self.lifecycle(msg.as_str());
                } else {
                    proof {
                        self.lemma_same_buffers(&*old(self));
                    }
                }
            },
            SessionEvent::AskRequested { prompt, details } => {
                self.ask_requested(label, prompt.as_str(), opt_as_str(&details));
            },
            SessionEvent::AskResolved { action, .. } => self.ask_resolved(label, action),
            SessionEvent::TurnEnd => self.flush_session(label),
        }
    }

    /// Everything but the output is unchanged.
    pub open spec fn unchanged_but_output(&self, old: &Renderer) -> bool {
        &&& self.wf()
        &&& self.same_buffers(old)
        &&& self.stamps() == old.stamps()
        &&& self.style_map() == old.style_map()
        &&& self.next_style() == old.next_style()
    }

    /// A buffer entry's text is the label's partial line.
    proof fn lemma_partial_at(&self, i: int)
        requires
            self.wf(),
            0 <= i < self.bufs.len(),
        ensures
            self.partial(self.bufs@[i].0@) == self.bufs@[i].1@,
    {
        let l = self.bufs@[i].0@;
        let c = choose|j: int| 0 <= j < self.bufs.len() && self.bufs@[j].0@ == l;
        if c != i {
            if c < i {
                assert(self.bufs@[c].0@ != self.bufs@[i].0@);
            } else {
                assert(self.bufs@[i].0@ != self.bufs@[c].0@);
            }
        }
    }

    /// The buffer slot of a label, created empty when absent.
    fn buf_index(&mut self, label: &str) -> (idx: usize)
        requires
            old(self).wf(),
        ensures
            final(self).wf(),
            idx < final(self).bufs.len(),
            final(self).bufs@[idx as int].0@ == label@,
            forall|l: Seq<char>| #[trigger] final(self).partial(l) == old(self).partial(l),
            final(self).opts == old(self).opts,
            final(self).out == old(self).out,
            final(self).stamps == old(self).stamps,
            final(self).styles == old(self).styles,
            final(self).next_style == old(self).next_style,
    {
        let mut i: usize = 0;
        while i < self.bufs.len()
            invariant
                i <= self.bufs.len(),
                *self == *old(self),
                self.wf(),
                forall|j: int| 0 <= j < i ==> self.bufs@[j].0@ != label@,
            decreases self.bufs.len() - i,
        {
            if text_eq(self.bufs[i].0.as_str(), label) {
                return i;
            }
            i += 1;
        }
        let ghost pre = *self;
        let n = self.bufs.len();
        self.bufs.push((label.to_string(), String::new()));
        proof {
            assert(self.bufs@[n as int].0@ == label@);
            assert forall|a: int, b: int|
                0 <= a < b < self.bufs.len() implies #[trigger] self.bufs@[a].0@
                != #[trigger] self.bufs@[b].0@ by {
                if b == n {
                    assert(pre.bufs@[a].0@ != label@);
                } else {
                    assert(pre.bufs@[a].0@ != pre.bufs@[b].0@);
                }
            }
            assert forall|l: Seq<char>| #[trigger] self.partial(l) == pre.partial(l) by {
                if l == label@ {
                    self.lemma_partial_at(n as int);
                    assert(!(exists|j: int| 0 <= j < pre.bufs.len() && pre.bufs@[j].0@ == l));
                } else {
                    if exists|j: int| 0 <= j < self.bufs.len() && self.bufs@[j].0@ == l {
                        let j = choose|j: int| 0 <= j < self.bufs.len() && self.bufs@[j].0@ == l;
                        assert(j < n);
                        assert(pre.bufs@[j].0@ == l);
                        self.lemma_partial_at(j);
                        pre.lemma_partial_at(j);
                    }
                    if exists|j: int| 0 <= j < pre.bufs.len() && pre.bufs@[j].0@ == l {
                        let j = choose|j: int| 0 <= j < pre.bufs.len() && pre.bufs@[j].0@ == l;
                        assert(self.bufs@[j].0@ == l);
                    }
                }
            }
        }
        n
    }

    /// Replace the text of buffer slot `idx`.
    fn set_partial(&mut self, idx: usize, text: String)
        requires
            old(self).wf(),
            idx < old(self).bufs.len(),
        ensures
            final(self).wf(),
            final(self).partial(old(self).bufs@[idx as int].0@) == text@,
            forall|l: Seq<char>|
                l != old(self).bufs@[idx as int].0@ ==> #[trigger] final(self).partial(l) == old(
                    self,
                ).partial(l),
            final(self).opts == old(self).opts,
            final(self).out == old(self).out,
            final(self).stamps == old(self).stamps,
            final(self).styles == old(self).styles,
            final(self).next_style == old(self).next_style,
    {
        let ghost pre = *self;
        let key = self.bufs[idx].0.clone();
        self.bufs.set(idx, (key, text));
        proof {
            let lab = pre.bufs@[idx as int].0@;
            assert forall|a: int, b: int|
                0 <= a < b < self.bufs.len() implies #[trigger] self.bufs@[a].0@
                != #[trigger] self.bufs@[b].0@ by {
                assert(self.bufs@[a].0@ == pre.bufs@[a].0@);
                assert(self.bufs@[b].0@ == pre.bufs@[b].0@);
            }
            self.lemma_partial_at(idx as int);
            assert forall|l: Seq<char>| l != lab implies #[trigger] self.partial(l) == pre.partial(l) by {
                if exists|j: int| 0 <= j < self.bufs.len() && self.bufs@[j].0@ == l {
                    let j = choose|j: int| 0 <= j < self.bufs.len() && self.bufs@[j].0@ == l;
                    assert(j != idx);
                    assert(pre.bufs@[j].0@ == l);
                    self.lemma_partial_at(j);
                    pre.lemma_partial_at(j);
                }
                if exists|j: int| 0 <= j < pre.bufs.len() && pre.bufs@[j].0@ == l {
                    let j = choose|j: int| 0 <= j < pre.bufs.len() && pre.bufs@[j].0@ == l;
                    assert(self.bufs@[j].0@ == l);
                }
            }
        }
    }

    /// Stream a message chunk. Complete lines render at once; the text
    /// after the last newline stays buffered for the label, and `flush`
    /// (turn end) renders it too.
    pub fn chunk(&mut self, label: &str, delta: &str, flush: bool)
        requires
            old(self).wf(),
        ensures
            final(self).chunk_done(old(self), label@, delta@, flush),
    {
        if self.opts.quiet {
            proof {
                self.lemma_same_buffers(&*old(self));
            }
            return;
        }
        let ghost pre = *self;
        let idx = self.buf_index(label);
        proof {
            self.lemma_partial_at(idx as int);
        }
        let mut s = String::new();
        push_str_chars(&mut s, self.bufs[idx].1.as_str());
        push_str_chars(&mut s, delta);
        let parts = split_chars(s.as_str(), '\n');
        let ghost pv = parts@.map_values(|r: String| r@);
        proof {
            lemma_split_on_nonempty(s@, '\n');
        }
        let n = parts.len();
        let rest_empty = parts[n - 1].as_str().unicode_len() == 0;
        assert(parts@[n - 1]@ == pv.last());
        let mut emitted: Vec<String> = Vec::new();
        let mut i: usize = 0;
        while i + 1 < n
            invariant
                i + 1 <= n,
                n == parts.len(),
                pv == parts@.map_values(|r: String| r@),
                emitted@.map_values(|r: String| r@) == pv.take(i as int),
            decreases n - i,
        {
            let p = parts[i].clone();
            let ghost before = emitted@;
            emitted.push(p);
            proof {
                lemma_views_push(before, p);
                assert(pv.take(i as int + 1) =~= pv.take(i as int).push(pv[i as int]));
            }
            i += 1;
        }
        assert(pv.take(n - 1) =~= pv.drop_last());
        if flush && !rest_empty {
            let r = parts[n - 1].clone();
            let ghost before = emitted@;
            emitted.push(r);
            proof {
                lemma_views_push(before, r);
                assert(pv.drop_last().push(pv.last()) =~= pv);
            }
        }
        let new_partial = if flush {
            String::new()
        } else {
            parts[n - 1].clone()
        };
        let ghost before_set = *self;
        self.set_partial(idx, new_partial);
        let ghost mid = *self;
        proof {
            assert(mid.wrote_prefixed_rows(&pre, label@, Seq::<Seq<char>>::empty())) by {
                assert(mid.stamps().subrange(0, mid.stamps().len() as int) =~= mid.stamps());
                assert(mid.output() + Seq::<char>::empty() =~= mid.output());
                assert(mid.style_map() == pre.style_map());
            }
        }
        self.prefixed_lines(label, &emitted);
        proof {
            let ev = emitted@.map_values(|r: String| r@);
            assert(self.wrote_prefixed_rows(&mid, label@, ev));
            assert forall|l: Seq<char>| #[trigger] self.partial(l) == mid.partial(l) by {}
        }
    }

    /// Append one stamped, attributed line.
    fn prefixed_line(&mut self, label: &str, line: &str)
        requires
            old(self).wf(),
        ensures
            final(self).wrote_prefixed(old(self), label@, seq![line@]),
    {
        let ghost pre = *self;
        let code = self.style_for(label);
        let ghost mid = *self;
        let ts = timestamp();
        push_prefixed_row(&mut self.out, self.opts.no_color, ts.as_str(), label, code.as_str(), line);
        proof {
            self.stamps@ = self.stamps@.push(ts@);
            self.lemma_same_buffers(&mid);
            let k = pre.stamps().len();
            assert(self.stamps().skip(k as int) =~= seq![ts@]);
            assert(self.stamps().subrange(0, k as int) =~= pre.stamps());
            assert(self.style_map() == mid.style_map());
            lemma_prefixed_rows_one(self.opts.no_color, self.stamps().skip(k as int), label@, code@, line@);
        }
    }

    /// Append one stamped `[ptah]` line.
    fn ptah_line(&mut self, msg: &str)
        requires
            old(self).wf(),
        ensures
            final(self).wrote_ptah(old(self), seq![msg@]),
    {
        let ghost pre = *self;
        let ts = timestamp();
        push_ptah_row(&mut self.out, self.opts.no_color, ts.as_str(), msg);
        proof {
            self.stamps@ = self.stamps@.push(ts@);
            self.lemma_same_buffers(&pre);
            let k = pre.stamps().len();
            assert(self.stamps().skip(k as int) =~= seq![ts@]);
            assert(self.stamps().subrange(0, k as int) =~= pre.stamps());
            lemma_ptah_rows_one(self.opts.no_color, self.stamps().skip(k as int), msg@);
        }
    }
}

} // verus!
