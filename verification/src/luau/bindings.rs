//! The decisions behind the `ptah.*` bindings: how scripts name sessions
//! and their working directories, how `ptah.ask` checks its argument and
//! turns a provider's reply into a resolution or a raised error, how
//! `ptah.exec` reports a finished command, and how `ptah.parallel` splits
//! its items into concurrent batches. The bindings themselves move values
//! between Lua and these functions.

use vstd::prelude::*;

use crate::events::{AskAction, SessionEvent};
use crate::package::driver::file_name_of;
use crate::paths::{components, from_components, is_absolute, path_components, path_is_absolute, path_join, join_path, build_path};
use crate::text::{chars_of, dec, push_dec, push_str_chars, string_of, text_eq};

verus! {

/// A script-supplied value as the bindings classify it.
#[derive(Debug)]
pub enum ScriptValue {
    /// `nil`, or the argument was not given.
    Nil,
    /// A string.
    Text(String),
    /// A table.
    Table,
    /// A boolean.
    Flag(bool),
    /// Any other Lua value, by its type name.
    Other(String),
}

/// The Lua type name of a classified value.
pub open spec fn lua_type_of(v: ScriptValue) -> Seq<char> {
    match v {
        ScriptValue::Nil => "nil"@,
        ScriptValue::Text(_) => "string"@,
        ScriptValue::Table => "table"@,
        ScriptValue::Flag(_) => "boolean"@,
        ScriptValue::Other(t) => t@,
    }
}

fn lua_type_name(v: &ScriptValue) -> (s: String)
    ensures
        s@ == lua_type_of(*v),
{
    match v {
        ScriptValue::Nil => "nil".to_string(),
        ScriptValue::Text(_) => "string".to_string(),
        ScriptValue::Table => "table".to_string(),
        ScriptValue::Flag(_) => "boolean".to_string(),
        ScriptValue::Other(t) => string_of(&chars_of(t.as_str())),
    }
}

fn concat2(a: &str, b: &str) -> (s: String)
    ensures
        s@ == a@ + b@,
{
    let mut s = String::new();
    push_str_chars(&mut s, a);
    push_str_chars(&mut s, b);
    s
}

fn concat3(a: &str, b: &str, c: &str) -> (s: String)
    ensures
        s@ == a@ + b@ + c@,
{
    let mut s = String::new();
    push_str_chars(&mut s, a);
    push_str_chars(&mut s, b);
    push_str_chars(&mut s, c);
    s
}

/// The session id scripts may not use: the sink's pseudo-label for
/// script-level exec lifecycle events.
pub open spec fn reserved_session_id() -> Seq<char> {
    "exec"@
}

/// The error for the reserved session id.
pub open spec fn reserved_id_message() -> Seq<char> {
    "session id `exec` is reserved for exec lifecycle attribution \u{2014} choose another id"@
}

/// A session's id (the script's, or `s{n}` for the n-th session of the
/// agent factory) and its label `{agent}/{id}`; the reserved id `exec` is
/// refused.
pub fn session_label(agent: &str, id: Option<&str>, n: u64) -> (r: Result<(String, String), String>)
    ensures
        match id {
            Some(i) => if i@ == reserved_session_id() {
                r matches Err(m) && m@ == reserved_id_message()
            } else {
                r matches Ok((sid, label)) && sid@ == i@ && label@ == agent@ + seq!['/'] + i@
            },
            None => r matches Ok((sid, label)) && sid@ == seq!['s'] + dec(n as nat) && label@ == agent@
                + seq!['/'] + sid@,
        },
{
    proof {
        reveal_strlit("exec");
    }
    let sid = match id {
        Some(i) => {
            if text_eq(i, "exec") {
                return Err(
                    "session id `exec` is reserved for exec lifecycle attribution \u{2014} choose another id".to_string(),
                );
            }
            string_of(&chars_of(i))
        },
        None => {
            let mut s = String::new();
            s.push('s');
            push_dec(&mut s, n);
            s
        },
    };
    let mut label = String::new();
    push_str_chars(&mut label, agent);
    label.push('/');
    push_str_chars(&mut label, sid.as_str());
    Ok((sid, label))
}

/// A session's working directory: the script's `cwd`, anchored at the
/// invocation directory when relative, else the invocation directory.
pub fn session_cwd(invocation_dir: &str, cwd: Option<&str>) -> (out: String)
    ensures
        out@ == match cwd {
            Some(d) => if is_absolute(d@) {
                d@
            } else {
                path_join(invocation_dir@, d@)
            },
            None => invocation_dir@,
        },
{
    match cwd {
        Some(d) => {
            if path_is_absolute(d) {
                string_of(&chars_of(d))
            } else {
                join_path(invocation_dir, d)
            }
        },
        None => string_of(&chars_of(invocation_dir)),
    }
}

/// The error for the removed `config` session option.
pub open spec fn removed_config_message() -> Seq<char> {
    "config session option was removed: a config table cannot express application order, which matters for agents with dependent options (e.g. opencode resets `effort` when `model` is set). Apply config with session:setConfig(...) after session creation \u{2014} set driving options (like `model`) first"@
}

/// The removed `config` session option is refused — populated or empty —
/// before anything spawns.
pub fn check_session_options(has_config: bool) -> (r: Result<(), String>)
    ensures
        has_config ==> (r matches Err(m) && m@ == removed_config_message()),
        !has_config ==> r is Ok,
{
    if has_config {
        return Err(
            "config session option was removed: a config table cannot express application order, which matters for agents with dependent options (e.g. opencode resets `effort` when `model` is set). Apply config with session:setConfig(...) after session creation \u{2014} set driving options (like `model`) first".to_string(),
        );
    }
    Ok(())
}

/// A session config value as it goes to the agent.
#[derive(Debug)]
pub enum ConfigValue {
    /// A select option's value id.
    ValueId(String),
    /// A boolean option's value.
    Boolean(bool),
}

/// `session:setConfig`'s value typing, before anything is sent: a string
/// is a select value id, a boolean a boolean option value, anything else
/// a script error.
pub fn config_value(value: ScriptValue) -> (r: Result<ConfigValue, String>)
    ensures
        match value {
            ScriptValue::Text(s) => r == Ok::<ConfigValue, String>(ConfigValue::ValueId(s)),
            ScriptValue::Flag(b) => r == Ok::<ConfigValue, String>(ConfigValue::Boolean(b)),
            _ => r matches Err(m) && m@
                == "setConfig value must be a string (select value id) or boolean, got "@ + lua_type_of(value),
        },
{
    match value {
        ScriptValue::Text(s) => Ok(ConfigValue::ValueId(s)),
        ScriptValue::Flag(b) => Ok(ConfigValue::Boolean(b)),
        _ => {
            let t = lua_type_name(&value);
            Err(concat2("setConfig value must be a string (select value id) or boolean, got ", t.as_str()))
        },
    }
}

/// The live sessions after one closes: every session but the closed one,
/// told apart by process id (two factories for one agent can have live
/// sessions sharing a label), in order.
pub fn close_session(pids: &mut Vec<u32>, pid: u32)
    ensures
        final(pids)@ == old(pids)@.filter(|p: u32| p != pid),
{
    let ghost start = pids@;
    let mut kept: Vec<u32> = Vec::new();
    let mut i: usize = 0;
    while i < pids.len()
        invariant
            i <= pids.len(),
            pids@ == start,
            kept@ == start.take(i as int).filter(|p: u32| p != pid),
        decreases pids.len() - i,
    {
        let p = pids[i];
        proof {
            assert(start.take(i as int + 1).drop_last() =~= start.take(i as int));
            start.take(i as int).lemma_filter_push(p, |p: u32| p != pid);
            assert(start.take(i as int).push(p) =~= start.take(i as int + 1));
        }
        if p != pid {
            kept.push(p);
        }
        i += 1;
    }
    assert(start.take(start.len() as int) =~= start);
    *pids = kept;
}

/// The shape `ptah.ask` expects, as its usage errors name it.
pub open spec fn ask_shape() -> Seq<char> {
    "expected a table argument { prompt = \"\u{2026}\", details = \"\u{2026}\"? }"@
}

/// `ptah.ask`'s argument check: the options must be a table with a string
/// `prompt` and an optional string `details`; otherwise the raised error.
pub open spec fn ask_request_spec(opts: ScriptValue, prompt: ScriptValue, details: ScriptValue) -> Result<
    (Seq<char>, Option<Seq<char>>),
    Seq<char>,
> {
    match opts {
        ScriptValue::Table => match prompt {
            ScriptValue::Text(p) => match details {
                ScriptValue::Text(d) => Ok((p@, Some(d@))),
                ScriptValue::Nil => Ok((p@, None)),
                _ => Err("ptah.ask: `details` must be a string, got "@ + lua_type_of(details)),
            },
            ScriptValue::Nil => Err("ptah.ask: missing required `prompt` field (string)"@),
            _ => Err("ptah.ask: `prompt` must be a string, got "@ + lua_type_of(prompt)),
        },
        ScriptValue::Nil => Err("ptah.ask: "@ + ask_shape()),
        _ => Err("ptah.ask: "@ + ask_shape() + ", got "@ + lua_type_of(opts)),
    }
}

/// Check `ptah.ask`'s argument: the prompt and details it asks with, or
/// the error it raises.
pub fn ask_request(opts: ScriptValue, prompt: ScriptValue, details: ScriptValue) -> (r: Result<
    (String, Option<String>),
    String,
>)
    ensures
        match (r, ask_request_spec(opts, prompt, details)) {
            (Ok((p, d)), Ok((sp, sd))) => p@ == sp && crate::text::opt_string_view(d) == sd,
            (Err(e), Err(se)) => e@ == se,
            _ => false,
        },
{
    match opts {
        ScriptValue::Table => {},
        ScriptValue::Nil => {
            return Err(concat2("ptah.ask: ", "expected a table argument { prompt = \"\u{2026}\", details = \"\u{2026}\"? }"));
        },
        _ => {
            let t = lua_type_name(&opts);
            let mut s = concat3("ptah.ask: ", "expected a table argument { prompt = \"\u{2026}\", details = \"\u{2026}\"? }", ", got ");
            push_str_chars(&mut s, t.as_str());
            return Err(s);
        },
    }
    let p = match prompt {
        ScriptValue::Text(p) => p,
        ScriptValue::Nil => {
            return Err("ptah.ask: missing required `prompt` field (string)".to_string());
        },
        _ => {
            let t = lua_type_name(&prompt);
            return Err(concat2("ptah.ask: `prompt` must be a string, got ", t.as_str()));
        },
    };
    match details {
        ScriptValue::Text(d) => Ok((p, Some(d))),
        ScriptValue::Nil => Ok((p, None)),
        _ => {
            let t = lua_type_name(&details);
            Err(concat2("ptah.ask: `details` must be a string, got ", t.as_str()))
        },
    }
}

/// The run's interaction posture for `ptah.ask`.
#[derive(Debug, Clone, Copy, PartialEq, Eq, Structural)]
pub enum AskPosture {
    /// An ask provider was injected.
    Provider,
    /// The run resolved to the `none` provider.
    Prohibited,
    /// Nothing was resolved.
    Unresolved,
}

/// The error `ptah.ask` raises without a provider.
pub open spec fn posture_error_text(p: AskPosture) -> Option<Seq<char>> {
    match p {
        AskPosture::Provider => None,
        AskPosture::Prohibited => Some(
            "ptah.ask: interaction is prohibited \u{2014} the run resolved to the `none` provider (--ask=none, PTAH_ASK=none, or [ask] provider = \"none\")"@,
        ),
        AskPosture::Unresolved => Some(
            "ptah.ask: no ask provider configured \u{2014} pass --ask, set PTAH_ASK, or configure [ask] (auto-detection needs a terminal on stdin and stdout)"@,
        ),
    }
}

/// The two non-provider postures raise distinct errors.
pub fn posture_error(p: AskPosture) -> (r: Option<String>)
    ensures
        crate::text::opt_string_view(r) == posture_error_text(p),
{
    match p {
        AskPosture::Provider => None,
        AskPosture::Prohibited => Some(
            "ptah.ask: interaction is prohibited \u{2014} the run resolved to the `none` provider (--ask=none, PTAH_ASK=none, or [ask] provider = \"none\")".to_string(),
        ),
        AskPosture::Unresolved => Some(
            "ptah.ask: no ask provider configured \u{2014} pass --ask, set PTAH_ASK, or configure [ask] (auto-detection needs a terminal on stdin and stdout)".to_string(),
        ),
    }
}

/// The attribution label of the n-th ask of a run: `ask {n} {script}`,
/// the script named by its file name.
pub fn ask_label(n: u64, script_path: &str) -> (out: String)
    ensures
        out@ == "ask "@ + dec(n as nat) + seq![' '] + match file_name_of(script_path@) {
            Some(f) => f,
            None => Seq::<char>::empty(),
        },
{
    let mut out = String::new();
    push_str_chars(&mut out, "ask ");
    push_dec(&mut out, n);
    out.push(' ');
    let comps = path_components(script_path);
    let ghost cv = comps@.map_values(|s: String| s@);
    if comps.len() > 0 {
        let last = &comps[comps.len() - 1];
        assert(last@ == cv.last());
        if !text_eq(last.as_str(), "..") {
            proof {
                reveal_strlit("..");
                assert(cv.last() != seq!['.', '.']) by {
                    if cv.last() == seq!['.', '.'] {
                        assert(cv.last() =~= ".."@);
                    }
                }
            }
            push_str_chars(&mut out, last.as_str());
        } else {
            proof {
                reveal_strlit("..");
                assert(cv.last() =~= seq!['.', '.']);
            }
        }
    }
    assert(out@ =~= "ask "@ + dec(n as nat) + seq![' '] + match file_name_of(script_path@) {
        Some(f) => f,
        None => Seq::<char>::empty(),
    });
    out
}

/// What an ask provider replied.
#[derive(Debug)]
pub enum AskReply {
    /// The human answered with this text.
    Respond(String),
    /// The human aborted.
    Abort,
    /// The provider's input closed with no answer.
    InputClosed,
    /// The provider failed.
    Failed(String),
}

/// What an ask comes to: a resolution (emitted as the resolution event
/// and handed to the script), or an error the ask raises without
/// resolving.
#[derive(Debug)]
pub enum AskResolution {
    Resolved { action: AskAction, text: Option<String> },
    Raised(String),
}

/// A reply's resolution: respond carries the text, abort none; a closed
/// input and a provider failure raise distinct errors.
pub fn ask_resolution(reply: AskReply) -> (r: AskResolution)
    ensures
        match reply {
            AskReply::Respond(t) => r == AskResolution::Resolved { action: AskAction::Respond, text: Some(t) },
            AskReply::Abort => r == AskResolution::Resolved { action: AskAction::Abort, text: None },
            AskReply::InputClosed => r matches AskResolution::Raised(m) && m@
                == "ptah.ask: end of input \u{2014} the ask provider's input closed with no answer (stdin EOF on a non-terminal)"@,
            AskReply::Failed(e) => r matches AskResolution::Raised(m) && m@ == "ptah.ask: ask provider failed: "@ + e@,
        },
{
    match reply {
        AskReply::Respond(t) => AskResolution::Resolved { action: AskAction::Respond, text: Some(t) },
        AskReply::Abort => AskResolution::Resolved { action: AskAction::Abort, text: None },
        AskReply::InputClosed => AskResolution::Raised(
            "ptah.ask: end of input \u{2014} the ask provider's input closed with no answer (stdin EOF on a non-terminal)".to_string(),
        ),
        AskReply::Failed(e) => AskResolution::Raised(concat2("ptah.ask: ask provider failed: ", e.as_str())),
    }
}

/// `ptah.exec`'s options: nothing, or a table with an optional
/// `timeoutMs` (`timeout_ms`, read from the table); anything else raises.
pub fn exec_timeout(opts: ScriptValue, timeout_ms: Option<u64>) -> (r: Result<Option<u64>, String>)
    ensures
        match opts {
            ScriptValue::Nil => r == Ok::<Option<u64>, String>(None),
            ScriptValue::Table => r == Ok::<Option<u64>, String>(timeout_ms),
            _ => r matches Err(m) && m@ == "ptah.exec: opts must be a table ({ timeoutMs = 100 }), got "@
                + lua_type_of(opts),
        },
{
    match opts {
        ScriptValue::Nil => Ok(None),
        ScriptValue::Table => Ok(timeout_ms),
        _ => {
            let t = lua_type_name(&opts);
            Err(concat2("ptah.exec: opts must be a table ({ timeoutMs = 100 }), got ", t.as_str()))
        },
    }
}

/// How a command run by the process runner ended.
#[derive(Debug)]
pub enum ExecResult {
    /// It could not be run; the runner's error text.
    SpawnFailed(String),
    /// It ran past its timeout and was killed.
    TimedOut,
    /// It exited (the code is `None` when a signal ended it).
    Exited { exit_code: Option<i32>, stdout: String, stderr: String },
}

/// What `ptah.exec` hands the script for a command that exited: the exit
/// code (`-1` when a signal ended it), stdout and stderr.
#[derive(Debug)]
pub struct ExecReturn {
    pub exit_code: i32,
    pub stdout: String,
    pub stderr: String,
}

/// An `ExecEnd` event with these fields.
pub open spec fn is_exec_end(ev: SessionEvent, cmd: Seq<char>, code: Option<i32>, timed: bool, d: u64) -> bool {
    ev matches SessionEvent::ExecEnd { command, exit_code, timed_out, duration_ms } && command@ == cmd
        && exit_code == code && timed_out == timed && duration_ms == d
}

/// An error with this message.
pub open spec fn raised(r: Result<ExecReturn, String>, m: Seq<char>) -> bool {
    r matches Err(e) && e@ == m
}

/// The end of a `ptah.exec` call: the `ExecEnd` event it emits and what
/// the script gets — a non-zero exit is data; only could-not-run and
/// timeout raise.
pub fn exec_completion(cmd: &str, timeout_ms: Option<u64>, duration_ms: u64, result: ExecResult) -> (r: (
    SessionEvent,
    Result<ExecReturn, String>,
))
    ensures
        result matches ExecResult::SpawnFailed(e) ==> is_exec_end(r.0, cmd@, None, false, duration_ms)
            && raised(r.1, "ptah.exec: "@ + e@),
        result is TimedOut ==> is_exec_end(r.0, cmd@, None, true, duration_ms) && raised(
            r.1,
            "ptah.exec `"@ + cmd@ + "` timed out"@ + match timeout_ms {
                Some(ms) => " after "@ + dec(ms as nat) + "ms"@,
                None => Seq::<char>::empty(),
            },
        ),
        result matches ExecResult::Exited { exit_code: code, stdout, stderr } ==> is_exec_end(
            r.0,
            cmd@,
            code,
            false,
            duration_ms,
        ) && r.1 == Ok::<ExecReturn, String>(
            ExecReturn {
                exit_code: match code {
                    Some(c) => c,
                    None => -1i32,
                },
                stdout,
                stderr,
            },
        ),
{
    let command = string_of(&chars_of(cmd));
    match result {
        ExecResult::SpawnFailed(e) => {
            let m = concat2("ptah.exec: ", e.as_str());
            (SessionEvent::ExecEnd { command, exit_code: None, timed_out: false, duration_ms }, Err(m))
        },
        ExecResult::TimedOut => {
            let mut m = concat3("ptah.exec `", cmd, "` timed out");
            match timeout_ms {
                Some(ms) => {
                    push_str_chars(&mut m, " after ");
                    push_dec(&mut m, ms);
                    push_str_chars(&mut m, "ms");
                },
                None => {},
            }
            assert(m@ =~= "ptah.exec `"@ + cmd@ + "` timed out"@ + match timeout_ms {
                Some(ms) => " after "@ + dec(ms as nat) + "ms"@,
                None => Seq::<char>::empty(),
            });
            (SessionEvent::ExecEnd { command, exit_code: None, timed_out: true, duration_ms }, Err(m))
        },
        ExecResult::Exited { exit_code, stdout, stderr } => {
            let code: i32 = match exit_code {
                Some(c) => c,
                None => -1,
            };
            (
                SessionEvent::ExecEnd { command, exit_code, timed_out: false, duration_ms },
                Ok(ExecReturn { exit_code: code, stdout, stderr }),
            )
        },
    }
}

/// The error of an exec the run's teardown cancelled.
pub fn exec_cancelled(cmd: &str) -> (m: String)
    ensures
        m@ == "exec `"@ + cmd@ + "` cancelled: the run is ending"@,
{
    concat3("exec `", cmd, "` cancelled: the run is ending")
}

/// `ptah.parallel`'s concurrency: the requested value (unbounded when
/// absent), at least 1.
pub fn parallel_concurrency(requested: Option<usize>) -> (c: usize)
    ensures
        c == match requested {
            Some(r) => if r < 1 { 1 } else { r },
            None => usize::MAX,
        },
{
    match requested {
        Some(r) => if r < 1 {
            1
        } else {
            r
        },
        None => usize::MAX,
    }
}

/// The batches `[start, end)` of `n` items run `concurrency` at a time, in
/// item order.
pub open spec fn batches_of(n: nat, concurrency: nat) -> Seq<(nat, nat)>
    decreases n,
{
    if n == 0 || concurrency == 0 {
        Seq::empty()
    } else if n <= concurrency {
        seq![(0nat, n)]
    } else {
        let rest = batches_of((n - concurrency) as nat, concurrency);
        seq![(0nat, concurrency)] + rest.map_values(|b: (nat, nat)| ((b.0 + concurrency) as nat, (b.1 + concurrency) as nat))
    }
}

/// Batches partition the items: consecutive, in order, each non-empty and
/// at most `concurrency` long, covering `0..n`.
pub open spec fn partitions(bs: Seq<(nat, nat)>, n: nat, concurrency: nat) -> bool {
    &&& forall|i: int| 0 <= i < bs.len() ==> #[trigger] bs[i].0 < bs[i].1 && bs[i].1 - bs[i].0 <= concurrency
    &&& forall|i: int| 0 <= i < bs.len() - 1 ==> #[trigger] bs[i].1 == bs[i + 1].0
    &&& bs.len() > 0 ==> bs[0].0 == 0 && bs.last().1 == n
    &&& bs.len() == 0 <==> n == 0
}

/// The item ranges `ptah.parallel` launches together: chunks of
/// `concurrency` items in order (the last may be shorter).
pub fn parallel_batches(n: usize, concurrency: usize) -> (bs: Vec<(usize, usize)>)
    requires
        concurrency >= 1,
    ensures
        partitions(bs@.map_values(|b: (usize, usize)| (b.0 as nat, b.1 as nat)), n as nat, concurrency as nat),
        forall|i: int| 0 <= i < bs@.len() - 1 ==> #[trigger] bs@[i].1 - bs@[i].0 == concurrency,
{
    let mut bs: Vec<(usize, usize)> = Vec::new();
    let mut start: usize = 0;
    while start < n
        invariant
            start <= n,
            concurrency >= 1,
            bs@.len() == 0 <==> start == 0,
            bs@.len() > 0 ==> bs@[0].0 == 0 && bs@.last().1 == start,
            forall|i: int| 0 <= i < bs@.len() ==> #[trigger] bs@[i].0 < bs@[i].1 && bs@[i].1 - bs@[i].0 <= concurrency,
            forall|i: int| 0 <= i < bs@.len() - 1 ==> #[trigger] bs@[i].1 == bs@[i + 1].0,
            forall|i: int| 0 <= i < bs@.len() ==> #[trigger] bs@[i].1 - bs@[i].0 == concurrency || bs@[i].1 == n,
            forall|i: int| 0 <= i < bs@.len() ==> #[trigger] bs@[i].1 <= start,
        decreases n - start,
    {
        let end = if n - start <= concurrency { n } else { start + concurrency };
        let ghost before = bs@;
        bs.push((start, end));
        proof {
            assert forall|i: int| 0 <= i < bs@.len() - 1 implies #[trigger] bs@[i].1 == bs@[i + 1].0 by {
                if i < before.len() - 1 {
                    assert(bs@[i] == before[i] && bs@[i + 1] == before[i + 1]);
                } else {
                    assert(bs@[i] == before.last());
                }
            }
        }
        start = end;
    }
    proof {
        let v = bs@.map_values(|b: (usize, usize)| (b.0 as nat, b.1 as nat));
        assert forall|i: int| 0 <= i < v.len() implies #[trigger] v[i].0 < v[i].1 && v[i].1 - v[i].0 <= concurrency by {
            assert(v[i] == (bs@[i].0 as nat, bs@[i].1 as nat));
        }
        assert forall|i: int| 0 <= i < v.len() - 1 implies #[trigger] v[i].1 == v[i + 1].0 by {
            assert(v[i] == (bs@[i].0 as nat, bs@[i].1 as nat));
            assert(v[i + 1] == (bs@[i + 1].0 as nat, bs@[i + 1].1 as nat));
        }
        assert forall|i: int| 0 <= i < bs@.len() - 1 implies #[trigger] bs@[i].1 - bs@[i].0 == concurrency by {
            if bs@[i].1 == n {
                assert(bs@[i].1 == bs@[i + 1].0);
                assert(bs@[i + 1].0 < bs@[i + 1].1);
                assert(bs@[i + 1].1 <= n);
            }
        }
    }
    bs
}

/// `ptah.json.stringify`'s indent: the requested width, clamped to 1..=16.
pub fn json_indent(requested: Option<usize>) -> (w: Option<usize>)
    ensures
        w == match requested {
            Some(n) => Some(if n < 1 { 1usize } else if n > 16 { 16usize } else { n }),
            None => None::<usize>,
        },
{
    match requested {
        Some(n) => Some(if n < 1 {
            1
        } else if n > 16 {
            16
        } else {
            n
        }),
        None => None,
    }
}

/// The directory the entry script's relative requires anchor at: the
/// parent of its (canonical) path, `.` when it has none.
pub fn script_root(entry: &str) -> (out: String)
    ensures
        out@ == if components(entry@).len() > 0 {
            from_components(is_absolute(entry@), components(entry@).drop_last())
        } else {
            "."@
        },
{
    let comps = path_components(entry);
    let ghost cv = comps@.map_values(|s: String| s@);
    if comps.len() == 0 {
        proof {
            reveal_strlit(".");
        }
        return ".".to_string();
    }
    let abs = path_is_absolute(entry);
    let out = build_path(abs, &comps, comps.len() - 1);
    assert(cv.take(cv.len() - 1) =~= cv.drop_last());
    out
}


/// The value of `name` in an environment snapshot: the first entry with
/// that name.
pub open spec fn env_value(env: Seq<(String, String)>, name: Seq<char>) -> Option<Seq<char>>
    decreases env.len(),
{
    if env.len() == 0 {
        None
    } else if env[0].0@ == name {
        Some(env[0].1@)
    } else {
        env_value(env.drop_first(), name)
    }
}

/// `os.getenv` reads the snapshot as a map: the value it gives for a name
/// is exactly the value of the first entry with that name (never the name,
/// nor any other text), and it gives nil exactly when no entry has the
/// name.
pub proof fn getenv_gives_the_first_value(env: Seq<(String, String)>, name: Seq<char>)
    ensures
        match env_value(env, name) {
            Some(x) => exists|i: int|
                0 <= i < env.len() && #[trigger] env[i].0@ == name && x == env[i].1@ && forall|j: int|
                    0 <= j < i ==> env[j].0@ != name,
            None => forall|i: int| 0 <= i < env.len() ==> #[trigger] env[i].0@ != name,
        },
    decreases env.len(),
{
    if env.len() > 0 && env[0].0@ != name {
        let rest = env.drop_first();
        getenv_gives_the_first_value(rest, name);
        match env_value(rest, name) {
            Some(x) => {
                let k = choose|i: int|
                    0 <= i < rest.len() && #[trigger] rest[i].0@ == name && x == rest[i].1@ && forall|j: int|
                        0 <= j < i ==> rest[j].0@ != name;
                assert(env[k + 1] == rest[k]);
                assert forall|j: int| 0 <= j < k + 1 implies env[j].0@ != name by {
                    if j > 0 {
                        assert(env[j] == rest[j - 1]);
                    }
                }
            },
            None => {
                assert forall|i: int| 0 <= i < env.len() implies #[trigger] env[i].0@ != name by {
                    if i > 0 {
                        assert(env[i] == rest[i - 1]);
                    }
                }
            },
        }
    }
}

/// A snapshot whose first entry is `(n, v)` gives `v` for `n`, whatever
/// follows.
pub proof fn getenv_of_a_leading_entry(n: String, v: String, rest: Seq<(String, String)>)
    ensures
        env_value(seq![(n, v)] + rest, n@) == Some(v@),
{
    getenv_gives_the_first_value(seq![(n, v)] + rest, n@);
    assert((seq![(n, v)] + rest)[0] == (n, v));
}

/// The error `os.getenv` raises for an argument that is not a string.
pub open spec fn getenv_arg_error() -> Seq<char> {
    "os.getenv expects a variable name (string)"@
}

/// `os.getenv(name)` over the startup environment snapshot: a string
/// argument gives the variable's value (`None`, Lua's nil, when it is
/// unset; an empty value stays `""`); any other argument is an error.
pub fn getenv(name: &ScriptValue, env: &Vec<(String, String)>) -> (r: Result<Option<String>, String>)
    ensures
        match name {
            ScriptValue::Text(n) => r matches Ok(v) && crate::text::opt_string_view(v) == env_value(env@, n@),
            _ => r matches Err(e) && e@ == getenv_arg_error(),
        },
{
    proof {
        reveal_strlit("os.getenv expects a variable name (string)");
    }
    match name {
        ScriptValue::Text(n) => {
            let mut i: usize = 0;
            assert(env@.skip(0) =~= env@);
            while i < env.len()
                invariant
                    i <= env.len(),
                    name matches ScriptValue::Text(m) && m@ == n@,
                    env_value(env@, n@) == env_value(env@.skip(i as int), n@),
                decreases env.len() - i,
            {
                assert(env@.skip(i as int)[0] == env@[i as int]);
                if text_eq(env[i].0.as_str(), n.as_str()) {
                    let v = string_of(&chars_of(env[i].1.as_str()));
                    assert(env@.skip(i as int).len() > 0);
                    assert(env_value(env@.skip(i as int), n@) == Some(env@[i as int].1@));
                    assert(v@ == env@[i as int].1@);
                    return Ok(Some(v));
                }
                assert(env@.skip(i as int).drop_first() =~= env@.skip(i as int + 1));
                i += 1;
            }
            assert(env@.skip(env.len() as int).len() == 0);
            Ok(None)
        },
        _ => Err("os.getenv expects a variable name (string)".to_string()),
    }
}

} // verus!
