//! The run record: the durable, self-describing artifact of one run —
//! its id and location, the `run.json` model and the rules by which the
//! model learns facts and stops at its first write failure.
//!
//! The record's files are written by the embedding program; this module
//! decides what they hold and when a write is due.

use vstd::prelude::*;

use crate::events::{action_text, AskAction, SessionEvent};
use crate::render::RenderOptions;
use crate::paths::{
    ancestors, components, is_absolute, join_path, path_ancestors, path_components,
    pad_marks, padded_marks, path_is_absolute, path_join, rest_text, strip_prefix,
};
use crate::text::{
    chars_of, dec_padded, join, lemma_join_push, opt_view, push_dec_padded, push_str_chars,
    string_of, text_eq,
};

verus! {

/// The `run.json` layout version.
pub const SCHEMA_VERSION: u32 = 1;

/// The first marked ancestor, or the path itself when none is marked.
pub open spec fn first_marked(candidates: Seq<Seq<char>>, marked: Seq<bool>, fallback: Seq<char>) -> Seq<char>
    decreases candidates.len(),
{
    if candidates.len() == 0 {
        fallback
    } else if marked[0] {
        candidates[0]
    } else {
        first_marked(candidates.drop_first(), marked.drop_first(), fallback)
    }
}

proof fn lemma_first_marked(candidates: Seq<Seq<char>>, marked: Seq<bool>, fallback: Seq<char>)
    requires
        marked.len() == candidates.len(),
    ensures
        (exists|i: int|
            0 <= i < candidates.len() && #[trigger] marked[i] && first_marked(candidates, marked, fallback)
                == candidates[i] && forall|j: int| 0 <= j < i ==> !marked[j])
            || ((forall|i: int| 0 <= i < candidates.len() ==> !marked[i]) && first_marked(
            candidates,
            marked,
            fallback,
        ) == fallback),
    decreases candidates.len(),
{
    if candidates.len() > 0 && !marked[0] {
        let c1 = candidates.drop_first();
        let m1 = marked.drop_first();
        lemma_first_marked(c1, m1, fallback);
        if exists|i: int|
            0 <= i < c1.len() && #[trigger] m1[i] && first_marked(c1, m1, fallback) == c1[i] && forall|j: int|
                0 <= j < i ==> !m1[j] {
            let k = choose|i: int|
                0 <= i < c1.len() && #[trigger] m1[i] && first_marked(c1, m1, fallback) == c1[i] && forall|j: int|
                    0 <= j < i ==> !m1[j];
            assert(marked[k + 1] && first_marked(candidates, marked, fallback) == candidates[k + 1]);
            assert forall|j: int| 0 <= j < k + 1 implies !marked[j] by {
                if j > 0 {
                    assert(marked[j] == m1[j - 1]);
                }
            }
        } else {
            assert forall|i: int| 0 <= i < candidates.len() implies !marked[i] by {
                if i > 0 {
                    assert(marked[i] == m1[i - 1]);
                }
            }
        }
    }
}

/// The record's project root is the nearest ancestor of the invocation
/// directory with a `.ptah` directory: the i-th ancestor (the directory
/// itself first) whose probe is true while every nearer one's is false;
/// the invocation directory itself when no ancestor is marked. (A missing
/// probe counts as false.) The runs directory sits under that root.
pub proof fn record_root_is_the_nearest_marked_ancestor(invocation_dir: Seq<char>, has_ptah_dir: Seq<bool>)
    ensures
        ({
            let anc = ancestors(invocation_dir);
            let root = first_marked(anc, padded_marks(has_ptah_dir, anc.len()), invocation_dir);
            ||| exists|i: int|
                0 <= i < anc.len() && i < has_ptah_dir.len() && #[trigger] has_ptah_dir[i] && root == anc[i]
                    && forall|j: int| 0 <= j < i && j < has_ptah_dir.len() ==> !has_ptah_dir[j]
            ||| (forall|i: int| 0 <= i < anc.len() && i < has_ptah_dir.len() ==> !#[trigger] has_ptah_dir[i])
                && root == invocation_dir
        }),
{
    let anc = ancestors(invocation_dir);
    let m = padded_marks(has_ptah_dir, anc.len());
    lemma_first_marked(anc, m, invocation_dir);
    if exists|i: int|
        0 <= i < anc.len() && #[trigger] m[i] && first_marked(anc, m, invocation_dir) == anc[i] && forall|j: int|
            0 <= j < i ==> !m[j] {
        let k = choose|i: int|
            0 <= i < anc.len() && #[trigger] m[i] && first_marked(anc, m, invocation_dir) == anc[i] && forall|j: int|
                0 <= j < i ==> !m[j];
        assert(k < has_ptah_dir.len() && has_ptah_dir[k]);
        assert forall|j: int| 0 <= j < k && j < has_ptah_dir.len() implies !has_ptah_dir[j] by {
            assert(!m[j]);
        }
    } else {
        assert forall|i: int| 0 <= i < anc.len() && i < has_ptah_dir.len() implies !#[trigger] has_ptah_dir[i] by {
            assert(!m[i]);
        }
    }
}

/// The project root used for a record: the nearest ancestor of the
/// invocation directory (itself included) that contains a `.ptah`
/// directory, or the invocation directory when none does. `has_ptah_dir[i]`
/// says whether the i-th ancestor (`paths::ancestors` order) contains one;
/// an ancestor without a probe counts as not containing one.
pub fn project_root(invocation_dir: &str, has_ptah_dir: &Vec<bool>) -> (root: String)
    ensures
        root@ == first_marked(
            ancestors(invocation_dir@),
            padded_marks(has_ptah_dir@, ancestors(invocation_dir@).len()),
            invocation_dir@,
        ),
{
    let anc = path_ancestors(invocation_dir);
    let ghost target = padded_marks(has_ptah_dir@, ancestors(invocation_dir@).len());
    assert(anc@.map_values(|s: String| s@).len() == anc.len());
    let marks = pad_marks(has_ptah_dir, anc.len());
    assert(marks@ == target);
    let ghost av = anc@.map_values(|s: String| s@);
    let mut i: usize = 0;
    assert(av.skip(0) =~= av);
    assert(marks@.skip(0) =~= marks@);
    while i < anc.len()
        invariant
            i <= anc.len() == marks.len(),
            av == anc@.map_values(|s: String| s@),
            av == ancestors(invocation_dir@),
            marks@ == padded_marks(has_ptah_dir@, av.len()),
            first_marked(av, marks@, invocation_dir@) == first_marked(
                av.skip(i as int),
                marks@.skip(i as int),
                invocation_dir@,
            ),
        decreases anc.len() - i,
    {
        assert(av.skip(i as int)[0] == av[i as int]);
        assert(marks@.skip(i as int)[0] == marks@[i as int]);
        if marks[i] {
            let r = anc[i].clone();
            assert(r@ == av[i as int]);
            return r;
        }
        assert(av.skip(i as int).drop_first() =~= av.skip(i as int + 1));
        assert(marks@.skip(i as int).drop_first() =~= marks@.skip(i as int + 1));
        i += 1;
    }
    assert(av.skip(anc.len() as int).len() == 0);
    string_of(&chars_of(invocation_dir))
}

/// `<project>/.ptah/runs`.
pub open spec fn runs_dir_of(root: Seq<char>) -> Seq<char> {
    path_join(path_join(root, ".ptah"@), "runs"@)
}

/// The record directory's parent under the project root:
/// `<project>/.ptah/runs`.
pub fn runs_dir(invocation_dir: &str, has_ptah_dir: &Vec<bool>) -> (dir: String)
    ensures
        dir@ == runs_dir_of(
            first_marked(
                ancestors(invocation_dir@),
                padded_marks(has_ptah_dir@, ancestors(invocation_dir@).len()),
                invocation_dir@,
            ),
        ),
{
    let root = project_root(invocation_dir, has_ptah_dir);
    let p = join_path(root.as_str(), ".ptah");
    join_path(p.as_str(), "runs")
}

/// A path rendered for display: relative to the invocation directory
/// when under it, `~`-collapsed when under home (but not under the
/// invocation directory), and as received otherwise.
pub open spec fn shortened(path: Seq<char>, invocation_dir: Seq<char>, home: Option<Seq<char>>) -> Seq<char> {
    match strip_prefix(path, invocation_dir) {
        Some(rel) if rel.len() > 0 => rest_text(path, components(invocation_dir).len()),
        _ => match home {
            Some(h) => match strip_prefix(path, h) {
                Some(rel) if rel.len() > 0 => seq!['~', '/'] + rest_text(path, components(h).len()),
                _ => path,
            },
            None => path,
        },
    }
}

/// `Path::strip_prefix` followed by `display`, `None` when `base` is not a
/// prefix or nothing remains; the remainder keeps the path's own text.
fn strip_nonempty(path: &str, base: &str) -> (r: Option<String>)
    ensures
        match r {
            Some(s) => strip_prefix(path@, base@) matches Some(rel) && rel.len() > 0 && s@ == rest_text(
                path@,
                components(base@).len(),
            ),
            None => !(strip_prefix(path@, base@) matches Some(rel) && rel.len() > 0),
        },
{
    let pc = path_components(path);
    let bc = path_components(base);
    let ghost pv = pc@.map_values(|s: String| s@);
    let ghost bv = bc@.map_values(|s: String| s@);
    assert(pv.len() == pc.len() && bv.len() == bc.len());
    if path_is_absolute(path) != path_is_absolute(base) || bc.len() >= pc.len() {
        proof {
            if bc.len() == pc.len() && is_absolute(path@) == is_absolute(base@) {
                if pv.take(bv.len() as int) == bv {
                    assert(pv.skip(bv.len() as int).len() == 0);
                }
            }
        }
        return None;
    }
    let mut i: usize = 0;
    while i < bc.len()
        invariant
            i <= bc.len() < pc.len(),
            pv == pc@.map_values(|s: String| s@),
            bv == bc@.map_values(|s: String| s@),
            pv == components(path@),
            bv == components(base@),
            forall|j: int| 0 <= j < i ==> pv[j] == bv[j],
        decreases bc.len() - i,
    {
        assert(pc@[i as int]@ == pv[i as int] && bc@[i as int]@ == bv[i as int]);
        if !text_eq(pc[i].as_str(), bc[i].as_str()) {
            assert(pv.take(bv.len() as int)[i as int] != bv[i as int]);
            return None;
        }
        i += 1;
    }
    assert(pv.take(bv.len() as int) =~= bv);
    assert(pv.skip(bv.len() as int).len() > 0);
    let s = crate::paths::path_rest(path, bc.len());
    Some(s)
}

/// A path rendered for display under the shared path rule.
pub fn shorten_path(path: &str, invocation_dir: &str, home: Option<&str>) -> (out: String)
    ensures
        out@ == shortened(path@, invocation_dir@, opt_view(home)),
{
    match strip_nonempty(path, invocation_dir) {
        Some(s) => s,
        None => {
            match home {
                Some(h) => match strip_nonempty(path, h) {
                    Some(s) => {
                        let mut out = String::new();
                        out.push('~');
                        out.push('/');
                        push_str_chars(&mut out, s.as_str());
                        out
                    },
                    None => string_of(&chars_of(path)),
                },
                None => string_of(&chars_of(path)),
            }
        },
    }
}

/// The run-start line body naming the record directory.
pub fn run_start_line(record_dir: &str, invocation_dir: &str, home: Option<&str>) -> (out: String)
    ensures
        out@ == "run record: "@ + shortened(record_dir@, invocation_dir@, opt_view(home)),
{
    proof {
        reveal_strlit("run record: ");
    }
    let mut out = String::new();
    push_str_chars(&mut out, "run record: ");
    let s = shorten_path(record_dir, invocation_dir, home);
    push_str_chars(&mut out, s.as_str());
    out
}

/// The UTC start instant as `yyyymmddhhmmss` (`%Y%m%d%H%M%S`), as jiff
/// formats the instant that many seconds after the Unix epoch.
pub uninterp spec fn utc_compact(epoch_seconds: int) -> Seq<char>;

/// An instant (whole seconds since the Unix epoch) that jiff can represent:
/// from `-009999-01-02T01:59:59Z` through `9999-12-30T22:00:00Z`.
pub open spec fn instant_in_range(epoch_seconds: int) -> bool {
    -377705023201 <= epoch_seconds <= 253402207200
}

/// What jiff's `{:.0}` display of a timestamp renders for the instant that
/// many seconds after the Unix epoch: RFC 3339 in UTC (`Z`), no fractional
/// seconds.
pub uninterp spec fn rfc3339_text(epoch_seconds: int) -> Seq<char>;

/// The record's rendering of an instant:
/// `format!("{:.0}", jiff::Timestamp::from_second(s))`.
#[verifier::external_body]
fn rfc3339(epoch_seconds: i64) -> (s: String)
    requires
        instant_in_range(epoch_seconds as int),
    ensures
        s@ == rfc3339_text(epoch_seconds as int),
{
    format!("{:.0}", jiff::Timestamp::from_second(epoch_seconds).unwrap())
}

/// The current instant in whole seconds since the Unix epoch:
/// `jiff::Timestamp::now().as_second()`. It depends on the clock, so only
/// that it lies in jiff's range is stated.
#[verifier::external_body]
fn now_second() -> (s: i64)
    ensures
        instant_in_range(s as int),
{
    jiff::Timestamp::now().as_second()
}

/// The timestamp prefix of a run id: jiff's `strftime("%Y%m%d%H%M%S")` of
/// the instant in UTC. The instant must lie in jiff's supported range.
#[verifier::external_body]
fn utc_compact_stamp(epoch_seconds: i64) -> (s: String)
    requires
        instant_in_range(epoch_seconds as int),
    ensures
        s@ == utc_compact(epoch_seconds as int),
{
    jiff::Timestamp::from_second(epoch_seconds).unwrap().strftime("%Y%m%d%H%M%S").to_string()
}

/// A random 32-bit number from the operating system: `getrandom::u32()`.
/// Nothing is promised of the value; an error comes back as its text.
#[verifier::external_body]
fn random_u32() -> (r: Result<u32, String>) {
    getrandom::u32().map_err(|e| e.to_string())
}

/// The options the record's `log` renderer uses: the terminal's
/// verbosity, never silenced by `--quiet` and never colored.
pub fn log_render_options(terminal: RenderOptions) -> (o: RenderOptions)
    ensures
        o == (RenderOptions { quiet: false, no_color: true, ..terminal }),
{
    RenderOptions { quiet: false, no_color: true, ..terminal }
}

/// A run's identity: `yyyymmddhhmmss-NNNN`.
#[derive(Debug)]
pub struct RunId(String);

impl RunId {
    /// The id's text.
    pub closed spec fn text(&self) -> Seq<char> {
        self.0@
    }

    /// An id from a timestamp prefix and a suffix (`{prefix}-{suffix:04}`,
    /// the suffix taken modulo 10000).
    pub fn from_parts(prefix: &str, suffix: u32) -> (id: RunId)
        ensures
            id.text() == prefix@ + seq!['-'] + dec_padded((suffix % 10000) as nat, 4),
    {
        let mut s = String::new();
        push_str_chars(&mut s, prefix);
        s.push('-');
        push_dec_padded(&mut s, (suffix % 10000) as u64, 4);
        RunId(s)
    }

    /// An id candidate for a run starting at `start` (seconds since the
    /// Unix epoch): the UTC timestamp prefix, a `-`, and a random
    /// four-digit suffix that breaks same-second collisions. Whether the
    /// id is free on disk is the caller's check.
    pub fn candidate(start: i64) -> (id: Result<RunId, String>)
        requires
            instant_in_range(start as int),
        ensures
            id matches Ok(id) ==> exists|r: u32|
                id.text() == utc_compact(start as int) + seq!['-'] + #[trigger] dec_padded(
                    (r % 10000) as nat,
                    4,
                ),
    {
        let prefix = utc_compact_stamp(start);
        match random_u32() {
            Ok(r) => Ok(RunId::from_parts(prefix.as_str(), r)),
            Err(e) => Err(e),
        }
    }

    /// The id as a string.
    pub fn as_str(&self) -> (s: &str)
        ensures
            s@ == self.text(),
    {
        self.0.as_str()
    }
}

/// How the run ended, as `run.json` records it.
#[derive(Debug, Clone, Copy, PartialEq, Eq, Structural)]
pub enum RunStatus {
    /// The run has not ended (also the state of a run killed without
    /// teardown).
    Running,
    Okay,
    Failed,
    Cancelled,
}

impl RunStatus {
    /// The lowercase name `run.json` carries.
    pub fn as_str(&self) -> (s: &'static str)
        ensures
            s@ == status_text(*self),
    {
        proof {
            reveal_strlit("running");
            reveal_strlit("ok");
            reveal_strlit("failed");
            reveal_strlit("cancelled");
        }
        match self {
            RunStatus::Running => "running",
            RunStatus::Okay => "ok",
            RunStatus::Failed => "failed",
            RunStatus::Cancelled => "cancelled",
        }
    }
}

/// The lowercase name of a status.
pub open spec fn status_text(s: RunStatus) -> Seq<char> {
    match s {
        RunStatus::Running => "running"@,
        RunStatus::Okay => "ok"@,
        RunStatus::Failed => "failed"@,
        RunStatus::Cancelled => "cancelled"@,
    }
}

/// How a run ended. `cancelled` is the runtime's separate report that a
/// terminating signal ended the run — never inferred from `code`.
#[derive(Debug)]
pub struct RunEnd {
    pub code: i32,
    pub error: Option<String>,
    pub undelivered_errors: Vec<String>,
    pub cancelled: bool,
}

/// The status a run end maps to: cancellation first, then the exit code.
pub open spec fn end_status(cancelled: bool, code: i32) -> RunStatus {
    if cancelled {
        RunStatus::Cancelled
    } else if code == 0 {
        RunStatus::Okay
    } else {
        RunStatus::Failed
    }
}

/// The terminal error text of a run end.
pub open spec fn end_error_text(error: Option<Seq<char>>, undelivered: Seq<Seq<char>>) -> Option<Seq<char>> {
    match error {
        Some(e) => Some(e),
        None => if undelivered.len() > 0 {
            Some(join(undelivered, "; "@))
        } else {
            None
        },
    }
}

impl RunEnd {
    /// `cancelled` when a signal terminated the run, else `ok` for exit 0
    /// and `failed` for any non-zero exit.
    pub fn status(&self) -> (s: RunStatus)
        ensures
            s == end_status(self.cancelled, self.code),
    {
        if self.cancelled {
            RunStatus::Cancelled
        } else if self.code == 0 {
            RunStatus::Okay
        } else {
            RunStatus::Failed
        }
    }

    /// The terminal error message: the escaped error, or the undelivered
    /// task errors joined with `; `. `None` when the run ended cleanly.
    pub fn error_text(&self) -> (t: Option<String>)
        ensures
            crate::text::opt_string_view(t) == end_error_text(
                crate::text::opt_string_view(self.error),
                self.undelivered_errors@.map_values(|s: String| s@),
            ),
    {
        match &self.error {
            Some(e) => Some(e.clone()),
            None => {
                if self.undelivered_errors.len() == 0 {
                    None
                } else {
                    Some(join_strings(&self.undelivered_errors, "; "))
                }
            },
        }
    }
}

/// Strings joined with a separator.
pub fn join_strings(parts: &Vec<String>, sep: &str) -> (s: String)
    ensures
        s@ == join(parts@.map_values(|p: String| p@), sep@),
{
    let ghost pv = parts@.map_values(|p: String| p@);
    let mut s = String::new();
    let mut i: usize = 0;
    while i < parts.len()
        invariant
            i <= parts.len(),
            pv == parts@.map_values(|p: String| p@),
            s@ == join(pv.take(i as int), sep@),
        decreases parts.len() - i,
    {
        let ghost before = s@;
        if i > 0 {
            push_str_chars(&mut s, sep);
        }
        push_str_chars(&mut s, parts[i].as_str());
        proof {
            assert(parts@[i as int]@ == pv[i as int]);
            lemma_join_push(pv.take(i as int), sep@, pv[i as int]);
            assert(pv.take(i as int + 1) =~= pv.take(i as int).push(pv[i as int]));
            if i == 0 {
                assert(pv.take(0) =~= Seq::<Seq<char>>::empty());
                assert(s@ =~= pv[0]);
            }
        }
        i += 1;
    }
    assert(pv.take(parts.len() as int) =~= pv);
    s
}

/// One session that started: label, agent name, authored invocation
/// shape (never resolved values), and the agent's ACP session id.
#[derive(Debug)]
pub struct SessionRecord {
    pub label: String,
    pub agent: String,
    /// The authored (pre-interpolation) command.
    pub command: String,
    /// The authored (pre-interpolation) args.
    pub args: Vec<String>,
    /// The declared environment key names only — never values.
    pub env_keys: Vec<String>,
    pub acp_id: String,
}

/// One ask issued during the run; `action`/`text` stay `None` until it
/// resolves.
#[derive(Debug)]
pub struct AskRecord {
    pub ordinal: usize,
    pub prompt: String,
    pub details: Option<String>,
    pub action: Option<String>,
    pub text: Option<String>,
}

/// The `run.json` model.
#[derive(Debug)]
pub struct RunMeta {
    pub schema_version: u32,
    pub run_id: String,
    /// The entry script's path, as the process received it.
    pub script: String,
    /// The process argv.
    pub argv: Vec<String>,
    /// The invocation directory.
    pub invocation_dir: String,
    /// The ptah version string.
    pub ptah_version: String,
    /// Start instant, RFC 3339 in UTC.
    pub started_at: String,
    /// End instant, RFC 3339 in UTC; `None` while the run is live.
    pub ended_at: Option<String>,
    pub status: RunStatus,
    /// The process exit code, once the run has ended.
    pub exit_code: Option<i32>,
    /// The terminal error message when the run ended in error.
    pub error: Option<String>,
    pub sessions: Vec<SessionRecord>,
    pub asks: Vec<AskRecord>,
}

} // verus!

verus! {

/// A copy of a vector of strings.
pub fn clone_strings(v: &Vec<String>) -> (r: Vec<String>)
    ensures
        r@ == v@,
{
    let mut r: Vec<String> = Vec::new();
    let mut i: usize = 0;
    while i < v.len()
        invariant
            i <= v.len(),
            r@ == v@.take(i as int),
        decreases v.len() - i,
    {
        r.push(v[i].clone());
        i += 1;
        assert(r@ =~= v@.take(i as int));
    }
    assert(v@.take(v.len() as int) =~= v@);
    r
}

/// A copy of an optional string.
pub fn clone_opt(o: &Option<String>) -> (r: Option<String>)
    ensures
        r == *o,
{
    match o {
        Some(s) => Some(s.clone()),
        None => None,
    }
}

impl AskRecord {
    /// A copy of the record.
    pub fn copy(&self) -> (r: AskRecord)
        ensures
            r == *self,
    {
        AskRecord {
            ordinal: self.ordinal,
            prompt: self.prompt.clone(),
            details: clone_opt(&self.details),
            action: clone_opt(&self.action),
            text: clone_opt(&self.text),
        }
    }
}

impl RunMeta {
    /// The model of a run that has just started: status `running`, no end,
    /// no sessions or asks.
    pub fn started(
        run_id: &str,
        script: &str,
        argv: &Vec<String>,
        invocation_dir: &str,
        ptah_version: &str,
        start: i64,
    ) -> (m: RunMeta)
        requires
            instant_in_range(start as int),
        ensures
            m.schema_version == SCHEMA_VERSION,
            m.run_id@ == run_id@,
            m.script@ == script@,
            m.argv@ == argv@,
            m.invocation_dir@ == invocation_dir@,
            m.ptah_version@ == ptah_version@,
            m.started_at@ == rfc3339_text(start as int),
            m.ended_at.is_none(),
            m.status == RunStatus::Running,
            m.exit_code.is_none(),
            m.error.is_none(),
            m.sessions@.len() == 0,
            m.asks@.len() == 0,
    {
        RunMeta {
            schema_version: SCHEMA_VERSION,
            run_id: string_of(&chars_of(run_id)),
            script: string_of(&chars_of(script)),
            argv: clone_strings(argv),
            invocation_dir: string_of(&chars_of(invocation_dir)),
            ptah_version: string_of(&chars_of(ptah_version)),
            started_at: rfc3339(start),
            ended_at: None,
            status: RunStatus::Running,
            exit_code: None,
            error: None,
            sessions: Vec::new(),
            asks: Vec::new(),
        }
    }
}

/// The asks carry their issue-order ordinals 1, 2, … .
pub open spec fn asks_ordinaled(asks: Seq<AskRecord>) -> bool {
    forall|i: int| 0 <= i < asks.len() ==> #[trigger] asks[i].ordinal == i + 1
}

/// The index of the most recent still-open ask, if any.
pub open spec fn last_open(asks: Seq<AskRecord>) -> Option<int>
    decreases asks.len(),
{
    if asks.len() == 0 {
        None
    } else if asks.last().action.is_none() {
        Some(asks.len() - 1)
    } else {
        last_open(asks.drop_last())
    }
}

/// A live run record: the `run.json` model plus the record's write
/// bookkeeping. Every method that learns a fact says whether `run.json`
/// is due a rewrite; the caller writes it and reports a failure back
/// with `write_failed`. The first failure disables the record: no further
/// fact lands and no further write is due.
pub struct RunRecord {
    id: RunId,
    dir: String,
    meta: RunMeta,
    next_ask: usize,
    /// The first `run.json` write failure, taken once.
    failure: Option<String>,
    /// Set by the first write failure.
    disabled: bool,
    /// The first `log` write failure, stashed by the log writer.
    log_failure: Option<String>,
}

impl RunRecord {
    /// The `run.json` model.
    pub closed spec fn model(&self) -> RunMeta {
        self.meta
    }

    /// The record directory.
    pub closed spec fn dir_view(&self) -> Seq<char> {
        self.dir@
    }

    /// The run id.
    pub closed spec fn id_view(&self) -> Seq<char> {
        self.id.text()
    }

    /// Whether the record stopped at a write failure.
    pub closed spec fn is_disabled(&self) -> bool {
        self.disabled
    }

    /// The stashed `run.json` write failure.
    pub closed spec fn write_failure(&self) -> Option<String> {
        self.failure
    }

    /// The stashed `log` write failure.
    pub closed spec fn log_write_failure(&self) -> Option<String> {
        self.log_failure
    }

    /// Asks are numbered in issue order and the counter matches.
    pub closed spec fn wf(&self) -> bool {
        &&& self.next_ask == self.meta.asks.len()
        &&& asks_ordinaled(self.meta.asks@)
    }

    /// Only the model changed (and only as `model` says).
    pub open spec fn bookkeeping_same(&self, old: &RunRecord) -> bool {
        &&& self.id_view() == old.id_view()
        &&& self.dir_view() == old.dir_view()
        &&& self.is_disabled() == old.is_disabled()
        &&& self.write_failure() == old.write_failure()
        &&& self.log_write_failure() == old.log_write_failure()
    }

    /// The effect of recording a session's readiness.
    pub open spec fn readied(&self, old: &RunRecord, session: SessionRecord, due: bool) -> bool {
        &&& self.wf()
        &&& self.bookkeeping_same(old)
        &&& due == !old.is_disabled()
        &&& if due {
            self.model() == (RunMeta { sessions: self.model().sessions, ..old.model() })
                && self.model().sessions@ == old.model().sessions@.push(session)
        } else {
            self.model() == old.model()
        }
    }

    /// The effect of recording an issued ask.
    pub open spec fn asked(&self, old: &RunRecord, prompt: Seq<char>, details: Option<Seq<char>>, due: bool) -> bool {
        &&& self.wf()
        &&& self.bookkeeping_same(old)
        &&& due == !old.is_disabled()
        &&& if due {
            let a = self.model().asks@.last();
            &&& self.model() == (RunMeta { asks: self.model().asks, ..old.model() })
            &&& self.model().asks@.drop_last() == old.model().asks@
            &&& self.model().asks@.len() == old.model().asks@.len() + 1
            &&& a.ordinal == old.model().asks@.len() + 1
            &&& a.prompt@ == prompt
            &&& crate::text::opt_string_view(a.details) == details
            &&& a.action.is_none()
            &&& a.text.is_none()
        } else {
            self.model() == old.model()
        }
    }

    /// The effect of recording an ask's resolution.
    pub open spec fn resolved(&self, old: &RunRecord, action: AskAction, text: Option<Seq<char>>, due: bool) -> bool {
        &&& self.wf()
        &&& self.bookkeeping_same(old)
        &&& due == !old.is_disabled()
        &&& if due {
                let asks = old.model().asks@;
                &&& self.model() == (RunMeta {
                    asks: self.model().asks,
                    ..old.model()
                })
                &&& match last_open(asks) {
                    Some(k) => {
                        let a = self.model().asks@[k];
                        &&& self.model().asks@.len() == asks.len()
                        &&& forall|j: int| 0 <= j < asks.len() && j != k ==> #[trigger] self.model().asks@[j] == asks[j]
                        &&& a.ordinal == asks[k].ordinal
                        &&& a.prompt == asks[k].prompt
                        &&& a.details == asks[k].details
                        &&& crate::text::opt_string_view(a.action) == Some(action_text(action))
                        &&& crate::text::opt_string_view(a.text) == text
                    },
                    None => self.model().asks@ == asks,
                }
            } else {
                self.model() == old.model()
            }
    }

    /// A live record for a run whose directory and files exist.
    pub fn new(id: RunId, dir: String, meta: RunMeta) -> (r: RunRecord)
        requires
            meta.asks@.len() == 0,
        ensures
            r.wf(),
            r.id_view() == id.text(),
            r.dir_view() == dir@,
            r.model() == meta,
            !r.is_disabled(),
            r.write_failure().is_none(),
            r.log_write_failure().is_none(),
    {
        RunRecord { id, dir, meta, next_ask: 0, failure: None, disabled: false, log_failure: None }
    }

    /// The run id.
    pub fn id(&self) -> (s: &str)
        ensures
            s@ == self.id_view(),
    {
        self.id.as_str()
    }

    /// The record directory (`<project>/.ptah/runs/<id>`).
    pub fn dir(&self) -> (s: &str)
        ensures
            s@ == self.dir_view(),
    {
        self.dir.as_str()
    }

    /// The current model.
    pub fn meta(&self) -> (m: &RunMeta)
        ensures
            *m == self.model(),
    {
        &self.meta
    }

    /// Record a session's readiness. Returns whether `run.json` is due a
    /// rewrite (false once the record is disabled, and then nothing
    /// changes).
    pub fn session_ready(&mut self, session: SessionRecord) -> (due: bool)
        requires
            old(self).wf(),
        ensures
            final(self).readied(old(self), session, due),
    {
        if self.disabled {
            return false;
        }
        self.meta.sessions.push(session);
        true
    }

    /// Record an ask as it is issued, with the next ordinal in issue
    /// order. Returns whether `run.json` is due a rewrite.
    pub fn ask_requested(&mut self, prompt: &str, details: Option<&str>) -> (due: bool)
        requires
            old(self).wf(),
            old(self).model().asks@.len() < usize::MAX,
        ensures
            final(self).asked(old(self), prompt@, opt_view(details), due),
    {
        if self.disabled {
            return false;
        }
        let ghost before = self.meta.asks@;
        self.next_ask = self.next_ask + 1;
        let rec = AskRecord {
            ordinal: self.next_ask,
            prompt: string_of(&chars_of(prompt)),
            details: match details {
                Some(d) => Some(string_of(&chars_of(d))),
                None => None,
            },
            action: None,
            text: None,
        };
        self.meta.asks.push(rec);
        proof {
            assert(self.meta.asks@.drop_last() =~= before);
            assert forall|i: int| 0 <= i < self.meta.asks@.len() implies #[trigger] self.meta.asks@[i].ordinal
                == i + 1 by {
                if i < before.len() {
                    assert(before[i].ordinal == i + 1);
                }
            }
        }
        true
    }

    /// Record an ask's resolution on the most recent still-open ask: the
    /// action and, for `respond`, the text. Returns whether `run.json` is
    /// due a rewrite.
    pub fn ask_resolved(&mut self, action: AskAction, text: Option<&str>) -> (due: bool)
        requires
            old(self).wf(),
        ensures
            final(self).resolved(old(self), action, opt_view(text), due),
    {
        if self.disabled {
            return false;
        }
        let ghost asks = self.meta.asks@;
        let n = self.meta.asks.len();
        let mut k: usize = n;
        assert(asks.take(n as int) =~= asks);
        while k > 0
            invariant_except_break
                k <= n == self.meta.asks.len(),
                self.meta.asks@ == asks,
                last_open(asks) == last_open(asks.take(k as int)),
            ensures
                k <= n,
                self.meta.asks@ == asks,
                k > 0 ==> last_open(asks) == Some(k - 1),
                k == 0 ==> last_open(asks).is_none(),
            decreases k,
        {
            assert(asks.take(k as int).last() == asks[k - 1]);
            if self.meta.asks[k - 1].action.is_none() {
                break;
            }
            assert(asks.take(k as int).drop_last() =~= asks.take(k - 1));
            k -= 1;
        }
        if k == 0 {
            proof {
                assert(asks.take(0).len() == 0);
            }
            return true;
        }
        let idx = k - 1;
        let old_rec = self.meta.asks[idx].copy();
        let rec = AskRecord {
            ordinal: old_rec.ordinal,
            prompt: old_rec.prompt,
            details: old_rec.details,
            action: Some(string_of(&chars_of(action.as_str()))),
            text: match text {
                Some(t) => Some(string_of(&chars_of(t))),
                None => None,
            },
        };
        self.meta.asks.set(idx, rec);
        proof {
            assert forall|i: int| 0 <= i < self.meta.asks@.len() implies #[trigger] self.meta.asks@[i].ordinal
                == i + 1 by {
                assert(asks[i].ordinal == i + 1);
            }
        }
        true
    }

    /// The record as a sink: it ingests the structured readiness and ask
    /// facts; every other event leaves it unchanged. Returns whether
    /// `run.json` is due a rewrite.
    pub fn ingest(&mut self, event: SessionEvent) -> (due: bool)
        requires
            old(self).wf(),
            old(self).model().asks@.len() < usize::MAX,
        ensures
            match event {
                SessionEvent::SessionReady { label, agent, command, args, env_keys, acp_id } => final(self).readied(
                    old(self),
                    SessionRecord { label, agent, command, args, env_keys, acp_id },
                    due,
                ),
                SessionEvent::AskRequested { prompt, details } => final(self).asked(
                    old(self),
                    prompt@,
                    crate::text::opt_string_view(details),
                    due,
                ),
                SessionEvent::AskResolved { action, text } => final(self).resolved(
                    old(self),
                    action,
                    crate::text::opt_string_view(text),
                    due,
                ),
                _ => !due && *final(self) == *old(self),
            },
    {
        match event {
            SessionEvent::SessionReady { label, agent, command, args, env_keys, acp_id } => {
                self.session_ready(SessionRecord { label, agent, command, args, env_keys, acp_id })
            },
            SessionEvent::AskRequested { prompt, details } => {
                self.ask_requested(prompt.as_str(), crate::text::opt_as_str(&details))
            },
            SessionEvent::AskResolved { action, text } => {
                self.ask_resolved(action, crate::text::opt_as_str(&text))
            },
            _ => false,
        }
    }

    /// Close the record at `ended_at`: status (cancellation before the
    /// exit code), exit code and terminal error text. Returns whether
    /// `run.json` is due a rewrite.
    pub fn finish_at(&mut self, end: &RunEnd, ended_at: String) -> (due: bool)
        requires
            old(self).wf(),
        ensures
            final(self).wf(),
            final(self).bookkeeping_same(old(self)),
            due == !old(self).is_disabled(),
            if due {
                let m = final(self).model();
                &&& m == (RunMeta {
                    ended_at: m.ended_at,
                    status: m.status,
                    exit_code: m.exit_code,
                    error: m.error,
                    ..old(self).model()
                })
                &&& m.ended_at == Some(ended_at)
                &&& m.status == end_status(end.cancelled, end.code)
                &&& m.exit_code == Some(end.code)
                &&& crate::text::opt_string_view(m.error) == end_error_text(
                    crate::text::opt_string_view(end.error),
                    end.undelivered_errors@.map_values(|s: String| s@),
                )
            } else {
                final(self).model() == old(self).model()
            },
    {
        if self.disabled {
            return false;
        }
        self.meta.ended_at = Some(ended_at);
        self.meta.status = end.status();
        self.meta.exit_code = Some(end.code);
        self.meta.error = end.error_text();
        true
    }

    /// Close the record now (the end instant read from the clock): as
    /// `finish_at` with that instant's RFC 3339 text.
    pub fn finish(&mut self, end: &RunEnd) -> (due: bool)
        requires
            old(self).wf(),
        ensures
            final(self).wf(),
            final(self).bookkeeping_same(old(self)),
            due == !old(self).is_disabled(),
            if due {
                let m = final(self).model();
                &&& m == (RunMeta {
                    ended_at: m.ended_at,
                    status: m.status,
                    exit_code: m.exit_code,
                    error: m.error,
                    ..old(self).model()
                })
                &&& m.ended_at matches Some(e) && exists|t: int|
                    instant_in_range(t) && e@ == #[trigger] rfc3339_text(t)
                &&& m.status == end_status(end.cancelled, end.code)
                &&& m.exit_code == Some(end.code)
                &&& crate::text::opt_string_view(m.error) == end_error_text(
                    crate::text::opt_string_view(end.error),
                    end.undelivered_errors@.map_values(|s: String| s@),
                )
            } else {
                final(self).model() == old(self).model()
            },
    {
        let now = now_second();
        let text = rfc3339(now);
        let due = self.finish_at(end, text);
        proof {
            if due {
                assert(instant_in_range(now as int) && self.model().ended_at.unwrap()@ == rfc3339_text(now as int));
            }
        }
        due
    }

    /// Whether a rewrite of the current model is due (`rewrite` is a no-op
    /// on a disabled record).
    pub fn rewrite(&self) -> (due: bool)
        ensures
            due == !self.is_disabled(),
    {
        !self.disabled
    }

    /// Report a failed `run.json` write: the record is disabled and the
    /// reason stashed (the first failure only — a disabled record writes
    /// nothing more).
    pub fn write_failed(&mut self, reason: String)
        requires
            old(self).wf(),
        ensures
            final(self).wf(),
            final(self).is_disabled(),
            final(self).write_failure() == if old(self).is_disabled() {
                old(self).write_failure()
            } else {
                Some(reason)
            },
            final(self).model() == old(self).model(),
            final(self).id_view() == old(self).id_view(),
            final(self).dir_view() == old(self).dir_view(),
            final(self).log_write_failure() == old(self).log_write_failure(),
    {
        if !self.disabled {
            self.disabled = true;
            self.failure = Some(reason);
        }
    }

    /// Stash a `log` write failure (the first one only).
    pub fn log_failed(&mut self, reason: String)
        ensures
            final(self).log_write_failure() == if old(self).log_write_failure().is_some() {
                old(self).log_write_failure()
            } else {
                Some(reason)
            },
            final(self).model() == old(self).model(),
            final(self).wf() == old(self).wf(),
            final(self).id_view() == old(self).id_view(),
            final(self).dir_view() == old(self).dir_view(),
            final(self).is_disabled() == old(self).is_disabled(),
            final(self).write_failure() == old(self).write_failure(),
    {
        if self.log_failure.is_none() {
            self.log_failure = Some(reason);
        }
    }

    /// The first write failure, taken once: a stashed `log` failure first,
    /// else a `run.json` failure. Taking it does not re-enable the record.
    pub fn take_failure(&mut self) -> (f: Option<String>)
        requires
            old(self).wf(),
        ensures
            final(self).wf(),
            final(self).model() == old(self).model(),
            final(self).id_view() == old(self).id_view(),
            final(self).dir_view() == old(self).dir_view(),
            final(self).is_disabled() == old(self).is_disabled(),
            took_failure(*old(self), *final(self), f),
    {
        if self.log_failure.is_some() {
            let mut taken: Option<String> = None;
            std::mem::swap(&mut taken, &mut self.log_failure);
            return taken;
        }
        let mut taken: Option<String> = None;
        std::mem::swap(&mut taken, &mut self.failure);
        taken
    }
}

/// What taking a failure does: a stashed `log` failure comes first, else
/// the `run.json` failure; the one taken is cleared.
pub open spec fn took_failure(before: RunRecord, after: RunRecord, f: Option<String>) -> bool {
    match before.log_write_failure() {
        Some(l) => f == Some(l) && after.log_write_failure().is_none() && after.write_failure()
            == before.write_failure(),
        None => f == before.write_failure() && after.write_failure().is_none()
            && after.log_write_failure().is_none(),
    }
}

/// Each stashed failure is reported once: with no new failure in between,
/// successive takes give the `log` failure (if any), then the `run.json`
/// failure (if any), then nothing.
pub proof fn failures_are_taken_once(
    r0: RunRecord,
    r1: RunRecord,
    r2: RunRecord,
    r3: RunRecord,
    f1: Option<String>,
    f2: Option<String>,
    f3: Option<String>,
)
    requires
        took_failure(r0, r1, f1),
        took_failure(r1, r2, f2),
        took_failure(r2, r3, f3),
    ensures
        r0.log_write_failure().is_some() ==> f1 == r0.log_write_failure() && f2 == r0.write_failure(),
        r0.log_write_failure().is_none() ==> f1 == r0.write_failure() && f2.is_none(),
        f3.is_none(),
        r3.write_failure().is_none() && r3.log_write_failure().is_none(),
{
}

/// Asks are numbered 1, 2, … in issue order in every live record.
pub proof fn asks_numbered_in_issue_order(r: &RunRecord)
    requires
        r.wf(),
    ensures
        asks_ordinaled(r.model().asks@),
{
}

/// The write-failure slot of the record's `log` writer: the first failure
/// of a write or flush is kept (rendering discards write errors, so the
/// slot is how a `log` that went unwritable reaches the single warning).
pub struct LogWriter {
    failure: Option<String>,
}

impl LogWriter {
    /// The stashed failure.
    pub closed spec fn stashed(&self) -> Option<String> {
        self.failure
    }

    /// A writer with nothing stashed.
    pub fn new() -> (w: LogWriter)
        ensures
            w.stashed().is_none(),
    {
        LogWriter { failure: None }
    }

    /// Stash a failure unless one is already stashed.
    pub fn record(&mut self, error: String)
        ensures
            final(self).stashed() == if old(self).stashed().is_some() {
                old(self).stashed()
            } else {
                Some(error)
            },
    {
        if self.failure.is_none() {
            self.failure = Some(error);
        }
    }

    /// Pass a write or flush outcome through, stashing its error.
    pub fn observe<T>(&mut self, outcome: Result<T, String>) -> (r: Result<T, String>)
        ensures
            r == outcome,
            final(self).stashed() == match outcome {
                Ok(_) => old(self).stashed(),
                Err(e) => if old(self).stashed().is_some() {
                    old(self).stashed()
                } else {
                    Some(e)
                },
            },
    {
        match outcome {
            Ok(v) => Ok(v),
            Err(e) => {
                self.record(e.clone());
                Err(e)
            },
        }
    }

    /// The stashed failure, taken.
    pub fn take(&mut self) -> (f: Option<String>)
        ensures
            f == old(self).stashed(),
            final(self).stashed().is_none(),
    {
        let mut taken: Option<String> = None;
        std::mem::swap(&mut taken, &mut self.failure);
        taken
    }
}

} // verus!
