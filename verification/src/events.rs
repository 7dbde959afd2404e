//! Session events: the structured facts the scripting runtime emits and
//! every sink (terminal renderer, run record) consumes.

use vstd::prelude::*;

verus! {

/// How a human resolved an ask.
#[derive(Debug, Clone, Copy, PartialEq, Eq, Structural)]
pub enum AskAction {
    Respond,
    Abort,
}

/// Text of an ask action as rendered and recorded.
pub open spec fn action_text(action: AskAction) -> Seq<char> {
    match action {
        AskAction::Respond => "respond"@,
        AskAction::Abort => "abort"@,
    }
}

impl AskAction {
    /// `respond` or `abort`.
    pub fn as_str(&self) -> (s: &'static str)
        ensures
            s@ == action_text(*self),
    {
        proof {
            reveal_strlit("respond");
            reveal_strlit("abort");
        }
        match self {
            AskAction::Respond => "respond",
            AskAction::Abort => "abort",
        }
    }
}

/// Status of one plan entry.
#[derive(Debug, Clone, Copy, PartialEq, Eq, Structural)]
pub enum PlanStatus {
    Pending,
    InProgress,
    Completed,
    Other,
}

/// One entry of an agent's plan.
#[derive(Debug, Clone)]
pub struct PlanEntry {
    pub status: PlanStatus,
    pub content: String,
}

/// A structured session event.
#[derive(Debug, Clone)]
pub enum SessionEvent {
    /// A prompt was sent.
    Prompt { text: String },
    /// A chunk of agent message text.
    TextDelta { delta: String },
    /// One fully formatted tool line body.
    ToolLine { body: String },
    /// The agent's plan.
    Plan { entries: Vec<PlanEntry> },
    /// Context-window usage.
    Usage { used: u64, size: u64 },
    /// One line of agent stderr.
    StderrLine { line: String },
    /// A runtime lifecycle diagnostic.
    Lifecycle { message: String },
    /// A session became ready.
    SessionReady {
        label: String,
        agent: String,
        command: String,
        args: Vec<String>,
        env_keys: Vec<String>,
        acp_id: String,
    },
    /// A `ptah.exec` started.
    ExecStart { command: String },
    /// A `ptah.exec` ended.
    ExecEnd { command: String, exit_code: Option<i32>, timed_out: bool, duration_ms: u64 },
    /// A typed-result verdict; `late` when no turn was in flight.
    ResultVerdict { late: bool },
    /// An ask was issued.
    AskRequested { prompt: String, details: Option<String> },
    /// An ask was resolved.
    AskResolved { action: AskAction, text: Option<String> },
    /// A turn ended.
    TurnEnd,
}

} // verus!
