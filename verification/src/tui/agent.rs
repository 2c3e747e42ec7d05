//! Messages between the interface and the agent task: what the agent reports
//! (streamed text, tool calls, status changes) and what the user asks of it.

use vstd::prelude::*;

verus! {

/// An event reported by the agent task.
#[derive(Clone, Debug)]
pub enum TuiAgentEvent {
    /// A response starts streaming.
    StreamingStarted,
    /// A chunk of response text.
    StreamingText(String),
    /// A chunk of reasoning text.
    StreamingThinking(String),
    /// The streamed response is complete.
    StreamingDone,
    /// The request failed.
    Error(String),
    /// A tool is called.
    ToolCall { name: String, args_summary: String },
    /// A tool returned.
    ToolResult { name: String, content: String, is_error: bool },
    /// The agent mode changed.
    ModeChanged(String),
    /// The model changed.
    ModelChanged(String),
    /// The token count and the context size.
    TokenUpdate { count: u64, limit: Option<u64> },
    /// The context is filling up: the percentage used (rounded), and whether
    /// it is critical.
    ContextWarning { percentage: u64, critical: bool },
    /// A message from the system.
    SystemMessage(String),
    /// A tool call awaits the user's confirmation.
    ConfirmTool { name: String, args_summary: String, needs_approval: bool, diff_preview: Option<String> },
    /// A question for the user, with suggested answers.
    Question { question: String, answers: Vec<String> },
    /// The agent's turn is over.
    Done,
}

/// An agent event with its texts as character sequences.
pub enum AgentEventView {
    StreamingStarted,
    StreamingText(Seq<char>),
    StreamingThinking(Seq<char>),
    StreamingDone,
    Error(Seq<char>),
    ToolCall(Seq<char>, Seq<char>),
    ToolResult(Seq<char>, Seq<char>, bool),
    ModeChanged(Seq<char>),
    ModelChanged(Seq<char>),
    TokenUpdate(u64, Option<u64>),
    ContextWarning(u64, bool),
    SystemMessage(Seq<char>),
    ConfirmTool(Seq<char>, Seq<char>, bool, Option<Seq<char>>),
    Question(Seq<char>, Seq<Seq<char>>),
    Done,
}

impl View for TuiAgentEvent {
    type V = AgentEventView;

    open spec fn view(&self) -> AgentEventView {
        match self {
            TuiAgentEvent::StreamingStarted => AgentEventView::StreamingStarted,
            TuiAgentEvent::StreamingText(t) => AgentEventView::StreamingText(t@),
            TuiAgentEvent::StreamingThinking(t) => AgentEventView::StreamingThinking(t@),
            TuiAgentEvent::StreamingDone => AgentEventView::StreamingDone,
            TuiAgentEvent::Error(m) => AgentEventView::Error(m@),
            TuiAgentEvent::ToolCall { name, args_summary } => AgentEventView::ToolCall(name@, args_summary@),
            TuiAgentEvent::ToolResult { name, content, is_error } => AgentEventView::ToolResult(
                name@,
                content@,
                *is_error,
            ),
            TuiAgentEvent::ModeChanged(m) => AgentEventView::ModeChanged(m@),
            TuiAgentEvent::ModelChanged(m) => AgentEventView::ModelChanged(m@),
            TuiAgentEvent::TokenUpdate { count, limit } => AgentEventView::TokenUpdate(*count, *limit),
            TuiAgentEvent::ContextWarning { percentage, critical } => AgentEventView::ContextWarning(
                *percentage,
                *critical,
            ),
            TuiAgentEvent::SystemMessage(m) => AgentEventView::SystemMessage(m@),
            TuiAgentEvent::ConfirmTool { name, args_summary, needs_approval, diff_preview } =>
                AgentEventView::ConfirmTool(
                    name@,
                    args_summary@,
                    *needs_approval,
                    match diff_preview {
                        Some(d) => Some(d@),
                        None => None,
                    },
                ),
            TuiAgentEvent::Question { question, answers } => AgentEventView::Question(
                question@,
                answers@.map_values(|a: String| a@),
            ),
            TuiAgentEvent::Done => AgentEventView::Done,
        }
    }
}

/// A request from the user to the agent task.
#[derive(Clone, Debug)]
pub enum TuiUserAction {
    /// Send a message.
    SendMessage(String),
    /// The answer to a tool confirmation.
    ConfirmResponse { approved: bool, auto_accept: bool },
    /// The answer to a question.
    QuestionAnswer(String),
    /// Interrupt the current generation.
    Interrupt,
    /// Quit.
    Quit,
}

/// A user request with its texts as character sequences.
pub enum UserActionView {
    SendMessage(Seq<char>),
    ConfirmResponse(bool, bool),
    QuestionAnswer(Seq<char>),
    Interrupt,
    Quit,
}

impl View for TuiUserAction {
    type V = UserActionView;

    open spec fn view(&self) -> UserActionView {
        match self {
            TuiUserAction::SendMessage(t) => UserActionView::SendMessage(t@),
            TuiUserAction::ConfirmResponse { approved, auto_accept } => UserActionView::ConfirmResponse(
                *approved,
                *auto_accept,
            ),
            TuiUserAction::QuestionAnswer(a) => UserActionView::QuestionAnswer(a@),
            TuiUserAction::Interrupt => UserActionView::Interrupt,
            TuiUserAction::Quit => UserActionView::Quit,
        }
    }
}

} // verus!
