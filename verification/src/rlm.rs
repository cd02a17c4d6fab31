//! The RLM engine: its configuration, the messages it sends to the model,
//! and the decisions of its run loop as a state machine.
//!
//! A run alternates between asking the model for a script, executing that
//! script, and (when the notebook grows too large) asking the model for a
//! summary of the notebook. The waiting and executing happen outside this
//! library; here, [`Rlm::start`] and [`Rlm::step`] take what came back and
//! say what to do next.

use vstd::prelude::*;

use crate::error::{RlmError, RlmErrorView};
use crate::protocol::{
    history, lemma_history_shows_every_cell, notebook_tokens, occurs_in, render_cell, spec_truncate_output, truncate_output, CellView, Notebook,
    StepResult, StepResultView, TruncationPolicy, TruncationStrategy,
};
use crate::text::{
    chars_of, decimal, push_decimal, starts_with, string_of, sub_chars, trim, trim_chars,
    trim_end_matches, trim_end_matches_chars,
};

verus! {

/// The system prompt of every script request.
pub const SYSTEM_PROMPT: &'static str = r#"You are an RLM (Recursive Language Model) agent. You never see the
full context directly. Instead, you write Rhai scripts that interact with the context via
registered functions, and the results are returned to you as cell outputs.

Available Rhai functions:
- ctx_len() -> int           — byte length of the full context
- ctx_slice(start, end) -> String  — byte-range slice of context
- ctx_grep(pattern) -> String      — regex search; returns matching lines
- print_cell(msg)            — append a message to this cell's output log
- done(answer)               — signal that you have the final answer; exits the loop

Rules:
- Write ONE Rhai script per response. No prose before or after the script.
- To exit, call done("your answer here") in the script.
- If a script errors, you will see the error as cell output — self-correct and try again.
- You may call rlm_call(query, ctx_fragment) to recursively process a sub-context.
"#;

/// The system prompt of the notebook-compaction summarization request.
pub const COMPACT_PROMPT: &'static str = r#"You are compacting the execution history of an RLM (Recursive Language Model) run.
The user message contains the full notebook so far: numbered cells of Rhai scripts
and their outputs.

Produce a concise summary that preserves everything a continuation of the run needs:

- Facts discovered about the context so far (values, matching lines, byte offsets,
  section locations).
- Approaches already tried, and which ones failed or dead-ended (so they are not
  repeated).
- Any partial answer under construction.

Rules:

- Reply with the summary only — no preamble, no code fences, no commentary.
- Keep it tight; this summary replaces the entire history, so include nothing that
  a continuation would not act on.
"#;

/// The closing user message of every script request after the first.
pub const CONTINUE_PROMPT: &'static str = "Continue. Write the next Rhai script or call done() if you have the answer.";

/// The script of the synthetic cell that replaces a compacted notebook.
pub const COMPACTED_SCRIPT: &'static str = "// [notebook compacted]";

/// Default compaction trigger: 80% of a 128k-token context window, the
/// smallest window among the providers mlrs targets.
pub const DEFAULT_COMPACTION_THRESHOLD: usize = 102400;

// ---------------------------------------------------------------------------
// Messages
// ---------------------------------------------------------------------------

/// Who speaks a message.
#[derive(Debug, Clone, Copy, PartialEq, Eq, Structural)]
pub enum Role {
    System,
    User,
    Assistant,
}

/// The lowercase name of a role.
pub open spec fn role_name(r: Role) -> Seq<char> {
    match r {
        Role::System => "system"@,
        Role::User => "user"@,
        Role::Assistant => "assistant"@,
    }
}

impl Role {
    /// The lowercase name of the role, as it is displayed.
    pub fn as_str(&self) -> (s: &'static str)
        ensures
            s@ == role_name(*self),
    {
        match self {
            Role::System => "system",
            Role::User => "user",
            Role::Assistant => "assistant",
        }
    }
}

/// One message of a conversation with the model.
#[derive(Debug, Clone)]
pub struct Message {
    pub role: Role,
    pub content: String,
}

/// A message with its content taken by view.
pub struct MessageView {
    pub role: Role,
    pub content: Seq<char>,
}

impl View for Message {
    type V = MessageView;

    open spec fn view(&self) -> MessageView {
        MessageView { role: self.role, content: self.content@ }
    }
}

/// The views of a sequence of messages.
pub open spec fn messages_view(msgs: Seq<Message>) -> Seq<MessageView> {
    msgs.map_values(|m: Message| m@)
}

/// Shorthand for a message view.
pub open spec fn msg(role: Role, content: Seq<char>) -> MessageView {
    MessageView { role, content }
}

/// The replayed notebook: for each cell, its script as the assistant's turn
/// and its output as the user's.
pub open spec fn cell_turns(cells: Seq<CellView>) -> Seq<MessageView>
    decreases cells.len(),
{
    if cells.len() == 0 {
        Seq::empty()
    } else {
        cell_turns(cells.drop_last()) + seq![
            msg(Role::Assistant, cells.last().script),
            msg(Role::User, cells.last().output),
        ]
    }
}

/// The messages of a script request for `query` after the cells `cells`.
pub open spec fn spec_messages(query: Seq<char>, cells: Seq<CellView>) -> Seq<MessageView> {
    let head = seq![msg(Role::System, SYSTEM_PROMPT@), msg(Role::User, "Query: "@ + query)];
    if cells.len() == 0 {
        head
    } else {
        head + cell_turns(cells) + seq![msg(Role::User, CONTINUE_PROMPT@)]
    }
}

/// The messages of the request that summarizes the cells `cells`.
pub open spec fn compaction_messages(cells: Seq<CellView>) -> Seq<MessageView> {
    seq![msg(Role::System, COMPACT_PROMPT@), msg(Role::User, history(cells))]
}

/// The cell that replaces `dropped` cells once the model has summarized them.
pub open spec fn summary_cell(dropped: nat, summary: Seq<char>) -> CellView {
    CellView {
        script: COMPACTED_SCRIPT@,
        output: "[Summary of "@ + decimal(dropped) + " earlier cells]\n"@ + summary,
    }
}

/// What is left of a model reply once code fences and surrounding whitespace are removed.
pub open spec fn spec_extract_script(raw: Seq<char>) -> Seq<char> {
    let t = trim(raw);
    if "```rhai"@.is_prefix_of(t) {
        trim(trim_end_matches(t.skip("```rhai"@.len() as int), "```"@))
    } else if "```"@.is_prefix_of(t) {
        trim(trim_end_matches(t.skip("```"@.len() as int), "```"@))
    } else {
        t
    }
}

/// Strip markdown code fences if the model wraps the script.
pub fn extract_script(raw: &str) -> (script: String)
    ensures
        script@ == spec_extract_script(raw@),
{
    let chars = chars_of(raw);
    let trimmed = trim_chars(&chars);
    let fence = chars_of("```");
    let rhai_fence = chars_of("```rhai");
    if starts_with(&trimmed, &rhai_fence) {
        let inner = sub_chars(&trimmed, rhai_fence.len(), trimmed.len());
        let inner = trim_end_matches_chars(&inner, &fence);
        let inner = trim_chars(&inner);
        string_of(&inner)
    } else if starts_with(&trimmed, &fence) {
        let inner = sub_chars(&trimmed, fence.len(), trimmed.len());
        let inner = trim_end_matches_chars(&inner, &fence);
        let inner = trim_chars(&inner);
        string_of(&inner)
    } else {
        string_of(&trimmed)
    }
}

// ---------------------------------------------------------------------------
// Engine configuration
// ---------------------------------------------------------------------------

/// Core RLM engine: its limits and policies, and the provider that answers
/// its requests.
pub struct Rlm<P> {
    /// Answers the engine's requests.
    pub provider: P,
    pub depth: usize,
    pub max_depth: usize,
    pub max_iterations: usize,
    pub max_retries_per_cell: usize,
    pub verbose: bool,
    pub truncation: TruncationPolicy,
    /// Estimated-token threshold above which the notebook is summarized
    /// into a single synthetic cell before the next iteration.
    pub compaction_threshold: usize,
}

impl<P> Rlm<P> {
    /// An engine with the default limits: depth 0 of at most 5, 20 iterations,
    /// 3 retries after script errors, the default truncation policy, and the
    /// default compaction threshold.
    pub fn new(provider: P) -> (r: Self)
        ensures
            r.provider == provider,
            r.depth == 0,
            r.max_depth == 5,
            r.max_iterations == 20,
            r.max_retries_per_cell == 3,
            !r.verbose,
            r.truncation.max_bytes == 8192,
            r.truncation.strategy == TruncationStrategy::TailDrop,
            r.compaction_threshold == DEFAULT_COMPACTION_THRESHOLD,
    {
        Rlm {
            provider,
            depth: 0,
            max_depth: 5,
            max_iterations: 20,
            max_retries_per_cell: 3,
            verbose: false,
            truncation: TruncationPolicy::default(),
            compaction_threshold: DEFAULT_COMPACTION_THRESHOLD,
        }
    }

    /// The engine with its depth set to `depth`.
    pub fn with_depth(self, depth: usize) -> (r: Self)
        ensures
            r.provider == self.provider,
            r.depth == depth,
            r.max_depth == self.max_depth,
            r.max_iterations == self.max_iterations,
            r.max_retries_per_cell == self.max_retries_per_cell,
            r.verbose == self.verbose,
            r.truncation == self.truncation,
            r.compaction_threshold == self.compaction_threshold,
    {
        Rlm { depth, ..self }
    }

    /// The engine with its maximum depth set to `max_depth`.
    pub fn with_max_depth(self, max_depth: usize) -> (r: Self)
        ensures
            r.provider == self.provider,
            r.depth == self.depth,
            r.max_depth == max_depth,
            r.max_iterations == self.max_iterations,
            r.max_retries_per_cell == self.max_retries_per_cell,
            r.verbose == self.verbose,
            r.truncation == self.truncation,
            r.compaction_threshold == self.compaction_threshold,
    {
        Rlm { max_depth, ..self }
    }

    /// The engine with its verbosity set to `verbose`.
    pub fn with_verbose(self, verbose: bool) -> (r: Self)
        ensures
            r.provider == self.provider,
            r.depth == self.depth,
            r.max_depth == self.max_depth,
            r.max_iterations == self.max_iterations,
            r.max_retries_per_cell == self.max_retries_per_cell,
            r.verbose == verbose,
            r.truncation == self.truncation,
            r.compaction_threshold == self.compaction_threshold,
    {
        Rlm { verbose, ..self }
    }

    /// The engine with its truncation policy set to `policy`.
    pub fn with_truncation_policy(self, policy: TruncationPolicy) -> (r: Self)
        ensures
            r.provider == self.provider,
            r.depth == self.depth,
            r.max_depth == self.max_depth,
            r.max_iterations == self.max_iterations,
            r.max_retries_per_cell == self.max_retries_per_cell,
            r.verbose == self.verbose,
            r.truncation == policy,
            r.compaction_threshold == self.compaction_threshold,
    {
        Rlm { truncation: policy, ..self }
    }

    /// Set the estimated-token threshold that triggers notebook compaction.
    pub fn with_compaction_threshold(self, threshold: usize) -> (r: Self)
        ensures
            r.provider == self.provider,
            r.depth == self.depth,
            r.max_depth == self.max_depth,
            r.max_iterations == self.max_iterations,
            r.max_retries_per_cell == self.max_retries_per_cell,
            r.verbose == self.verbose,
            r.truncation == self.truncation,
            r.compaction_threshold == threshold,
    {
        Rlm { compaction_threshold: threshold, ..self }
    }

    /// The messages of a script request: the system prompt, the query, the
    /// notebook replayed as assistant/user turns, and a closing prompt once
    /// there is at least one cell.
    pub fn build_messages(&self, query: &str, notebook: &Notebook) -> (msgs: Vec<Message>)
        ensures
            messages_view(msgs@) == spec_messages(query@, notebook@),
    {
        let mut content = String::from_str("Query: ");
        content.append(query);
        let mut msgs: Vec<Message> = Vec::new();
        msgs.push(Message { role: Role::System, content: String::from_str(SYSTEM_PROMPT) });
        msgs.push(Message { role: Role::User, content });
        let ghost head = messages_view(msgs@);
        assert(head =~= seq![msg(Role::System, SYSTEM_PROMPT@), msg(Role::User, "Query: "@ + query@)]);
        let mut i: usize = 0;
        while i < notebook.cells.len()
            invariant
                i <= notebook.cells.len(),
                messages_view(msgs@) == head + cell_turns(notebook@.take(i as int)),
            decreases notebook.cells.len() - i,
        {
            let ghost before = msgs@;
            let cell = &notebook.cells[i];
            msgs.push(Message { role: Role::Assistant, content: cell.script.clone() });
            msgs.push(Message { role: Role::User, content: cell.output.clone() });
            proof {
                let t = notebook@.take(i + 1);
                assert(t.drop_last() =~= notebook@.take(i as int));
                assert(t.last() == notebook@[i as int]);
                assert(messages_view(msgs@) =~= messages_view(before) + seq![
                    msg(Role::Assistant, t.last().script),
                    msg(Role::User, t.last().output),
                ]);
                assert(messages_view(msgs@) =~= head + cell_turns(t));
            }
            i = i + 1;
        }
        assert(notebook@.take(i as int) =~= notebook@);
        if notebook.cells.len() > 0 {
            let ghost before = msgs@;
            msgs.push(Message { role: Role::User, content: String::from_str(CONTINUE_PROMPT) });
            assert(messages_view(msgs@) =~= messages_view(before) + seq![
                msg(Role::User, CONTINUE_PROMPT@),
            ]);
        }
        assert(messages_view(msgs@) =~= spec_messages(query@, notebook@));
        msgs
    }
}


// ---------------------------------------------------------------------------
// The run loop as a state machine
// ---------------------------------------------------------------------------

/// What a run is waiting for.
pub enum Phase {
    /// Nothing yet: the run is at the top of its loop.
    Ready,
    /// The provider's reply to a script request.
    AwaitingScript,
    /// The provider's summary of the notebook.
    AwaitingSummary,
    /// The outcome of executing this script.
    Executing(String),
    /// Nothing: the run is over.
    Finished,
}

/// A phase with its script taken by view.
pub enum PhaseView {
    Ready,
    AwaitingScript,
    AwaitingSummary,
    Executing(Seq<char>),
    Finished,
}

impl View for Phase {
    type V = PhaseView;

    open spec fn view(&self) -> PhaseView {
        match self {
            Phase::Ready => PhaseView::Ready,
            Phase::AwaitingScript => PhaseView::AwaitingScript,
            Phase::AwaitingSummary => PhaseView::AwaitingSummary,
            Phase::Executing(s) => PhaseView::Executing(s@),
            Phase::Finished => PhaseView::Finished,
        }
    }
}

/// The state of one run between two outside calls.
pub struct RunState {
    query: String,
    notebook: Notebook,
    iterations: usize,
    consecutive_errors: usize,
    phase: Phase,
}

/// The state of a run as the contracts see it.
pub struct RunView {
    pub query: Seq<char>,
    pub cells: Seq<CellView>,
    /// Script requests issued so far.
    pub iterations: nat,
    /// Script errors in a row, up to the latest executed script.
    pub consecutive_errors: nat,
    pub phase: PhaseView,
}

impl View for RunState {
    type V = RunView;

    closed spec fn view(&self) -> RunView {
        RunView {
            query: self.query@,
            cells: self.notebook@,
            iterations: self.iterations as nat,
            consecutive_errors: self.consecutive_errors as nat,
            phase: self.phase@,
        }
    }
}

/// Errors in a row never outnumber the scripts requested: counting the one
/// requested or being executed, each of them took an iteration.
pub open spec fn counters_wf(s: RunView) -> bool {
    s.consecutive_errors + (if s.phase is Executing || s.phase is AwaitingScript {
        1int
    } else {
        0int
    }) <= s.iterations
}

impl RunState {
    #[verifier::type_invariant]
    closed spec fn counters_ok(self) -> bool {
        counters_wf(self@)
    }

    /// The notebook of the run so far.
    pub fn notebook(&self) -> (nb: &Notebook)
        ensures
            nb@ == self@.cells,
    {
        &self.notebook
    }

    /// The number of script requests issued so far.
    pub fn iterations(&self) -> (n: usize)
        ensures
            n == self@.iterations,
    {
        self.iterations
    }

    /// The number of script errors in a row so far.
    pub fn consecutive_errors(&self) -> (n: usize)
        ensures
            n == self@.consecutive_errors,
    {
        self.consecutive_errors
    }

    /// What the run is waiting for.
    pub fn phase(&self) -> (p: &Phase)
        ensures
            p@ == self@.phase,
    {
        &self.phase
    }

    /// Whether `event` is an answer to what the run is waiting for.
    pub fn accepts(&self, event: &Event) -> (b: bool)
        ensures
            b == accepts(self@.phase, event@),
    {
        match (&self.phase, event) {
            (Phase::AwaitingScript, Event::Reply(_)) => true,
            (Phase::AwaitingScript, Event::ProviderFailed(_)) => true,
            (Phase::AwaitingScript, Event::Cancelled) => true,
            (Phase::AwaitingSummary, Event::Reply(_)) => true,
            (Phase::AwaitingSummary, Event::ProviderFailed(_)) => true,
            (Phase::AwaitingSummary, Event::Cancelled) => true,
            (Phase::Executing(_), Event::Executed(_)) => true,
            (Phase::Executing(_), Event::ScriptFailed(_)) => true,
            _ => false,
        }
    }
}

/// What came back from the outside call that the last action asked for.
pub enum Event {
    /// The provider replied with this text.
    Reply(String),
    /// The provider call failed with this message.
    ProviderFailed(String),
    /// The run was cancelled while the provider call was in flight.
    Cancelled,
    /// The script ran with this result.
    Executed(StepResult),
    /// The script could not be run; holds the message.
    ScriptFailed(String),
}

/// An event with its text taken by view.
pub enum EventView {
    Reply(Seq<char>),
    ProviderFailed(Seq<char>),
    Cancelled,
    Executed(StepResultView),
    ScriptFailed(Seq<char>),
}

impl View for Event {
    type V = EventView;

    open spec fn view(&self) -> EventView {
        match self {
            Event::Reply(r) => EventView::Reply(r@),
            Event::ProviderFailed(m) => EventView::ProviderFailed(m@),
            Event::Cancelled => EventView::Cancelled,
            Event::Executed(r) => EventView::Executed(r@),
            Event::ScriptFailed(m) => EventView::ScriptFailed(m@),
        }
    }
}

/// What to do next.
pub enum Action {
    /// Ask the provider for the next script with these messages.
    RequestScript(Vec<Message>),
    /// Ask the provider to summarize the notebook, whose `cells` cells are
    /// estimated at `estimate` tokens (capped at `usize::MAX`).
    RequestSummary { messages: Vec<Message>, cells: usize, estimate: usize },
    /// Execute this script against the context.
    Execute(String),
    /// The run is over with this result.
    Finish(Result<String, RlmError>),
}

/// An action with its text taken by view.
pub enum ActionView {
    RequestScript(Seq<MessageView>),
    RequestSummary { messages: Seq<MessageView>, cells: nat, estimate: nat },
    Execute(Seq<char>),
    Finish(Result<Seq<char>, RlmErrorView>),
}

impl View for Action {
    type V = ActionView;

    open spec fn view(&self) -> ActionView {
        match self {
            Action::RequestScript(m) => ActionView::RequestScript(messages_view(m@)),
            Action::RequestSummary { messages, cells, estimate } => ActionView::RequestSummary {
                messages: messages_view(messages@),
                cells: *cells as nat,
                estimate: *estimate as nat,
            },
            Action::Execute(s) => ActionView::Execute(s@),
            Action::Finish(Ok(a)) => ActionView::Finish(Ok(a@)),
            Action::Finish(Err(e)) => ActionView::Finish(Err(e@)),
        }
    }
}

/// Whether a run in `phase` can take `event`.
pub open spec fn accepts(phase: PhaseView, event: EventView) -> bool {
    match phase {
        PhaseView::AwaitingScript | PhaseView::AwaitingSummary => event is Reply || event
            is ProviderFailed || event is Cancelled,
        PhaseView::Executing(_) => event is Executed || event is ScriptFailed,
        PhaseView::Ready | PhaseView::Finished => false,
    }
}

/// `n`, or `usize::MAX` where `n` does not fit.
pub open spec fn capped(n: nat) -> nat {
    if n <= usize::MAX {
        n
    } else {
        usize::MAX as nat
    }
}

/// Whether a cell output reports a script error.
pub open spec fn is_script_error(output: Seq<char>) -> bool {
    "script error:"@.is_prefix_of(output)
}

/// The run ends with `result`.
pub open spec fn spec_finish(s: RunView, result: Result<Seq<char>, RlmErrorView>) -> (
    RunView,
    ActionView,
) {
    (RunView { phase: PhaseView::Finished, ..s }, ActionView::Finish(result))
}

/// The next script request, or the end of the run once the iteration budget is spent.
pub open spec fn spec_next_turn<P>(rlm: Rlm<P>, s: RunView) -> (RunView, ActionView) {
    if s.iterations >= rlm.max_iterations {
        spec_finish(s, Err(RlmErrorView::MaxIterationsExceeded(rlm.max_iterations)))
    } else {
        (
            RunView { iterations: s.iterations + 1, phase: PhaseView::AwaitingScript, ..s },
            ActionView::RequestScript(spec_messages(s.query, s.cells)),
        )
    }
}

/// The top of the loop: stop when cancelled, compact a notebook of two or
/// more cells whose estimate is above the threshold, else the next turn.
pub open spec fn spec_loop_top<P>(rlm: Rlm<P>, s: RunView, cancelled: bool) -> (
    RunView,
    ActionView,
) {
    if cancelled {
        spec_finish(s, Err(RlmErrorView::Cancelled))
    } else if s.cells.len() >= 2 && notebook_tokens(s.cells) > rlm.compaction_threshold {
        (
            RunView { phase: PhaseView::AwaitingSummary, ..s },
            ActionView::RequestSummary {
                messages: compaction_messages(s.cells),
                cells: s.cells.len(),
                estimate: capped(notebook_tokens(s.cells)),
            },
        )
    } else {
        spec_next_turn(rlm, s)
    }
}

/// The first decision of a run for `query`.
pub open spec fn spec_start<P>(rlm: Rlm<P>, query: Seq<char>, cancelled: bool) -> (
    RunView,
    ActionView,
) {
    let s = RunView {
        query,
        cells: Seq::empty(),
        iterations: 0,
        consecutive_errors: 0,
        phase: PhaseView::Ready,
    };
    if rlm.depth >= rlm.max_depth {
        spec_finish(s, Err(RlmErrorView::MaxDepthExceeded(rlm.depth)))
    } else {
        spec_loop_top(rlm, s, cancelled)
    }
}

/// The decision that follows `event`; `cancelled` is whether the run has
/// been cancelled by the time a script has finished.
pub open spec fn spec_step<P>(rlm: Rlm<P>, s: RunView, event: EventView, cancelled: bool) -> (
    RunView,
    ActionView,
) {
    match s.phase {
        PhaseView::AwaitingSummary => match event {
            EventView::Reply(summary) => spec_next_turn(
                rlm,
                RunView { cells: seq![summary_cell(s.cells.len(), summary)], ..s },
            ),
            EventView::ProviderFailed(m) => spec_finish(s, Err(RlmErrorView::ProviderError(m))),
            _ => spec_finish(s, Err(RlmErrorView::Cancelled)),
        },
        PhaseView::AwaitingScript => match event {
            EventView::Reply(raw) => {
                let script = spec_extract_script(raw);
                (RunView { phase: PhaseView::Executing(script), ..s }, ActionView::Execute(script))
            },
            EventView::ProviderFailed(m) => spec_finish(s, Err(RlmErrorView::ProviderError(m))),
            _ => spec_finish(s, Err(RlmErrorView::Cancelled)),
        },
        PhaseView::Executing(script) => match event {
            EventView::Executed(StepResultView::Final(answer)) => spec_finish(s, Ok(answer)),
            EventView::Executed(StepResultView::Continue(output)) => {
                let cell = CellView {
                    script,
                    output: spec_truncate_output(output, rlm.truncation),
                };
                if is_script_error(output) {
                    if s.consecutive_errors + 1 > rlm.max_retries_per_cell {
                        spec_finish(
                            s,
                            Err(RlmErrorView::MaxRetriesExceeded(rlm.max_retries_per_cell)),
                        )
                    } else {
                        spec_loop_top(
                            rlm,
                            RunView {
                                consecutive_errors: s.consecutive_errors + 1,
                                cells: s.cells.push(cell),
                                phase: PhaseView::Ready,
                                ..s
                            },
                            cancelled,
                        )
                    }
                } else {
                    spec_loop_top(
                        rlm,
                        RunView {
                            consecutive_errors: 0,
                            cells: s.cells.push(cell),
                            phase: PhaseView::Ready,
                            ..s
                        },
                        cancelled,
                    )
                }
            },
            EventView::ScriptFailed(m) => spec_finish(s, Err(RlmErrorView::ScriptError(m))),
            _ => spec_finish(s, Err(RlmErrorView::Cancelled)),
        },
        PhaseView::Ready | PhaseView::Finished => (
            s,
            ActionView::Finish(Err(RlmErrorView::Cancelled)),
        ),
    }
}

/// Whether `output` reports a script error.
pub fn output_is_script_error(output: &String) -> (b: bool)
    ensures
        b == is_script_error(output@),
{
    let chars = chars_of(output.as_str());
    let prefix = chars_of("script error:");
    starts_with(&chars, &prefix)
}

/// The cell that replaces `dropped` cells, holding the model's summary.
fn summary_cell_of(dropped: usize, summary: &str) -> (out: String)
    ensures
        out@ == summary_cell(dropped as nat, summary@).output,
{
    let mut out = String::from_str("[Summary of ");
    push_decimal(&mut out, dropped);
    out.append(" earlier cells]\n");
    out.append(summary);
    out
}

impl<P> Rlm<P> {
    /// The run ends with `result`.
    fn finish(state: RunState, result: Result<String, RlmError>) -> (res: (RunState, Action))
        ensures
            (res.0@, res.1@) == spec_finish(
                state@,
                match result {
                    Ok(a) => Ok(a@),
                    Err(e) => Err(e@),
                },
            ),
    {
        proof {
            use_type_invariant(&state);
        }
        let next = RunState { phase: Phase::Finished, ..state };
        (next, Action::Finish(result))
    }

    /// The next script request, or the end of the run once the iteration budget is spent.
    fn next_turn(&self, state: RunState) -> (res: (RunState, Action))
        requires
            !(state@.phase is Executing),
        ensures
            (res.0@, res.1@) == spec_next_turn(*self, state@),
    {
        proof {
            use_type_invariant(&state);
        }
        if state.iterations >= self.max_iterations {
            return Self::finish(state, Err(RlmError::MaxIterationsExceeded(self.max_iterations)));
        }
        let messages = self.build_messages(state.query.as_str(), &state.notebook);
        let next = RunState {
            iterations: state.iterations + 1,
            phase: Phase::AwaitingScript,
            ..state
        };
        (next, Action::RequestScript(messages))
    }

    /// The top of the loop.
    fn loop_top(&self, state: RunState, cancelled: bool) -> (res: (RunState, Action))
        requires
            !(state@.phase is Executing),
        ensures
            (res.0@, res.1@) == spec_loop_top(*self, state@, cancelled),
    {
        proof {
            use_type_invariant(&state);
        }
        if cancelled {
            return Self::finish(state, Err(RlmError::Cancelled));
        }
        // Compact the notebook when its estimated token footprint would
        // crowd out the context window. Requires ≥2 cells so an
        // already-compacted (single-cell) notebook is never re-compacted
        // in a loop. Does not count against max_iterations.
        if state.notebook.cells.len() >= 2 && state.notebook.token_estimate_exceeds(
            self.compaction_threshold,
        ) {
            let history = state.notebook.as_history();
            let mut messages: Vec<Message> = Vec::new();
            messages.push(Message { role: Role::System, content: String::from_str(COMPACT_PROMPT) });
            messages.push(Message { role: Role::User, content: history });
            let cells = state.notebook.cells.len();
            let estimate = state.notebook.token_estimate_capped();
            assert(messages_view(messages@) =~= compaction_messages(state@.cells));
            let next = RunState { phase: Phase::AwaitingSummary, ..state };
            return (next, Action::RequestSummary { messages, cells, estimate });
        }
        self.next_turn(state)
    }

    /// The first decision of a run for `query`: the depth check, then the top
    /// of the loop with an empty notebook. `cancelled` is whether the run is
    /// already cancelled.
    pub fn start(&self, query: &str, cancelled: bool) -> (res: (RunState, Action))
        ensures
            (res.0@, res.1@) == spec_start(*self, query@, cancelled),
    {
        let state = RunState {
            query: String::from_str(query),
            notebook: Notebook::default(),
            iterations: 0,
            consecutive_errors: 0,
            phase: Phase::Ready,
        };
        if self.depth >= self.max_depth {
            return Self::finish(state, Err(RlmError::MaxDepthExceeded(self.depth)));
        }
        self.loop_top(state, cancelled)
    }

    /// The decision that follows `event`, the outcome of the last action.
    /// `cancelled` is whether the run has been cancelled by now; it is read
    /// only after a script has run, at the top of the loop.
    pub fn step(&self, state: RunState, event: Event, cancelled: bool) -> (res: (RunState, Action))
        requires
            accepts(state@.phase, event@),
        ensures
            (res.0@, res.1@) == spec_step(*self, state@, event@, cancelled),
    {
        proof {
            use_type_invariant(&state);
        }
        let RunState { query, mut notebook, iterations, consecutive_errors, phase } = state;
        match phase {
            Phase::AwaitingSummary => {
                let back = RunState {
                    query,
                    notebook,
                    iterations,
                    consecutive_errors,
                    phase: Phase::AwaitingSummary,
                };
                match event {
                    Event::Reply(summary) => {
                        let dropped = back.notebook.cells.len();
                        let output = summary_cell_of(dropped, summary.as_str());
                        let mut compacted = Notebook::default();
                        compacted.push(String::from_str(COMPACTED_SCRIPT), output);
                        let ghost cells = compacted@;
                        assert(cells =~= seq![summary_cell(dropped as nat, summary@)]);
                        let next = RunState { notebook: compacted, ..back };
                        self.next_turn(next)
                    },
                    Event::ProviderFailed(m) => Self::finish(back, Err(RlmError::ProviderError(m))),
                    _ => Self::finish(back, Err(RlmError::Cancelled)),
                }
            },
            Phase::AwaitingScript => {
                let back = RunState {
                    query,
                    notebook,
                    iterations,
                    consecutive_errors,
                    phase: Phase::AwaitingScript,
                };
                match event {
                    Event::Reply(raw) => {
                        let script = extract_script(raw.as_str());
                        let action_script = script.clone();
                        let next = RunState { phase: Phase::Executing(script), ..back };
                        (next, Action::Execute(action_script))
                    },
                    Event::ProviderFailed(m) => Self::finish(back, Err(RlmError::ProviderError(m))),
                    _ => Self::finish(back, Err(RlmError::Cancelled)),
                }
            },
            Phase::Executing(script) => {
                match event {
                    Event::Executed(StepResult::Final(answer)) => {
                        let back = RunState {
                            query,
                            notebook,
                            iterations,
                            consecutive_errors,
                            phase: Phase::Executing(script),
                        };
                        Self::finish(back, Ok(answer))
                    },
                    Event::Executed(StepResult::Continue(output)) => {
                        let stored = truncate_output(output.as_str(), &self.truncation);
                        if output_is_script_error(&output) {
                            if consecutive_errors + 1 > self.max_retries_per_cell {
                                let back = RunState {
                                    query,
                                    notebook,
                                    iterations,
                                    consecutive_errors,
                                    phase: Phase::Executing(script),
                                };
                                return Self::finish(
                                    back,
                                    Err(RlmError::MaxRetriesExceeded(self.max_retries_per_cell)),
                                );
                            }
                            notebook.push(script, stored);
                            let next = RunState {
                                query,
                                notebook,
                                iterations,
                                consecutive_errors: consecutive_errors + 1,
                                phase: Phase::Ready,
                            };
                            self.loop_top(next, cancelled)
                        } else {
                            notebook.push(script, stored);
                            let next = RunState {
                                query,
                                notebook,
                                iterations,
                                consecutive_errors: 0,
                                phase: Phase::Ready,
                            };
                            self.loop_top(next, cancelled)
                        }
                    },
                    Event::ScriptFailed(m) => {
                        let back = RunState {
                            query,
                            notebook,
                            iterations,
                            consecutive_errors,
                            phase: Phase::Executing(script),
                        };
                        Self::finish(back, Err(RlmError::ScriptError(m)))
                    },
                    _ => {
                        let back = RunState {
                            query,
                            notebook,
                            iterations,
                            consecutive_errors,
                            phase: Phase::Executing(script),
                        };
                        Self::finish(back, Err(RlmError::Cancelled))
                    },
                }
            },
            Phase::Ready => {
                let back = RunState {
                    query,
                    notebook,
                    iterations,
                    consecutive_errors,
                    phase: Phase::Ready,
                };
                (back, Action::Finish(Err(RlmError::Cancelled)))
            },
            Phase::Finished => {
                let back = RunState {
                    query,
                    notebook,
                    iterations,
                    consecutive_errors,
                    phase: Phase::Finished,
                };
                (back, Action::Finish(Err(RlmError::Cancelled)))
            },
        }
    }
}


// ---------------------------------------------------------------------------
// Laws of the run loop
// ---------------------------------------------------------------------------

/// What every state of a run satisfies: the iteration budget is never
/// overspent and the error streak stays within the retry budget.
pub open spec fn run_inv<P>(rlm: Rlm<P>, s: RunView) -> bool {
    &&& s.iterations <= rlm.max_iterations
    &&& s.consecutive_errors <= rlm.max_retries_per_cell
    &&& counters_wf(s)
}

/// How far a run is from its iteration limit; see `lemma_step_progress`.
pub open spec fn progress<P>(rlm: Rlm<P>, s: RunView) -> nat {
    let rank: nat = match s.phase {
        PhaseView::AwaitingScript => 2,
        PhaseView::Executing(_) => 1,
        _ => 0,
    };
    3 * (rlm.max_iterations - s.iterations) as nat + rank
}

/// Whether the notebook must be summarized before the next script request:
/// two or more cells whose estimate is above the threshold.
pub open spec fn needs_compaction<P>(rlm: Rlm<P>, cells: Seq<CellView>) -> bool {
    cells.len() >= 2 && notebook_tokens(cells) > rlm.compaction_threshold
}

/// The phase a run is in after it has asked for `a`.
pub open spec fn action_matches(phase: PhaseView, a: ActionView) -> bool {
    match a {
        ActionView::RequestScript(_) => phase is AwaitingScript,
        ActionView::RequestSummary { .. } => phase is AwaitingSummary,
        ActionView::Execute(script) => phase == PhaseView::Executing(script),
        ActionView::Finish(_) => phase is Finished,
    }
}

/// What every request says of the state it leaves the run in: a script
/// request carries the query and the notebook, which needs no compaction; a
/// summary request carries the notebook's history, which does.
pub open spec fn requests_wf<P>(rlm: Rlm<P>, n: RunView, a: ActionView) -> bool {
    &&& a matches ActionView::RequestScript(m) ==> m == spec_messages(n.query, n.cells)
        && !needs_compaction(rlm, n.cells)
    &&& a matches ActionView::RequestSummary { messages, cells, estimate } ==> messages
        == compaction_messages(n.cells) && needs_compaction(rlm, n.cells) && cells
        == n.cells.len() && estimate == capped(notebook_tokens(n.cells))
}

proof fn lemma_next_turn<P>(rlm: Rlm<P>, s: RunView)
    requires
        s.iterations <= rlm.max_iterations,
        s.consecutive_errors <= rlm.max_retries_per_cell,
        s.consecutive_errors <= s.iterations,
        !needs_compaction(rlm, s.cells),
    ensures
        ({
            let (n, a) = spec_next_turn(rlm, s);
            &&& run_inv(rlm, n)
            &&& n.cells == s.cells
            &&& n.query == s.query
            &&& n.consecutive_errors == s.consecutive_errors
            &&& action_matches(n.phase, a)
            &&& requests_wf(rlm, n, a)
            &&& n.iterations == s.iterations + (if a is RequestScript {
                1int
            } else {
                0int
            })
            &&& a is Finish ==> a == ActionView::Finish(
                Err(RlmErrorView::MaxIterationsExceeded(rlm.max_iterations)),
            ) && s.iterations >= rlm.max_iterations
            &&& a is Finish || a is RequestScript
        }),
{
}

proof fn lemma_loop_top<P>(rlm: Rlm<P>, s: RunView, cancelled: bool)
    requires
        s.iterations <= rlm.max_iterations,
        s.consecutive_errors <= rlm.max_retries_per_cell,
        s.consecutive_errors <= s.iterations,
    ensures
        ({
            let (n, a) = spec_loop_top(rlm, s, cancelled);
            &&& run_inv(rlm, n)
            &&& n.cells == s.cells
            &&& n.query == s.query
            &&& n.consecutive_errors == s.consecutive_errors
            &&& action_matches(n.phase, a)
            &&& requests_wf(rlm, n, a)
            &&& n.iterations == s.iterations + (if a is RequestScript {
                1int
            } else {
                0int
            })
            &&& cancelled ==> a == ActionView::Finish(Err(RlmErrorView::Cancelled))
            &&& !cancelled && a is Finish ==> a == ActionView::Finish(
                Err(RlmErrorView::MaxIterationsExceeded(rlm.max_iterations)),
            ) && s.iterations >= rlm.max_iterations
            &&& !cancelled ==> (a is RequestSummary <==> needs_compaction(rlm, s.cells))
            &&& !(a is Execute)
        }),
{
    if !cancelled && !needs_compaction(rlm, s.cells) {
        lemma_next_turn(rlm, s);
    }
}

/// Law: a run starts with the depth check, then the cancellation check,
/// then its first script request; an empty notebook is never compacted.
pub proof fn lemma_start<P>(rlm: Rlm<P>, query: Seq<char>, cancelled: bool)
    ensures
        ({
            let (s, a) = spec_start(rlm, query, cancelled);
            &&& run_inv(rlm, s)
            &&& s.query == query
            &&& s.cells.len() == 0
            &&& action_matches(s.phase, a)
            &&& requests_wf(rlm, s, a)
            &&& s.iterations == (if a is RequestScript {
                1int
            } else {
                0int
            })
            &&& rlm.depth >= rlm.max_depth ==> a == ActionView::Finish(
                Err(RlmErrorView::MaxDepthExceeded(rlm.depth)),
            )
            &&& rlm.depth < rlm.max_depth && cancelled ==> a == ActionView::Finish(
                Err(RlmErrorView::Cancelled),
            )
            &&& rlm.depth < rlm.max_depth && !cancelled && rlm.max_iterations > 0 ==> a
                == ActionView::RequestScript(spec_messages(query, Seq::empty())) && s.iterations
                == 1
            &&& rlm.depth < rlm.max_depth && !cancelled && rlm.max_iterations == 0 ==> a
                == ActionView::Finish(Err(RlmErrorView::MaxIterationsExceeded(0)))
            &&& !(a is RequestSummary)
            &&& !(a is Execute)
        }),
{
    let s0 = RunView {
        query,
        cells: Seq::empty(),
        iterations: 0,
        consecutive_errors: 0,
        phase: PhaseView::Ready,
    };
    lemma_loop_top(rlm, s0, cancelled);
}

/// The cell an executed script leaves in the notebook.
pub open spec fn executed_cell<P>(rlm: Rlm<P>, script: Seq<char>, output: Seq<char>) -> CellView {
    CellView { script, output: spec_truncate_output(output, rlm.truncation) }
}

/// Everything one step does, in one place: the invariant is kept; the
/// phase matches the action; requests carry what they must; a script
/// request spends one iteration and nothing else does; each step that does
/// not end the run makes progress; and how the notebook changes.
pub proof fn lemma_step_facts<P>(rlm: Rlm<P>, s: RunView, event: EventView, cancelled: bool)
    requires
        run_inv(rlm, s),
        accepts(s.phase, event),
    ensures
        ({
            let (n, a) = spec_step(rlm, s, event, cancelled);
            &&& run_inv(rlm, n)
            &&& n.query == s.query
            &&& action_matches(n.phase, a)
            &&& requests_wf(rlm, n, a)
            &&& n.iterations == s.iterations + (if a is RequestScript {
                1int
            } else {
                0int
            })
            &&& !(a is Finish) ==> progress(rlm, n) < progress(rlm, s)
            &&& event is Cancelled ==> a == ActionView::Finish(Err(RlmErrorView::Cancelled))
            &&& event matches EventView::ProviderFailed(m) ==> a == ActionView::Finish(
                Err(RlmErrorView::ProviderError(m)),
            )
            &&& event matches EventView::ScriptFailed(m) ==> a == ActionView::Finish(
                Err(RlmErrorView::ScriptError(m)),
            )
            &&& event matches EventView::Reply(raw) ==> (s.phase is AwaitingScript ==> a
                == ActionView::Execute(spec_extract_script(raw)) && n.cells == s.cells)
            &&& event matches EventView::Reply(summary) ==> (s.phase is AwaitingSummary ==> n.cells
                == seq![summary_cell(s.cells.len(), summary)] && (a is RequestScript || a
                == ActionView::Finish(
                Err(RlmErrorView::MaxIterationsExceeded(rlm.max_iterations)),
            )) && (a is Finish ==> n.iterations == rlm.max_iterations))
            &&& event matches EventView::Executed(StepResultView::Final(answer)) ==> a
                == ActionView::Finish(Ok(answer))
            &&& event matches EventView::Executed(StepResultView::Continue(output)) ==> {
                let cell = executed_cell(rlm, s.phase->Executing_0, output);
                if is_script_error(output) && s.consecutive_errors + 1
                    > rlm.max_retries_per_cell {
                    a == ActionView::Finish(
                        Err(RlmErrorView::MaxRetriesExceeded(rlm.max_retries_per_cell)),
                    )
                } else {
                    &&& n.cells == s.cells.push(cell)
                    &&& n.consecutive_errors == (if is_script_error(output) {
                        s.consecutive_errors + 1
                    } else {
                        0
                    })
                    &&& cancelled ==> a == ActionView::Finish(Err(RlmErrorView::Cancelled))
                    &&& !cancelled ==> (a is RequestSummary <==> needs_compaction(rlm, n.cells))
                    &&& !cancelled && a is Finish ==> a == ActionView::Finish(
                        Err(RlmErrorView::MaxIterationsExceeded(rlm.max_iterations)),
                    ) && n.iterations == rlm.max_iterations
                }
            }
        }),
{
    match s.phase {
        PhaseView::AwaitingSummary => {
            if let EventView::Reply(summary) = event {
                let s1 = RunView { cells: seq![summary_cell(s.cells.len(), summary)], ..s };
                lemma_next_turn(rlm, s1);
            }
        },
        PhaseView::Executing(script) => {
            if let EventView::Executed(StepResultView::Continue(output)) = event {
                let cell = executed_cell(rlm, script, output);
                if is_script_error(output) {
                    if !(s.consecutive_errors + 1 > rlm.max_retries_per_cell) {
                        lemma_loop_top(
                            rlm,
                            RunView {
                                consecutive_errors: s.consecutive_errors + 1,
                                cells: s.cells.push(cell),
                                phase: PhaseView::Ready,
                                ..s
                            },
                            cancelled,
                        );
                    }
                } else {
                    lemma_loop_top(
                        rlm,
                        RunView {
                            consecutive_errors: 0,
                            cells: s.cells.push(cell),
                            phase: PhaseView::Ready,
                            ..s
                        },
                        cancelled,
                    );
                }
            }
        },
        _ => {},
    }
}

/// Law: every step keeps the run invariant, and every step that does not end
/// the run brings it strictly closer to its iteration limit, so a run always
/// ends. A run ends exactly when the action is `Finish`, and a finished run
/// takes no further event.
pub proof fn lemma_step_progress<P>(rlm: Rlm<P>, s: RunView, event: EventView, cancelled: bool)
    requires
        run_inv(rlm, s),
        accepts(s.phase, event),
    ensures
        ({
            let (n, a) = spec_step(rlm, s, event, cancelled);
            &&& run_inv(rlm, n)
            &&& (a is Finish) == (n.phase is Finished)
            &&& !(a is Finish) ==> progress(rlm, n) < progress(rlm, s)
            &&& forall|e: EventView| !accepts(n.phase, e) || !(a is Finish)
        }),
{
    lemma_step_facts(rlm, s, event, cancelled);
}

/// Law: a script request spends exactly one iteration and a summary request
/// none (compaction does not count against `max_iterations`); a summary is
/// requested only for a notebook of at least two cells whose estimate is
/// above the threshold, so a single-cell notebook is never compacted; and a
/// script request always carries the query and the notebook as it stands.
pub proof fn lemma_requests_and_budget<P>(
    rlm: Rlm<P>,
    s: RunView,
    event: EventView,
    cancelled: bool,
)
    requires
        run_inv(rlm, s),
        accepts(s.phase, event),
    ensures
        ({
            let (n, a) = spec_step(rlm, s, event, cancelled);
            &&& a is RequestScript ==> n.iterations == s.iterations + 1 && a
                == ActionView::RequestScript(spec_messages(n.query, n.cells))
            &&& a is RequestSummary ==> n.iterations == s.iterations && n.cells.len() >= 2
                && notebook_tokens(n.cells) > rlm.compaction_threshold && a
                == (ActionView::RequestSummary {
                messages: compaction_messages(n.cells),
                cells: n.cells.len(),
                estimate: capped(notebook_tokens(n.cells)),
            })
            &&& a is Execute ==> n.iterations == s.iterations
            &&& n.query == s.query
        }),
{
    lemma_step_facts(rlm, s, event, cancelled);
}

/// The replayed notebook turn by turn: two messages per cell, in order.
proof fn lemma_cell_turns_index(cells: Seq<CellView>)
    ensures
        cell_turns(cells).len() == 2 * cells.len(),
        forall|i: int|
            0 <= i < cells.len() ==> {
                &&& cell_turns(cells)[2 * i] == msg(Role::Assistant, #[trigger] cells[i].script)
                &&& cell_turns(cells)[2 * i + 1] == msg(Role::User, cells[i].output)
            },
    decreases cells.len(),
{
    if cells.len() > 0 {
        let prev = cells.drop_last();
        lemma_cell_turns_index(prev);
        assert forall|i: int| 0 <= i < cells.len() implies {
            &&& cell_turns(cells)[2 * i] == msg(Role::Assistant, #[trigger] cells[i].script)
            &&& cell_turns(cells)[2 * i + 1] == msg(Role::User, cells[i].output)
        } by {
            if i < prev.len() {
                assert(cells[i] == prev[i]);
                assert(prev[i].script == cells[i].script);
            }
        }
    }
}

/// Law: a script request replays the notebook in notebook order. After the
/// system prompt and the query, message `2 + 2i` is the assistant's turn
/// with the script of cell `i` and message `3 + 2i` the user's turn with its
/// output, for every cell `i`; a closing prompt follows once there is a cell.
pub proof fn lemma_request_replays_in_order(query: Seq<char>, cells: Seq<CellView>)
    ensures
        ({
            let m = spec_messages(query, cells);
            let n = cells.len() as int;
            &&& m.len() == if n == 0 {
                2
            } else {
                2 * n + 3
            }
            &&& m[0] == msg(Role::System, SYSTEM_PROMPT@)
            &&& m[1] == msg(Role::User, "Query: "@ + query)
            &&& forall|i: int|
                0 <= i < n ==> {
                    &&& m[2 + 2 * i] == msg(Role::Assistant, #[trigger] cells[i].script)
                    &&& m[3 + 2 * i] == msg(Role::User, cells[i].output)
                }
            &&& n > 0 ==> m[2 * n + 2] == msg(Role::User, CONTINUE_PROMPT@)
        }),
{
    lemma_cell_turns_index(cells);
}

/// Law: a cell added to the notebook is replayed after all the cells before
/// it, as its script from the assistant and then its output from the user.
pub proof fn lemma_replay_appends_new_cell(cells: Seq<CellView>, c: CellView)
    ensures
        cell_turns(cells.push(c)) == cell_turns(cells) + seq![
            msg(Role::Assistant, c.script),
            msg(Role::User, c.output),
        ],
{
    assert(cells.push(c).drop_last() =~= cells);
}

/// Law: a summary request shows the summarizer every cell that the summary
/// will replace. Its user message is the rendered history of the notebook as
/// it stands (what `Notebook::as_history` gives), in which the rendering of
/// every cell stands, the newest one included, and it counts all the cells.
pub proof fn lemma_summary_request_shows_every_cell<P>(rlm: Rlm<P>, s: RunView, cancelled: bool)
    ensures
        spec_loop_top(rlm, s, cancelled).1 matches ActionView::RequestSummary {
            messages,
            cells,
            ..
        } ==> {
            &&& cells == s.cells.len()
            &&& messages.len() == 2
            &&& messages[0] == msg(Role::System, COMPACT_PROMPT@)
            &&& messages[1] == msg(Role::User, history(s.cells))
            &&& forall|i: int|
                0 <= i < s.cells.len() ==> occurs_in(
                    #[trigger] render_cell(i as nat, s.cells[i]),
                    messages[1].content,
                )
        },
{
    lemma_history_shows_every_cell(s.cells);
}

/// Law: the summary the model returns replaces the whole notebook with one
/// cell that names how many cells it replaces.
pub proof fn lemma_summary_replaces_notebook<P>(
    rlm: Rlm<P>,
    s: RunView,
    summary: Seq<char>,
    cancelled: bool,
)
    requires
        run_inv(rlm, s),
        s.phase is AwaitingSummary,
    ensures
        spec_step(rlm, s, EventView::Reply(summary), cancelled).0.cells == seq![
            summary_cell(s.cells.len(), summary),
        ],
{
    lemma_step_facts(rlm, s, EventView::Reply(summary), cancelled);
}

/// Law: an executed script ends the run with its answer when it called
/// `done`; otherwise its output, truncated by the policy, becomes a new cell
/// (unless the retry budget is exhausted), a clean output resets the error
/// streak and an error output extends it, and the run then stops if it was
/// cancelled meanwhile.
pub proof fn lemma_executed<P>(
    rlm: Rlm<P>,
    s: RunView,
    result: StepResultView,
    cancelled: bool,
)
    requires
        run_inv(rlm, s),
        s.phase is Executing,
    ensures
        ({
            let (n, a) = spec_step(rlm, s, EventView::Executed(result), cancelled);
            let script = s.phase->Executing_0;
            &&& result matches StepResultView::Final(answer) ==> a == ActionView::Finish(
                Ok(answer),
            ) && n.cells == s.cells
            &&& result matches StepResultView::Continue(output) ==> {
                let cell = CellView { script, output: spec_truncate_output(output, rlm.truncation) };
                if is_script_error(output) && s.consecutive_errors + 1
                    > rlm.max_retries_per_cell {
                    a == ActionView::Finish(
                        Err(RlmErrorView::MaxRetriesExceeded(rlm.max_retries_per_cell)),
                    ) && n.cells == s.cells
                } else {
                    &&& n.cells == s.cells.push(cell)
                    &&& n.consecutive_errors == (if is_script_error(output) {
                        s.consecutive_errors + 1
                    } else {
                        0
                    })
                    &&& cancelled ==> a == ActionView::Finish(Err(RlmErrorView::Cancelled))
                }
            }
        }),
{
    lemma_step_facts(rlm, s, EventView::Executed(result), cancelled);
}

/// Law: while the provider is being waited on, cancellation ends the run
/// with `Cancelled` and a provider failure ends it with that failure.
pub proof fn lemma_provider_outcomes<P>(rlm: Rlm<P>, s: RunView, message: Seq<char>, cancelled: bool)
    requires
        s.phase is AwaitingScript || s.phase is AwaitingSummary,
    ensures
        spec_step(rlm, s, EventView::Cancelled, cancelled).1 == ActionView::Finish(
            Err(RlmErrorView::Cancelled),
        ),
        spec_step(rlm, s, EventView::ProviderFailed(message), cancelled).1 == ActionView::Finish(
            Err(RlmErrorView::ProviderError(message)),
        ),
{
}

} // verus!
