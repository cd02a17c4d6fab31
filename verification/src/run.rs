//! Laws over whole runs. A run is driven by the world outside the library:
//! the provider answers requests, the script engine runs scripts, and the
//! user may cancel. `trace` follows the decisions of `Rlm::start` and
//! `Rlm::step` against such a world, step by step.

use vstd::prelude::*;

use crate::protocol::{CellView, StepResultView};
use crate::rlm::{
    action_matches, compaction_messages, executed_cell, is_script_error, lemma_start,
    lemma_step_facts, needs_compaction, progress, requests_wf, run_inv, spec_extract_script,
    spec_messages, spec_start, spec_step, summary_cell, ActionView, EventView, PhaseView, Rlm,
    RunView,
};
use crate::error::RlmErrorView;

verus! {

/// What the world outside the library answers during a run.
pub struct World {
    /// The answer to the i-th provider call, counting script and summary
    /// requests together from 0: a reply, a failure, or a cancellation.
    pub provider: spec_fn(nat) -> EventView,
    /// The outcome of the j-th script run, counting from 0.
    pub executor: spec_fn(nat) -> EventView,
    /// Whether the run has been cancelled by its k-th decision.
    pub cancelled: spec_fn(nat) -> bool,
}

/// The provider only ever answers with provider events, and the script
/// engine with script events.
pub open spec fn world_ok(w: World) -> bool {
    &&& forall|i: nat| #![trigger (w.provider)(i)] (w.provider)(i) is Reply || (w.provider)(i)
        is ProviderFailed || (w.provider)(i) is Cancelled
    &&& forall|j: nat| #![trigger (w.executor)(j)] (w.executor)(j) is Executed || (w.executor)(j)
        is ScriptFailed
}

/// A run so far: its state, what it asks for now, and how many provider
/// calls have been answered, scripts run, decisions taken, and script and
/// summary requests issued (the current one included).
pub struct Trace {
    pub state: RunView,
    pub action: ActionView,
    pub provider_calls: nat,
    pub executions: nat,
    pub decisions: nat,
    pub script_requests: nat,
    pub summary_requests: nat,
}

/// 1 for a script request.
pub open spec fn script_request_count(a: ActionView) -> nat {
    if a is RequestScript {
        1
    } else {
        0
    }
}

/// 1 for a summary request.
pub open spec fn summary_request_count(a: ActionView) -> nat {
    if a is RequestSummary {
        1
    } else {
        0
    }
}

/// The run's first decision.
pub open spec fn trace_start<P>(rlm: Rlm<P>, query: Seq<char>, w: World) -> Trace {
    let (s, a) = spec_start(rlm, query, (w.cancelled)(0));
    Trace {
        state: s,
        action: a,
        provider_calls: 0,
        executions: 0,
        decisions: 1,
        script_requests: script_request_count(a),
        summary_requests: summary_request_count(a),
    }
}

/// The run one decision later: the answer to the current action is taken
/// from the world and handed to `step`; a finished run stays as it is.
pub open spec fn trace_next<P>(rlm: Rlm<P>, w: World, t: Trace) -> Trace {
    if t.action is Finish {
        t
    } else {
        let from_provider = !(t.action is Execute);
        let event = if from_provider {
            (w.provider)(t.provider_calls)
        } else {
            (w.executor)(t.executions)
        };
        let (s, a) = spec_step(rlm, t.state, event, (w.cancelled)(t.decisions));
        Trace {
            state: s,
            action: a,
            provider_calls: t.provider_calls + if from_provider {
                1nat
            } else {
                0nat
            },
            executions: t.executions + if from_provider {
                0nat
            } else {
                1nat
            },
            decisions: t.decisions + 1,
            script_requests: t.script_requests + script_request_count(a),
            summary_requests: t.summary_requests + summary_request_count(a),
        }
    }
}

/// The run after `n` decisions beyond the first.
pub open spec fn trace<P>(rlm: Rlm<P>, query: Seq<char>, w: World, n: nat) -> Trace
    decreases n,
{
    if n == 0 {
        trace_start(rlm, query, w)
    } else {
        trace_next(rlm, w, trace(rlm, query, w, (n - 1) as nat))
    }
}

/// The text of a reply; empty for any other event.
pub open spec fn reply_text(e: EventView) -> Seq<char> {
    match e {
        EventView::Reply(t) => t,
        _ => Seq::empty(),
    }
}

/// The output of a script that continued; empty for any other event.
pub open spec fn continue_text(e: EventView) -> Seq<char> {
    match e {
        EventView::Executed(StepResultView::Continue(o)) => o,
        _ => Seq::empty(),
    }
}

/// The notebook after `k` scripts when nothing was compacted: cell `i`
/// holds the script extracted from the i-th reply and the i-th output,
/// truncated by the policy.
pub open spec fn replayed_cells<P>(rlm: Rlm<P>, w: World, k: nat) -> Seq<CellView> {
    Seq::new(
        k,
        |i: int|
            executed_cell(
                rlm,
                spec_extract_script(reply_text((w.provider)(i as nat))),
                continue_text((w.executor)(i as nat)),
            ),
    )
}

/// What holds of a run after every decision.
pub open spec fn trace_inv<P>(rlm: Rlm<P>, query: Seq<char>, w: World, t: Trace) -> bool {
    &&& run_inv(rlm, t.state)
    &&& t.state.query == query
    &&& action_matches(t.state.phase, t.action)
    &&& requests_wf(rlm, t.state, t.action)
    &&& t.script_requests == t.state.iterations
    &&& t.action is RequestSummary ==> t.summary_requests >= 1
    &&& t.summary_requests == 0 ==> {
        &&& t.action is RequestScript ==> t.provider_calls == t.executions && t.state.cells
            == replayed_cells(rlm, w, t.executions)
        &&& t.action matches ActionView::Execute(x) ==> t.provider_calls == t.executions + 1 && x
            == spec_extract_script(reply_text((w.provider)(t.executions))) && t.state.cells
            == replayed_cells(rlm, w, t.executions)
    }
}

proof fn lemma_trace_next<P>(rlm: Rlm<P>, query: Seq<char>, w: World, t: Trace)
    requires
        world_ok(w),
        trace_inv(rlm, query, w, t),
    ensures
        trace_inv(rlm, query, w, trace_next(rlm, w, t)),
        !(trace_next(rlm, w, t).action is Finish) ==> progress(rlm, trace_next(rlm, w, t).state) < progress(
            rlm,
            t.state,
        ),
        trace_next(rlm, w, t).summary_requests >= t.summary_requests,
{
    if !(t.action is Finish) {
        let from_provider = !(t.action is Execute);
        let event = if from_provider {
            (w.provider)(t.provider_calls)
        } else {
            (w.executor)(t.executions)
        };
        let c = (w.cancelled)(t.decisions);
        lemma_step_facts(rlm, t.state, event, c);
        let t2 = trace_next(rlm, w, t);
        if t2.summary_requests == 0 && !from_provider {
            let e = t.executions;
            if let EventView::Executed(StepResultView::Continue(o)) = event {
                assert(replayed_cells(rlm, w, e + 1) =~= replayed_cells(rlm, w, e).push(
                    executed_cell(rlm, spec_extract_script(reply_text((w.provider)(e))), o),
                ));
            }
        }
    }
}

/// `trace_inv` holds after every decision of every run in a well-behaved world.
pub proof fn lemma_trace_inv<P>(rlm: Rlm<P>, query: Seq<char>, w: World, n: nat)
    requires
        world_ok(w),
    ensures
        trace_inv(rlm, query, w, trace(rlm, query, w, n)),
    decreases n,
{
    if n == 0 {
        lemma_start(rlm, query, (w.cancelled)(0));
        assert(replayed_cells(rlm, w, 0) =~= Seq::<CellView>::empty());
    } else {
        lemma_trace_inv(rlm, query, w, (n - 1) as nat);
        lemma_trace_next(rlm, query, w, trace(rlm, query, w, (n - 1) as nat));
    }
}

/// Law: in every run, the number of script requests (normal provider
/// calls) equals the iterations spent and never exceeds `max_iterations`;
/// summary requests are not counted against it.
pub proof fn lemma_run_iteration_budget<P>(rlm: Rlm<P>, query: Seq<char>, w: World, n: nat)
    requires
        world_ok(w),
    ensures
        trace(rlm, query, w, n).script_requests == trace(rlm, query, w, n).state.iterations,
        trace(rlm, query, w, n).script_requests <= rlm.max_iterations,
{
    lemma_trace_inv(rlm, query, w, n);
}

/// A world in which nothing ends a run early: the provider always replies,
/// every script continues without a script error, and nobody cancels.
pub open spec fn endless_world(w: World) -> bool {
    &&& forall|i: nat| #[trigger] (w.provider)(i) is Reply
    &&& forall|j: nat| #[trigger] (w.executor)(j) matches EventView::Executed(
        StepResultView::Continue(o),
    ) && !is_script_error(o)
    &&& forall|k: nat| !#[trigger] (w.cancelled)(k)
}

proof fn lemma_endless<P>(rlm: Rlm<P>, query: Seq<char>, w: World, n: nat)
    requires
        endless_world(w),
        rlm.depth < rlm.max_depth,
    ensures
        ({
            let t = trace(rlm, query, w, n);
            &&& trace_inv(rlm, query, w, t)
            &&& t.action is Finish ==> t.action == ActionView::Finish(
                Err(RlmErrorView::MaxIterationsExceeded(rlm.max_iterations)),
            ) && t.state.iterations == rlm.max_iterations
            &&& !(t.action is Finish) ==> progress(rlm, t.state) + n < 3 * rlm.max_iterations
        }),
    decreases n,
{
    assert(world_ok(w)) by {
        assert forall|i: nat| #![trigger (w.provider)(i)] (w.provider)(i) is Reply || (
        w.provider)(i) is ProviderFailed || (w.provider)(i) is Cancelled by {
            assert((w.provider)(i) is Reply);
        }
        assert forall|j: nat| #![trigger (w.executor)(j)] (w.executor)(j) is Executed || (
        w.executor)(j) is ScriptFailed by {
            assert((w.executor)(j) is Executed);
        }
    }
    lemma_trace_inv(rlm, query, w, n);
    if n == 0 {
        assert(!(w.cancelled)(0));
        lemma_start(rlm, query, (w.cancelled)(0));
    } else {
        let prev = trace(rlm, query, w, (n - 1) as nat);
        lemma_endless(rlm, query, w, (n - 1) as nat);
        if !(prev.action is Finish) {
            let from_provider = !(prev.action is Execute);
            let event = if from_provider {
                (w.provider)(prev.provider_calls)
            } else {
                (w.executor)(prev.executions)
            };
            let c = (w.cancelled)(prev.decisions);
            assert(!c);
            if from_provider {
                assert(event is Reply);
            } else {
                assert((w.executor)(prev.executions) matches EventView::Executed(
                    StepResultView::Continue(o),
                ) && !is_script_error(o));
            }
            lemma_step_facts(rlm, prev.state, event, c);
        }
    }
}

/// Law: when nothing ends a run early (the provider always replies, no
/// script calls `done` or reports an error, nobody cancels) and the depth is
/// below its limit, the run ends with `MaxIterationsExceeded(max_iterations)`
/// after exactly `max_iterations` script requests, whatever summaries it
/// asked for on top; it has ended within `3 * max_iterations` decisions.
pub proof fn lemma_run_spends_budget<P>(rlm: Rlm<P>, query: Seq<char>, w: World)
    requires
        endless_world(w),
        rlm.depth < rlm.max_depth,
    ensures
        ({
            let t = trace(rlm, query, w, (3 * rlm.max_iterations) as nat);
            &&& t.action == ActionView::Finish(
                Err(RlmErrorView::MaxIterationsExceeded(rlm.max_iterations)),
            )
            &&& t.script_requests == rlm.max_iterations
        }),
{
    lemma_endless(rlm, query, w, (3 * rlm.max_iterations) as nat);
}

/// Law: until the first summary request, the k-th script request (counting
/// from 0, so k is the number of provider calls answered so far) carries
/// exactly the messages of the query and the notebook of k cells in which
/// cell i holds the script extracted from the i-th reply and the i-th
/// output, truncated by the policy.
pub proof fn lemma_run_replays_notebook<P>(rlm: Rlm<P>, query: Seq<char>, w: World, n: nat)
    requires
        world_ok(w),
    ensures
        ({
            let t = trace(rlm, query, w, n);
            t.summary_requests == 0 && t.action is RequestScript ==> t.action
                == ActionView::RequestScript(
                spec_messages(query, replayed_cells(rlm, w, t.provider_calls)),
            )
        }),
{
    lemma_trace_inv(rlm, query, w, n);
}

/// Law: throughout a run, every script request is made with a notebook that
/// does not need compaction and carries the query and that notebook; every
/// summary request is made exactly with a notebook that does (two or more
/// cells above the threshold) and carries its history under the compaction
/// prompt; and when the provider answers a summary request with `summary`,
/// the notebook becomes the single cell holding it, which the next script
/// request carries (unless the iteration budget is spent).
pub proof fn lemma_run_compaction<P>(rlm: Rlm<P>, query: Seq<char>, w: World, n: nat)
    requires
        world_ok(w),
    ensures
        ({
            let t = trace(rlm, query, w, n);
            let t2 = trace(rlm, query, w, n + 1);
            &&& t.action matches ActionView::RequestScript(m) ==> m == spec_messages(
                query,
                t.state.cells,
            ) && !needs_compaction(rlm, t.state.cells)
            &&& t.action matches ActionView::RequestSummary { messages, .. } ==> messages
                == compaction_messages(t.state.cells) && needs_compaction(rlm, t.state.cells)
            &&& (t.action is RequestSummary && (w.provider)(t.provider_calls) is Reply) ==> {
                let summary = reply_text((w.provider)(t.provider_calls));
                &&& t2.state.cells == seq![summary_cell(t.state.cells.len(), summary)]
                &&& t2.action is RequestScript || t2.action == ActionView::Finish(
                    Err(RlmErrorView::MaxIterationsExceeded(rlm.max_iterations)),
                )
                &&& t2.action is RequestScript ==> t2.action == ActionView::RequestScript(
                    spec_messages(query, t2.state.cells),
                )
            }
        }),
{
    lemma_trace_inv(rlm, query, w, n);
    lemma_trace_inv(rlm, query, w, n + 1);
    let t = trace(rlm, query, w, n);
    if t.action is RequestSummary {
        lemma_step_facts(rlm, t.state, (w.provider)(t.provider_calls), (w.cancelled)(t.decisions));
    }
}

} // verus!
