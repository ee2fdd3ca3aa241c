use vstd::prelude::*;

use crate::supervisor::{
    last_success_output, AuditRecord, ends_early, error_message, finalize, finished, halt_message, run, step_input, stops, trace_ok, transition, RunState,
    Outcome, StepPlan, WorkflowStatus,
};

verus! {

/// The state after the first `k` outcomes of `outs`.
pub open spec fn state_at(plan: Seq<StepPlan>, goal: Seq<char>, s: RunState, outs: Seq<Outcome>, k: int) -> RunState {
    run(plan, goal, s, outs.take(k))
}

proof fn lemma_trace_ok_take(plan: Seq<StepPlan>, goal: Seq<char>, s: RunState, outs: Seq<Outcome>, k: int)
    requires
        trace_ok(plan, goal, s, outs),
        0 <= k <= outs.len(),
    ensures
        trace_ok(plan, goal, s, outs.take(k)),
    decreases outs.len(),
{
    if k < outs.len() {
        lemma_trace_ok_take(plan, goal, s, outs.drop_last(), k);
        assert(outs.drop_last().take(k) =~= outs.take(k));
    } else {
        assert(outs.take(k) =~= outs);
    }
}

proof fn lemma_step_at(plan: Seq<StepPlan>, goal: Seq<char>, s: RunState, outs: Seq<Outcome>, k: int)
    requires
        0 <= k < outs.len(),
    ensures
        state_at(plan, goal, s, outs, k + 1) == transition(plan, goal, state_at(plan, goal, s, outs, k), outs[k]),
{
    assert(outs.take(k + 1).drop_last() =~= outs.take(k));
}

proof fn lemma_whole(plan: Seq<StepPlan>, goal: Seq<char>, s: RunState, outs: Seq<Outcome>)
    ensures
        state_at(plan, goal, s, outs, outs.len() as int) == run(plan, goal, s, outs),
        state_at(plan, goal, s, outs, 0) == s,
{
    assert(outs.take(outs.len() as int) =~= outs);
    assert(outs.take(0) =~= Seq::<Outcome>::empty());
}

proof fn lemma_live_at(plan: Seq<StepPlan>, goal: Seq<char>, s: RunState, outs: Seq<Outcome>, k: int)
    requires
        trace_ok(plan, goal, s, outs),
        0 <= k < outs.len(),
    ensures
        0 <= state_at(plan, goal, s, outs, k).current < plan.len(),
        k > 0 ==> !stops(plan, state_at(plan, goal, s, outs, k - 1), outs[k - 1]),
        outs[k] is ConditionNotMet ==> plan[state_at(plan, goal, s, outs, k).current].gated,
{
    lemma_trace_ok_take(plan, goal, s, outs, k + 1);
    let p = outs.take(k + 1);
    assert(p.drop_last() =~= outs.take(k));
    if k > 0 {
        assert(p.drop_last().drop_last() =~= outs.take(k - 1));
    }
}

/// Every outcome appends exactly one audit record and leaves the earlier ones in place.
proof fn lemma_audit_grows(plan: Seq<StepPlan>, goal: Seq<char>, s: RunState, outs: Seq<Outcome>, k: int)
    requires
        0 <= k <= outs.len(),
        forall|j: int| 0 <= j < k ==> 0 <= #[trigger] state_at(plan, goal, s, outs, j).current < plan.len(),
    ensures
        state_at(plan, goal, s, outs, k).audit.len() == s.audit.len() + k,
        forall|j: int|
            0 <= j <= k ==> state_at(plan, goal, s, outs, k).audit.subrange(0, s.audit.len() + j)
                == #[trigger] state_at(plan, goal, s, outs, j).audit,
    decreases k,
{
    if k == 0 {
        lemma_whole(plan, goal, s, outs);
        assert(s.audit.subrange(0, s.audit.len() as int) =~= s.audit);
    } else {
        lemma_audit_grows(plan, goal, s, outs, k - 1);
        lemma_step_at(plan, goal, s, outs, k - 1);
        let prev = state_at(plan, goal, s, outs, k - 1);
        let cur = state_at(plan, goal, s, outs, k);
        assert(0 <= prev.current < plan.len());
        assert(cur.audit.drop_last() == prev.audit);
        assert forall|j: int| 0 <= j <= k implies cur.audit.subrange(0, s.audit.len() + j)
            == #[trigger] state_at(plan, goal, s, outs, j).audit by {
            if j < k {
                assert(cur.audit.subrange(0, s.audit.len() + j) =~= prev.audit.subrange(0, s.audit.len() + j));
            } else {
                assert(cur.audit.subrange(0, s.audit.len() + j) =~= cur.audit);
            }
        }
    }
}

/// Before each outcome of a possible trace, the run is at the next step and still has its first status.
proof fn lemma_progress(plan: Seq<StepPlan>, goal: Seq<char>, s: RunState, outs: Seq<Outcome>, k: int)
    requires
        trace_ok(plan, goal, s, outs),
        0 <= k < outs.len(),
    ensures
        state_at(plan, goal, s, outs, k).current == s.current + k,
        state_at(plan, goal, s, outs, k).status == s.status,
    decreases k,
{
    if k == 0 {
        lemma_whole(plan, goal, s, outs);
    } else {
        lemma_progress(plan, goal, s, outs, k - 1);
        lemma_step_at(plan, goal, s, outs, k - 1);
        lemma_live_at(plan, goal, s, outs, k);
        lemma_live_at(plan, goal, s, outs, k - 1);
    }
}

proof fn lemma_all_live(plan: Seq<StepPlan>, goal: Seq<char>, s: RunState, outs: Seq<Outcome>)
    requires
        trace_ok(plan, goal, s, outs),
    ensures
        forall|j: int| 0 <= j < outs.len() ==> 0 <= #[trigger] state_at(plan, goal, s, outs, j).current < plan.len(),
{
    assert forall|j: int| 0 <= j < outs.len() implies 0 <= #[trigger] state_at(plan, goal, s, outs, j).current < plan.len() by {
        lemma_live_at(plan, goal, s, outs, j);
    }
}

/// Workflow law: the audit record of the `k`-th outcome of a run is for step `s.current + k`,
/// carries the input that step received, succeeded exactly when its worker returned an output,
/// and holds that output, the halt message, or the error message.
pub proof fn law_audit_entry(plan: Seq<StepPlan>, goal: Seq<char>, s: RunState, outs: Seq<Outcome>, k: int)
    requires
        trace_ok(plan, goal, s, outs),
        0 <= k < outs.len(),
    ensures
        ({
            let e = run(plan, goal, s, outs).audit[s.audit.len() + k];
            let before = state_at(plan, goal, s, outs, k);
            &&& e.step_name == plan[s.current + k].name
            &&& e.worker_name == plan[s.current + k].worker_name
            &&& e.input == step_input(plan, goal, before.outputs, s.current + k)
            &&& e.success == (outs[k] is Output)
            &&& (outs[k] matches Outcome::Output(out) ==> e.output == out)
            &&& (outs[k] is ConditionNotMet ==> e.output == halt_message())
            &&& (outs[k] matches Outcome::Error(err) ==> e.output == error_message(err))
        }),
{
    let n = outs.len() as int;
    lemma_all_live(plan, goal, s, outs);
    lemma_audit_grows(plan, goal, s, outs, n);
    lemma_whole(plan, goal, s, outs);
    lemma_progress(plan, goal, s, outs, k);
    lemma_step_at(plan, goal, s, outs, k);
    let after = state_at(plan, goal, s, outs, k + 1);
    let full = run(plan, goal, s, outs);
    assert(full.audit.subrange(0, s.audit.len() + k + 1) == after.audit);
    assert(full.audit[s.audit.len() + k] == full.audit.subrange(0, s.audit.len() + k + 1)[s.audit.len() + k]);
    lemma_audit_grows(plan, goal, s, outs, k);
}

/// Workflow law: a run appends one audit record per outcome and keeps the earlier records.
pub proof fn law_audit_grows(plan: Seq<StepPlan>, goal: Seq<char>, s: RunState, outs: Seq<Outcome>)
    requires
        trace_ok(plan, goal, s, outs),
    ensures
        run(plan, goal, s, outs).audit.len() == s.audit.len() + outs.len(),
        run(plan, goal, s, outs).audit.subrange(0, s.audit.len() as int) == s.audit,
{
    let n = outs.len() as int;
    lemma_all_live(plan, goal, s, outs);
    lemma_audit_grows(plan, goal, s, outs, n);
    lemma_whole(plan, goal, s, outs);
    assert(state_at(plan, goal, s, outs, 0).audit == s.audit);
}

/// Workflow law: a run that starts running and is over has completed exactly when no outcome
/// ended it early, in which case every remaining step ran; it is halted exactly when a condition
/// did not hold, and failed exactly when a critical step failed.
pub proof fn law_run_status(plan: Seq<StepPlan>, goal: Seq<char>, s: RunState, outs: Seq<Outcome>)
    requires
        trace_ok(plan, goal, s, outs),
        finished(plan, goal, s, outs),
        s.status == WorkflowStatus::Running,
        0 <= s.current <= plan.len(),
    ensures
        ({
            let f = finalize(plan, run(plan, goal, s, outs));
            &&& (f.status == WorkflowStatus::Completed) == !ends_early(plan, goal, s, outs)
            &&& (f.status == WorkflowStatus::Halted) == (ends_early(plan, goal, s, outs) && outs.last() is ConditionNotMet)
            &&& (f.status == WorkflowStatus::Failed) == (ends_early(plan, goal, s, outs) && outs.last() is Error)
            &&& !ends_early(plan, goal, s, outs) ==> s.current + outs.len() == plan.len()
            &&& s.current + outs.len() <= plan.len()
        }),
{
    let n = outs.len() as int;
    lemma_whole(plan, goal, s, outs);
    if n == 0 {
        assert(!ends_early(plan, goal, s, outs));
    } else {
        lemma_progress(plan, goal, s, outs, n - 1);
        lemma_live_at(plan, goal, s, outs, n - 1);
        lemma_step_at(plan, goal, s, outs, n - 1);
        assert(outs.drop_last() =~= outs.take(n - 1));
        assert(outs.last() == outs[n - 1]);
    }
}

/// Workflow law: a run over steps none of which has a condition is never halted by the run.
pub proof fn law_ungated_never_halts(plan: Seq<StepPlan>, goal: Seq<char>, s: RunState, outs: Seq<Outcome>)
    requires
        trace_ok(plan, goal, s, outs),
        forall|i: int| 0 <= i < plan.len() ==> !(#[trigger] plan[i]).gated,
        s.status != WorkflowStatus::Halted,
    ensures
        forall|k: int| 0 <= k < outs.len() ==> !(#[trigger] outs[k] is ConditionNotMet),
        finalize(plan, run(plan, goal, s, outs)).status != WorkflowStatus::Halted,
{
    let n = outs.len() as int;
    assert forall|k: int| 0 <= k < outs.len() implies !(#[trigger] outs[k] is ConditionNotMet) by {
        lemma_live_at(plan, goal, s, outs, k);
        let c = state_at(plan, goal, s, outs, k).current;
        assert(!plan[c].gated);
    }
    lemma_whole(plan, goal, s, outs);
    if n > 0 {
        lemma_progress(plan, goal, s, outs, n - 1);
        lemma_step_at(plan, goal, s, outs, n - 1);
        assert(!(outs[n - 1] is ConditionNotMet));
    }
}

/// Workflow law: the first step of a run from the start receives the goal.
pub proof fn law_first_step_receives_goal(plan: Seq<StepPlan>, goal: Seq<char>, s: RunState, outs: Seq<Outcome>)
    requires
        trace_ok(plan, goal, s, outs),
        s.current == 0,
        outs.len() > 0,
    ensures
        run(plan, goal, s, outs).audit[s.audit.len() as int].input == goal,
{
    law_audit_entry(plan, goal, s, outs, 0);
    lemma_whole(plan, goal, s, outs);
}

/// Workflow law: a step that follows a step which succeeded receives that step's output.
pub proof fn law_context_passing(plan: Seq<StepPlan>, goal: Seq<char>, s: RunState, outs: Seq<Outcome>, k: int)
    requires
        trace_ok(plan, goal, s, outs),
        0 < k < outs.len(),
        run(plan, goal, s, outs).audit[s.audit.len() + k - 1].success,
    ensures
        run(plan, goal, s, outs).audit[s.audit.len() + k].input == run(plan, goal, s, outs).audit[s.audit.len() + k - 1].output,
{
    let full = run(plan, goal, s, outs);
    law_audit_entry(plan, goal, s, outs, k);
    law_audit_entry(plan, goal, s, outs, k - 1);
    lemma_step_at(plan, goal, s, outs, k - 1);
    lemma_progress(plan, goal, s, outs, k - 1);
    lemma_live_at(plan, goal, s, outs, k - 1);
    let before = state_at(plan, goal, s, outs, k - 1);
    let after = state_at(plan, goal, s, outs, k);
    assert(outs[k - 1] is Output);
    assert(after.outputs == before.outputs.insert(plan[s.current + k - 1].name, outs[k - 1]->Output_0));
}

/// Workflow law: a run that starts with every step done has nothing to run, so running again a
/// workflow that got through all its steps leaves it as it is.
pub proof fn law_nothing_left_to_run(plan: Seq<StepPlan>, goal: Seq<char>, s: RunState, outs: Seq<Outcome>)
    requires
        trace_ok(plan, goal, s, outs),
        s.current >= plan.len(),
    ensures
        outs.len() == 0,
        run(plan, goal, s, outs) == s,
        finalize(plan, finalize(plan, s)) == finalize(plan, s),
{
    if outs.len() > 0 {
        lemma_live_at(plan, goal, s, outs, 0);
        lemma_whole(plan, goal, s, outs);
    }
}

/// Workflow law: every output a run stores was there before or comes from a step of the run whose
/// worker returned it, and every step whose worker returned an output has an output stored under
/// its name.
pub proof fn law_outputs_from_successes(plan: Seq<StepPlan>, goal: Seq<char>, s: RunState, outs: Seq<Outcome>)
    requires
        trace_ok(plan, goal, s, outs),
    ensures
        forall|name: Seq<char>|
            #[trigger] run(plan, goal, s, outs).outputs.contains_key(name) ==> s.outputs.contains_key(name) || exists|k: int|
                0 <= k < outs.len() && outs[k] is Output && #[trigger] plan[s.current + k].name == name,
        forall|k: int|
            0 <= k < outs.len() && #[trigger] outs[k] is Output ==> run(plan, goal, s, outs).outputs.contains_key(
                plan[s.current + k].name,
            ),
    decreases outs.len(),
{
    let n = outs.len() as int;
    if n > 0 {
        let prefix = outs.drop_last();
        assert(trace_ok(plan, goal, s, prefix));
        law_outputs_from_successes(plan, goal, s, prefix);
        lemma_progress(plan, goal, s, outs, n - 1);
        lemma_whole(plan, goal, s, outs);
        assert(prefix =~= outs.take(n - 1));
        assert(outs.last() == outs[n - 1]);
        let before = run(plan, goal, s, prefix);
        assert(before == state_at(plan, goal, s, outs, n - 1));
        assert forall|name: Seq<char>| #[trigger] run(plan, goal, s, outs).outputs.contains_key(name) implies s.outputs.contains_key(name)
            || exists|k: int| 0 <= k < outs.len() && outs[k] is Output && #[trigger] plan[s.current + k].name == name by {
            if before.outputs.contains_key(name) {
                if !s.outputs.contains_key(name) {
                    let k = choose|k: int| 0 <= k < prefix.len() && prefix[k] is Output && #[trigger] plan[s.current + k].name == name;
                    assert(outs[k] == prefix[k]);
                }
            } else {
                assert(outs[n - 1] is Output && plan[s.current + n - 1].name == name);
            }
        }
        assert forall|k: int| 0 <= k < outs.len() && #[trigger] outs[k] is Output implies run(plan, goal, s, outs).outputs.contains_key(
            plan[s.current + k].name,
        ) by {
            if k < n - 1 {
                assert(prefix[k] == outs[k]);
                assert(before.outputs.contains_key(plan[s.current + k].name));
            }
        }
    }
}

/// Workflow law: every output a run holds under a step name is the one held there before the
/// run, or the output of a successful audit record of the run for a step of that name.
pub proof fn law_outputs_match_audit(plan: Seq<StepPlan>, goal: Seq<char>, s: RunState, outs: Seq<Outcome>)
    ensures
        s.audit.len() <= run(plan, goal, s, outs).audit.len(),
        run(plan, goal, s, outs).audit.take(s.audit.len() as int) == s.audit,
        forall|name: Seq<char>|
            #[trigger] run(plan, goal, s, outs).outputs.contains_key(name) ==> (s.outputs.contains_key(name)
                && run(plan, goal, s, outs).outputs[name] == s.outputs[name]) || exists|j: int|
                s.audit.len() <= j < run(plan, goal, s, outs).audit.len() && #[trigger] run(plan, goal, s, outs).audit[j].success
                    && run(plan, goal, s, outs).audit[j].step_name == name && run(plan, goal, s, outs).audit[j].output
                    == run(plan, goal, s, outs).outputs[name],
    decreases outs.len(),
{
    if outs.len() == 0 {
        assert(s.audit.take(s.audit.len() as int) =~= s.audit);
    } else {
        let prev = outs.drop_last();
        law_outputs_match_audit(plan, goal, s, prev);
        let p = run(plan, goal, s, prev);
        let r = run(plan, goal, s, outs);
        assert(r == transition(plan, goal, p, outs.last()));
        assert(r.audit == p.audit.push(r.audit.last()));
        assert(r.audit.take(s.audit.len() as int) =~= p.audit.take(s.audit.len() as int));
        assert forall|name: Seq<char>| #[trigger] r.outputs.contains_key(name) implies (s.outputs.contains_key(name)
            && r.outputs[name] == s.outputs[name]) || exists|j: int|
            s.audit.len() <= j < r.audit.len() && #[trigger] r.audit[j].success && r.audit[j].step_name == name
                && r.audit[j].output == r.outputs[name] by {
            let n = plan[p.current].name;
            if outs.last() is Output && name == n {
                let j = p.audit.len() as int;
                assert(r.audit[j].success);
            } else {
                assert(p.outputs.contains_key(name));
                assert(r.outputs[name] == p.outputs[name]);
                if !(s.outputs.contains_key(name) && p.outputs[name] == s.outputs[name]) {
                    let j = choose|j: int|
                        s.audit.len() <= j < p.audit.len() && #[trigger] p.audit[j].success && p.audit[j].step_name == name
                            && p.audit[j].output == p.outputs[name];
                    assert(r.audit[j] == p.audit[j]);
                    assert(r.audit[j].success);
                }
            }
        }
    }
}

/// Workflow law: when the steps have distinct names, a step whose worker returned an output
/// holds that output under its name once the run is over, and its audit record succeeded and
/// carries the same output.
pub proof fn law_output_of_success(plan: Seq<StepPlan>, goal: Seq<char>, s: RunState, outs: Seq<Outcome>, k: int)
    requires
        trace_ok(plan, goal, s, outs),
        forall|i: int, j: int| 0 <= i < j < plan.len() ==> #[trigger] plan[i].name != #[trigger] plan[j].name,
        0 <= k < outs.len(),
        outs[k] is Output,
    ensures
        run(plan, goal, s, outs).outputs.contains_key(plan[s.current + k].name),
        run(plan, goal, s, outs).outputs[plan[s.current + k].name] == outs[k]->Output_0,
        run(plan, goal, s, outs).audit[s.audit.len() + k].success,
        run(plan, goal, s, outs).audit[s.audit.len() + k].output == run(plan, goal, s, outs).outputs[plan[s.current + k].name],
    decreases outs.len(),
{
    let n = outs.len() as int;
    law_audit_entry(plan, goal, s, outs, k);
    lemma_progress(plan, goal, s, outs, n - 1);
    lemma_live_at(plan, goal, s, outs, n - 1);
    assert(outs.take(n - 1) =~= outs.drop_last());
    let p = run(plan, goal, s, outs.drop_last());
    assert(p.current == s.current + n - 1);
    if k < n - 1 {
        let prev = outs.drop_last();
        assert(prev[k] == outs[k]);
        law_output_of_success(plan, goal, s, prev, k);
        lemma_progress(plan, goal, s, outs, k);
        lemma_live_at(plan, goal, s, outs, k);
        assert(0 <= s.current + k < s.current + n - 1 < plan.len());
        assert(plan[s.current + k].name != plan[s.current + n - 1].name);
    }
}

/// Law of the final output: it is the output of the last audit record that succeeded, whatever
/// failed records follow it.
pub proof fn law_final_output(a: Seq<AuditRecord>, e: AuditRecord, f: Seq<AuditRecord>)
    requires
        e.success,
        forall|i: int| 0 <= i < f.len() ==> !(#[trigger] f[i]).success,
    ensures
        last_success_output(a + seq![e] + f) == e.output,
    decreases f.len(),
{
    let whole = a + seq![e] + f;
    if f.len() == 0 {
        assert(whole.last() == e);
    } else {
        assert(whole.last() == f.last());
        assert(!f[f.len() - 1].success);
        assert(whole.drop_last() =~= a + seq![e] + f.drop_last());
        assert forall|i: int| 0 <= i < f.drop_last().len() implies !(#[trigger] f.drop_last()[i]).success by {
            assert(f.drop_last()[i] == f[i]);
        }
        law_final_output(a, e, f.drop_last());
    }
}

/// Law of the final output: it is empty when no audit record succeeded.
pub proof fn law_final_output_without_success(a: Seq<AuditRecord>)
    requires
        forall|i: int| 0 <= i < a.len() ==> !(#[trigger] a[i]).success,
    ensures
        last_success_output(a) == Seq::<char>::empty(),
    decreases a.len(),
{
    if a.len() > 0 {
        assert(!a[a.len() - 1].success);
        assert forall|i: int| 0 <= i < a.drop_last().len() implies !(#[trigger] a.drop_last()[i]).success by {
            assert(a.drop_last()[i] == a[i]);
        }
        law_final_output_without_success(a.drop_last());
    }
}

} // verus!
