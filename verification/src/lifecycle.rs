//! The context lifecycle law.
//!
//! A context goes `create` → any number of `execute` calls → exactly one
//! `delete`, and nothing may touch it afterwards. The handle type enforces
//! this by ownership; this module states and proves it over the engine
//! model itself, for every such sequence of calls.

use vstd::prelude::*;
use crate::engine::complete_model;
use crate::engine::create_model;
use crate::engine::delete_model;
use crate::engine::lemma_create_preserves_wf;
use crate::engine::lemma_delete_preserves_wf;
use crate::engine::lemma_throw_preserves_wf;
use crate::engine::throw_model;
use crate::engine::EngineModel;

verus! {

/// The engine state after one execute call against context `id`: the script
/// either completed or threw with some message.
pub open spec fn execute_step_to(pre: EngineModel, id: int, thrown: Option<Seq<char>>) -> EngineModel {
    match thrown {
        None => complete_model(pre, id),
        Some(m) => throw_model(pre, id, m),
    }
}

/// One execute call happened between `pre` and `post`: some live context of
/// the initialized engine ran a script. A dead context admits no such step.
pub open spec fn is_execute_step(pre: EngineModel, post: EngineModel) -> bool {
    exists|id: int, thrown: Option<Seq<char>>|
        pre.initialized && pre.ctx_live(id) && post == #[trigger] execute_step_to(pre, id, thrown)
}

/// Execute calls leave the lifecycle state alone: the same contexts exist,
/// each as live as before, and the delete record is untouched.
pub open spec fn same_lifecycle(pre: EngineModel, post: EngineModel) -> bool {
    &&& post.contexts.len() == pre.contexts.len()
    &&& (forall|i: int|
        0 <= i < pre.contexts.len() ==> #[trigger] post.contexts[i].live == pre.contexts[i].live)
    &&& post.delete_log == pre.delete_log
}

/// One execute step preserves the lifecycle state and the boundary
/// invariant.
pub proof fn lemma_execute_step_same_lifecycle(pre: EngineModel, post: EngineModel)
    requires
        is_execute_step(pre, post),
    ensures
        same_lifecycle(pre, post),
        pre.wf() ==> post.wf(),
{
    let (id, thrown) = choose|id: int, thrown: Option<Seq<char>>|
        pre.initialized && pre.ctx_live(id) && post == #[trigger] execute_step_to(pre, id, thrown);
    match thrown {
        None => {
            assert(post.contexts == pre.contexts);
        },
        Some(m) => {
            assert(forall|i: int|
                0 <= i < pre.contexts.len() ==> #[trigger] post.contexts[i].live
                    == pre.contexts[i].live);
            if pre.wf() {
                lemma_throw_preserves_wf(pre, id, m);
            }
        },
    }
}

/// A possibly empty run of execute calls, state by state.
pub open spec fn execute_run(states: Seq<EngineModel>) -> bool {
    forall|k: int| 0 <= k < states.len() - 1 ==> is_execute_step(#[trigger] states[k], states[k + 1])
}

/// A whole run of execute calls preserves the lifecycle state and the
/// boundary invariant.
pub proof fn lemma_execute_run_same_lifecycle(states: Seq<EngineModel>)
    requires
        states.len() > 0,
        execute_run(states),
    ensures
        same_lifecycle(states[0], states.last()),
        states[0].wf() ==> states.last().wf(),
    decreases states.len(),
{
    if states.len() == 1 {
    } else {
        let rest = states.drop_first();
        assert(is_execute_step(states[0], states[1]));
        lemma_execute_step_same_lifecycle(states[0], states[1]);
        assert forall|k: int| 0 <= k < rest.len() - 1 implies is_execute_step(
            #[trigger] rest[k],
            rest[k + 1],
        ) by {
            assert(rest[k] == states[k + 1]);
            assert(rest[k + 1] == states[k + 2]);
            assert(is_execute_step(states[k + 1], states[k + 2]));
        }
        lemma_execute_run_same_lifecycle(rest);
        assert(rest[0] == states[1]);
        assert(rest.last() == states.last());
    }
}

/// The handle lifecycle law: for every sequence of calls that creates a
/// context, executes against it any number of times, and then deletes it,
/// the context stays live through every execute, the one delete is
/// permitted, the engine records that delete as the first and only one of
/// this context, and afterwards the context is dead — so no execute step
/// and no further delete of it exists.
pub proof fn lemma_handle_lifecycle(e0: EngineModel, states: Seq<EngineModel>, id: int)
    requires
        e0.wf(),
        id == e0.contexts.len(),
        states.len() > 0,
        states[0] == create_model(e0),
        execute_run(states),
    ensures
        states.last().ctx_live(id),
        states.last().wf(),
        ({
            let end = delete_model(states.last(), id);
            &&& end.wf()
            &&& !states.last().delete_log.contains(id)
            &&& end.delete_log == states.last().delete_log.push(id)
            &&& end.delete_log.contains(id)
            &&& end.delete_log.no_duplicates()
            &&& !end.ctx_live(id)
        }),
{
    lemma_create_preserves_wf(e0);
    lemma_execute_run_same_lifecycle(states);
    assert(states[0].ctx_live(id));
    assert(states.last().ctx_live(id));
    lemma_delete_preserves_wf(states.last(), id);
}

/// Once a context is dead, no run of execute calls revives it: at every
/// later state it is still dead, so neither an execute step against it nor
/// a delete of it is possible.
pub proof fn lemma_no_use_after_delete(states: Seq<EngineModel>, id: int)
    requires
        states.len() > 0,
        0 <= id < states[0].contexts.len(),
        !states[0].ctx_live(id),
        execute_run(states),
    ensures
        !states.last().ctx_live(id),
{
    lemma_execute_run_same_lifecycle(states);
}

} // verus!
