use vstd::prelude::*;
use crate::autowire::{hook_returns, Autowirable};
use crate::context::Context;
use crate::error::Error;
use crate::registry::{Dep, Step};
use crate::schedule::{built, lemma_progress, progress, schedule, targets};

verus! {

/// A graph whose factories and ready-hooks do not fail on the states that
/// the schedule leads them to resolves: the resolution succeeds, nothing is
/// left waiting, and the slot of every registered key is filled.
pub proof fn lemma_sound_graph_resolves<T: Autowirable>(
    before: &Context<T>,
    after: &Context<T>,
    done: Result<(), Error>,
)
    requires
        before.wf(),
        !before.failed(),
        Context::resolution(before, after, done),
        forall|i: int, values: Seq<T>, produced: Result<T, Error>|
            0 <= i < before.thunks().len() && #[trigger] before.thunks()[i].yields(
                progress(before.registry()@, Context::deps(before.thunks()), values, i as nat),
                produced,
            ) ==> produced is Ok,
        forall|i: int, values: Seq<T>, outcome: Result<(), Error>|
            0 <= i < before.thunks().len() && #[trigger] hook_returns(
                values[i],
                progress(
                    before.registry()@,
                    Context::deps(before.thunks()),
                    values,
                    (before.thunks().len() + i) as nat,
                ),
                outcome,
            ) ==> outcome is Ok,
    ensures
        done is Ok,
        after.resolved(),
        after.registry()@.complete(),
{
    let start = before.registry()@;
    let end = after.registry()@;
    let thunks = before.thunks();
    let deps = Context::deps(thunks);
    let values = built(end, deps);
    let steps = end.trace.len() - start.trace.len();
    if done is Err {
        if steps < thunks.len() {
            let produced = choose|produced: Result<T, Error>|
                produced is Err && #[trigger] thunks[steps].yields(end, produced);
            assert(thunks[steps].yields(progress(start, deps, values, steps as nat), produced));
        } else {
            let i = steps - thunks.len();
            let outcome = choose|outcome: Result<(), Error>|
                outcome is Err && #[trigger] hook_returns(values[i], end, outcome);
            assert(hook_returns(
                values[i],
                progress(start, deps, values, (thunks.len() + i) as nat),
                outcome,
            ));
        }
    }
    Context::lemma_complete(start, thunks, values, (2 * thunks.len()) as nat);
}

/// In the course of a resolution every slot is filled exactly once: the slot
/// of the `i`-th waiting thunk is empty up to step `i`, and from then on holds
/// the one value that its factory built. A slot that no waiting thunk points
/// at is never written.
pub proof fn lemma_filled_exactly_once<T: Autowirable>(
    before: &Context<T>,
    values: Seq<T>,
    i: int,
    step: nat,
)
    requires
        before.wf(),
        0 <= i < before.thunks().len(),
        step <= 2 * before.thunks().len(),
    ensures
        ({
            let start = before.registry()@;
            let deps = Context::deps(before.thunks());
            let now = progress(start, deps, values, step);
            &&& now.slots[deps[i].slot() as int] == (if step <= i {
                None
            } else {
                Some(values[i])
            })
            &&& forall|s: int|
                0 <= s < start.slots.len() && !targets(deps, s) ==> #[trigger] now.slots[s]
                    == start.slots[s]
        }),
{
    let start = before.registry()@;
    let thunks = before.thunks();
    let deps = Context::deps(thunks);
    Context::lemma_separate(start, thunks);
    lemma_progress(start, deps, values, step);
}

/// A handle can be captured at any step of a resolution, whatever has been
/// constructed by then: the keys that were registered when the resolution
/// began are known in every state of it, under the same slots, and the key
/// of each waiting thunk names the slot that the thunk fills.
pub proof fn lemma_handles_can_be_captured<T: Autowirable>(
    before: &Context<T>,
    values: Seq<T>,
    step: nat,
)
    requires
        before.wf(),
        step <= 2 * before.thunks().len(),
    ensures
        ({
            let deps = Context::deps(before.thunks());
            let now = progress(before.registry()@, deps, values, step);
            &&& now.wf()
            &&& now.index == before.registry()@.index
            &&& forall|i: int|
                0 <= i < deps.len() ==> now.knows((#[trigger] deps[i]).key())
                    && now.index[deps[i].key()] == deps[i].slot()
        }),
{
    let start = before.registry()@;
    let deps = Context::deps(before.thunks());
    Context::lemma_separate(start, before.thunks());
    lemma_progress(start, deps, values, step);
}

/// Reading a handle before the factory behind it has run fails with
/// `NotReady`: so before the resolution begins, and at every step up to the
/// construction of that component.
pub proof fn lemma_not_ready_before_construction<T: Autowirable>(
    before: &Context<T>,
    values: Seq<T>,
    i: int,
    step: nat,
)
    requires
        before.wf(),
        0 <= i < before.thunks().len(),
        step <= i,
    ensures
        before.thunks()[i].dep().read_of(
            progress(before.registry()@, Context::deps(before.thunks()), values, step),
        ) == Err::<T, Error>(Error::NotReady),
{
    lemma_filled_exactly_once(before, values, i, step);
    lemma_handles_can_be_captured(before, values, step);
}

/// Every ready-hook runs on a complete graph: in the state that the hook of
/// the `i`-th component meets, a handle onto any registered key reads a
/// value, and a handle onto a component of this resolution reads exactly
/// what that component's factory built, whichever of the two was registered
/// first.
pub proof fn lemma_hooks_meet_complete_graph<T: Autowirable>(
    before: &Context<T>,
    values: Seq<T>,
    i: int,
)
    requires
        before.wf(),
        !before.failed(),
        0 <= i < before.thunks().len(),
    ensures
        ({
            let deps = Context::deps(before.thunks());
            let seen = progress(
                before.registry()@,
                deps,
                values,
                (before.thunks().len() + i) as nat,
            );
            &&& seen.complete()
            &&& forall|dep: Dep<T>|
                seen.knows(dep.key()) && dep.slot() == seen.index[dep.key()]
                    ==> #[trigger] dep.read_of(seen) is Ok
            &&& forall|j: int|
                0 <= j < deps.len() ==> (#[trigger] deps[j]).read_of(seen) == Ok::<T, Error>(
                    values[j],
                )
        }),
{
    let start = before.registry()@;
    let thunks = before.thunks();
    let deps = Context::deps(thunks);
    let step = (thunks.len() + i) as nat;
    let seen = progress(start, deps, values, step);
    Context::lemma_separate(start, thunks);
    Context::lemma_complete(start, thunks, values, step);
    lemma_progress(start, deps, values, step);
}

/// The steps of a resolution follow the registration order: what the trace
/// gains is a prefix of the schedule of the waiting thunks, which lists
/// every construction in the order of the thunks and after them every
/// initialization in the same order; a resolution that succeeds gains the
/// whole schedule.
pub proof fn lemma_steps_follow_registration_order<T: Autowirable>(
    before: &Context<T>,
    after: &Context<T>,
    done: Result<(), Error>,
)
    requires
        before.wf(),
        !before.failed(),
        Context::resolution(before, after, done),
    ensures
        ({
            let deps = Context::deps(before.thunks());
            let steps = after.registry()@.trace.len() - before.registry()@.trace.len();
            &&& after.registry()@.trace == before.registry()@.trace + schedule(deps).take(steps)
            &&& done is Ok ==> after.registry()@.trace == before.registry()@.trace + schedule(deps)
            &&& forall|i: int|
                0 <= i < deps.len() ==> #[trigger] schedule(deps)[i] == Step::Constructed(
                    before.thunks()[i].dep().key(),
                )
            &&& forall|i: int|
                0 <= i < deps.len() ==> #[trigger] schedule(deps)[deps.len() + i]
                    == Step::Initialized(before.thunks()[i].dep().key())
        }),
{
    let start = before.registry()@;
    let end = after.registry()@;
    let deps = Context::deps(before.thunks());
    let steps = end.trace.len() - start.trace.len();
    Context::lemma_separate(start, before.thunks());
    lemma_progress(start, deps, built(end, deps), steps as nat);
}

/// Resolving twice is resolving once: a second resolution returns what the
/// first returned, runs no factory and no hook, and leaves every slot and
/// the trace as the first left them.
pub proof fn lemma_second_resolution_is_idle<T: Autowirable>(
    before: &Context<T>,
    between: &Context<T>,
    after: &Context<T>,
    first: Result<(), Error>,
    second: Result<(), Error>,
)
    requires
        Context::resolution(before, between, first),
        Context::resolution(between, after, second),
    ensures
        second == first,
        after.registry()@ == between.registry()@,
        after.failed() == between.failed(),
        after.thunks() == between.thunks(),
{
    if !between.failed() {
        assert(first->Ok_0 == second->Ok_0);
    }
}

} // verus!
