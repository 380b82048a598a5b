use vstd::prelude::*;
use crate::registry::{Dep, RegistryView, Step};

verus! {

/// The steps of one resolution of `deps`: every construction, in order, then
/// every initialization, in the same order.
pub open spec fn schedule<T>(deps: Seq<Dep<T>>) -> Seq<Step> {
    Seq::new(
        2 * deps.len(),
        |i: int|
            if i < deps.len() {
                Step::Constructed(deps[i].key())
            } else {
                Step::Initialized(deps[i - deps.len()].key())
            },
    )
}

/// The registry reached from `start` by the first `done` steps of the
/// schedule of `deps`, where the factory of `deps[i]` built `values[i]`.
pub open spec fn progress<T>(
    start: RegistryView<T>,
    deps: Seq<Dep<T>>,
    values: Seq<T>,
    done: nat,
) -> RegistryView<T>
    decreases done,
{
    if done == 0 {
        start
    } else {
        let before = progress(start, deps, values, (done - 1) as nat);
        let i = done - 1;
        if i < deps.len() {
            before.construct(deps[i].key(), deps[i].slot() as int, values[i])
        } else {
            before.initialize(deps[i - deps.len()].key())
        }
    }
}

/// The handles point at different slots, all of them allocated in `start`.
pub open spec fn separate<T>(start: RegistryView<T>, deps: Seq<Dep<T>>) -> bool {
    &&& forall|i: int| 0 <= i < deps.len() ==> (#[trigger] deps[i]).slot() < start.slots.len()
    &&& forall|i: int, j: int|
        0 <= i < j < deps.len() ==> (#[trigger] deps[i]).slot() != (#[trigger] deps[j]).slot()
}

/// Whether one of `deps` points at `slot`.
pub open spec fn targets<T>(deps: Seq<Dep<T>>, slot: int) -> bool {
    exists|i: int| 0 <= i < deps.len() && (#[trigger] deps[i]).slot() == slot
}

/// What the slots of `deps` hold in `registry`, handle by handle.
pub open spec fn built<T>(registry: RegistryView<T>, deps: Seq<Dep<T>>) -> Seq<T> {
    Seq::new(deps.len(), |i: int| registry.slots[deps[i].slot() as int]->Some_0)
}

/// What `done` steps of a schedule change: the trace grows by those steps,
/// the slot of each handle already constructed holds its value, and every
/// other slot, like the index, is as it was.
pub proof fn lemma_progress<T>(
    start: RegistryView<T>,
    deps: Seq<Dep<T>>,
    values: Seq<T>,
    done: nat,
)
    requires
        separate(start, deps),
        done <= 2 * deps.len(),
    ensures
        ({
            let now = progress(start, deps, values, done);
            &&& now.index == start.index
            &&& now.slots.len() == start.slots.len()
            &&& now.trace == start.trace + schedule(deps).take(done as int)
            &&& forall|i: int|
                0 <= i < deps.len() ==> now.slots[(#[trigger] deps[i]).slot() as int] == (if i
                    < done {
                    Some(values[i])
                } else {
                    start.slots[deps[i].slot() as int]
                })
            &&& forall|s: int|
                0 <= s < start.slots.len() && !targets(deps, s) ==> #[trigger] now.slots[s]
                    == start.slots[s]
        }),
    decreases done,
{
    if done > 0 {
        lemma_progress(start, deps, values, (done - 1) as nat);
    }
}

/// The states of the first `done` steps depend only on the values built in
/// those steps.
pub proof fn lemma_progress_values<T>(
    start: RegistryView<T>,
    deps: Seq<Dep<T>>,
    left: Seq<T>,
    right: Seq<T>,
    done: nat,
)
    requires
        forall|i: int| 0 <= i < deps.len() && i < done ==> left[i] == right[i],
    ensures
        forall|step: nat|
            step <= done ==> #[trigger] progress(start, deps, left, step) == progress(
                start,
                deps,
                right,
                step,
            ),
    decreases done,
{
    if done > 0 {
        lemma_progress_values(start, deps, left, right, (done - 1) as nat);
        assert(progress(start, deps, left, (done - 1) as nat) == progress(
            start,
            deps,
            right,
            (done - 1) as nat,
        ));
    }
}

/// What the factories built in the first `done` steps can be read back from
/// the slots of the state that those steps led to.
pub proof fn lemma_built<T>(start: RegistryView<T>, deps: Seq<Dep<T>>, values: Seq<T>, done: nat)
    requires
        separate(start, deps),
        done <= 2 * deps.len(),
    ensures
        ({
            let seated = built(progress(start, deps, values, done), deps);
            &&& forall|i: int| 0 <= i < deps.len() && i < done ==> #[trigger] seated[i] == values[i]
            &&& forall|step: nat|
                step <= done ==> #[trigger] progress(start, deps, seated, step) == progress(
                    start,
                    deps,
                    values,
                    step,
                )
        }),
{
    let seated = built(progress(start, deps, values, done), deps);
    lemma_progress(start, deps, values, done);
    lemma_progress_values(start, deps, seated, values, done);
}

} // verus!
