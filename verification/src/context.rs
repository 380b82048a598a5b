use vstd::prelude::*;
use crate::autowire::{hook_returns, Autowirable};
use crate::error::Error;
use crate::registry::{Dep, Registry, RegistryView, TypeKey};
use crate::thunk::{factory_returns, factory_total, Thunk};
use crate::schedule::{
    built, lemma_built, lemma_progress, lemma_progress_values, progress, separate, targets,
};

verus! {

/// The container: a registry of slots, and the construction thunks that
/// have been registered and not run yet, in registration order.
///
/// Components are registered with `register_type`, which runs nothing, and
/// built by `init`, which runs every waiting factory and then every
/// ready-hook. What is registered after a resolution waits for the next one.
/// A resolution that was aborted leaves the container failed for good.
#[verifier::reject_recursive_types(T)]
pub struct Context<T: Autowirable> {
    registry: Registry<T>,
    pending: Vec<Thunk<T>>,
    failed: bool,
}

impl<T: Autowirable> Context<T> {
    pub closed spec fn spec_registry(&self) -> &Registry<T> {
        &self.registry
    }

    /// The construction thunks that have not run yet, oldest first.
    pub closed spec fn thunks(&self) -> Seq<Thunk<T>> {
        self.pending@
    }

    /// Whether an earlier resolution was aborted.
    pub closed spec fn failed(&self) -> bool {
        self.failed
    }

    /// Whether one of `thunks` is for `key`.
    pub open spec fn waits(thunks: Seq<Thunk<T>>, key: TypeKey) -> bool {
        exists|i: int| 0 <= i < thunks.len() && (#[trigger] thunks[i]).dep().key() == key
    }

    /// The position in `thunks` of the thunk for `key`.
    pub open spec fn position(thunks: Seq<Thunk<T>>, key: TypeKey) -> int {
        choose|i: int| 0 <= i < thunks.len() && (#[trigger] thunks[i]).dep().key() == key
    }

    /// `thunks` once the one for `key`, if there is one, has been taken out.
    pub open spec fn without(thunks: Seq<Thunk<T>>, key: TypeKey) -> Seq<Thunk<T>> {
        if Self::waits(thunks, key) {
            thunks.remove(Self::position(thunks, key))
        } else {
            thunks
        }
    }

    /// Every thunk can be run and points at the empty slot that its key
    /// names, and no two thunks share a key.
    pub open spec fn runnable(registry: RegistryView<T>, thunks: Seq<Thunk<T>>) -> bool {
        &&& forall|i: int|
            0 <= i < thunks.len() ==> {
                let dep = (#[trigger] thunks[i]).dep();
                &&& thunks[i].total()
                &&& registry.knows(dep.key())
                &&& registry.index[dep.key()] == dep.slot()
                &&& registry.vacant(dep.slot() as int)
            }
        &&& forall|i: int, j: int|
            0 <= i < j < thunks.len() ==> (#[trigger] thunks[i]).dep().key() != (
            #[trigger] thunks[j]).dep().key()
    }

    /// Every registered key but `except` is either constructed or among
    /// `thunks`.
    pub open spec fn covered(
        registry: RegistryView<T>,
        thunks: Seq<Thunk<T>>,
        except: Option<TypeKey>,
    ) -> bool {
        forall|k: TypeKey| #[trigger]
            registry.knows(k) && except != Some(k) ==> registry.filled(registry.index[k] as int)
                || Self::waits(thunks, k)
    }

    /// The invariant of a container. The waiting thunks are runnable, and,
    /// unless a resolution was aborted, every registered key is either
    /// constructed or waiting.
    pub open spec fn wf(&self) -> bool {
        &&& self.registry()@.wf()
        &&& Self::runnable(self.registry()@, self.thunks())
        &&& !self.failed() ==> Self::covered(self.registry()@, self.thunks(), None)
    }

    /// Whether everything registered has been constructed and initialized.
    pub open spec fn resolved(&self) -> bool {
        !self.failed() && self.thunks().len() == 0
    }

    /// A container with nothing registered.
    pub fn new() -> (context: Self)
        ensures
            context.wf(),
            context.resolved(),
            context.registry()@ == RegistryView::<T>::empty(),
    {
        Context { registry: Registry::new(), pending: Vec::new(), failed: false }
    }

    /// The slot table, to read handles against.
    #[verifier::when_used_as_spec(spec_registry)]
    pub fn registry(&self) -> (registry: &Registry<T>)
        ensures
            registry == self.registry(),
    {
        &self.registry
    }

    /// Gives up the container for its slot table, which holds no factory
    /// and so can be shared wherever the components can.
    pub fn into_registry(self) -> (registry: Registry<T>)
        ensures
            registry == *self.registry(),
    {
        self.registry
    }

    /// Whether everything registered has been constructed and initialized.
    pub fn is_resolved(&self) -> (resolved: bool)
        ensures
            resolved == self.resolved(),
    {
        !self.failed && self.pending.len() == 0
    }

    /// A handle onto the slot of the component registered under `key`,
    /// whether it has been constructed or not.
    pub fn get(&self, key: TypeKey) -> (got: Result<Dep<T>, Error>)
        ensures
            self.registry()@.knows(key) ==> (got matches Ok(dep) && dep.key() == key
                && dep.slot() == self.registry()@.index[key]),
            !self.registry()@.knows(key) ==> got == Err::<Dep<T>, Error>(Error::UnknownType),
    {
        self.registry.get(key)
    }

    /// Taking the thunk at `at` out leaves runnable thunks, none of them for
    /// its key, and every other key as covered as before.
    proof fn lemma_without(registry: RegistryView<T>, thunks: Seq<Thunk<T>>, at: int)
        requires
            Self::runnable(registry, thunks),
            0 <= at < thunks.len(),
        ensures
            Self::runnable(registry, thunks.remove(at)),
            !Self::waits(thunks.remove(at), thunks[at].dep().key()),
            forall|k: TypeKey|
                k != thunks[at].dep().key() && Self::waits(thunks, k) ==> #[trigger] Self::waits(
                    thunks.remove(at),
                    k,
                ),
    {
        let kept = thunks.remove(at);
        assert forall|i: int| 0 <= i < kept.len() implies #[trigger] kept[i] == thunks[if i
            < at {
            i
        } else {
            i + 1
        }] by {}
        assert forall|i: int, j: int| 0 <= i < j < kept.len() implies (#[trigger] kept[i]).dep().key()
            != (#[trigger] kept[j]).dep().key() by {}
        assert forall|i: int| 0 <= i < kept.len() implies (#[trigger] kept[i]).dep().key()
            != thunks[at].dep().key() by {}
        assert forall|k: TypeKey|
            k != thunks[at].dep().key() && Self::waits(thunks, k) implies #[trigger] Self::waits(
            kept,
            k,
        ) by {
            let a = Self::position(thunks, k);
            let b = if a < at { a } else { a - 1 };
            assert(kept[b] == thunks[a]);
        }
    }

    /// Binding `key` to a fresh slot and adding a thunk for it keeps the
    /// invariant, provided no other thunk is for `key`.
    proof fn lemma_register(registry: RegistryView<T>, kept: Seq<Thunk<T>>, thunk: Thunk<T>)
        requires
            registry.wf(),
            Self::runnable(registry, kept),
            !Self::waits(kept, thunk.dep().key()),
            thunk.total(),
            thunk.dep().slot() == registry.slots.len(),
        ensures
            Self::runnable(registry.bind(thunk.dep().key()), kept.push(thunk)),
            Self::covered(registry, kept, Some(thunk.dep().key())) ==> Self::covered(
                registry.bind(thunk.dep().key()),
                kept.push(thunk),
                None,
            ),
    {
        let key = thunk.dep().key();
        let bound = registry.bind(key);
        let thunks = kept.push(thunk);
        assert forall|i: int| 0 <= i < thunks.len() implies {
            let dep = (#[trigger] thunks[i]).dep();
            &&& thunks[i].total()
            &&& bound.knows(dep.key())
            &&& bound.index[dep.key()] == dep.slot()
            &&& bound.vacant(dep.slot() as int)
        } by {}
        assert forall|i: int, j: int| 0 <= i < j < thunks.len() implies (
        #[trigger] thunks[i]).dep().key() != (#[trigger] thunks[j]).dep().key() by {}
        if Self::covered(registry, kept, Some(key)) {
            assert forall|k: TypeKey| #[trigger] bound.knows(k) implies bound.filled(
                bound.index[k] as int,
            ) || Self::waits(thunks, k) by {
                if k == key {
                    assert(thunks[kept.len() as int].dep().key() == key);
                } else {
                    assert(registry.knows(k));
                    if !registry.filled(registry.index[k] as int) {
                        let a = Self::position(kept, k);
                        assert(thunks[a] == kept[a]);
                    }
                }
            }
        }
    }

    /// Where the thunk for `key` waits, if one does.
    fn find(&self, key: TypeKey) -> (at: Option<usize>)
        requires
            self.wf(),
        ensures
            at matches Some(i) ==> i < self.thunks().len() && self.thunks()[i as int].dep().key()
                == key,
            at is None ==> !Self::waits(self.thunks(), key),
    {
        let mut i: usize = 0;
        while i < self.pending.len()
            invariant
                i <= self.pending.len(),
                forall|j: int| 0 <= j < i ==> (#[trigger] self.thunks()[j]).dep().key() != key,
            decreases self.pending.len() - i,
        {
            if self.pending[i].dep().key().0 == key.0 {
                return Some(i);
            }
            i += 1;
        }
        None
    }

    /// Drops the thunk that waits for `key`, if one does.
    fn forget(&mut self, key: TypeKey)
        requires
            old(self).wf(),
        ensures
            final(self).registry() == old(self).registry(),
            final(self).failed() == old(self).failed(),
            final(self).thunks() == Self::without(old(self).thunks(), key),
            Self::runnable(final(self).registry()@, final(self).thunks()),
            !Self::waits(final(self).thunks(), key),
            !final(self).failed() ==> Self::covered(
                final(self).registry()@,
                final(self).thunks(),
                Some(key),
            ),
    {
        match self.find(key) {
            Some(at) => {
                proof {
                    Self::lemma_without(self.registry()@, self.thunks(), at as int);
                }
                self.pending.remove(at);
            },
            None => {},
        }
    }

    /// Registers `getter` as the factory of the component named `key`.
    ///
    /// A fresh empty slot is bound to `key` and a construction thunk is added
    /// at the end of the waiting list. No factory runs yet. A thunk that
    /// waited under the same key is dropped, and a slot the key named before
    /// is no longer reachable by key.
    pub fn register_type<F: Fn(&Registry<T>) -> Result<T, Error> + 'static>(
        &mut self,
        key: TypeKey,
        getter: F,
    )
        requires
            old(self).wf(),
            factory_total(getter),
        ensures
            final(self).wf(),
            final(self).failed() == old(self).failed(),
            final(self).registry()@ == old(self).registry()@.bind(key),
            final(self).thunks().len() == Self::without(old(self).thunks(), key).len() + 1,
            final(self).thunks().drop_last() == Self::without(old(self).thunks(), key),
            final(self).thunks().last().dep().key() == key,
            final(self).thunks().last().dep().slot() == old(self).registry()@.slots.len(),
            forall|registry: RegistryView<T>, built: Result<T, Error>| #[trigger]
                final(self).thunks().last().yields(registry, built) == factory_returns(
                    getter,
                    registry,
                    built,
                ),
    {
        self.forget(key);
        let ghost kept = self.thunks();
        let ghost before = self.registry()@;
        let dep = self.registry.bind(key);
        let thunk = Thunk::new(dep, getter);
        proof {
            Self::lemma_register(before, kept, thunk);
        }
        self.pending.push(thunk);
    }

    /// The handles of `thunks`, in the same order.
    pub open spec fn deps(thunks: Seq<Thunk<T>>) -> Seq<Dep<T>> {
        Seq::new(thunks.len(), |i: int| thunks[i].dep())
    }

    /// The factory of `thunks[i]` returned `values[i]` when it was run on
    /// the registry that `i` steps of the schedule had led to.
    pub open spec fn constructed(
        start: RegistryView<T>,
        thunks: Seq<Thunk<T>>,
        values: Seq<T>,
        i: int,
    ) -> bool {
        thunks[i].yields(
            progress(start, Self::deps(thunks), values, i as nat),
            Ok(values[i]),
        )
    }

    /// The ready-hook of `values[i]` returned without failure when it was
    /// run on the registry that all constructions and `i` initializations
    /// had led to.
    pub open spec fn initialized(
        start: RegistryView<T>,
        thunks: Seq<Thunk<T>>,
        values: Seq<T>,
        i: int,
    ) -> bool {
        hook_returns(
            values[i],
            progress(start, Self::deps(thunks), values, (thunks.len() + i) as nat),
            Ok(()),
        )
    }

    /// The factory of `thunk` failed on a registry with the content
    /// `registry`.
    pub open spec fn factory_failed(thunk: Thunk<T>, registry: RegistryView<T>) -> bool {
        exists|built: Result<T, Error>| built is Err && #[trigger] thunk.yields(registry, built)
    }

    /// The ready-hook of `value` failed on a registry with the content
    /// `registry`.
    pub open spec fn hook_failed(value: T, registry: RegistryView<T>) -> bool {
        exists|outcome: Result<(), Error>|
            outcome is Err && #[trigger] hook_returns(value, registry, outcome)
    }

    /// Runnable thunks point at different allocated slots.
    pub proof fn lemma_separate(registry: RegistryView<T>, thunks: Seq<Thunk<T>>)
        requires
            registry.wf(),
            Self::runnable(registry, thunks),
        ensures
            separate(registry, Self::deps(thunks)),
    {
    }

    /// Once every construction of a schedule is done, the slot of every
    /// registered key is filled.
    pub proof fn lemma_complete(
        start: RegistryView<T>,
        thunks: Seq<Thunk<T>>,
        values: Seq<T>,
        done: nat,
    )
        requires
            start.wf(),
            Self::runnable(start, thunks),
            Self::covered(start, thunks, None),
            thunks.len() <= done <= 2 * thunks.len(),
        ensures
            progress(start, Self::deps(thunks), values, done).wf(),
            progress(start, Self::deps(thunks), values, done).complete(),
    {
        let deps = Self::deps(thunks);
        let now = progress(start, deps, values, done);
        Self::lemma_separate(start, thunks);
        lemma_progress(start, deps, values, done);
        assert forall|k: TypeKey| #[trigger] now.knows(k) implies now.filled(
            now.index[k] as int,
        ) by {
            let s = start.index[k] as int;
            assert(start.knows(k));
            if !targets(deps, s) && !start.filled(s) {
                let a = Self::position(thunks, k);
                assert(deps[a].slot() == s);
            }
        }
    }

    /// Runs the factory of every thunk, in order, and fills its slot; stops
    /// at the first factory that fails.
    fn construct_all(registry: &mut Registry<T>, pending: &Vec<Thunk<T>>) -> (done: Result<
        (),
        Error,
    >)
        requires
            old(registry).wf(),
            Self::runnable(old(registry)@, pending@),
        ensures
            final(registry).wf(),
            ({
                let start = old(registry)@;
                let end = final(registry)@;
                let deps = Self::deps(pending@);
                let values = built(end, deps);
                let steps = end.trace.len() - start.trace.len();
                &&& 0 <= steps <= pending@.len()
                &&& end == progress(start, deps, values, steps as nat)
                &&& done is Ok <==> steps == pending@.len()
                &&& done is Err ==> done == Err::<(), Error>(Error::FactoryFailed)
                    && Self::factory_failed(pending@[steps], end)
                &&& forall|i: int|
                    0 <= i < steps ==> #[trigger] Self::constructed(start, pending@, values, i)
            }),
    {
        let ghost start = registry@;
        let ghost deps = Self::deps(pending@);
        let ghost mut values: Seq<T> = Seq::empty();
        proof {
            Self::lemma_separate(start, pending@);
        }
        let mut i: usize = 0;
        while i < pending.len()
            invariant
                registry.wf(),
                start == old(registry)@,
                Self::runnable(start, pending@),
                separate(start, deps),
                deps == Self::deps(pending@),
                i <= pending.len(),
                values.len() == i,
                registry@ == progress(start, deps, values, i as nat),
                forall|j: int|
                    0 <= j < i ==> #[trigger] Self::constructed(start, pending@, values, j),
            decreases pending.len() - i,
        {
            let thunk = &pending[i];
            let produced = thunk.build(registry);
            proof {
                lemma_progress(start, deps, values, i as nat);
                lemma_built(start, deps, values, i as nat);
            }
            match registry.construct(&thunk.dep(), produced) {
                Ok(()) => {
                    proof {
                        let grown = values.push(produced->Ok_0);
                        lemma_progress_values(start, deps, grown, values, i as nat);
                        assert(progress(start, deps, grown, i as nat) == progress(
                            start,
                            deps,
                            values,
                            i as nat,
                        ));
                        assert forall|j: int| 0 <= j < i + 1 implies #[trigger] Self::constructed(
                            start,
                            pending@,
                            grown,
                            j,
                        ) by {
                            if j < i {
                                assert(Self::constructed(start, pending@, values, j));
                            }
                        }
                        values = grown;
                    }
                    i += 1;
                },
                Err(e) => {
                    proof {
                        assert forall|j: int| 0 <= j < i implies #[trigger] Self::constructed(
                            start,
                            pending@,
                            built(registry@, deps),
                            j,
                        ) by {
                            assert(Self::constructed(start, pending@, values, j));
                        }
                    }
                    return Err(e);
                },
            }
        }
        proof {
            lemma_progress(start, deps, values, i as nat);
            lemma_built(start, deps, values, i as nat);
            assert forall|j: int| 0 <= j < i implies #[trigger] Self::constructed(
                start,
                pending@,
                built(registry@, deps),
                j,
            ) by {
                assert(Self::constructed(start, pending@, values, j));
            }
        }
        Ok(())
    }

    /// Runs the ready-hook of every constructed component, in the order of
    /// the thunks; stops at the first hook that fails.
    fn initialize_all(
        registry: &mut Registry<T>,
        pending: &Vec<Thunk<T>>,
        Ghost(start): Ghost<RegistryView<T>>,
    ) -> (done: Result<(), Error>)
        requires
            old(registry).wf(),
            start.wf(),
            Self::runnable(start, pending@),
            Self::covered(start, pending@, None),
            old(registry)@ == progress(
                start,
                Self::deps(pending@),
                built(old(registry)@, Self::deps(pending@)),
                pending@.len(),
            ),
        ensures
            final(registry).wf(),
            final(registry)@.slots == old(registry)@.slots,
            ({
                let end = final(registry)@;
                let deps = Self::deps(pending@);
                let values = built(end, deps);
                let steps = end.trace.len() - start.trace.len();
                &&& pending@.len() <= steps <= 2 * pending@.len()
                &&& end == progress(start, deps, values, steps as nat)
                &&& done is Ok <==> steps == 2 * pending@.len()
                &&& done is Err ==> done == Err::<(), Error>(Error::FactoryFailed)
                    && Self::hook_failed(values[steps - pending@.len()], end)
                &&& forall|i: int|
                    0 <= i && pending@.len() + i < steps ==> #[trigger] Self::initialized(
                        start,
                        pending@,
                        values,
                        i,
                    )
            }),
    {
        let ghost deps = Self::deps(pending@);
        let ghost values = built(registry@, deps);
        proof {
            Self::lemma_separate(start, pending@);
        }
        let mut i: usize = 0;
        while i < pending.len()
            invariant
                registry.wf(),
                start.wf(),
                Self::runnable(start, pending@),
                Self::covered(start, pending@, None),
                separate(start, deps),
                deps == Self::deps(pending@),
                values == built(registry@, deps),
                registry@.slots == old(registry)@.slots,
                i <= pending.len(),
                registry@ == progress(start, deps, values, (pending@.len() + i) as nat),
                forall|j: int|
                    0 <= j < i ==> #[trigger] Self::initialized(start, pending@, values, j),
            decreases pending.len() - i,
        {
            let dep = pending[i].dep();
            let ghost seen = registry@;
            proof {
                lemma_progress(start, deps, values, (pending@.len() + i) as nat);
                Self::lemma_complete(start, pending@, values, (pending@.len() + i) as nat);
            }
            let outcome = match dep.read(registry) {
                Ok(value) => value.post_init(registry),
                Err(e) => Err(e),
            };
            assert(hook_returns(values[i as int], seen, outcome));
            match registry.initialize(&dep, outcome) {
                Ok(()) => {
                    assert(outcome->Ok_0 == ());
                    i += 1;
                },
                Err(e) => {
                    return Err(e);
                },
            }
        }
        proof {
            lemma_progress(start, deps, values, (2 * pending@.len()) as nat);
        }
        Ok(())
    }

    /// What a resolution does to a container.
    ///
    /// After an aborted resolution nothing runs any more. Otherwise the
    /// registry moves along the schedule of the waiting thunks, as far as
    /// `steps`, the growth of the trace, says: each factory ran on the state
    /// that the steps before it had led to and built what its slot now
    /// holds; each ready-hook ran on the state after all constructions and
    /// the hooks before it. The resolution succeeds exactly when the whole
    /// schedule was run, and stops before the first factory or hook that
    /// fails. The waiting list is emptied either way.
    pub open spec fn resolution(before: &Self, after: &Self, done: Result<(), Error>) -> bool {
        let start = before.registry()@;
        let end = after.registry()@;
        let thunks = before.thunks();
        let deps = Self::deps(thunks);
        let values = built(end, deps);
        let steps = end.trace.len() - start.trace.len();
        if before.failed() {
            &&& done == Err::<(), Error>(Error::FactoryFailed)
            &&& after.failed()
            &&& end == start
            &&& after.thunks() == thunks
        } else {
            &&& 0 <= steps <= 2 * thunks.len()
            &&& end == progress(start, deps, values, steps as nat)
            &&& after.thunks().len() == 0
            &&& after.failed() == (done is Err)
            &&& done is Ok <==> steps == 2 * thunks.len()
            &&& done is Err ==> done == Err::<(), Error>(Error::FactoryFailed)
            &&& forall|i: int|
                0 <= i < thunks.len() && i < steps ==> #[trigger] Self::constructed(
                    start,
                    thunks,
                    values,
                    i,
                )
            &&& forall|i: int|
                0 <= i && thunks.len() + i < steps ==> #[trigger] Self::initialized(
                    start,
                    thunks,
                    values,
                    i,
                )
            &&& steps < thunks.len() ==> Self::factory_failed(thunks[steps], end)
            &&& thunks.len() <= steps < 2 * thunks.len() ==> Self::hook_failed(
                values[steps - thunks.len()],
                end,
            )
        }
    }

    /// Resolves the graph: runs the factory of every waiting thunk, in
    /// registration order, and fills its slot; then runs the ready-hook of
    /// every component so built, in the same order.
    ///
    /// The first factory or hook that fails aborts the resolution with
    /// `FactoryFailed`: slots filled so far stay filled, nothing else runs,
    /// and every later call fails the same way. A call on a resolved
    /// container runs nothing and changes nothing.
    pub fn init(&mut self) -> (done: Result<(), Error>)
        requires
            old(self).wf(),
        ensures
            final(self).wf(),
            Self::resolution(old(self), final(self), done),
            done is Ok ==> final(self).resolved() && final(self).registry()@.complete(),
            old(self).resolved() ==> done is Ok && final(self).registry()@ == old(self).registry()@,
            final(self).registry()@.index == old(self).registry()@.index,
            final(self).registry()@.slots.len() == old(self).registry()@.slots.len(),
            forall|s: int|
                old(self).registry()@.filled(s) ==> #[trigger] final(self).registry()@.slots[s]
                    == old(self).registry()@.slots[s],
    {
        if self.failed {
            return Err(Error::FactoryFailed);
        }
        let ghost start = self.registry@;
        proof {
            Self::lemma_separate(start, self.pending@);
        }
        let constructed = Self::construct_all(&mut self.registry, &self.pending);
        let done = match constructed {
            Ok(()) => Self::initialize_all(&mut self.registry, &self.pending, Ghost(start)),
            Err(e) => Err(e),
        };
        proof {
            let deps = Self::deps(self.pending@);
            let values = built(self.registry@, deps);
            let steps = (self.registry@.trace.len() - start.trace.len()) as nat;
            lemma_progress(start, deps, values, steps);
            if done is Ok {
                Self::lemma_complete(start, self.pending@, values, steps);
            }
        }
        self.failed = done.is_err();
        self.pending.clear();
        done
    }
}

} // verus!
