//! Systems, and the executor that runs them in the order in which they were
//! added.

use crate::world::World;
use vstd::prelude::*;

verus! {

/// A unit of behaviour: it is handed the world once per run of the executor
/// and may read and change it.
pub trait System {
    /// What one run of this system, in its present state, may make of a
    /// world: `after` is a world that a run on `before` may leave. A system
    /// that says nothing allows every world.
    open spec fn effect(&self, before: World, after: World) -> bool {
        true
    }

    /// Runs once. The world's invariant is kept, and what is left is one of
    /// the worlds that `effect` allows.
    fn run(&mut self, world: &mut World)
        requires
            old(world).wf(),
        ensures
            final(world).wf(),
            old(self).effect(*old(world), *final(world)),
    ;
}

/// A system as the executor keeps it. It does what the system in it does;
/// what a trait object does is known where it is made from a named type,
/// and this is the named type.
pub struct Registered<S: System> {
    system: S,
}

impl<S: System> System for Registered<S> {
    closed spec fn effect(&self, before: World, after: World) -> bool {
        self.system.effect(before, after)
    }

    fn run(&mut self, world: &mut World) {
        self.system.run(world);
    }
}

/// One system of the executor, its type forgotten.
pub struct SystemSlot {
    system: Box<dyn System>,
}

impl SystemSlot {
    /// What one run of the slot's system may make of a world.
    pub closed spec fn effect(&self, before: World, after: World) -> bool {
        self.system.effect(before, after)
    }

    /// Puts a system behind a slot.
    fn of<S: System + 'static>(system: S) -> (slot: SystemSlot)
        ensures
            forall|before: World, after: World| #[trigger]
                slot.effect(before, after) == system.effect(before, after),
    {
        SystemSlot { system: Box::new(Registered { system }) }
    }
}

/// `worlds` are the worlds that a run of `systems` goes through: one before
/// each system and one after the last, each system taking the world it
/// finds to the next.
pub open spec fn is_trace(systems: Seq<SystemSlot>, worlds: Seq<World>) -> bool {
    &&& worlds.len() == systems.len() + 1
    &&& forall|k: int|
        0 <= k < systems.len() ==> (#[trigger] systems[k]).effect(worlds[k], worlds[k + 1])
}

/// One run of `systems`, each once and in order, may take `before` to
/// `after`.
pub open spec fn runs_to(systems: Seq<SystemSlot>, before: World, after: World) -> bool {
    exists|worlds: Seq<World>|
        #![trigger is_trace(systems, worlds)]
        is_trace(systems, worlds) && worlds.first() == before && worlds.last() == after
}

/// A run of no system leaves the world as it is.
pub proof fn lemma_run_of_none(systems: Seq<SystemSlot>, before: World, after: World)
    requires
        systems.len() == 0,
    ensures
        runs_to(systems, before, after) <==> after == before,
{
    if after == before {
        assert(is_trace(systems, seq![before]));
    }
}

/// A run of some systems and one more behind them is a run of those systems
/// and then one run of the last, on the world that they leave.
pub proof fn lemma_run_of_more(
    systems: Seq<SystemSlot>,
    last: SystemSlot,
    before: World,
    after: World,
)
    ensures
        runs_to(systems.push(last), before, after) <==> exists|middle: World|
            #![trigger runs_to(systems, before, middle)]
            runs_to(systems, before, middle) && last.effect(middle, after),
{
    let longer = systems.push(last);
    if runs_to(longer, before, after) {
        let worlds = choose|worlds: Seq<World>|
            #![trigger is_trace(longer, worlds)]
            is_trace(longer, worlds) && worlds.first() == before && worlds.last() == after;
        let shorter = worlds.drop_last();
        let middle = shorter.last();
        assert(is_trace(systems, shorter)) by {
            assert forall|k: int| 0 <= k < systems.len() implies (#[trigger] systems[k]).effect(
                shorter[k],
                shorter[k + 1],
            ) by {
                assert(longer[k].effect(worlds[k], worlds[k + 1]));
            }
        }
        assert(shorter.first() == before);
        assert(runs_to(systems, before, middle));
        let n = systems.len() as int;
        assert(longer[n].effect(worlds[n], worlds[n + 1]));
        assert(last.effect(middle, after));
    }
    if exists|middle: World|
        #![trigger runs_to(systems, before, middle)]
        runs_to(systems, before, middle) && last.effect(middle, after) {
        let middle = choose|middle: World|
            #![trigger runs_to(systems, before, middle)]
            runs_to(systems, before, middle) && last.effect(middle, after);
        let shorter = choose|worlds: Seq<World>|
            #![trigger is_trace(systems, worlds)]
            is_trace(systems, worlds) && worlds.first() == before && worlds.last() == middle;
        let worlds = shorter.push(after);
        assert(is_trace(longer, worlds)) by {
            assert forall|k: int| 0 <= k < longer.len() implies (#[trigger] longer[k]).effect(
                worlds[k],
                worlds[k + 1],
            ) by {
                if k < systems.len() {
                    assert(systems[k].effect(shorter[k], shorter[k + 1]));
                }
            }
        }
        assert(worlds.first() == before);
        assert(worlds.last() == after);
    }
}

/// Holds the systems and runs them.
pub struct SystemExecutor {
    systems: Vec<SystemSlot>,
}

impl View for SystemExecutor {
    type V = Seq<SystemSlot>;

    closed spec fn view(&self) -> Seq<SystemSlot> {
        self.systems@
    }
}

impl SystemExecutor {
    pub fn new() -> (executor: Self)
        ensures
            executor@.len() == 0,
    {
        Self { systems: Vec::new() }
    }

    /// Adds `system` behind the systems that are there: it runs after them.
    pub fn add_system<S: System + 'static>(&mut self, system: S)
        ensures
            final(self)@.len() == old(self)@.len() + 1,
            final(self)@.drop_last() == old(self)@,
            forall|before: World, after: World| #[trigger]
                final(self)@.last().effect(before, after) == system.effect(before, after),
    {
        let slot = SystemSlot::of(system);
        self.systems.push(slot);
        assert(self@.drop_last() =~= old(self)@);
    }

    /// Runs every system once, in the order in which they were added; each
    /// finds the world as the one before it left it.
    pub fn run(&mut self, world: &mut World)
        requires
            old(world).wf(),
        ensures
            final(world).wf(),
            final(self)@.len() == old(self)@.len(),
            runs_to(old(self)@, *old(world), *final(world)),
    {
        let ghost mut worlds: Seq<World> = seq![*world];
        let mut index: usize = 0;
        while index < self.systems.len()
            invariant
                index <= self.systems@.len(),
                self.systems@.len() == old(self).systems@.len(),
                world.wf(),
                forall|j: int|
                    index <= j < self.systems@.len() ==> #[trigger] self.systems@[j] == old(
                        self,
                    ).systems@[j],
                worlds.len() == index + 1,
                worlds.first() == *old(world),
                worlds.last() == *world,
                forall|k: int|
                    0 <= k < index ==> (#[trigger] old(self).systems@[k]).effect(
                        worlds[k],
                        worlds[k + 1],
                    ),
            decreases self.systems@.len() - index,
        {
            let ghost found = *world;
            self.systems[index].system.run(world);
            proof {
                let ghost longer = worlds.push(*world);
                assert forall|k: int| 0 <= k < index + 1 implies (
                #[trigger] old(self).systems@[k]).effect(longer[k], longer[k + 1]) by {
                    if k < index {
                        assert(longer[k] == worlds[k]);
                        assert(longer[k + 1] == worlds[k + 1]);
                    }
                }
                worlds = longer;
            }
            index += 1;
        }
        assert(is_trace(old(self)@, worlds));
    }
}

} // verus!
