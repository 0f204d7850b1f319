//! Entity handles and the registry that issues, recycles and retires them.

use vstd::prelude::*;

verus! {

/// A handle: an index into the registry's table, and the generation of that
/// index at the time the handle was issued.
#[derive(Debug, Clone, Copy, PartialEq, Eq, Structural, Hash, PartialOrd, Ord)]
pub struct Entity {
    pub id: u32,
    pub generation: u32,
}

/// The mathematical state of an [`EntityManager`]: the generation of every
/// id allocated so far, and the stack of ids that wait for reuse (the last
/// one is reused first).
pub struct IdTable {
    pub generations: Seq<u32>,
    pub free_ids: Seq<u32>,
}

impl IdTable {
    /// The table of a registry that has issued nothing.
    pub open spec fn empty() -> IdTable {
        IdTable { generations: Seq::empty(), free_ids: Seq::empty() }
    }

    /// Every id that waits for reuse has been allocated.
    pub open spec fn wf(self) -> bool {
        forall|i: int|
            0 <= i < self.free_ids.len() ==> (#[trigger] self.free_ids[i]) < self.generations.len()
    }

    /// No id waits for reuse twice. This holds of a fresh table and is kept by
    /// `created`, and by `destroyed` on every handle but a forged one (one
    /// that names a free id together with the generation it will get next).
    pub open spec fn consistent(self) -> bool {
        self.wf() && self.free_ids.no_duplicates()
    }

    /// The handle's id is allocated and its generation is the id's present one.
    pub open spec fn is_current(self, entity: Entity) -> bool {
        (entity.id as int) < self.generations.len() && self.generations[entity.id as int]
            == entity.generation
    }

    /// The handle is current and its id does not wait for reuse: it was
    /// issued and not destroyed since.
    pub open spec fn is_live(self, entity: Entity) -> bool {
        self.is_current(entity) && !self.free_ids.contains(entity.id)
    }

    /// The handle that the next creation returns.
    pub open spec fn next_entity(self) -> Entity {
        if self.free_ids.len() > 0 {
            let id = self.free_ids.last();
            Entity { id, generation: self.generations[id as int] }
        } else {
            Entity { id: self.generations.len() as u32, generation: 0 }
        }
    }

    /// The table after one creation.
    pub open spec fn created(self) -> IdTable {
        if self.free_ids.len() > 0 {
            IdTable { generations: self.generations, free_ids: self.free_ids.drop_last() }
        } else {
            IdTable { generations: self.generations.push(0), free_ids: self.free_ids }
        }
    }

    /// The table after `entity` is destroyed: unchanged unless the handle is
    /// current; else the id's generation goes up by one and the id is put on
    /// the stack of free ids.
    pub open spec fn destroyed(self, entity: Entity) -> IdTable {
        if self.is_current(entity) {
            IdTable {
                generations: self.generations.update(
                    entity.id as int,
                    (entity.generation + 1) as u32,
                ),
                free_ids: self.free_ids.push(entity.id),
            }
        } else {
            self
        }
    }

    /// A creation is possible without running out of ids.
    pub open spec fn can_create(self) -> bool {
        self.free_ids.len() > 0 || self.generations.len() < u32::MAX
    }

    /// Destroying `entity` does not run out of generations.
    pub open spec fn can_destroy(self, entity: Entity) -> bool {
        self.is_current(entity) ==> entity.generation < u32::MAX
    }

    /// The table after `n` creations in a row.
    pub open spec fn created_n(self, n: nat) -> IdTable
        decreases n,
    {
        if n == 0 {
            self
        } else {
            self.created_n((n - 1) as nat).created()
        }
    }

    /// The handle that the `k`-th creation in a row returns, counted from 0.
    pub open spec fn nth_entity(self, k: nat) -> Entity {
        self.created_n(k).next_entity()
    }
}

/// A creation returns a handle that was not live, makes it live, keeps every
/// live handle live, and keeps the table consistent.
pub proof fn lemma_created_is_fresh(table: IdTable, other: Entity)
    requires
        table.consistent(),
        table.can_create(),
    ensures
        !table.is_live(table.next_entity()),
        table.created().is_live(table.next_entity()),
        table.is_live(other) ==> table.created().is_live(other),
        table.created().consistent(),
{
    let after = table.created();
    if table.free_ids.len() > 0 {
        let last = table.free_ids.len() - 1;
        assert(table.free_ids[last] == table.free_ids.last());
        assert forall|i: int| 0 <= i < after.free_ids.len() implies after.free_ids[i]
            == table.free_ids[i] by {}
        if after.free_ids.contains(table.free_ids.last()) {
            let i = choose|i: int| 0 <= i < after.free_ids.len() && after.free_ids[i] == table.free_ids.last();
            assert(table.free_ids[i] == table.free_ids[last]);
        }
        if after.free_ids.contains(other.id) {
            let i = choose|i: int| 0 <= i < after.free_ids.len() && after.free_ids[i] == other.id;
            assert(table.free_ids[i] == other.id);
        }
    } else {
        assert(!table.free_ids.contains(table.next_entity().id));
    }
}

/// Creations in a row, with no destruction between them, return handles that
/// differ from one another.
pub proof fn lemma_creations_distinct(table: IdTable, i: nat, j: nat)
    requires
        table.consistent(),
        i < j,
        table.generations.len() + j < u32::MAX,
    ensures
        table.nth_entity(i) != table.nth_entity(j),
{
    lemma_creations_keep_live(table, i, j);
    lemma_creations_consistent(table, j);
    lemma_created_is_fresh(table.created_n(j), table.nth_entity(i));
}

/// After `n` creations in a row the table is still consistent, and it has
/// grown by `n` ids at most.
pub proof fn lemma_creations_consistent(table: IdTable, n: nat)
    requires
        table.consistent(),
        table.generations.len() + n < u32::MAX,
    ensures
        table.created_n(n).consistent(),
        table.created_n(n).generations.len() <= table.generations.len() + n,
        table.created_n(n).can_create(),
    decreases n,
{
    if n > 0 {
        let m = (n - 1) as nat;
        lemma_creations_consistent(table, m);
        lemma_created_is_fresh(table.created_n(m), table.next_entity());
    }
}

/// The handle that the `i`-th creation returned is live after every later
/// creation of the same run.
pub proof fn lemma_creations_keep_live(table: IdTable, i: nat, j: nat)
    requires
        table.consistent(),
        i < j,
        table.generations.len() + j < u32::MAX,
    ensures
        table.created_n(j).is_live(table.nth_entity(i)),
    decreases j,
{
    let m = (j - 1) as nat;
    lemma_creations_consistent(table, m);
    if i < m {
        lemma_creations_keep_live(table, i, m);
    }
    lemma_created_is_fresh(table.created_n(m), table.nth_entity(i));
}

/// Destroying a current handle and creating again returns the same id with
/// the next generation.
pub proof fn lemma_destroy_then_create_recycles(table: IdTable, entity: Entity)
    requires
        table.is_current(entity),
        table.can_destroy(entity),
    ensures
        table.destroyed(entity).next_entity() == (Entity {
            id: entity.id,
            generation: (entity.generation + 1) as u32,
        }),
        table.destroyed(entity).next_entity().generation == entity.generation + 1,
{
}

/// Once a handle is destroyed and its id is issued again, destroying the old
/// handle a second time changes nothing: the id stays in use and the new
/// handle stays current.
pub proof fn lemma_stale_destroy_is_ignored(table: IdTable, entity: Entity)
    requires
        table.is_current(entity),
        table.can_destroy(entity),
    ensures
        ({
            let reused = table.destroyed(entity).next_entity();
            let after = table.destroyed(entity).created();
            &&& reused.id == entity.id
            &&& reused != entity
            &&& after.destroyed(entity) == after
            &&& after.is_current(reused)
        }),
{
    let freed = table.destroyed(entity);
    assert(freed.free_ids.last() == entity.id);
}

/// Destroying a handle makes it stale for good: it is not current afterwards,
/// and a second destruction is ignored.
pub proof fn lemma_destroy_twice_is_once(table: IdTable, entity: Entity)
    requires
        table.can_destroy(entity),
    ensures
        !table.destroyed(entity).is_live(entity),
        table.is_current(entity) ==> !table.destroyed(entity).is_current(entity),
        table.is_current(entity) ==> table.destroyed(entity).destroyed(entity) == table.destroyed(entity),
{
    if table.is_current(entity) {
        assert(table.destroyed(entity).free_ids.last() == entity.id);
    }
}

/// Destroying a live handle keeps the table consistent, and so does
/// destroying one that is not current.
pub proof fn lemma_destroy_keeps_consistent(table: IdTable, entity: Entity)
    requires
        table.consistent(),
        table.is_live(entity) || !table.is_current(entity),
    ensures
        table.destroyed(entity).consistent(),
{
    let after = table.destroyed(entity);
    if table.is_current(entity) {
        assert forall|i: int, j: int|
            0 <= i < after.free_ids.len() && 0 <= j < after.free_ids.len() && i != j implies after.free_ids[i]
            != after.free_ids[j] by {
            if i < table.free_ids.len() {
                assert(table.free_ids.contains(table.free_ids[i]));
            }
            if j < table.free_ids.len() {
                assert(table.free_ids.contains(table.free_ids[j]));
            }
        }
    }
}

/// Issues entity handles, takes them back, and tells a live handle from a
/// stale one by its generation.
pub struct EntityManager {
    next_id: u32,
    free_ids: Vec<u32>,
    generations: Vec<u32>,
}

impl View for EntityManager {
    type V = IdTable;

    closed spec fn view(&self) -> IdTable {
        IdTable { generations: self.generations@, free_ids: self.free_ids@ }
    }
}

impl EntityManager {
    /// The registry's invariant: the table is well formed and the next fresh
    /// id is the number of ids allocated.
    pub closed spec fn wf(&self) -> bool {
        self@.wf() && self.next_id as int == self.generations@.len()
    }

    pub fn new() -> (manager: Self)
        ensures
            manager.wf(),
            manager@ == IdTable::empty(),
    {
        Self { next_id: 0, free_ids: Vec::new(), generations: Vec::new() }
    }

    /// Returns a handle that is live from now on: the free id put back last,
    /// with its present generation, or else the next fresh id with
    /// generation 0.
    pub fn create(&mut self) -> (entity: Entity)
        requires
            old(self).wf(),
            old(self)@.can_create(),
        ensures
            final(self).wf(),
            entity == old(self)@.next_entity(),
            final(self)@ == old(self)@.created(),
    {
        if let Some(id) = self.free_ids.pop() {
            let generation: u32 = self.generations[id as usize];
            Entity { id, generation }
        } else {
            let id: u32 = self.next_id;
            self.next_id += 1;
            self.generations.push(0);
            Entity { id, generation: 0 }
        }
    }

    /// Retires a handle. A handle that is out of range or whose generation is
    /// not the present one of its id is ignored.
    pub fn destroy(&mut self, entity: Entity)
        requires
            old(self).wf(),
            old(self)@.can_destroy(entity),
        ensures
            final(self).wf(),
            final(self)@ == old(self)@.destroyed(entity),
    {
        if (entity.id as usize) < self.generations.len() {
            if self.generations[entity.id as usize] == entity.generation {
                self.generations.set(entity.id as usize, entity.generation + 1);
                self.free_ids.push(entity.id);
                assert forall|i: int| 0 <= i < self.free_ids@.len() implies (
                #[trigger] self.free_ids@[i]) < self.generations@.len() by {
                    if i < old(self)@.free_ids.len() {
                        assert(self.free_ids@[i] == old(self)@.free_ids[i]);
                    }
                }
            }
        }
    }
}

} // verus!
