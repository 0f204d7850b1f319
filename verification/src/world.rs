//! The world: one entity registry, one component manager and one event
//! manager, behind one set of operations.

use crate::component::{
    are_distinct, lemma_empty_has_no_storage, lemma_other_type_is_kept, lemma_sweep_by_type,
    Component, ComponentManager,
};
use crate::entity::{Entity, EntityManager, IdTable};
use crate::event::{lemma_empty_has_no_queue, Event, EventManager};
use vstd::prelude::*;

verus! {

/// Everything that systems read and change.
pub struct World {
    entities: EntityManager,
    components: ComponentManager,
    events: EventManager,
}

impl World {
    /// The state of the entity registry.
    pub closed spec fn entities(&self) -> IdTable {
        self.entities@
    }

    /// The component manager.
    pub closed spec fn components(&self) -> ComponentManager {
        self.components
    }

    /// The event manager.
    pub closed spec fn events(&self) -> EventManager {
        self.events
    }

    /// The world's invariant: that of its entity registry.
    pub closed spec fn wf(&self) -> bool {
        self.entities.wf()
    }

    /// The component of type `T` that `entity` has, if it has one.
    pub open spec fn component<T: Component>(&self, entity: Entity) -> Option<T> {
        match self.components().storage::<T>() {
            Some(content) => if content.contains_key(entity) {
                Some(content[entity])
            } else {
                None
            },
            None => None,
        }
    }

    /// The entities that have a component of type `T`.
    pub open spec fn holders<T: Component>(&self) -> Set<Entity> {
        match self.components().storage::<T>() {
            Some(content) => content.dom(),
            None => Set::empty(),
        }
    }

    /// The events of type `E` that wait, oldest first.
    pub open spec fn waiting<E: Event>(&self) -> Seq<E> {
        match self.events().queue::<E>() {
            Some(events) => events,
            None => Seq::empty(),
        }
    }

    /// The store of `T` as it is once `component` is filed under `entity`.
    pub open spec fn with_component<T: Component>(&self, entity: Entity, component: T) -> Map<
        Entity,
        T,
    > {
        match self.components().storage::<T>() {
            Some(content) => content.insert(entity, component),
            None => Map::<Entity, T>::empty().insert(entity, component),
        }
    }

    /// This world is `before` after one entity was created: the registry
    /// moved on by one creation, and nothing else changed.
    pub open spec fn has_created(&self, before: World) -> bool {
        &&& self.entities() == before.entities().created()
        &&& self.components() == before.components()
        &&& self.events() == before.events()
    }

    /// This world is `before` after `entity` was destroyed: its components
    /// are swept out of every store, the registry has retired the handle,
    /// and the events are as they were.
    pub open spec fn has_destroyed(&self, before: World, entity: Entity) -> bool {
        &&& self.components().is_swept(before.components(), entity)
        &&& self.entities() == before.entities().destroyed(entity)
        &&& self.events() == before.events()
    }

    /// This world is `before` with the store of `T` changed, or made, so that
    /// it now holds `content`: no other store, no entity and no event is
    /// touched.
    pub open spec fn has_stored<T: Component>(&self, before: World, content: Map<Entity, T>) -> bool {
        &&& self.components().storage::<T>() == Some(content)
        &&& self.components().is_exact::<T>()
        &&& self.components().is_same_but::<T>(before.components())
        &&& self.entities() == before.entities()
        &&& self.events() == before.events()
    }

    /// This world is `before` with the queue of `E` changed, or made, so that
    /// `events` now wait in it: no other queue, no entity and no component is
    /// touched.
    pub open spec fn has_queued<E: Event>(&self, before: World, events: Seq<E>) -> bool {
        &&& self.events().queue::<E>() == Some(events)
        &&& self.events().is_exact::<E>()
        &&& self.events().is_same_but::<E>(before.events())
        &&& self.entities() == before.entities()
        &&& self.components() == before.components()
    }

    /// This world is `before` after the events of type `E` were taken: none
    /// waits, a queue of `E` is there if it was there, and no other queue,
    /// no entity and no component is touched.
    pub open spec fn has_drained<E: Event>(&self, before: World) -> bool {
        &&& self.waiting::<E>() =~= Seq::<E>::empty()
        &&& self.events().is_registered::<E>() == before.events().is_registered::<E>()
        &&& self.events().is_exact::<E>()
        &&& self.events().is_same_but::<E>(before.events())
        &&& self.entities() == before.entities()
        &&& self.components() == before.components()
    }

    pub fn new() -> (world: Self)
        ensures
            world.wf(),
            world.entities() == IdTable::empty(),
            world.components()@.len() == 0,
            world.events()@.len() == 0,
    {
        Self {
            entities: EntityManager::new(),
            components: ComponentManager::new(),
            events: EventManager::new(),
        }
    }

    /// Issues a handle; see [`EntityManager::create`].
    pub fn create_entity(&mut self) -> (entity: Entity)
        requires
            old(self).wf(),
            old(self).entities().can_create(),
        ensures
            final(self).wf(),
            entity == old(self).entities().next_entity(),
            final(self).has_created(*old(self)),
    {
        self.entities.create()
    }

    /// Takes every component of `entity` out of the stores, then retires the
    /// handle. A stale handle is not retired again, but components filed
    /// under it are swept all the same.
    pub fn destroy_entity(&mut self, entity: Entity)
        requires
            old(self).wf(),
            old(self).entities().can_destroy(entity),
        ensures
            final(self).wf(),
            final(self).has_destroyed(*old(self), entity),
    {
        self.components.remove_all_components(entity);
        self.entities.destroy(entity);
    }

    /// Gives `entity` the component `component`, in place of the one of the
    /// same type that it had. Whether `entity` is live is not looked at.
    pub fn add_component<T: Component>(&mut self, entity: Entity, component: T)
        ensures
            final(self).wf() == old(self).wf(),
            final(self).has_stored::<T>(*old(self), old(self).with_component(entity, component)),
    {
        self.components.add_component(entity, component);
    }

    /// The component of type `T` that `entity` has.
    pub fn get_component<T: Component>(&self, entity: Entity) -> (component: Option<&T>)
        ensures
            match component {
                Some(c) => self.component::<T>(entity) == Some(*c),
                None => self.component::<T>(entity) is None,
            },
    {
        match self.components.get_storage::<T>() {
            Some(storage) => storage.get(entity),
            None => None,
        }
    }

    /// The component of type `T` that `entity` has, to write to. The world
    /// changes in that component only, and only as far as the caller writes
    /// to it.
    pub fn get_component_mut<T: Component>(&mut self, entity: Entity) -> (component: Option<&mut T>)
        ensures
            final(self).wf() == old(self).wf(),
            match component {
                Some(c) => {
                    &&& old(self).component::<T>(entity) == Some(*c)
                    &&& final(self).has_stored::<T>(
                        *old(self),
                        old(self).with_component(entity, *final(c)),
                    )
                },
                None => {
                    &&& old(self).component::<T>(entity) is None
                    &&& final(self).components().storage::<T>() == old(
                        self,
                    ).components().storage::<T>()
                    &&& final(self).components().is_same_but::<T>(old(self).components())
                    &&& final(self).entities() == old(self).entities()
                    &&& final(self).events() == old(self).events()
                },
            },
    {
        match self.components.get_storage_mut::<T>() {
            Some(storage) => storage.get_mut(entity),
            None => None,
        }
    }

    /// The events of type `E` that wait, oldest first. None waits afterwards.
    #[verifier::loop_isolation(false)]
    pub fn take_events<E: Event>(&mut self) -> (events: Vec<E>)
        ensures
            final(self).wf() == old(self).wf(),
            events@ == old(self).waiting::<E>(),
            final(self).has_drained::<E>(*old(self)),
    {
        let mut events: Vec<E> = Vec::new();
        if let Some(queue) = self.events.get_queue_mut::<E>() {
            let ghost waiting = queue@;
            loop
                invariant
                    events@ + queue@ == waiting,
                decreases queue@.len(),
            {
                match queue.pop() {
                    Some(event) => {
                        events.push(event);
                        assert(events@ + queue@ =~= waiting);
                    },
                    None => {
                        assert(events@ =~= waiting);
                        break ;
                    },
                }
            }
        }
        events
    }

    /// The entities that have a component of type `T`, each once, in no
    /// particular order.
    pub fn query_entities<T: Component>(&self) -> (entities: Vec<Entity>)
        ensures
            entities@.to_set() == self.holders::<T>(),
            entities@.no_duplicates(),
    {
        match self.components.get_storage::<T>() {
            Some(storage) => storage.entities(),
            None => {
                let entities: Vec<Entity> = Vec::new();
                assert(entities@.to_set() =~= Set::<Entity>::empty());
                entities
            },
        }
    }

    /// Makes `event` the last of the events of its type that wait.
    pub fn push_event<E: Event>(&mut self, event: E)
        ensures
            final(self).wf() == old(self).wf(),
            final(self).has_queued::<E>(*old(self), old(self).waiting::<E>().push(event)),
    {
        self.events.push(event);
    }
}

/// A new world has no component and no event.
pub proof fn lemma_new_world_is_empty<T: Component, E: Event>(world: World, entity: Entity)
    requires
        world.components()@.len() == 0,
        world.events()@.len() == 0,
    ensures
        world.component::<T>(entity) is None,
        world.holders::<T>() == Set::<Entity>::empty(),
        world.waiting::<E>() == Seq::<E>::empty(),
{
    lemma_empty_has_no_storage::<T>(world.components());
    lemma_empty_has_no_queue::<E>(world.events());
}

/// A component that was added, or written through a mutable reference, is
/// the one that is read back; the entity is among the holders of the type
/// from then on, and the components of that type that other entities have
/// are as they were.
pub proof fn lemma_stored_component_is_read_back<T: Component>(
    after: World,
    before: World,
    entity: Entity,
    component: T,
)
    requires
        after.has_stored::<T>(before, before.with_component(entity, component)),
    ensures
        after.component::<T>(entity) == Some(component),
        after.holders::<T>() == before.holders::<T>().insert(entity),
        forall|other: Entity|
            other != entity ==> #[trigger] after.component::<T>(other) == before.component::<T>(
                other,
            ),
{
    assert(after.holders::<T>() =~= before.holders::<T>().insert(entity));
}

/// Storing a component of type `T` leaves the components of type `U` as they
/// were, where the two types are told apart, or where `T` had no store and
/// `U` had one.
pub proof fn lemma_stored_component_keeps_other_types<T: Component, U: Component>(
    after: World,
    before: World,
    content: Map<Entity, T>,
    entity: Entity,
)
    requires
        after.has_stored::<T>(before, content),
        are_distinct::<T, U>() || (!before.components().is_registered::<T>()
            && before.components().is_registered::<U>()),
    ensures
        after.component::<U>(entity) == before.component::<U>(entity),
        after.holders::<U>() == before.holders::<U>(),
{
    lemma_other_type_is_kept::<T, U>(after.components(), before.components());
}

/// After an entity is destroyed it has no component of any type `T`, it is
/// not among the holders of `T`, and no other entity has become or ceased to
/// be one. Where the store of `T` was known exactly, the components of the
/// other entities are as they were.
pub proof fn lemma_destroyed_entity_has_no_component<T: Component>(
    after: World,
    before: World,
    entity: Entity,
)
    requires
        after.has_destroyed(before, entity),
    ensures
        after.component::<T>(entity) is None,
        after.holders::<T>() == before.holders::<T>().remove(entity),
        after.components().is_registered::<T>() == before.components().is_registered::<T>(),
        before.components().is_exact::<T>() ==> after.components().is_exact::<T>() && forall|
            other: Entity,
        |
            other != entity ==> #[trigger] after.component::<T>(other) == before.component::<T>(
                other,
            ),
{
    lemma_sweep_by_type::<T>(after.components(), before.components(), entity);
    assert(after.holders::<T>() =~= before.holders::<T>().remove(entity));
}

/// Publishing or taking events of type `E` leaves the events of type `F`
/// that wait as they were, where the two types are told apart, or where `E`
/// had no queue and `F` had one.
pub proof fn lemma_events_of_other_types_are_kept<E: Event, F: Event>(after: World, before: World)
    requires
        after.events().is_same_but::<E>(before.events()),
        crate::event::are_distinct::<E, F>() || (!before.events().is_registered::<E>()
            && before.events().is_registered::<F>()),
    ensures
        after.waiting::<F>() == before.waiting::<F>(),
{
    crate::event::lemma_other_type_is_kept::<E, F>(after.events(), before.events());
}

/// Events are taken in the order in which they were published. Where three
/// are published one after the other, what waits then, and is handed out by
/// the next taking, is what waited before and then the three in that order;
/// a second taking right after the first finds nothing.
pub proof fn lemma_events_wait_in_publish_order<E: Event>(
    start: World,
    first: World,
    second: World,
    third: World,
    drained: World,
    a: E,
    b: E,
    c: E,
)
    requires
        first.has_queued::<E>(start, start.waiting::<E>().push(a)),
        second.has_queued::<E>(first, first.waiting::<E>().push(b)),
        third.has_queued::<E>(second, second.waiting::<E>().push(c)),
        drained.has_drained::<E>(third),
    ensures
        third.waiting::<E>() == start.waiting::<E>() + seq![a, b, c],
        start.waiting::<E>().len() == 0 ==> third.waiting::<E>() == seq![a, b, c],
        drained.waiting::<E>() == Seq::<E>::empty(),
{
    assert(third.waiting::<E>() =~= start.waiting::<E>() + seq![a, b, c]);
    if start.waiting::<E>().len() == 0 {
        assert(third.waiting::<E>() =~= seq![a, b, c]);
    }
}

} // verus!
