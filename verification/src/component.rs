//! Typed component stores, and the manager that keeps one for each
//! component type.
//!
//! A store is typed: [`HashMapComponentStorage<T>`] maps entities to values
//! of `T`. The manager keeps stores of many types in one list, each behind a
//! [`StorageSlot`] that has forgotten the type. What a slot holds is told in
//! two ways. Without the type, through [`ComponentStorage`]: which entities
//! have an entry, and what is left, the type forgotten, when some entries
//! are dropped. With the type, through `StorageSlot::typed`, which reads the
//! slot back as a map from entities to values of `T`. The two casts that
//! recover a typed store at run time connect them.

use crate::entity::Entity;
use crate::erasure::{
    any_mut_to, any_ref_to, erased, first_marked, is_first_marked, lemma_first_marked_exists,
    lemma_first_marked_is_unique, lemma_first_marked_push, AnyMut, AnyRef, Erased,
};
use std::collections::HashMap;
use vstd::prelude::*;
use vstd::std_specs::iter::IteratorSpec;

verus! {

/// Anything that owns its data can be a component.
pub trait Component: 'static {

}

impl<T: 'static> Component for T {

}

/// The number under which a handle is filed: the id in the upper half, the
/// generation in the lower half.
pub open spec fn entity_key(entity: Entity) -> u64 {
    (entity.id as int * 0x1_0000_0000 + entity.generation as int) as u64
}

/// The handle that is filed under `key`.
pub open spec fn key_entity(key: u64) -> Entity {
    Entity { id: (key / 0x1_0000_0000) as u32, generation: (key % 0x1_0000_0000) as u32 }
}

/// Handles and keys correspond one to one.
pub proof fn lemma_entity_key_bijective(entity: Entity, key: u64)
    ensures
        key_entity(entity_key(entity)) == entity,
        entity_key(key_entity(key)) == key,
{
}

fn key_of(entity: Entity) -> (key: u64)
    ensures
        key == entity_key(entity),
{
    entity.id as u64 * 0x1_0000_0000 + entity.generation as u64
}

fn entity_of(key: u64) -> (entity: Entity)
    ensures
        entity == key_entity(key),
{
    Entity { id: (key / 0x1_0000_0000) as u32, generation: (key % 0x1_0000_0000) as u32 }
}

/// The components of one type, each filed under the entity it belongs to.
pub struct HashMapComponentStorage<T: Component> {
    components: HashMap<u64, T>,
}

impl<T: Component> View for HashMapComponentStorage<T> {
    type V = Map<Entity, T>;

    closed spec fn view(&self) -> Map<Entity, T> {
        Map::new(
            |entity: Entity| self.components@.contains_key(entity_key(entity)),
            |entity: Entity| self.components@[entity_key(entity)],
        )
    }
}

/// `HashMap::get_mut`: a mutable reference to the value under `key`, if
/// there is one. The map changes in that value only, and only as far as the
/// caller writes through the reference.
#[verifier::external_body]
fn value_mut<T>(map: &mut HashMap<u64, T>, key: u64) -> (value: Option<&mut T>)
    ensures
        match value {
            Some(v) => {
                &&& old(map)@.contains_key(key)
                &&& *v == old(map)@[key]
                &&& final(map)@ == old(map)@.insert(key, *final(v))
            },
            None => !old(map)@.contains_key(key) && final(map)@ == old(map)@,
        },
{
    map.get_mut(&key)
}

impl<T: Component> HashMapComponentStorage<T> {
    pub fn new() -> (storage: Self)
        ensures
            storage@ == Map::<Entity, T>::empty(),
    {
        let storage = Self { components: HashMap::new() };
        assert(storage@ =~= Map::<Entity, T>::empty());
        storage
    }

    /// Files `component` under `entity`, in place of what was there.
    pub fn insert(&mut self, entity: Entity, component: T)
        ensures
            final(self)@ == old(self)@.insert(entity, component),
    {
        let key: u64 = key_of(entity);
        self.components.insert(key, component);
        assert(final(self)@ =~= old(self)@.insert(entity, component)) by {
            assert forall|other: Entity| other != entity implies entity_key(other) != key by {
                lemma_entity_key_bijective(other, key);
                lemma_entity_key_bijective(entity, key);
            }
        }
    }

    pub fn get(&self, entity: Entity) -> (component: Option<&T>)
        ensures
            match component {
                Some(c) => self@.contains_key(entity) && *c == self@[entity],
                None => !self@.contains_key(entity),
            },
    {
        let key: u64 = key_of(entity);
        self.components.get(&key)
    }

    /// A mutable reference to the component of `entity`. The store changes in
    /// that component only, and only as far as the caller writes through the
    /// reference.
    pub fn get_mut(&mut self, entity: Entity) -> (component: Option<&mut T>)
        ensures
            match component {
                Some(c) => {
                    &&& old(self)@.contains_key(entity)
                    &&& *c == old(self)@[entity]
                    &&& final(self)@ =~= old(self)@.insert(entity, *final(c))
                },
                None => !old(self)@.contains_key(entity) && final(self)@ =~= old(self)@,
            },
    {
        let key: u64 = key_of(entity);
        proof {
            assert forall|other: Entity| other != entity implies entity_key(other) != key by {
                lemma_entity_key_bijective(other, key);
                lemma_entity_key_bijective(entity, key);
            }
        }
        value_mut(&mut self.components, key)
    }

    /// The entities that have a component here, each once, in no particular
    /// order.
    pub fn entities(&self) -> (entities: Vec<Entity>)
        ensures
            entities@.to_set() == self@.dom(),
            entities@.no_duplicates(),
    {
        let mut found: Vec<Entity> = Vec::new();
        for key in it: self.components.keys()
            invariant
                found@.len() == it.index(),
                forall|j: int| 0 <= j < found@.len() ==> found@[j] == key_entity(*it.seq()[j]),
        {
            found.push(entity_of(*key));
        }
        proof {
            let keys = self.components.keys().remaining().unref();
            assert(keys.to_set() == self.components@.dom());
            assert forall|j: int| 0 <= j < found@.len() implies found@[j] == key_entity(
                keys[j],
            ) && entity_key(found@[j]) == keys[j] by {
                lemma_entity_key_bijective(found@[j], keys[j]);
            }
            assert forall|entity: Entity| found@.to_set().contains(entity) implies self@.dom().contains(
                entity,
            ) by {
                let j = choose|j: int| 0 <= j < found@.len() && found@[j] == entity;
                assert(keys.to_set().contains(keys[j]));
            }
            assert forall|entity: Entity| self@.dom().contains(entity) implies found@.to_set().contains(
                entity,
            ) by {
                let key = entity_key(entity);
                assert(keys.to_set().contains(key));
                let j = choose|j: int| 0 <= j < keys.len() && keys[j] == key;
                lemma_entity_key_bijective(entity, key);
                assert(found@[j] == entity);
            }
            assert(found@.to_set() =~= self@.dom());
        }
        found
    }
}

/// What the manager asks of a store without knowing its component type.
pub trait ComponentStorage {
    /// The entities that have a component in this store.
    spec fn holders(&self) -> Set<Entity>;

    /// What tells the stores of one component type from those of another:
    /// the empty store of this one's type, the type forgotten.
    spec fn kind(&self) -> Erased;

    /// What the store holds once the components of the entities in `gone`
    /// are left out, the type forgotten.
    spec fn erased_without(&self, gone: Set<Entity>) -> Erased;

    /// This store itself, its type forgotten.
    spec fn as_erased(&self) -> Erased;

    /// A reference to this store, for a cast that gets the typed store back.
    fn as_any(&self) -> (any: AnyRef<'_>)
        ensures
            any == any_ref_to(self.as_erased()),
    ;

    /// A mutable reference to this store, for a cast that gets the typed
    /// store back: the store is afterwards what was written through it.
    fn as_any_mut(&mut self) -> (any: AnyMut<'_>)
        ensures
            any == any_mut_to(old(self).as_erased(), final(self).as_erased()),
    ;

    /// Takes out the component of `entity`, if there is one.
    fn remove(&mut self, entity: Entity)
        ensures
            final(self).kind() == old(self).kind(),
            final(self).holders() == old(self).holders().remove(entity),
            forall|gone: Set<Entity>| #[trigger]
                final(self).erased_without(gone) == old(self).erased_without(gone.insert(entity)),
    ;
}

impl<T: Component> ComponentStorage for HashMapComponentStorage<T> {
    open spec fn holders(&self) -> Set<Entity> {
        self@.dom()
    }

    open spec fn kind(&self) -> Erased {
        erased(Map::<Entity, T>::empty())
    }

    open spec fn erased_without(&self, gone: Set<Entity>) -> Erased {
        erased(self@.remove_keys(gone))
    }

    open spec fn as_erased(&self) -> Erased {
        erased(*self)
    }

    fn as_any(&self) -> (any: AnyRef<'_>) {
        AnyRef::of(self)
    }

    fn as_any_mut(&mut self) -> (any: AnyMut<'_>) {
        AnyMut::of(self)
    }

    fn remove(&mut self, entity: Entity)
        ensures
            final(self)@ == old(self)@.remove(entity),
    {
        let key: u64 = key_of(entity);
        self.components.remove(&key);
        assert(final(self)@ =~= old(self)@.remove(entity)) by {
            assert forall|other: Entity| other != entity implies entity_key(other) != key by {
                lemma_entity_key_bijective(other, key);
                lemma_entity_key_bijective(entity, key);
            }
        }
        assert forall|gone: Set<Entity>| #[trigger]
            final(self).erased_without(gone) == old(self).erased_without(gone.insert(entity)) by {
            assert(final(self)@.remove_keys(gone) =~= old(self)@.remove_keys(gone.insert(entity)));
        }
    }
}

/// One store of the manager, its component type forgotten.
pub struct StorageSlot {
    storage: Box<dyn ComponentStorage>,
}

impl StorageSlot {
    /// The slot is a store of components of type `T`.
    pub closed spec fn is_of<T: Component>(&self) -> bool {
        self.storage.kind() == erased(Map::<Entity, T>::empty())
    }

    /// The entities that have a component in this slot's store.
    pub closed spec fn holders(&self) -> Set<Entity> {
        self.storage.holders()
    }

    /// The slot is a store of type `T` whose content is `content`.
    pub closed spec fn holds<T: Component>(&self, content: Map<Entity, T>) -> bool {
        &&& self.is_of::<T>()
        &&& self.storage.holders() == content.dom()
        &&& forall|gone: Set<Entity>| #[trigger]
            self.storage.erased_without(gone) == erased(content.remove_keys(gone))
    }

    /// The slot holds `content` and nothing else of type `T`: whatever part
    /// of the store is looked at, that part of `content` is what is there.
    pub closed spec fn holds_only<T: Component>(&self, content: Map<Entity, T>) -> bool {
        &&& self.holds(content)
        &&& forall|gone: Set<Entity>, other: Map<Entity, T>|
            #![trigger self.storage.erased_without(gone), erased(other)]
            self.storage.erased_without(gone) == erased(other) ==> other == content.remove_keys(
                gone,
            )
    }

    /// The slot's content is known exactly when it is read as a store of
    /// `T`: it holds nothing, or it holds some content and no other.
    pub closed spec fn is_exact<T: Component>(&self) -> bool {
        self.holds(Map::<Entity, T>::empty()) || exists|content: Map<Entity, T>|
            self.holds_only(content)
    }

    /// The slot's content, read as a store of `T`.
    pub closed spec fn typed<T: Component>(&self) -> Map<Entity, T> {
        let content = choose|content: Map<Entity, T>| self.holds(content);
        Map::new(|entity: Entity| self.storage.holders().contains(entity), |entity: Entity| content[entity])
    }

    /// This slot is what `before` becomes when the component of `entity` is
    /// taken out of it.
    pub closed spec fn follows(&self, before: StorageSlot, entity: Entity) -> bool {
        &&& self.storage.kind() == before.storage.kind()
        &&& self.storage.holders() == before.storage.holders().remove(entity)
        &&& forall|gone: Set<Entity>| #[trigger]
            self.storage.erased_without(gone) == before.storage.erased_without(gone.insert(entity))
    }

    /// A store of components of type `T` is no store of a type that is told
    /// apart from `T`.
    pub proof fn lemma_one_kind<T: Component, U: Component>(&self)
        requires
            self.is_of::<T>(),
            are_distinct::<T, U>(),
        ensures
            !self.is_of::<U>(),
    {
    }

    /// A slot that holds exactly `content` reads back as `content`.
    pub proof fn lemma_typed<T: Component>(&self, content: Map<Entity, T>)
        requires
            self.holds_only(content),
        ensures
            self.typed::<T>() == content,
            self.is_exact::<T>(),
            self.is_of::<T>(),
    {
        let chosen = choose|chosen: Map<Entity, T>| self.holds(chosen);
        assert(self.storage.erased_without(Set::empty()) == erased(chosen.remove_keys(Set::empty())));
        assert(chosen.remove_keys(Set::empty()) == content.remove_keys(Set::empty()));
        assert(chosen.remove_keys(Set::empty()) =~= chosen);
        assert(content.remove_keys(Set::empty()) =~= content);
        assert(self.typed::<T>() =~= content);
    }

    /// A slot whose store has no component reads back as the empty map.
    pub proof fn lemma_typed_empty<T: Component>(&self)
        requires
            self.holds(Map::<Entity, T>::empty()),
        ensures
            self.typed::<T>() == Map::<Entity, T>::empty(),
            self.is_exact::<T>(),
            self.is_of::<T>(),
    {
        assert(self.typed::<T>() =~= Map::<Entity, T>::empty());
    }

    /// Taking the component of one entity out of a slot keeps the slot's
    /// type and takes the entity out of what it reads back as; where the
    /// content was known exactly, it still is.
    pub proof fn lemma_follows<T: Component>(&self, before: StorageSlot, entity: Entity)
        requires
            self.follows(before, entity),
        ensures
            self.is_of::<T>() == before.is_of::<T>(),
            self.typed::<T>().dom() == before.typed::<T>().dom().remove(entity),
            before.is_exact::<T>() ==> self.is_exact::<T>() && self.typed::<T>()
                == before.typed::<T>().remove(entity),
    {
        assert(self.typed::<T>().dom() =~= before.typed::<T>().dom().remove(entity));
        if before.holds(Map::<Entity, T>::empty()) {
            let nothing = Map::<Entity, T>::empty();
            before.lemma_typed_empty::<T>();
            assert forall|gone: Set<Entity>| #[trigger]
                self.storage.erased_without(gone) == erased(nothing.remove_keys(gone)) by {
                assert(nothing.remove_keys(gone) =~= nothing.remove_keys(gone.insert(entity)));
            }
            assert(self.storage.holders() =~= nothing.dom());
            assert(self.holds(nothing));
            self.lemma_typed_empty::<T>();
            assert(nothing.remove(entity) =~= nothing);
        } else if before.is_exact::<T>() {
            let content = choose|content: Map<Entity, T>| before.holds_only(content);
            before.lemma_typed(content);
            let rest = content.remove(entity);
            assert forall|gone: Set<Entity>| #[trigger]
                self.storage.erased_without(gone) == erased(rest.remove_keys(gone)) by {
                assert(rest.remove_keys(gone) =~= content.remove_keys(gone.insert(entity)));
            }
            assert forall|gone: Set<Entity>, other: Map<Entity, T>|
                #![trigger self.storage.erased_without(gone), erased(other)]
                self.storage.erased_without(gone) == erased(other) implies other
                == rest.remove_keys(gone) by {
                assert(before.storage.erased_without(gone.insert(entity)) == erased(other));
                assert(rest.remove_keys(gone) =~= content.remove_keys(gone.insert(entity)));
            }
            assert(self.holds_only(rest));
            self.lemma_typed(rest);
        }
    }

    /// Puts a store behind a slot.
    fn of<T: Component>(storage: HashMapComponentStorage<T>) -> (slot: StorageSlot)
        ensures
            slot.holds(storage@),
    {
        StorageSlot { storage: Box::new(storage) }
    }

    /// `<dyn Any>::downcast_ref`, applied to what `as_any` hands out for the
    /// store behind the slot. What is claimed of it:
    /// the cast succeeds exactly when the slot is a store of `T` (a slot is
    /// only ever made by `of`, from a store of some component type, and
    /// `Any` tells two types apart exactly when they differ); and the store
    /// that comes back is the one behind the slot, so that what the slot
    /// says of itself without the type is what this store says, and no other
    /// content of type `T` would look the same with the type forgotten.
    #[verifier::external_body]
    fn downcast<T: Component>(&self) -> (found: Option<&HashMapComponentStorage<T>>)
        ensures
            match found {
                Some(storage) => self.holds_only(storage@),
                None => !self.is_of::<T>(),
            },
    {
        self.storage.as_any().target.downcast_ref::<HashMapComponentStorage<T>>()
    }

    /// `<dyn Any>::downcast_mut`, applied to what `as_any_mut` hands out for
    /// the store behind the slot. What is claimed of it is what is claimed
    /// of `downcast`, and further: the reference points into the slot, so
    /// what the store is when the caller lets go of the reference is what
    /// the slot holds from then on; and where the cast fails the slot is
    /// left as it is.
    #[verifier::external_body]
    fn downcast_mut<T: Component>(&mut self) -> (found: Option<&mut HashMapComponentStorage<T>>)
        ensures
            match found {
                Some(storage) => old(self).holds_only(storage@) && final(self).holds_only(
                    final(storage)@,
                ),
                None => !old(self).is_of::<T>() && *final(self) == *old(self),
            },
    {
        self.storage.as_any_mut().target.downcast_mut::<HashMapComponentStorage<T>>()
    }
}

/// For each of `slots`, whether it is a store of `T`.
pub open spec fn kinds<T: Component>(slots: Seq<StorageSlot>) -> Seq<bool> {
    Seq::new(slots.len(), |j: int| slots[j].is_of::<T>())
}

/// Where the store of `T` stands among `slots`, if there is one: the first
/// slot that is a store of `T`.
pub open spec fn slot_of<T: Component>(slots: Seq<StorageSlot>) -> Option<int> {
    first_marked(kinds::<T>(slots))
}

/// The component types `T` and `U` are told apart: a store of the one is no
/// store of the other.
pub open spec fn are_distinct<T: Component, U: Component>() -> bool {
    erased(Map::<Entity, T>::empty()) != erased(Map::<Entity, U>::empty())
}

/// `after` is `before` with the slot at `index` written anew.
pub open spec fn is_rewritten_at(after: Seq<StorageSlot>, before: Seq<StorageSlot>, index: int) -> bool {
    &&& after.len() == before.len()
    &&& forall|j: int| 0 <= j < before.len() && j != index ==> #[trigger] after[j] == before[j]
}

/// Keeps one store for each component type that was registered or used.
pub struct ComponentManager {
    storages: Vec<StorageSlot>,
}

impl View for ComponentManager {
    type V = Seq<StorageSlot>;

    closed spec fn view(&self) -> Seq<StorageSlot> {
        self.storages@
    }
}

impl ComponentManager {
    /// There is a store for components of type `T`.
    pub open spec fn is_registered<T: Component>(&self) -> bool {
        slot_of::<T>(self@) is Some
    }

    /// What the store of `T` holds, if there is one.
    pub open spec fn storage<T: Component>(&self) -> Option<Map<Entity, T>> {
        match slot_of::<T>(self@) {
            Some(index) => Some(self@[index].typed::<T>()),
            None => None,
        }
    }

    /// The content of the store of `T`, if there is one, is known exactly.
    /// Every operation that reads or writes the store of `T` leaves this
    /// true, and a sweep keeps it true.
    pub open spec fn is_exact<T: Component>(&self) -> bool {
        match slot_of::<T>(self@) {
            Some(index) => self@[index].is_exact::<T>(),
            None => true,
        }
    }

    /// This manager is what `before` becomes when every component of
    /// `entity` is taken out: the same stores, each without the entry of
    /// `entity`.
    pub open spec fn is_swept(&self, before: ComponentManager, entity: Entity) -> bool {
        &&& self@.len() == before@.len()
        &&& forall|j: int| 0 <= j < self@.len() ==> (#[trigger] self@[j]).follows(before@[j], entity)
    }

    /// This manager is `before` but for the store of `T`. Where `before` had
    /// one, it stands where it stood and every other store is as it was;
    /// where it had none, one was put behind the others.
    pub open spec fn is_same_but<T: Component>(&self, before: ComponentManager) -> bool {
        match slot_of::<T>(before@) {
            Some(index) => slot_of::<T>(self@) == Some(index) && is_rewritten_at(
                self@,
                before@,
                index,
            ),
            None => self@ == before@ || (self@.len() == before@.len() + 1 && self@.drop_last()
                == before@ && self@.last().is_of::<T>()),
        }
    }

    pub fn new() -> (manager: Self)
        ensures
            manager@.len() == 0,
    {
        Self { storages: Vec::new() }
    }

    /// Where the store of `T` stands, found by asking each slot in turn.
    fn position<T: Component>(&self) -> (found: Option<usize>)
        ensures
            match found {
                Some(index) => slot_of::<T>(self@) == Some(index as int) && self@[index as int].is_exact::<T>(),
                None => slot_of::<T>(self@) is None,
            },
    {
        let mut index: usize = 0;
        while index < self.storages.len()
            invariant
                index <= self.storages@.len(),
                forall|j: int| 0 <= j < index ==> !(#[trigger] self.storages@[j]).is_of::<T>(),
            decreases self.storages@.len() - index,
        {
            if let Some(storage) = self.storages[index].downcast::<T>() {
                proof {
                    self.storages@[index as int].lemma_typed(storage@);
                    assert(is_first_marked(kinds::<T>(self@), index as int));
                    lemma_first_marked_is_unique(kinds::<T>(self@), index as int);
                }
                return Some(index);
            }
            index += 1;
        }
        proof {
            lemma_first_marked_exists(kinds::<T>(self@));
        }
        None
    }

    /// Makes an empty store for components of type `T`, unless there is one.
    pub fn register<T: Component>(&mut self)
        ensures
            final(self).is_registered::<T>(),
            final(self).is_same_but::<T>(*old(self)),
            final(self).storage::<T>() == (match old(self).storage::<T>() {
                Some(content) => Some(content),
                None => Some(Map::<Entity, T>::empty()),
            }),
            final(self).is_exact::<T>(),
            old(self).is_registered::<T>() ==> final(self)@ == old(self)@,
    {
        if self.position::<T>().is_none() {
            let slot = StorageSlot::of(HashMapComponentStorage::<T>::new());
            self.storages.push(slot);
            proof {
                slot.lemma_typed_empty::<T>();
                assert(kinds::<T>(self@) =~= kinds::<T>(old(self)@).push(true));
                lemma_first_marked_push(kinds::<T>(old(self)@), true);
                assert(self@.drop_last() =~= old(self)@);
            }
        }
    }

    /// The store of `T`, if there is one.
    pub fn get_storage<T: Component>(&self) -> (found: Option<&HashMapComponentStorage<T>>)
        ensures
            match found {
                Some(storage) => self.storage::<T>() == Some(storage@) && self.is_exact::<T>(),
                None => !self.is_registered::<T>(),
            },
    {
        match self.position::<T>() {
            Some(index) => {
                let found = self.storages[index].downcast::<T>();
                proof {
                    lemma_first_marked_exists(kinds::<T>(self@));
                    if let Some(storage) = found {
                        self.storages@[index as int].lemma_typed(storage@);
                    }
                }
                found
            },
            None => None,
        }
    }

    /// The store of `T`, if there is one, to write to. The manager changes
    /// in that store only, and only as far as the caller writes to it.
    pub fn get_storage_mut<T: Component>(&mut self) -> (found: Option<
        &mut HashMapComponentStorage<T>,
    >)
        ensures
            final(self).is_same_but::<T>(*old(self)),
            match found {
                Some(storage) => {
                    &&& old(self).storage::<T>() == Some(storage@)
                    &&& final(self).storage::<T>() == Some(final(storage)@)
                    &&& final(self).is_exact::<T>()
                },
                None => !old(self).is_registered::<T>() && final(self)@ == old(self)@,
            },
    {
        match self.position::<T>() {
            Some(index) => {
                proof {
                    let before = self@;
                    lemma_first_marked_exists(kinds::<T>(before));
                    assert forall|slot: StorageSlot, content: Map<Entity, T>| #[trigger]
                        slot.holds_only(content) implies slot.typed::<T>() == content
                        && slot.is_exact::<T>() && slot.is_of::<T>() by {
                        slot.lemma_typed(content);
                    }
                    assert forall|after: Seq<StorageSlot>|
                        is_rewritten_at(after, before, index as int) && after[index as int].is_of::<
                            T,
                        >() implies #[trigger] slot_of::<T>(after) == Some(index as int) by {
                        assert(kinds::<T>(after) =~= kinds::<T>(before));
                    }
                }
                self.storages[index].downcast_mut::<T>()
            },
            None => None,
        }
    }

    /// Files `component` under `entity` in the store of `T`, in place of
    /// what was there; the store is made first if there is none. Whether
    /// `entity` is live is not looked at.
    pub fn add_component<T: Component>(&mut self, entity: Entity, component: T)
        ensures
            final(self).is_same_but::<T>(*old(self)),
            final(self).storage::<T>() == Some(
                match old(self).storage::<T>() {
                    Some(content) => content.insert(entity, component),
                    None => Map::<Entity, T>::empty().insert(entity, component),
                },
            ),
            final(self).is_exact::<T>(),
    {
        self.register::<T>();
        let ghost registered = *self;
        if let Some(storage) = self.get_storage_mut::<T>() {
            storage.insert(entity, component);
        }
        proof {
            lemma_same_but_twice::<T>(*self, registered, *old(self));
        }
    }

    /// Takes the components of `entity` out of every store, whatever its
    /// type.
    pub fn remove_all_components(&mut self, entity: Entity)
        ensures
            final(self).is_swept(*old(self), entity),
    {
        let mut index: usize = 0;
        while index < self.storages.len()
            invariant
                index <= self.storages@.len(),
                self.storages@.len() == old(self).storages@.len(),
                forall|j: int|
                    0 <= j < index ==> (#[trigger] self.storages@[j]).follows(
                        old(self).storages@[j],
                        entity,
                    ),
                forall|j: int|
                    index <= j < self.storages@.len() ==> #[trigger] self.storages@[j] == old(
                        self,
                    ).storages@[j],
            decreases self.storages@.len() - index,
        {
            self.storages[index].storage.remove(entity);
            index += 1;
        }
    }
}

/// A manager without stores has no store of any type.
pub proof fn lemma_empty_has_no_storage<T: Component>(manager: ComponentManager)
    requires
        manager@.len() == 0,
    ensures
        !manager.is_registered::<T>(),
        manager.storage::<T>() is None,
{
    lemma_first_marked_exists(kinds::<T>(manager@));
}

/// Two changes to the store of `T`, one after the other, are one change to
/// the store of `T`.
pub proof fn lemma_same_but_twice<T: Component>(
    last: ComponentManager,
    middle: ComponentManager,
    first: ComponentManager,
)
    requires
        middle.is_same_but::<T>(first),
        last.is_same_but::<T>(middle),
    ensures
        last.is_same_but::<T>(first),
{
    lemma_first_marked_exists(kinds::<T>(first@));
    lemma_first_marked_exists(kinds::<T>(middle@));
    lemma_first_marked_exists(kinds::<T>(last@));
    match slot_of::<T>(first@) {
        Some(index) => {},
        None => {
            if middle@ != first@ {
                assert(kinds::<T>(middle@) =~= kinds::<T>(first@).push(true));
                lemma_first_marked_push(kinds::<T>(first@), true);
                assert(last@.drop_last() =~= first@);
            }
        },
    }
}

/// A change to the store of `T` leaves the store of `U` as it was, where the
/// two types are told apart, or where the one was new and the other was
/// there.
pub proof fn lemma_other_type_is_kept<T: Component, U: Component>(
    after: ComponentManager,
    before: ComponentManager,
)
    requires
        after.is_same_but::<T>(before),
        are_distinct::<T, U>() || (!before.is_registered::<T>() && before.is_registered::<U>()),
    ensures
        after.is_registered::<U>() == before.is_registered::<U>(),
        after.storage::<U>() == before.storage::<U>(),
        after.is_exact::<U>() == before.is_exact::<U>(),
{
    lemma_first_marked_exists(kinds::<T>(before@));
    lemma_first_marked_exists(kinds::<T>(after@));
    lemma_first_marked_exists(kinds::<U>(before@));
    lemma_first_marked_exists(kinds::<U>(after@));
    match slot_of::<T>(before@) {
        Some(index) => {
            before@[index].lemma_one_kind::<T, U>();
            after@[index].lemma_one_kind::<T, U>();
            assert(kinds::<U>(after@) =~= kinds::<U>(before@));
        },
        None => {
            if after@ != before@ {
                let mark = after@.last().is_of::<U>();
                if are_distinct::<T, U>() {
                    after@.last().lemma_one_kind::<T, U>();
                }
                assert(kinds::<U>(after@) =~= kinds::<U>(before@).push(mark));
                lemma_first_marked_push(kinds::<U>(before@), mark);
            }
        },
    }
}

/// What a sweep does to the store of any one type `T`: the store stays
/// registered, the entity has no component in it afterwards, and no other
/// entity gains or loses one; where the content was known exactly, it is the
/// old content without the entity's entry.
pub proof fn lemma_sweep_by_type<T: Component>(
    after: ComponentManager,
    before: ComponentManager,
    entity: Entity,
)
    requires
        after.is_swept(before, entity),
    ensures
        after.is_registered::<T>() == before.is_registered::<T>(),
        after.storage::<T>() matches Some(content) ==> !content.contains_key(entity)
            && content.dom() == before.storage::<T>().unwrap().dom().remove(entity),
        before.is_exact::<T>() ==> after.is_exact::<T>() && after.storage::<T>() == (
        match before.storage::<T>() {
            Some(content) => Some(content.remove(entity)),
            None => None,
        }),
{
    assert forall|j: int| 0 <= j < after@.len() implies (#[trigger] after@[j]).is_of::<T>()
        == before@[j].is_of::<T>() by {
        after@[j].lemma_follows::<T>(before@[j], entity);
    }
    assert(kinds::<T>(after@) =~= kinds::<T>(before@));
    if let Some(index) = slot_of::<T>(before@) {
        lemma_first_marked_exists(kinds::<T>(before@));
        after@[index].lemma_follows::<T>(before@[index], entity);
    }
}

} // verus!
