//! Per-type component storage.
use crate::component::{ComponentTypeId, ErasedComponent};
use crate::entity::Entity;
use std::collections::hash_map::Entry;
use std::collections::HashMap;
use vstd::prelude::*;

verus! {

/// Holds the components of one component type, at most one per entity.
pub struct ComponentStorage<C> {
    type_id: ComponentTypeId,
    storage: HashMap<u32, C>,
}

impl<C> View for ComponentStorage<C> {
    type V = Map<Entity, C>;

    /// The component held for each entity that has one.
    closed spec fn view(&self) -> Map<Entity, C> {
        Map::new(|e: Entity| self.storage@.contains_key(e.id), |e: Entity| self.storage@[e.id])
    }
}

impl<C> ComponentStorage<C> {
    /// The component type this storage was made for.
    pub closed spec fn spec_type_id(&self) -> ComponentTypeId {
        self.type_id
    }

    /// An empty storage for components of type `type_id`.
    pub fn new(type_id: ComponentTypeId) -> (storage: Self)
        ensures
            storage.spec_type_id() == type_id,
            storage@ == Map::<Entity, C>::empty(),
    {
        Self { type_id, storage: HashMap::new() }
    }

    /// The component type this storage was made for.
    #[verifier::when_used_as_spec(spec_type_id)]
    pub fn type_id(&self) -> (type_id: ComponentTypeId)
        ensures
            type_id == self.spec_type_id(),
    {
        self.type_id
    }

    /// Number of entities that have a component here.
    pub fn len(&self) -> (n: usize)
        ensures
            n == self@.dom().len(),
            self@.dom().finite(),
    {
        proof {
            self.lemma_domain();
        }
        self.storage.len()
    }

    /// Whether no entity has a component here.
    pub fn is_empty(&self) -> (empty: bool)
        ensures
            empty == (self@ == Map::<Entity, C>::empty()),
    {
        proof {
            self.lemma_domain();
            if self@.dom().len() == 0 {
                assert(self@ =~= Map::<Entity, C>::empty());
            }
        }
        self.storage.len() == 0
    }

    /// The entities of this storage correspond one to one to the keys of the
    /// underlying table.
    proof fn lemma_domain(&self)
        ensures
            self@.dom().finite(),
            self@.dom().len() == self.storage@.dom().len(),
    {
        let ids = self.storage@.dom();
        let wrap = |id: u32| Entity { id };
        assert(self@.dom() =~= ids.map(wrap));
        vstd::set_lib::lemma_map_size(ids, ids.map(wrap), wrap);
    }

    /// Stores `component` for `entity`, in place of any component the entity
    /// had here.
    pub fn insert(&mut self, entity: Entity, component: C)
        ensures
            final(self)@ == old(self)@.insert(entity, component),
            final(self).spec_type_id() == old(self).spec_type_id(),
    {
        self.storage.insert(entity.id, component);
    }

    /// Whether `entity` has a component here.
    pub fn contains(&self, entity: Entity) -> (found: bool)
        ensures
            found == self@.contains_key(entity),
    {
        self.storage.contains_key(&entity.id)
    }

    /// The component of `entity`, if it has one here.
    pub fn get(&self, entity: Entity) -> (component: Option<&C>)
        ensures
            match component {
                Some(c) => self@.contains_key(entity) && *c == self@[entity],
                None => !self@.contains_key(entity),
            },
    {
        self.storage.get(&entity.id)
    }

    /// Exclusive access to the component of `entity`, if it has one here.
    /// Whatever the caller writes through the reference becomes the entity's
    /// component; nothing else changes.
    pub fn get_mut(&mut self, entity: Entity) -> (component: Option<&mut C>)
        ensures
            final(self).spec_type_id() == old(self).spec_type_id(),
            match component {
                Some(c) => {
                    &&& old(self)@.contains_key(entity)
                    &&& *c == old(self)@[entity]
                    &&& final(self)@ == old(self)@.insert(entity, *final(c))
                },
                None => !old(self)@.contains_key(entity) && final(self)@ == old(self)@,
            },
    {
        match self.storage.entry(entity.id) {
            Entry::Occupied(slot) => Some(slot.into_mut()),
            Entry::Vacant(_) => None,
        }
    }
}

/// The face of a storage for code that handles components of many types at
/// once: components go in and come out tagged with their component type.
pub trait ComponentStorageAny<C> {
    /// The component type of the components held.
    spec fn component_type(&self) -> ComponentTypeId;

    /// The component held for each entity that has one.
    spec fn contents(&self) -> Map<Entity, C>;

    /// Takes the component of `entity` out of the storage and hands it back
    /// tagged with the storage's component type.
    fn remove(&mut self, entity: Entity) -> (component: Option<ErasedComponent<C>>)
        ensures
            final(self).contents() == old(self).contents().remove(entity),
            final(self).component_type() == old(self).component_type(),
            match component {
                Some(c) => {
                    &&& old(self).contents().contains_key(entity)
                    &&& c.type_id == old(self).component_type()
                    &&& c.value == old(self).contents()[entity]
                },
                None => !old(self).contents().contains_key(entity),
            },
    ;

    /// Stores a tagged component for `entity`, in place of any component the
    /// entity had here. The tag has to name the component type of the
    /// storage.
    fn insert_any(&mut self, entity: Entity, component: ErasedComponent<C>)
        requires
            component.type_id == old(self).component_type(),
        ensures
            final(self).contents() == old(self).contents().insert(entity, component.value),
            final(self).component_type() == old(self).component_type(),
    ;
}

impl<C> ComponentStorageAny<C> for ComponentStorage<C> {
    open spec fn component_type(&self) -> ComponentTypeId {
        self.type_id()
    }

    open spec fn contents(&self) -> Map<Entity, C> {
        self@
    }

    fn remove(&mut self, entity: Entity) -> (component: Option<ErasedComponent<C>>) {
        match self.storage.remove(&entity.id) {
            Some(value) => Some(ErasedComponent { type_id: self.type_id, value }),
            None => None,
        }
    }

    fn insert_any(&mut self, entity: Entity, component: ErasedComponent<C>) {
        self.insert(entity, component.value);
    }
}

} // verus!
