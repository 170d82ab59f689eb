//! The set of component types a world knows.
use crate::component::storage::ComponentStorage;
use crate::component::ComponentTypeId;
use crate::entity::Entity;
use std::collections::HashSet;
use vstd::prelude::*;

verus! {

/// Records which component types may be used, and makes the storage for
/// each of them.
pub struct ComponentRegistry {
    registered: HashSet<ComponentTypeId>,
}

impl View for ComponentRegistry {
    type V = Set<ComponentTypeId>;

    /// The registered component types.
    closed spec fn view(&self) -> Set<ComponentTypeId> {
        self.registered@
    }
}

impl ComponentRegistry {
    /// A registry that knows no component type.
    pub fn new() -> (registry: Self)
        ensures
            registry@ == Set::<ComponentTypeId>::empty(),
    {
        Self { registered: HashSet::new() }
    }

    /// Makes `type_id` usable as a component type. Registering a type again
    /// changes nothing.
    pub fn register_component(&mut self, type_id: ComponentTypeId)
        ensures
            final(self)@ == old(self)@.insert(type_id),
    {
        self.registered.insert(type_id);
    }

    /// An empty storage for components of type `type_id`, or nothing if the
    /// type was never registered.
    pub fn create_component_storage<C>(&self, type_id: &ComponentTypeId) -> (storage: Option<
        ComponentStorage<C>,
    >)
        ensures
            match storage {
                Some(s) => {
                    &&& self@.contains(*type_id)
                    &&& s.spec_type_id() == *type_id
                    &&& s@ == Map::<Entity, C>::empty()
                },
                None => !self@.contains(*type_id),
            },
    {
        if self.is_id_registered(type_id) {
            Some(ComponentStorage::new(*type_id))
        } else {
            None
        }
    }

    /// Whether `type_id` has been registered.
    pub fn is_registered(&self, type_id: ComponentTypeId) -> (registered: bool)
        ensures
            registered == self@.contains(type_id),
    {
        self.is_id_registered(&type_id)
    }

    /// Whether the type behind `type_id` has been registered.
    pub fn is_id_registered(&self, type_id: &ComponentTypeId) -> (registered: bool)
        ensures
            registered == self@.contains(*type_id),
    {
        self.registered.contains(type_id)
    }
}

} // verus!
