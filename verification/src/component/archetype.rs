//! Archetypes: the entities that share one signature, stored together.
use crate::collections::sorted_vector::SortedVec;
use crate::component::registry::ComponentRegistry;
use crate::component::storage::{ComponentStorage, ComponentStorageAny};
use crate::component::{is_signature, ComponentTypeId, ErasedComponent};
use crate::entity::Entity;
use vstd::prelude::*;

verus! {

/// The entities that carry exactly the component types of one signature,
/// with one storage per component type.
pub struct Archetype<C> {
    types: SortedVec<ComponentTypeId>,
    entities: Vec<Entity>,
    storages: Vec<ComponentStorage<C>>,
}

impl<C> View for Archetype<C> {
    type V = Map<Entity, Map<ComponentTypeId, C>>;

    /// The components of each member, by component type.
    open spec fn view(&self) -> Map<Entity, Map<ComponentTypeId, C>> {
        Map::new(|e: Entity| self.members().contains(e), |e: Entity| self.components_of(e))
    }
}

impl<C> Archetype<C> {
    /// The component types of this archetype, in ascending order.
    pub closed spec fn signature(&self) -> Seq<ComponentTypeId> {
        self.types@
    }

    /// The entities stored here, in storage order.
    pub closed spec fn members(&self) -> Seq<Entity> {
        self.entities@
    }

    /// The component type of each storage, in storage order.
    pub closed spec fn storage_types(&self) -> Seq<ComponentTypeId> {
        self.storages@.map_values(|s: ComponentStorage<C>| s.type_id())
    }

    /// What each storage holds, in storage order.
    pub closed spec fn tables(&self) -> Seq<Map<Entity, C>> {
        self.storages@.map_values(|s: ComponentStorage<C>| s@)
    }

    /// The storages are those of the signature, one per component type and in
    /// the same order, and each holds a component for every member and for
    /// nobody else.
    pub open spec fn wf(&self) -> bool {
        &&& is_signature(self.signature())
        &&& self.members().no_duplicates()
        &&& self.storage_types() =~= self.signature()
        &&& self.tables().len() == self.signature().len()
        &&& forall|i: int|
            0 <= i < self.tables().len() ==> (#[trigger] self.tables()[i]).dom()
                =~= self.members().to_set()
    }

    /// The components that `entity` carries here, by component type.
    pub open spec fn components_of(&self, entity: Entity) -> Map<ComponentTypeId, C> {
        Map::new(
            |t: ComponentTypeId| self.signature().contains(t),
            |t: ComponentTypeId| self.tables()[self.signature().index_of(t)][entity],
        )
    }

    /// A well-formed archetype is complete: its storages are those of its
    /// signature, no more and no fewer, and every member has a component in
    /// every one of them.
    pub proof fn lemma_complete(&self)
        requires
            self.wf(),
        ensures
            self.storage_types() == self.signature(),
            self.storage_types().to_set() == self.signature().to_set(),
            forall|e: Entity, i: int|
                self.members().contains(e) && 0 <= i < self.tables().len()
                    ==> #[trigger] self.tables()[i].contains_key(e),
            forall|e: Entity|
                self.members().contains(e) ==> #[trigger] self.components_of(e).dom()
                    == self.signature().to_set(),
    {
    }

    /// Well-formedness, said of the storages themselves.
    proof fn lemma_storages(&self)
        requires
            self.wf(),
        ensures
            self.storages@.len() == self.types@.len(),
            forall|i: int|
                0 <= i < self.storages@.len() ==> (#[trigger] self.storages@[i]).type_id()
                    == self.types@[i],
            forall|i: int|
                0 <= i < self.storages@.len() ==> (#[trigger] self.storages@[i])@.dom()
                    == self.entities@.to_set(),
    {
        assert forall|i: int| 0 <= i < self.storages@.len() implies (
        #[trigger] self.storages@[i])@.dom() == self.entities@.to_set() by {
            assert(self.tables()[i].dom() == self.members().to_set());
        }
    }

    /// An archetype without entities for the signature `sig`, with a fresh
    /// storage from `registry` for each of its component types. Every one of
    /// them has to be registered.
    pub fn new(sig: &SortedVec<ComponentTypeId>, registry: &ComponentRegistry) -> (archetype: Self)
        requires
            can_build(sig@, registry@),
        ensures
            archetype.wf(),
            archetype.signature() == sig@,
            archetype.members() == Seq::<Entity>::empty(),
    {
        let mut storages: Vec<ComponentStorage<C>> = Vec::new();
        let mut i: usize = 0;
        while i < sig.len()
            invariant
                i <= sig@.len(),
                forall|k: int| 0 <= k < sig@.len() ==> registry@.contains(#[trigger] sig@[k]),
                storages@.len() == i,
                forall|k: int|
                    0 <= k < i ==> (#[trigger] storages@[k]).type_id() == sig@[k]
                        && storages@[k]@ == Map::<Entity, C>::empty(),
            decreases sig@.len() - i,
        {
            let storage = registry.create_component_storage(&sig[i]).unwrap();
            storages.push(storage);
            i += 1;
        }
        let types = sig.clone();
        assert(types@ =~= sig@);
        Self { types, entities: Vec::new(), storages }
    }

    /// The component types of this archetype.
    pub fn types(&self) -> (types: &SortedVec<ComponentTypeId>)
        ensures
            types@ == self.signature(),
    {
        &self.types
    }

    /// The entities stored here.
    pub fn entities(&self) -> (entities: &Vec<Entity>)
        ensures
            entities@ == self.members(),
    {
        &self.entities
    }

    /// Whether `entity` is stored here.
    pub fn has_entity(&self, entity: Entity) -> (found: bool)
        ensures
            found == self.members().contains(entity),
    {
        self.position_of(entity).is_some()
    }

    /// Where `entity` stands in the list of members, if it is one.
    fn position_of(&self, entity: Entity) -> (found: Option<usize>)
        ensures
            match found {
                Some(k) => k < self.members().len() && self.members()[k as int] == entity,
                None => !self.members().contains(entity),
            },
    {
        let mut k: usize = 0;
        while k < self.entities.len()
            invariant
                k <= self.entities@.len(),
                forall|j: int| 0 <= j < k ==> self.entities@[j] != entity,
            decreases self.entities@.len() - k,
        {
            if self.entities[k] == entity {
                return Some(k);
            }
            k += 1;
        }
        None
    }

    /// Whether `type_id` belongs to the signature.
    pub fn has_component(&self, type_id: ComponentTypeId) -> (found: bool)
        requires
            self.wf(),
        ensures
            found == self.signature().contains(type_id),
    {
        self.types.contains(&type_id)
    }

    /// The storage for components of type `type_id`, if the type belongs to
    /// the signature.
    pub fn storage(&self, type_id: ComponentTypeId) -> (storage: Option<&ComponentStorage<C>>)
        requires
            self.wf(),
        ensures
            match storage {
                Some(s) => {
                    &&& self.signature().contains(type_id)
                    &&& s.type_id() == type_id
                    &&& s@ == self.tables()[self.signature().index_of(type_id)]
                },
                None => !self.signature().contains(type_id),
            },
    {
        match self.types.position(&type_id) {
            Some(pos) => Some(&self.storages[pos]),
            None => None,
        }
    }

    /// The component of type `type_id` that `entity` carries, if the type
    /// belongs to the signature and the entity is stored here.
    pub fn get_component(&self, entity: Entity, type_id: ComponentTypeId) -> (component: Option<&C>)
        requires
            self.wf(),
        ensures
            match component {
                Some(c) => {
                    &&& self.signature().contains(type_id)
                    &&& self.members().contains(entity)
                    &&& *c == self.components_of(entity)[type_id]
                },
                None => !(self.signature().contains(type_id) && self.members().contains(entity)),
            },
    {
        match self.types.position(&type_id) {
            Some(pos) => {
                assert(self.tables()[pos as int].dom() == self.members().to_set());
                self.storages[pos].get(entity)
            },
            None => None,
        }
    }

    /// The components of `entity` for the component types in `types`, one
    /// per item of `types` and in the same order. The entity has to be stored
    /// here and the types have to belong to the signature.
    pub fn get_components<'a>(&'a self, entity: Entity, types: &SortedVec<ComponentTypeId>) -> (values:
        Vec<&'a C>)
        requires
            self.wf(),
            self.members().contains(entity),
            forall|j: int| 0 <= j < types@.len() ==> self.signature().contains(#[trigger] types@[j]),
        ensures
            values@.len() == types@.len(),
            forall|j: int|
                0 <= j < types@.len() ==> *(#[trigger] values@[j]) == self.components_of(
                    entity,
                )[types@[j]],
    {
        let mut values: Vec<&C> = Vec::new();
        let mut j: usize = 0;
        while j < types.len()
            invariant
                self.wf(),
                self.members().contains(entity),
                forall|k: int|
                    0 <= k < types@.len() ==> self.signature().contains(#[trigger] types@[k]),
                j <= types@.len(),
                values@.len() == j,
                forall|k: int|
                    0 <= k < j ==> *(#[trigger] values@[k]) == self.components_of(
                        entity,
                    )[types@[k]],
            decreases types@.len() - j,
        {
            let type_id = types[j];
            let value = self.get_component(entity, type_id).unwrap();
            values.push(value);
            j += 1;
        }
        values
    }

    /// Exclusive access to the component of type `type_id` that `entity`
    /// carries. Whatever the caller writes through the reference becomes that
    /// component; nothing else changes.
    pub fn get_component_mut(&mut self, entity: Entity, type_id: ComponentTypeId) -> (component:
        Option<&mut C>)
        requires
            old(self).wf(),
        ensures
            final(self).wf(),
            final(self).signature() == old(self).signature(),
            final(self).members() == old(self).members(),
            match component {
                Some(c) => {
                    let at = old(self).signature().index_of(type_id);
                    &&& old(self).signature().contains(type_id)
                    &&& old(self).members().contains(entity)
                    &&& *c == old(self).components_of(entity)[type_id]
                    &&& final(self).tables() == old(self).tables().update(
                        at,
                        old(self).tables()[at].insert(entity, *final(c)),
                    )
                    &&& final(self).components_of(entity) =~= old(self).components_of(
                        entity,
                    ).insert(type_id, *final(c))
                    &&& forall|other: Entity|
                        other != entity ==> #[trigger] final(self).components_of(other) =~= old(
                            self,
                        ).components_of(other)
                },
                None => {
                    &&& !(old(self).signature().contains(type_id) && old(self).members().contains(
                        entity,
                    ))
                    &&& final(self).tables() == old(self).tables()
                },
            },
    {
        match self.types.position(&type_id) {
            Some(pos) => {
                proof {
                    self.lemma_storages();
                }
                self.storages[pos].get_mut(entity)
            },
            None => None,
        }
    }

    /// Stores `entity` with the given components, which have to be those of
    /// the signature: one per component type, in the signature's order. The
    /// entity must not be stored here already.
    pub fn add_entity(&mut self, entity: Entity, components: Vec<ErasedComponent<C>>)
        requires
            old(self).wf(),
            !old(self).members().contains(entity),
            components@.len() == old(self).signature().len(),
            forall|i: int|
                0 <= i < components@.len() ==> (#[trigger] components@[i]).type_id == old(
                    self,
                ).signature()[i],
        ensures
            final(self).wf(),
            final(self).signature() == old(self).signature(),
            final(self).members() == old(self).members().push(entity),
            final(self).tables().len() == old(self).tables().len(),
            forall|i: int|
                0 <= i < old(self).tables().len() ==> #[trigger] final(self).tables()[i] == old(
                    self,
                ).tables()[i].insert(entity, components@[i].value),
            final(self).components_of(entity) =~= Map::new(
                |t: ComponentTypeId| old(self).signature().contains(t),
                |t: ComponentTypeId| components@[old(self).signature().index_of(t)].value,
            ),
            forall|other: Entity|
                other != entity ==> #[trigger] final(self).components_of(other) =~= old(
                    self,
                ).components_of(other),
    {
        let ghost given = components@;
        let ghost before = self.storages@;
        let mut components = components;
        let mut i: usize = components.len();
        proof {
            self.lemma_storages();
        }
        while i > 0
            invariant
                i <= given.len(),
                given.len() == before.len(),
                components@ == given.subrange(0, i as int),
                self.storages@.len() == before.len(),
                self.types == old(self).types,
                self.entities == old(self).entities,
                forall|k: int|
                    0 <= k < given.len() ==> (#[trigger] given[k]).type_id == before[k].type_id(),
                forall|k: int| 0 <= k < i ==> #[trigger] self.storages@[k] == before[k],
                forall|k: int|
                    i <= k < before.len() ==> (#[trigger] self.storages@[k]).type_id()
                        == before[k].type_id() && self.storages@[k]@ == before[k]@.insert(
                        entity,
                        given[k].value,
                    ),
            decreases i,
        {
            i -= 1;
            let component = components.pop().unwrap();
            self.storages[i].insert_any(entity, component);
        }
        self.entities.push(entity);
        proof {
            assert forall|k: int| 0 <= k < self.tables().len() implies (
            #[trigger] self.tables()[k]).dom() =~= self.members().to_set() by {
                assert forall|e: Entity|
                    self.members().to_set().contains(e) <==> e == entity || old(
                        self,
                    ).entities@.to_set().contains(e) by {
                    if old(self).entities@.contains(e) {
                        let j = choose|j: int|
                            0 <= j < old(self).entities@.len() && old(self).entities@[j] == e;
                        assert(self.members()[j] == e);
                    }
                    if e == entity {
                        assert(self.members()[self.members().len() - 1] == e);
                    }
                }
            }
        }
    }

    /// Takes `entity` out of the archetype and hands back the components it
    /// carried, tagged and in the signature's order. The last member takes
    /// the place of the one removed. Nothing happens if the entity is not
    /// stored here.
    pub fn remove_entity(&mut self, entity: Entity) -> (components: Option<
        Vec<ErasedComponent<C>>,
    >)
        requires
            old(self).wf(),
        ensures
            final(self).wf(),
            final(self).signature() == old(self).signature(),
            final(self).tables().len() == old(self).tables().len(),
            match components {
                Some(taken) => {
                    &&& old(self).members().contains(entity)
                    &&& final(self).members() == swap_removed(
                        old(self).members(),
                        old(self).members().index_of(entity),
                    )
                    &&& taken@.len() == old(self).signature().len()
                    &&& forall|i: int|
                        0 <= i < taken@.len() ==> {
                            &&& (#[trigger] taken@[i]).type_id == old(self).signature()[i]
                            &&& taken@[i].value == old(self).tables()[i][entity]
                            &&& taken@[i].value == old(self).components_of(entity)[old(
                                self,
                            ).signature()[i]]
                        }
                    &&& forall|i: int|
                        0 <= i < old(self).tables().len() ==> #[trigger] final(self).tables()[i]
                            == old(self).tables()[i].remove(entity)
                    &&& forall|other: Entity|
                        other != entity ==> #[trigger] final(self).components_of(other) =~= old(
                            self,
                        ).components_of(other)
                },
                None => {
                    &&& !old(self).members().contains(entity)
                    &&& final(self).members() == old(self).members()
                    &&& final(self).tables() == old(self).tables()
                },
            },
    {
        let at = match self.position_of(entity) {
            Some(at) => at,
            None => {
                return None;
            },
        };
        proof {
            self.lemma_storages();
            lemma_swap_removed(self.entities@, at as int);
        }
        let ghost before = self.storages@;
        self.entities.swap_remove(at);
        let mut taken: Vec<ErasedComponent<C>> = Vec::with_capacity(self.types.len());
        let mut i: usize = 0;
        while i < self.storages.len()
            invariant
                i <= before.len(),
                self.storages@.len() == before.len(),
                self.types == old(self).types,
                self.entities@ == swap_removed(old(self).entities@, at as int),
                taken@.len() == i,
                forall|k: int| 0 <= k < before.len() ==> (#[trigger] before[k])@.contains_key(entity),
                forall|k: int| i <= k < before.len() ==> #[trigger] self.storages@[k] == before[k],
                forall|k: int|
                    0 <= k < i ==> (#[trigger] self.storages@[k]).type_id() == before[k].type_id()
                        && self.storages@[k]@ == before[k]@.remove(entity),
                forall|k: int|
                    0 <= k < i ==> (#[trigger] taken@[k]).type_id == before[k].type_id()
                        && taken@[k].value == before[k]@[entity],
            decreases before.len() - i,
        {
            let component = self.storages[i].remove(entity).unwrap();
            taken.push(component);
            i += 1;
        }
        Some(taken)
    }
}

/// An archetype can be built for `types` from a registry that knows the
/// component types `registered`: `types` is a signature and every one of its
/// component types is registered.
pub open spec fn can_build(types: Seq<ComponentTypeId>, registered: Set<ComponentTypeId>) -> bool {
    &&& is_signature(types)
    &&& forall|i: int| 0 <= i < types.len() ==> registered.contains(#[trigger] types[i])
}

/// Unregistered type rejection: no archetype can be built for a signature
/// that names a component type which was never registered.
pub proof fn lemma_unregistered_not_buildable(
    types: Seq<ComponentTypeId>,
    registered: Set<ComponentTypeId>,
    type_id: ComponentTypeId,
)
    requires
        types.contains(type_id),
        !registered.contains(type_id),
    ensures
        !can_build(types, registered),
{
    let k = choose|k: int| 0 <= k < types.len() && types[k] == type_id;
    assert(!registered.contains(types[k]));
}

/// `s` without the item at position `at`, the last item having taken its
/// place.
pub open spec fn swap_removed<A>(s: Seq<A>, at: int) -> Seq<A> {
    s.update(at, s.last()).drop_last()
}

/// Removing one item of a list without repetitions, the last taking its
/// place, leaves the other items, each still once.
pub proof fn lemma_swap_removed<A>(s: Seq<A>, at: int)
    requires
        s.no_duplicates(),
        0 <= at < s.len(),
    ensures
        swap_removed(s, at).no_duplicates(),
        swap_removed(s, at).to_set() =~= s.to_set().remove(s[at]),
        s.index_of(s[at]) == at,
{
    let r = swap_removed(s, at);
    assert forall|e: A| r.to_set().contains(e) <==> s.to_set().remove(s[at]).contains(e) by {
        if s.contains(e) && e != s[at] {
            let j = choose|j: int| 0 <= j < s.len() && s[j] == e;
            if j == s.len() - 1 {
                assert(r[at] == e);
            } else {
                assert(r[j] == e);
            }
        }
    }
}

} // verus!
