//! The world: entities, their components, and the archetypes that hold them.
use crate::collections::sorted_vector::{lemma_insert_sorted_contents, SortedVec};
use crate::component::archetype::{lemma_swap_removed, Archetype};
use crate::component::registry::ComponentRegistry;
use crate::component::{is_signature, lemma_signature_unique, ComponentTypeId, ErasedComponent};
use crate::entity::Entity;
use std::collections::HashMap;
use vstd::prelude::*;

verus! {

/// Owns the entities and everything attached to them.
///
/// Entities with the same signature live in the same archetype; there is one
/// archetype per signature in use, and one for the empty signature from the
/// start. An index tells for each entity in which archetype it lives.
pub struct World<C> {
    next_id: u32,
    component_registry: ComponentRegistry,
    archetypes: Vec<Archetype<C>>,
    entities: HashMap<u32, usize>,
}

/// An index kept by entity id, read as an index by entity.
spec fn by_entity(index: Map<u32, usize>) -> Map<Entity, int> {
    Map::new(|e: Entity| index.contains_key(e.id), |e: Entity| index[e.id] as int)
}

impl<C> View for World<C> {
    type V = Map<Entity, Map<ComponentTypeId, C>>;

    /// The components of each living entity, by component type.
    open spec fn view(&self) -> Map<Entity, Map<ComponentTypeId, C>> {
        Map::new(
            |e: Entity| self.slots().contains_key(e),
            |e: Entity| self.archetypes()[self.slots()[e]]@[e],
        )
    }
}

impl<C> World<C> {
    /// The id that the next entity will get.
    pub closed spec fn spec_next_id(&self) -> u32 {
        self.next_id
    }

    /// The component types that have been registered.
    pub closed spec fn registered(&self) -> Set<ComponentTypeId> {
        self.component_registry@
    }

    /// The archetypes, in the order in which they came into being.
    pub closed spec fn archetypes(&self) -> Seq<Archetype<C>> {
        self.archetypes@
    }

    /// For each living entity, the position of its archetype.
    pub closed spec fn slots(&self) -> Map<Entity, int> {
        by_entity(self.entities@)
    }

    /// The archetype of the empty signature exists, no two archetypes share a
    /// signature, every archetype is well formed and built from registered
    /// component types, and each living entity is a member of exactly the
    /// archetype that the index names.
    pub open spec fn wf(&self) -> bool {
        &&& self.archetypes().len() > 0
        &&& self.archetypes()[0].signature() =~= Seq::<ComponentTypeId>::empty()
        &&& forall|i: int|
            0 <= i < self.archetypes().len() ==> (#[trigger] self.archetypes()[i]).wf()
        &&& forall|i: int, j: int|
            0 <= i < j < self.archetypes().len() ==> (#[trigger] self.archetypes()[i]).signature()
                != (#[trigger] self.archetypes()[j]).signature()
        &&& forall|i: int, k: int|
            0 <= i < self.archetypes().len() && 0 <= k < self.archetypes()[i].signature().len()
                ==> self.registered().contains(#[trigger] self.archetypes()[i].signature()[k])
        &&& forall|e: Entity|
            #[trigger] self.slots().contains_key(e) ==> {
                &&& 0 <= self.slots()[e] < self.archetypes().len()
                &&& self.archetypes()[self.slots()[e]].members().contains(e)
                &&& e.id < self.spec_next_id()
            }
        &&& forall|i: int, e: Entity|
            0 <= i < self.archetypes().len() && #[trigger] self.archetypes()[i].members().contains(e)
                ==> self.slots().contains_key(e) && self.slots()[e] == i
    }

    /// The component of type `type_id` that `entity` carries, if it lives and
    /// carries one.
    pub open spec fn component(&self, entity: Entity, type_id: ComponentTypeId) -> Option<C> {
        if self.has(entity, type_id) {
            Some(self@[entity][type_id])
        } else {
            None
        }
    }

    /// `after` is this world with one more entity, `entity`, which has the
    /// next free id and carries nothing.
    pub open spec fn spawned(&self, after: &Self, entity: Entity) -> bool {
        &&& entity.id == self.spec_next_id()
        &&& !self@.contains_key(entity)
        &&& after.spec_next_id() == self.spec_next_id() + 1
        &&& after.registered() == self.registered()
        &&& after@ == self@.insert(entity, Map::<ComponentTypeId, C>::empty())
    }

    /// `after` is this world with `component` attached to `entity` as its
    /// component of type `type_id`, and nothing else changed.
    pub open spec fn attached(
        &self,
        after: &Self,
        entity: Entity,
        type_id: ComponentTypeId,
        component: C,
    ) -> bool {
        &&& after.spec_next_id() == self.spec_next_id()
        &&& after.registered() == self.registered()
        &&& after@ == self@.insert(entity, self@[entity].insert(type_id, component))
    }

    /// A component of type `type_id` can be attached to `entity`: the entity
    /// lives and the component type is registered.
    pub open spec fn can_attach(&self, entity: Entity, type_id: ComponentTypeId) -> bool {
        self@.contains_key(entity) && self.registered().contains(type_id)
    }

    /// Every archetype of this world is still there in `after`, at its
    /// position and with its signature.
    pub open spec fn keeps_archetypes(&self, after: &Self) -> bool {
        &&& self.archetypes().len() <= after.archetypes().len()
        &&& forall|i: int|
            0 <= i < self.archetypes().len() ==> (#[trigger] after.archetypes()[i]).signature()
                == self.archetypes()[i].signature()
    }

    /// Where `entity` is stored: the position of its archetype, and its own
    /// position among the members of that archetype.
    pub open spec fn place(&self, entity: Entity) -> (int, int) {
        let slot = self.slots()[entity];
        (slot, self.archetypes()[slot].members().index_of(entity))
    }

    /// `first` is stored ahead of `second`: in an earlier archetype, or
    /// earlier in the same one.
    pub open spec fn stored_before(&self, first: Entity, second: Entity) -> bool {
        let (i, p) = self.place(first);
        let (j, q) = self.place(second);
        i < j || (i == j && p < q)
    }

    /// `entity` is stored ahead of position `position` of archetype `slot`.
    pub open spec fn stored_ahead_of(&self, entity: Entity, slot: int, position: int) -> bool {
        let (i, p) = self.place(entity);
        i < slot || (i == slot && p < position)
    }

    /// `entity` lives and carries a component of every type in `types`.
    pub open spec fn has_all(&self, entity: Entity, types: Seq<ComponentTypeId>) -> bool {
        &&& self@.contains_key(entity)
        &&& forall|j: int| 0 <= j < types.len() ==> self@[entity].contains_key(#[trigger] types[j])
    }

    /// `entity` lives and carries a component of type `type_id`.
    pub open spec fn has(&self, entity: Entity, type_id: ComponentTypeId) -> bool {
        self@.contains_key(entity) && self@[entity].contains_key(type_id)
    }

    /// A world without entities and without registered component types.
    pub fn new() -> (world: Self)
        ensures
            world.wf(),
            world@ == Map::<Entity, Map<ComponentTypeId, C>>::empty(),
            world.registered() == Set::<ComponentTypeId>::empty(),
            world.spec_next_id() == 0,
    {
        let component_registry = ComponentRegistry::new();
        let mut archetypes: Vec<Archetype<C>> = Vec::new();
        let empty_type: SortedVec<ComponentTypeId> = SortedVec::new();
        let archetype = Archetype::new(&empty_type, &component_registry);
        archetypes.push(archetype);
        let world = Self { next_id: 0, component_registry, archetypes, entities: HashMap::new() };
        world
    }

    /// The id that the next entity will get.
    #[verifier::when_used_as_spec(spec_next_id)]
    pub fn next_id(&self) -> (id: u32)
        ensures
            id == self.spec_next_id(),
    {
        self.next_id
    }

    /// Whether `entity` has been spawned in this world.
    pub fn is_alive(&self, entity: Entity) -> (alive: bool)
        ensures
            alive == self@.contains_key(entity),
    {
        self.entities.contains_key(&entity.id)
    }

    /// Whether `type_id` has been registered as a component type.
    pub fn is_registered(&self, type_id: ComponentTypeId) -> (known: bool)
        ensures
            known == self.registered().contains(type_id),
    {
        self.component_registry.is_registered(type_id)
    }

    /// Creates an entity that carries no component yet.
    pub fn spawn(&mut self) -> (entity: Entity)
        requires
            old(self).wf(),
            old(self).spec_next_id() < u32::MAX,
        ensures
            final(self).wf(),
            old(self).spawned(final(self), entity),
            old(self).keeps_archetypes(final(self)),
            final(self).archetypes().len() == old(self).archetypes().len(),
    {
        let id = self.next_id;
        self.next_id += 1;
        let entity = Entity::new(id);
        self.archetypes[0].add_entity(entity, Vec::new());
        self.entities.insert(id, 0);
        proof {
            let before = old(self).archetypes();
            let after = self.archetypes();
            assert(self.slots() =~= old(self).slots().insert(entity, 0));
            // The new entity has joined the first archetype; nobody has moved.
            assert forall|i: int, e: Entity| 0 <= i < after.len() implies (
            #[trigger] after[i].members().contains(e) <==> if e == entity {
                i == 0
            } else {
                before[i].members().contains(e)
            }) by {
                if i == 0 {
                    let members = before[0].members();
                    if members.contains(e) {
                        let k = choose|k: int| 0 <= k < members.len() && members[k] == e;
                        assert(after[0].members()[k] == e);
                    }
                    assert(after[0].members()[members.len() as int] == entity);
                }
            }
            // Every entity carries what it carried, and the new one nothing.
            let goal = old(self)@.insert(entity, Map::<ComponentTypeId, C>::empty());
            assert forall|e: Entity| #[trigger] self@.contains_key(e) implies self@[e] == goal[e] by {}
            assert(self@ =~= goal);
        }
        entity
    }

    /// Makes `type_id` usable as a component type. This has to happen before
    /// any entity is given a component of that type.
    pub fn register_component(&mut self, type_id: ComponentTypeId)
        requires
            old(self).wf(),
        ensures
            final(self).wf(),
            final(self).registered() == old(self).registered().insert(type_id),
            final(self)@ == old(self)@,
            final(self).spec_next_id() == old(self).spec_next_id(),
            final(self).archetypes() == old(self).archetypes(),
    {
        self.component_registry.register_component(type_id);
        assert(self.slots() == old(self).slots());
    }

    /// Whether `entity` carries a component of the type behind `type_id`. An
    /// entity that does not live carries none.
    pub fn has_component_id(&self, entity: Entity, type_id: &ComponentTypeId) -> (found: bool)
        requires
            self.wf(),
        ensures
            found == self.has(entity, *type_id),
    {
        match self.entities.get(&entity.id) {
            None => false,
            Some(slot) => {
                assert(self.slots().contains_key(entity));
                self.archetypes[*slot].has_component(*type_id)
            },
        }
    }

    /// Whether `entity` carries a component of type `type_id`.
    pub fn has_component(&self, entity: Entity, type_id: ComponentTypeId) -> (found: bool)
        requires
            self.wf(),
        ensures
            found == self.has(entity, type_id),
    {
        self.has_component_id(entity, &type_id)
    }

    /// The component of type `type_id` that `entity` carries, if it lives
    /// and carries one.
    pub fn get_component(&self, entity: Entity, type_id: ComponentTypeId) -> (component: Option<&C>)
        requires
            self.wf(),
        ensures
            match component {
                Some(c) => self.component(entity, type_id) == Some(*c),
                None => self.component(entity, type_id) is None,
            },
    {
        match self.entities.get(&entity.id) {
            None => None,
            Some(slot) => {
                self.archetypes[*slot].get_component(entity, type_id)
            },
        }
    }

    /// Exclusive access to the component of type `type_id` that `entity`
    /// carries, if it lives and carries one. Whatever the caller writes
    /// through the reference becomes that component; no other component and
    /// no other entity is affected.
    pub fn get_component_mut(&mut self, entity: Entity, type_id: ComponentTypeId) -> (component:
        Option<&mut C>)
        requires
            old(self).wf(),
        ensures
            final(self).wf(),
            final(self).registered() == old(self).registered(),
            final(self).spec_next_id() == old(self).spec_next_id(),
            old(self).keeps_archetypes(final(self)),
            final(self).archetypes().len() == old(self).archetypes().len(),
            match component {
                Some(c) => {
                    &&& old(self).component(entity, type_id) == Some(*c)
                    &&& final(self)@ =~= old(self)@.insert(
                        entity,
                        old(self)@[entity].insert(type_id, *final(c)),
                    )
                },
                None => old(self).component(entity, type_id) is None && final(self)@ =~= old(self)@,
            },
    {
        let slot = match self.entities.get(&entity.id) {
            None => {
                return None;
            },
            Some(slot) => *slot,
        };
        self.archetypes[slot].get_component_mut(entity, type_id)
    }

    /// The position of the archetype whose signature is `sig`, if there is
    /// one.
    fn find_archetype(&self, sig: &SortedVec<ComponentTypeId>) -> (found: Option<usize>)
        ensures
            match found {
                Some(i) => i < self.archetypes().len() && self.archetypes()[i as int].signature()
                    == sig@,
                None => forall|i: int|
                    0 <= i < self.archetypes().len() ==> (#[trigger] self.archetypes()[i]).signature()
                        != sig@,
            },
    {
        let mut i: usize = 0;
        while i < self.archetypes.len()
            invariant
                i <= self.archetypes@.len(),
                forall|k: int|
                    0 <= k < i ==> (#[trigger] self.archetypes@[k]).signature() != sig@,
            decreases self.archetypes@.len() - i,
        {
            let types = self.archetypes[i].types();
            if types == sig {
                return Some(i);
            }
            i += 1;
        }
        None
    }

    /// The archetype whose signature is `sig`, if there are or were entities
    /// with that signature.
    pub fn archetype(&self, sig: &SortedVec<ComponentTypeId>) -> (archetype: Option<&Archetype<C>>)
        requires
            self.wf(),
        ensures
            match archetype {
                Some(a) => {
                    &&& a.wf()
                    &&& a.signature() == sig@
                    &&& exists|i: int|
                        0 <= i < self.archetypes().len() && #[trigger] self.archetypes()[i] == *a
                },
                None => forall|i: int|
                    0 <= i < self.archetypes().len() ==> (#[trigger] self.archetypes()[i]).signature()
                        != sig@,
            },
    {
        match self.find_archetype(sig) {
            Some(i) => {
                Some(&self.archetypes[i])
            },
            None => None,
        }
    }

    /// Attaches `component` to `entity` as its component of type `type_id`.
    ///
    /// The entity has to live and the component type has to be registered.
    /// If the entity carries a component of that type already, the new one
    /// takes its place and the entity stays where it is. Otherwise the entity
    /// moves to the archetype of its new signature, which is created if it
    /// does not exist, and takes the components it already carries with it.
    /// No archetype is ever removed.
    pub fn add_component(&mut self, entity: Entity, type_id: ComponentTypeId, component: C)
        requires
            old(self).wf(),
            old(self).can_attach(entity, type_id),
        ensures
            final(self).wf(),
            old(self).attached(final(self), entity, type_id, component),
            old(self).keeps_archetypes(final(self)),
    {
        if self.has_component(entity, type_id) {
            match self.get_component_mut(entity, type_id) {
                Some(held) => {
                    *held = component;
                },
                None => {},
            }
            return;
        }
        let source = *self.entities.get(&entity.id).unwrap();
        let ghost before = self.archetypes@;
        let mut sig = self.archetypes[source].types().clone();
        assert(sig@ =~= before[source as int].signature());
        let mut components = self.archetypes[source].remove_entity(entity).unwrap();
        let ghost emptied = self.archetypes@;
        let at = sig.lower_bound(&type_id);
        proof {
            lemma_insert_sorted_contents(sig@, type_id);
            lemma_swap_removed(
                before[source as int].members(),
                before[source as int].members().index_of(entity),
            );
        }
        sig.insert(type_id);
        components.insert(at, ErasedComponent::new(type_id, component));
        let target = match self.find_archetype(&sig) {
            Some(i) => i,
            None => {
                let archetype = Archetype::new(&sig, &self.component_registry);
                self.archetypes.push(archetype);
                self.archetypes.len() - 1
            },
        };
        let ghost ready = self.archetypes@;
        self.archetypes[target].add_entity(entity, components);
        self.entities.insert(entity.id, target);
        proof {
            let after = self.archetypes@;
            assert(self.slots() =~= old(self).slots().insert(entity, target as int));
            // Only `entity` has changed its archetype.
            assert forall|i: int, e: Entity| 0 <= i < after.len() implies (
            #[trigger] after[i].members().contains(e) <==> if e == entity {
                i == target
            } else {
                i < before.len() && before[i].members().contains(e)
            }) by {
                if i == source {
                    assert(emptied[i].members().to_set().contains(e)
                        <==> before[i].members().to_set().remove(entity).contains(e));
                } else if i == target {
                    let members = ready[i].members();
                    if members.contains(e) {
                        let k = choose|k: int| 0 <= k < members.len() && members[k] == e;
                        assert(after[i].members()[k] == e);
                    }
                    assert(after[i].members()[members.len() as int] == entity);
                }
            }
            // Every entity carries what it carried, and `entity` the new component too.
            let goal = old(self)@.insert(entity, old(self)@[entity].insert(type_id, component));
            assert forall|e: Entity| #[trigger] self@.contains_key(e) implies self@[e] == goal[e] by {}
            assert(self@ =~= goal);
        }
    }

    /// The entities that carry a component of every type in `types`, each
    /// with its components of those types, in the order of `types`. An entity
    /// that carries more than was asked for is listed too. The entities come
    /// in storage order: archetype by archetype, and within an archetype in
    /// the order of its members.
    pub fn get_components(&self, types: &SortedVec<ComponentTypeId>) -> (found: Vec<
        (Entity, Vec<&C>),
    >)
        requires
            self.wf(),
            types.wf(),
        ensures
            forall|k: int|
                0 <= k < found@.len() ==> {
                    &&& self.has_all((#[trigger] found@[k]).0, types@)
                    &&& found@[k].1@.len() == types@.len()
                    &&& forall|j: int|
                        0 <= j < types@.len() ==> *(#[trigger] found@[k].1@[j])
                            == self@[found@[k].0][types@[j]]
                },
            forall|e: Entity|
                self.has_all(e, types@) ==> exists|k: int|
                    0 <= k < found@.len() && (#[trigger] found@[k]).0 == e,
            forall|k: int, l: int|
                0 <= k < l < found@.len() ==> self.stored_before(
                    (#[trigger] found@[k]).0,
                    (#[trigger] found@[l]).0,
                ),
    {
        let mut found: Vec<(Entity, Vec<&C>)> = Vec::new();
        let mut i: usize = 0;
        while i < self.archetypes.len()
            invariant
                self.wf(),
                types.wf(),
                i <= self.archetypes().len(),
                self.archetypes() == self.archetypes@,
                forall|k: int|
                    0 <= k < found@.len() ==> {
                        &&& self.has_all((#[trigger] found@[k]).0, types@)
                        &&& self.slots()[found@[k].0] < i
                        &&& found@[k].1@.len() == types@.len()
                        &&& forall|j: int|
                            0 <= j < types@.len() ==> *(#[trigger] found@[k].1@[j])
                                == self@[found@[k].0][types@[j]]
                    },
                forall|e: Entity|
                    self.has_all(e, types@) && self.slots()[e] < i ==> exists|k: int|
                        0 <= k < found@.len() && (#[trigger] found@[k]).0 == e,
                forall|k: int, l: int|
                    0 <= k < l < found@.len() ==> self.stored_before(
                        (#[trigger] found@[k]).0,
                        (#[trigger] found@[l]).0,
                    ),
            decreases self.archetypes().len() - i,
        {
            let archetype = &self.archetypes[i];
            if types.is_subset(archetype.types()) {
                let members = archetype.entities();
                let mut m: usize = 0;
                while m < members.len()
                    invariant
                        self.wf(),
                        types.wf(),
                        i < self.archetypes().len(),
                        self.archetypes() == self.archetypes@,
                        *archetype == self.archetypes()[i as int],
                        members@ == archetype.members(),
                        m <= members@.len(),
                        forall|x: ComponentTypeId|
                            types@.contains(x) ==> archetype.signature().contains(x),
                        forall|k: int|
                            0 <= k < found@.len() ==> {
                                &&& self.has_all((#[trigger] found@[k]).0, types@)
                                &&& self.stored_ahead_of(found@[k].0, i as int, m as int)
                                &&& found@[k].1@.len() == types@.len()
                                &&& forall|j: int|
                                    0 <= j < types@.len() ==> *(#[trigger] found@[k].1@[j])
                                        == self@[found@[k].0][types@[j]]
                            },
                        forall|e: Entity|
                            self.has_all(e, types@) && self.stored_ahead_of(e, i as int, m as int)
                                ==> exists|k: int|
                                0 <= k < found@.len() && (#[trigger] found@[k]).0 == e,
                        forall|k: int, l: int|
                            0 <= k < l < found@.len() ==> self.stored_before(
                                (#[trigger] found@[k]).0,
                                (#[trigger] found@[l]).0,
                            ),
                    decreases members@.len() - m,
                {
                    let entity = members[m];
                    proof {
                        assert(self.archetypes()[i as int].members().contains(entity));
                        assert forall|j: int| 0 <= j < types@.len() implies archetype.signature().contains(
                        #[trigger] types@[j]) by {
                            assert(types@.contains(types@[j]));
                        }
                    }
                    let values = archetype.get_components(entity, types);
                    let ghost listed = found@;
                    found.push((entity, values));
                    proof {
                        assert forall|e: Entity|
                            self.has_all(e, types@) && self.stored_ahead_of(
                                e,
                                i as int,
                                m + 1,
                            ) implies exists|k: int|
                            0 <= k < found@.len() && (#[trigger] found@[k]).0 == e by {
                            if e == entity {
                                assert(found@[listed.len() as int].0 == e);
                            } else {
                                let k = choose|k: int|
                                    0 <= k < listed.len() && (#[trigger] listed[k]).0 == e;
                                assert(found@[k].0 == e);
                            }
                        }
                    }
                    m += 1;
                }
            }
            i += 1;
        }
        found
    }

    /// Archetype completeness: in every archetype of a well-formed world the
    /// storages are those of the signature, no more and no fewer, and every
    /// member has a component in every one of them.
    pub proof fn lemma_archetypes_complete(&self, i: int)
        requires
            self.wf(),
            0 <= i < self.archetypes().len(),
        ensures
            self.archetypes()[i].storage_types() == self.archetypes()[i].signature(),
            forall|e: Entity, k: int|
                self.archetypes()[i].members().contains(e) && 0 <= k
                    < self.archetypes()[i].tables().len()
                    ==> #[trigger] self.archetypes()[i].tables()[k].contains_key(e),
    {
    }

    /// Every living entity is a member of exactly one archetype, the one
    /// whose signature lists the component types that the entity carries; an
    /// entity that does not live is a member of none.
    pub proof fn lemma_home(&self, entity: Entity, i: int)
        requires
            self.wf(),
            0 <= i < self.archetypes().len(),
        ensures
            self.archetypes()[i].members().contains(entity) <==> self@.contains_key(entity)
                && self.archetypes()[i].signature().to_set() == self@[entity].dom(),
    {
        if self@.contains_key(entity) && self.archetypes()[i].signature().to_set()
            == self@[entity].dom() {
            let j = self.slots()[entity];
            lemma_signature_unique(
                self.archetypes()[i].signature(),
                self.archetypes()[j].signature(),
            );
        }
    }

    /// Spawn/attach round trip: the component attached to a freshly spawned
    /// entity is the one that is read back.
    pub proof fn lemma_spawn_attach_get(
        start: &Self,
        spawned: &Self,
        attached: &Self,
        entity: Entity,
        type_id: ComponentTypeId,
        component: C,
    )
        requires
            start.spawned(spawned, entity),
            spawned.attached(attached, entity, type_id, component),
        ensures
            attached.component(entity, type_id) == Some(component),
    {
    }

    /// Migration preserves prior state: attaching a component to an entity
    /// leaves every other component it carried as it was and touches no other
    /// entity: neither what it carries nor where it is stored. If the type is
    /// new to the entity, the entity leaves the archetype of its old
    /// signature.
    pub proof fn lemma_attach_preserves(
        before: &Self,
        after: &Self,
        entity: Entity,
        type_id: ComponentTypeId,
        component: C,
    )
        requires
            before.wf(),
            after.wf(),
            before.can_attach(entity, type_id),
            before.attached(after, entity, type_id, component),
            before.keeps_archetypes(after),
        ensures
            after.component(entity, type_id) == Some(component),
            forall|t: ComponentTypeId|
                t != type_id ==> #[trigger] after.component(entity, t) == before.component(
                    entity,
                    t,
                ),
            forall|e: Entity, t: ComponentTypeId|
                e != entity ==> #[trigger] after.component(e, t) == before.component(e, t),
            forall|e: Entity, i: int|
                e != entity && 0 <= i < before.archetypes().len()
                    ==> #[trigger] after.archetypes()[i].members().contains(e)
                    == before.archetypes()[i].members().contains(e),
            forall|e: Entity, i: int|
                e != entity && before.archetypes().len() <= i < after.archetypes().len()
                    ==> !#[trigger] after.archetypes()[i].members().contains(e),
            !before.has(entity, type_id) ==> forall|i: int|
                0 <= i < after.archetypes().len() && (
                #[trigger] after.archetypes()[i]).signature().to_set() == before@[entity].dom()
                    ==> !after.archetypes()[i].members().contains(entity),
    {
        assert forall|e: Entity, i: int|
            e != entity && 0 <= i < after.archetypes().len() implies (
        #[trigger] after.archetypes()[i].members().contains(e) <==> i < before.archetypes().len()
            && before.archetypes()[i].members().contains(e)) by {
            after.lemma_home(e, i);
            if i < before.archetypes().len() {
                before.lemma_home(e, i);
            } else if before@.contains_key(e) {
                let j = before.slots()[e];
                before.lemma_home(e, j);
                after.lemma_home(e, j);
            }
        }
        if !before.has(entity, type_id) {
            assert forall|i: int|
                0 <= i < after.archetypes().len() && (
                #[trigger] after.archetypes()[i]).signature().to_set()
                    == before@[entity].dom() implies !after.archetypes()[i].members().contains(
                entity,
            ) by {
                after.lemma_home(entity, i);
                assert(after@[entity].dom().contains(type_id));
            }
        }
    }

    /// After attaching, the signature of the entity is its old one together
    /// with the attached type, each type once and in ascending order, also
    /// when the entity carried the type already: the entity carries exactly
    /// the types it carried and the attached one, and it is a member of
    /// exactly the archetype with that signature.
    pub proof fn lemma_attach_signature(
        before: &Self,
        after: &Self,
        entity: Entity,
        type_id: ComponentTypeId,
        component: C,
    )
        requires
            before.wf(),
            after.wf(),
            before.can_attach(entity, type_id),
            before.attached(after, entity, type_id, component),
        ensures
            forall|t: ComponentTypeId|
                #[trigger] after.has(entity, t) <==> t == type_id || before.has(entity, t),
            forall|i: int|
                0 <= i < after.archetypes().len() ==> (
                #[trigger] after.archetypes()[i].members().contains(entity)
                    <==> after.archetypes()[i].signature().to_set() == before@[entity].dom().insert(
                    type_id,
                )),
            forall|i: int|
                0 <= i < after.archetypes().len() ==> is_signature(
                    #[trigger] after.archetypes()[i].signature(),
                ),
    {
        assert(after@[entity].dom() =~= before@[entity].dom().insert(type_id));
        assert forall|i: int| 0 <= i < after.archetypes().len() implies (
        #[trigger] after.archetypes()[i].members().contains(entity)
            <==> after.archetypes()[i].signature().to_set() == before@[entity].dom().insert(
            type_id,
        )) by {
            after.lemma_home(entity, i);
        }
        assert forall|i: int| 0 <= i < after.archetypes().len() implies is_signature(
            #[trigger] after.archetypes()[i].signature(),
        ) by {
            assert(after.archetypes()[i].wf());
        }
    }

    /// Unregistered type rejection: nothing can be attached as a component
    /// of a type that was never registered, whatever the entity.
    pub proof fn lemma_unregistered_not_attachable(&self, entity: Entity, type_id: ComponentTypeId)
        requires
            !self.registered().contains(type_id),
        ensures
            !self.can_attach(entity, type_id),
    {
    }

    /// In a well-formed world no entity carries a component of a type that
    /// was never registered, and no archetype has such a type in its
    /// signature.
    pub proof fn lemma_only_registered_types(&self, type_id: ComponentTypeId)
        requires
            self.wf(),
            !self.registered().contains(type_id),
        ensures
            forall|e: Entity| !#[trigger] self.has(e, type_id),
            forall|i: int|
                0 <= i < self.archetypes().len() ==> !(
                #[trigger] self.archetypes()[i]).signature().contains(type_id),
    {
        assert forall|i: int| 0 <= i < self.archetypes().len() implies !(
        #[trigger] self.archetypes()[i]).signature().contains(type_id) by {
            let sig = self.archetypes()[i].signature();
            if sig.contains(type_id) {
                let k = choose|k: int| 0 <= k < sig.len() && sig[k] == type_id;
                assert(self.registered().contains(self.archetypes()[i].signature()[k]));
            }
        }
        assert forall|e: Entity| !#[trigger] self.has(e, type_id) by {
            if self.has(e, type_id) {
                let i = self.slots()[e];
                assert(self.slots().contains_key(e));
                assert(self.archetypes()[i].signature().contains(type_id));
            }
        }
    }
}

} // verus!
