use ecs::collections::sorted_vector::SortedVec;
use ecs::component::archetype::Archetype;
use ecs::component::registry::ComponentRegistry;
use ecs::component::{ComponentTypeId, ErasedComponent};
use ecs::entity::Entity;
use std::any::Any;

const INT: ComponentTypeId = 10;
const FLOAT: ComponentTypeId = 20;
const TEST_COMPONENT: ComponentTypeId = 30;
const UNSIGNED: ComponentTypeId = 40;

struct TestComponent;

fn get_registry() -> ComponentRegistry {
    let mut registry = ComponentRegistry::new();

    registry.register_component(INT);
    registry.register_component(FLOAT);
    registry.register_component(TEST_COMPONENT);

    registry
}

fn get_sig_vector() -> SortedVec<ComponentTypeId> {
    SortedVec::from_vec(vec![INT, FLOAT, TEST_COMPONENT])
}

fn boxed<T: Any>(type_id: ComponentTypeId, value: T) -> ErasedComponent<Box<dyn Any>> {
    ErasedComponent::new(type_id, Box::new(value))
}

#[test]
fn archetype_test_new() {
    let archetype: Archetype<Box<dyn Any>> = Archetype::new(&get_sig_vector(), &get_registry());

    assert_eq!(archetype.types().as_slice(), get_sig_vector().as_slice());
    assert!(archetype.entities().is_empty());
    assert!(archetype.storage(INT).is_some());
    assert!(archetype.storage(FLOAT).is_some());
    assert!(archetype.storage(TEST_COMPONENT).is_some());
    assert!(archetype.storage(UNSIGNED).is_none());

    assert_eq!(archetype.storage(INT).unwrap().type_id(), INT);
    assert_eq!(archetype.storage(FLOAT).unwrap().type_id(), FLOAT);
    assert_eq!(archetype.storage(TEST_COMPONENT).unwrap().type_id(), TEST_COMPONENT);
}

#[test]
fn archetype_has_component_follows_the_signature() {
    let archetype: Archetype<Box<dyn Any>> = Archetype::new(&get_sig_vector(), &get_registry());

    assert!(archetype.has_component(INT));
    assert!(archetype.has_component(FLOAT));
    assert!(archetype.has_component(TEST_COMPONENT));
    assert!(!archetype.has_component(UNSIGNED));
}

#[test]
fn archetype_stores_one_value_per_type_for_each_member() {
    let mut archetype: Archetype<Box<dyn Any>> =
        Archetype::new(&get_sig_vector(), &get_registry());
    let entity = Entity::new(3);

    archetype.add_entity(
        entity,
        vec![boxed(INT, 5i32), boxed(FLOAT, 1.5f32), boxed(TEST_COMPONENT, TestComponent)],
    );

    assert!(archetype.has_entity(entity));
    assert_eq!(archetype.entities(), &vec![entity]);
    for type_id in [INT, FLOAT, TEST_COMPONENT] {
        assert!(archetype.storage(type_id).unwrap().contains(entity));
        assert_eq!(archetype.storage(type_id).unwrap().len(), 1);
    }
    let int = archetype.get_component(entity, INT).unwrap();
    assert_eq!(int.downcast_ref::<i32>(), Some(&5));
    let float = archetype.get_component(entity, FLOAT).unwrap();
    assert_eq!(float.downcast_ref::<f32>(), Some(&1.5));
    assert!(archetype.get_component(entity, TEST_COMPONENT).unwrap().is::<TestComponent>());
    assert!(archetype.get_component(entity, UNSIGNED).is_none());
    assert!(archetype.get_component(Entity::new(4), INT).is_none());
}

#[test]
fn archetype_get_component_mut_changes_one_value() {
    let mut archetype: Archetype<i64> = Archetype::new(&get_sig_vector(), &get_registry());
    let first = Entity::new(1);
    let second = Entity::new(2);
    let components = |base: i64| {
        vec![
            ErasedComponent::new(INT, base),
            ErasedComponent::new(FLOAT, base + 1),
            ErasedComponent::new(TEST_COMPONENT, base + 2),
        ]
    };

    archetype.add_entity(first, components(10));
    archetype.add_entity(second, components(20));
    *archetype.get_component_mut(first, FLOAT).unwrap() = 99;

    assert_eq!(archetype.get_component(first, INT), Some(&10));
    assert_eq!(archetype.get_component(first, FLOAT), Some(&99));
    assert_eq!(archetype.get_component(first, TEST_COMPONENT), Some(&12));
    assert_eq!(archetype.get_component(second, FLOAT), Some(&21));
    assert!(archetype.get_component_mut(first, UNSIGNED).is_none());
    assert!(archetype.get_component_mut(Entity::new(3), INT).is_none());
}

#[test]
fn archetype_remove_entity_returns_the_components_in_signature_order() {
    let mut archetype: Archetype<i64> = Archetype::new(&get_sig_vector(), &get_registry());
    let first = Entity::new(1);
    let second = Entity::new(2);
    let third = Entity::new(3);
    for (entity, base) in [(first, 100), (second, 200), (third, 300)] {
        archetype.add_entity(
            entity,
            vec![
                ErasedComponent::new(INT, base),
                ErasedComponent::new(FLOAT, base + 1),
                ErasedComponent::new(TEST_COMPONENT, base + 2),
            ],
        );
    }

    let taken = archetype.remove_entity(first).unwrap();

    let tags: Vec<ComponentTypeId> = taken.iter().map(|c| c.type_id).collect();
    let values: Vec<i64> = taken.iter().map(|c| c.value).collect();
    assert_eq!(tags, vec![INT, FLOAT, TEST_COMPONENT]);
    assert_eq!(values, vec![100, 101, 102]);
    assert!(!archetype.has_entity(first));
    assert_eq!(archetype.entities(), &vec![third, second]);
    for type_id in [INT, FLOAT, TEST_COMPONENT] {
        assert!(!archetype.storage(type_id).unwrap().contains(first));
        assert_eq!(archetype.storage(type_id).unwrap().len(), 2);
    }
    assert_eq!(archetype.get_component(second, INT), Some(&200));
    assert_eq!(archetype.get_component(third, TEST_COMPONENT), Some(&302));
}

#[test]
fn archetype_remove_entity_of_a_stranger_changes_nothing() {
    let mut archetype: Archetype<i64> = Archetype::new(&get_sig_vector(), &get_registry());
    let member = Entity::new(1);
    archetype.add_entity(
        member,
        vec![
            ErasedComponent::new(INT, 1),
            ErasedComponent::new(FLOAT, 2),
            ErasedComponent::new(TEST_COMPONENT, 3),
        ],
    );

    assert!(archetype.remove_entity(Entity::new(2)).is_none());

    assert_eq!(archetype.entities(), &vec![member]);
    assert_eq!(archetype.get_component(member, FLOAT), Some(&2));
}

#[test]
fn archetype_of_the_empty_signature_holds_bare_entities() {
    let mut archetype: Archetype<i64> = Archetype::new(&SortedVec::new(), &ComponentRegistry::new());
    let entity = Entity::new(0);

    archetype.add_entity(entity, Vec::new());

    assert!(archetype.has_entity(entity));
    assert!(!archetype.has_component(INT));
    assert!(archetype.get_component(entity, INT).is_none());
    assert_eq!(archetype.remove_entity(entity).unwrap().len(), 0);
    assert!(!archetype.has_entity(entity));
}

#[test]
fn archetype_get_components_follows_the_order_asked_for() {
    let mut archetype: Archetype<i64> = Archetype::new(&get_sig_vector(), &get_registry());
    let entity = Entity::new(1);
    archetype.add_entity(
        entity,
        vec![
            ErasedComponent::new(INT, 1),
            ErasedComponent::new(FLOAT, 2),
            ErasedComponent::new(TEST_COMPONENT, 3),
        ],
    );

    let wanted = SortedVec::from_vec(vec![TEST_COMPONENT, INT]);
    assert_eq!(archetype.get_components(entity, &wanted), vec![&1, &3]);
    assert_eq!(archetype.get_components(entity, &SortedVec::new()), Vec::<&i64>::new());
}
