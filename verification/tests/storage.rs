use ecs::component::storage::{ComponentStorage, ComponentStorageAny};
use ecs::component::{ComponentTypeId, ErasedComponent};
use ecs::entity::Entity;

const TEST_COMPONENT: ComponentTypeId = 1;
const NUMBER: ComponentTypeId = 2;
const A_TYPE: ComponentTypeId = 3;

struct TestComponent {}

struct A {
    x: u32,
}

#[test]
fn storage_test_new() {
    let storage = ComponentStorage::<TestComponent>::new(TEST_COMPONENT);

    assert!(storage.is_empty());
    assert_eq!(storage.len(), 0);
    assert_eq!(storage.type_id(), TEST_COMPONENT);
}

#[test]
fn test_insert() {
    let mut storage = ComponentStorage::<i32>::new(NUMBER);
    let test_entity = Entity::new(1);

    storage.insert_any(test_entity, ErasedComponent::new(NUMBER, 21));
    assert!(storage.contains(test_entity));
    assert_eq!(*storage.get(test_entity).unwrap(), 21);

    let mut storage = ComponentStorage::<A>::new(A_TYPE);
    storage.insert_any(test_entity, ErasedComponent::new(A_TYPE, A { x: 15 }));
    assert_eq!(storage.get(test_entity).unwrap().x, 15);
}

#[test]
fn test_get() {
    let mut storage = ComponentStorage::<i32>::new(NUMBER);
    let test_entity_1 = Entity::new(1);
    let test_entity_2 = Entity::new(2);
    let test_entity_3 = Entity::new(3);
    let test_entity_nope = Entity::new(4);

    storage.insert_any(test_entity_1, ErasedComponent::new(NUMBER, 30));
    storage.insert_any(test_entity_2, ErasedComponent::new(NUMBER, 8));
    storage.insert_any(test_entity_3, ErasedComponent::new(NUMBER, 2025));
    assert_eq!(*storage.get(test_entity_1).unwrap(), 30);
    assert_eq!(*storage.get(test_entity_2).unwrap(), 8);
    assert_eq!(*storage.get(test_entity_3).unwrap(), 2025);
    assert!(storage.get(test_entity_nope).is_none());
}

#[test]
fn test_get_mut() {
    let mut storage = ComponentStorage::<i32>::new(NUMBER);
    let test_entity_1 = Entity::new(1);
    let test_entity_2 = Entity::new(2);
    let test_entity_3 = Entity::new(3);
    let test_entity_nope = Entity::new(4);

    storage.insert_any(test_entity_1, ErasedComponent::new(NUMBER, 30));
    storage.insert_any(test_entity_2, ErasedComponent::new(NUMBER, 8));
    storage.insert_any(test_entity_3, ErasedComponent::new(NUMBER, 2025));
    assert_eq!(storage.get_mut(test_entity_1).unwrap(), &mut 30);
    assert_eq!(storage.get_mut(test_entity_2).unwrap(), &mut 8);
    assert_eq!(storage.get_mut(test_entity_3).unwrap(), &mut 2025);
    assert!(storage.get_mut(test_entity_nope).is_none());
}

#[test]
fn test_remove() {
    let mut storage = ComponentStorage::<i32>::new(NUMBER);
    let test_entity = Entity::new(1);

    storage.insert_any(test_entity, ErasedComponent::new(NUMBER, 21));
    assert!(storage.contains(test_entity));
    storage.remove(test_entity);
    assert!(!storage.contains(test_entity));
}

#[test]
fn storage_remove_hands_back_the_tagged_value() {
    let mut storage = ComponentStorage::<i32>::new(NUMBER);
    let entity = Entity::new(7);

    storage.insert(entity, 21);
    let taken = storage.remove(entity).unwrap();
    assert_eq!(taken.type_id, NUMBER);
    assert_eq!(taken.into_value(), 21);
    assert!(storage.remove(entity).is_none());
    assert!(storage.is_empty());
}

#[test]
fn storage_insert_replaces_the_value_of_an_entity() {
    let mut storage = ComponentStorage::<i32>::new(NUMBER);
    let entity = Entity::new(7);

    storage.insert(entity, 1);
    storage.insert(entity, 2);
    assert_eq!(storage.len(), 1);
    assert_eq!(storage.get(entity), Some(&2));
}

#[test]
fn storage_get_mut_writes_through() {
    let mut storage = ComponentStorage::<i32>::new(NUMBER);
    let first = Entity::new(1);
    let second = Entity::new(2);

    storage.insert(first, 10);
    storage.insert(second, 20);
    *storage.get_mut(first).unwrap() += 5;
    assert_eq!(storage.get(first), Some(&15));
    assert_eq!(storage.get(second), Some(&20));
}

#[test]
fn storage_keeps_entities_with_far_apart_ids_apart() {
    let mut storage = ComponentStorage::<i32>::new(NUMBER);

    storage.insert(Entity::new(0), 1);
    storage.insert(Entity::new(u32::MAX), 2);
    assert_eq!(storage.len(), 2);
    assert_eq!(storage.get(Entity::new(0)), Some(&1));
    assert_eq!(storage.get(Entity::new(u32::MAX)), Some(&2));
}
