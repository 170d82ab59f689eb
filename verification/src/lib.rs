//! An archetype-based entity/component store with machine-checked contracts.
//!
//! Entities are plain identifiers. Each entity carries a set of components,
//! one per component type, and entities that carry the same set of component
//! types are stored together in one archetype. Attaching a component moves
//! the entity, with everything it already carries, to the archetype of its
//! new signature.
pub mod collections;
pub mod component;
pub mod entity;
pub mod system;
pub mod world;
