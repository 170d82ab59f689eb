//! Components: the values attached to entities, and how they are stored.
//!
//! A world stores values of a single Rust type `C`. What distinguishes one
//! kind of component from another is its component type identifier, a tag
//! that travels with the value whenever it is handled outside the storage
//! made for that component type.
use vstd::prelude::*;

pub mod archetype;
pub mod registry;
pub mod storage;

verus! {

/// Identifies a component type.
pub type ComponentTypeId = u64;

/// A signature is a list of component types in strictly ascending order, so
/// that a set of component types has exactly one signature.
pub open spec fn is_signature(types: Seq<ComponentTypeId>) -> bool {
    forall|i: int, j: int| 0 <= i < j < types.len() ==> types[i] < types[j]
}

/// A set of component types has only one signature.
pub proof fn lemma_signature_unique(a: Seq<ComponentTypeId>, b: Seq<ComponentTypeId>)
    requires
        is_signature(a),
        is_signature(b),
        a.to_set() == b.to_set(),
    ensures
        a == b,
    decreases a.len(),
{
    if a.len() == 0 {
        if b.len() > 0 {
            assert(b.to_set().contains(b[0]));
        }
    } else {
        assert(a.to_set().contains(a.last()));
        assert(b.to_set().contains(b.last()));
        let a0 = a.drop_last();
        let b0 = b.drop_last();
        assert forall|x: ComponentTypeId| a0.to_set().contains(x) <==> b0.to_set().contains(x) by {
            if a0.contains(x) {
                let k = choose|k: int| 0 <= k < a0.len() && a0[k] == x;
                assert(a.to_set().contains(a[k]));
                let m = choose|m: int| 0 <= m < b.len() && b[m] == x;
                assert(b0[m] == x);
            }
            if b0.contains(x) {
                let k = choose|k: int| 0 <= k < b0.len() && b0[k] == x;
                assert(b.to_set().contains(b[k]));
                let m = choose|m: int| 0 <= m < a.len() && a[m] == x;
                assert(a0[m] == x);
            }
        }
        assert(a0.to_set() =~= b0.to_set());
        lemma_signature_unique(a0, b0);
        assert(a =~= a0.push(a.last()));
    }
}

/// Marks the types whose values can be attached to entities: every type that
/// owns its data.
pub trait Component: 'static {

}

impl<T: 'static> Component for T {

}

/// A component value together with the identifier of its component type, as
/// it is handed around between storages.
#[derive(Debug)]
pub struct ErasedComponent<C> {
    pub type_id: ComponentTypeId,
    pub value: C,
}

impl<C> ErasedComponent<C> {
    /// Tags `value` as a component of type `type_id`.
    pub fn new(type_id: ComponentTypeId, value: C) -> (component: Self)
        ensures
            component.type_id == type_id,
            component.value == value,
    {
        Self { type_id, value }
    }

    /// Gives the value back, dropping the tag.
    pub fn into_value(self) -> (value: C)
        ensures
            value == self.value,
    {
        self.value
    }
}

} // verus!
