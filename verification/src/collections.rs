//! General-purpose containers used by the component store.
pub mod sorted_vector;
