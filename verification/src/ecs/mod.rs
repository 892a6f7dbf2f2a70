//! The entity component system: bit-sets of component indices, component
//! storages and the dispatcher that groups systems into parallel batches.
pub mod bitset;
pub mod component;
pub mod dispatcher;
