//! The arena, its roots and the collector.
pub mod bindings;
pub mod collect;
pub mod context;
pub mod heap;
pub mod mark;
pub mod mutator;
pub mod reach;
pub mod root;
pub mod trace;
