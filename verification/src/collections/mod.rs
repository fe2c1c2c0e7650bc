//! Collections that own their nodes in a flat array.

pub mod arena_linked_list;
