//! An interactive browser's core for a hierarchical credential store:
//! the group/entry tree, title search, entry formatting and the
//! breadcrumb-driven navigation state machine.
pub mod format;
pub mod nav;
pub mod search;
pub mod tree;
