//! Layout of short-lived lines of text along one axis: an allocator of
//! extents that never moves what it has placed, a queue of commands, a
//! registry that turns commands into slots, and the scheduler that shows
//! and hides the messages.

pub mod block;
pub mod command;
pub mod identity;
pub mod layout;
pub mod layout_laws;
pub mod line;
pub mod line_laws;
pub mod registry;
pub mod registry_laws;
pub mod site;
pub mod summable;
