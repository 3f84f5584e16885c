//! Commands: the id-keyed registry of discoverable editor commands, the
//! built-in command ids, and the command types the editor dispatches.

pub mod cmd;
pub mod defaults;
pub mod keymap;
pub mod manifest;
pub mod registry;
