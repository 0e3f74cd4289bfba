//! Task resolution and execution planning: which task source owns a name,
//! how a script is finalized with pass-through arguments, the environment a
//! script runs in, and the command table offered to the shell engine.

pub mod map;
pub mod env;
pub mod script;
pub mod task;
pub mod commands;
