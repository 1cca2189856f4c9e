//! The commands, one module each: the arguments of a command and what it
//! decides before anything is read or written.

pub mod add;
pub mod delete;
pub mod edit;
pub mod import;
pub mod ls;
pub mod tag;
pub mod update;
