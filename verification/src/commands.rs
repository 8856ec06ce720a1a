//! The commands of the tool: initialising a declaration, updating the
//! lock file against it, and the decisions of remote publication.

pub mod init;
pub mod publish;
pub mod update;
