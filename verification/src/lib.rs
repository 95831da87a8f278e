//! xshape: reshape the geometry of a single table without touching a value.
//!
//! The table model, the delimited-text I/O, column addressing, the reshape verbs, and the
//! small pure pieces of the command line and the skill installer.
pub mod errors;

pub use errors::{Result, XshapeError};
pub mod text;
pub mod model;
pub mod addr;
pub mod io;
pub mod verbs;
pub mod skill;
pub mod skill_text;
pub mod cli;
pub mod laws;
pub mod layout_laws;
