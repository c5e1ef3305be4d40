//! Workspace lifecycle manager: keeps one disposable working-tree copy per
//! branch, tracked by a durable record store, with alias expansion for branch
//! shorthands and planning of the terminal-session context around each copy.
//!
//! The modules split along the system's components: `alias` resolves branch
//! shorthands, `naming` derives directory names, `record` and `store` form
//! the record store with its persisted format, `session` plans the
//! terminal-session context, and `orchestrate` holds the creation and
//! deletion decisions. `config`, `strutil` and `timefmt` carry the
//! configuration data and the shared helpers.

pub mod alias;
pub mod config;
pub mod naming;
pub mod orchestrate;
pub mod record;
pub mod session;
pub mod store;
pub mod strutil;
pub mod timefmt;
