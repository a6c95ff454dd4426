//! Truncation engine for a versioned ledger storage layer.
//!
//! Given a target version, the engine rewinds two cooperating stores — a
//! sequential ledger store and a versioned state-tree store — to a consistent
//! state, as if nothing beyond the target had ever been committed.  The
//! stores are modelled as in-memory tables of plain words; the production
//! key-value backend is an external collaborator and is out of scope here.

pub mod accumulator;
pub mod cmd;
pub mod laws;
pub mod ledger;
pub mod locator;
pub mod store;
pub mod table;
pub mod tree;
