//! An incremental, interruptible tree-reconciliation engine.
//!
//! Virtual trees (`element::Element`) are turned into a fiber tree one unit
//! of work at a time, diffed positionally against the last committed tree,
//! and committed as a list of host operations (`host::HostOp`) that a host
//! adapter carries out.
pub mod element;
pub mod fiber;
pub mod host;
pub mod context;
pub mod reconcile;
pub mod commit;
pub mod lemmas;
