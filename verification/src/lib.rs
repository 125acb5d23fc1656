//! Query engine for a paginated network-connection inspector.
//!
//! The engine turns a snapshot of observed connections into the exact
//! ordered, paginated slice a report page displays: filtering by several
//! simultaneous criteria, sorting by a selectable key with a deterministic
//! tie-break, and paginating in fixed-size windows.

pub mod criteria;
pub mod filter;
pub mod paginate;
pub mod query;
pub mod record;
pub mod sort;
pub mod state;
pub mod text;
