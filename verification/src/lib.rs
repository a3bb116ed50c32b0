//! Verified core of a media-asset service for a multi-tenant marketplace.
//!
//! The library models the relational state (media rows, media-offer
//! associations, subscription projections) and the object store (objects and
//! in-progress multipart uploads) as plain data, and implements every service
//! operation as a verified transition over that state. Outcomes of outside
//! calls (object-store puts, transaction commits) enter as parameters, so each
//! operation is verified for every possible outcome.

pub mod api;
pub mod errors;
pub mod ids;
pub mod laws;
pub mod listing;
pub mod model;
pub mod objects;
pub mod pagination;
pub mod seqs;
pub mod services;
pub mod sql;
pub mod text;

use vstd::prelude::*;

verus! {

/// Default page size used when a request carries no pagination.
pub const DEFAULT_PAGE_SIZE: u64 = 10;

} // verus!
