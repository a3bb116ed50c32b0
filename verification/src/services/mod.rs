//! The media service: request validation, authorization, and the verified
//! transitions each remote call makes over the relational state and the
//! object store. Outcomes of outside calls enter as parameters.

pub mod authz;
pub mod commerce;
pub mod media;
