//! The relational data model: media rows, media-offer associations, and the
//! subscription projection, with the transitions the service makes on them.

pub mod media;
pub mod media_offer;
pub mod media_subscription;
