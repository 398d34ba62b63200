//! Verified projection of a media container's metadata into an owned,
//! serializable snapshot.
//!
//! The demuxer's live object graph is modelled by [`handle::FormatHandle`],
//! a plain-value image of everything the projection reads. The projection
//! itself, [`snapshot::Metadata::new`], walks that image once and either
//! returns a complete [`snapshot::Metadata`] or fails as a whole; its
//! contract pins the result down field by field. A verified wire codec in
//! [`wire`] gives the snapshot's container descriptor and details map a
//! lossless, field-tagged binary form with a proved round trip.

pub mod handle;
pub mod project;
pub mod snapshot;
pub mod text;
pub mod wire;

use vstd::prelude::*;

verus! {

} // verus!
