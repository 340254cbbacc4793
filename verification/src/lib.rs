//! Remote synchronization for a media library.
//!
//! Two components: a legacy protocol adapter that turns a generic resource
//! request into a JSON-RPC-over-GET call and types the response by the
//! requested resource kind, and a synchronization engine that reconciles a
//! local library snapshot against a remote datastore by last-modified
//! timestamps.

pub mod codec;
pub mod resource;
pub mod legacy;
pub mod library;
pub mod meta_item;
