//! Signaling rendezvous between a media publisher and its subscribers.
//!
//! A publisher hands in a session description (its offer); any number of
//! subscribers ask for the current offer, wait while there is none, and
//! later answer it. This crate holds the rules of that exchange as verified
//! code: the grammar of a session description, the identifiers of sessions,
//! the coordinator that matches offers with waiting subscribers and files
//! their answers, and the replies of the HTTP surface. Sockets, timers and
//! locks belong to the caller.

pub mod coordinator;
pub mod error;
pub mod laws;
pub mod model;
pub mod registry;
pub mod reply;
pub mod resource;
pub mod routes;
pub mod sdp;

pub use coordinator::{Accepted, AwaitStep, Coordinator, PendingOffer};
pub use error::SignalError;
pub use registry::Registry;
pub use reply::{Body, Reply};
pub use resource::ResourceId;
pub use routes::{abandon, expire, patch, publish, subscribe, PatchStep, PublishStep, SubscribeStep};
pub use sdp::codec::Record;
pub use sdp::description::SessionDescription;
pub use sdp::grammar::{Kind, Reason, ValidationError};
