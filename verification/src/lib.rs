//! An ExLAP client for the Android Auto vendor channel of VW Group head units.
//!
//! The hook sits in a proxy between the phone and the head unit and sees every
//! packet. On the vendor channel `com.vwag.infotainment.gal.exlap` it brings up
//! one ExLAP session for each credential, subscribes to vehicle data, and tells
//! its host of what arrives. The ExLAP session itself is an `exlap::Machine`;
//! this library is the transport around it.
//!
//! - [`text`], [`wire`], [`nonce`]: text, protobuf and random identifiers.
//! - [`packet`], [`discovery`], [`frame`]: what passes on the link.
//! - [`protocol`]: the `exlap` crate, and what is believed of it.
//! - [`config`], [`command`], [`report`]: what the host says and is told.
//! - [`state`]: the state of the hook and its invariant.
//! - [`plan`], [`driver`], [`channel`]: the division of the URLs, the sessions,
//!   and the frames and packets of the channel.
//! - [`hook`]: the entry points.
//! - [`growth`], [`laws`], [`outcomes`], [`replies`], [`journal`]: what holds of the
//!   hook as a whole.

pub mod channel;
pub mod command;
pub mod config;
pub mod discovery;
pub mod driver;
pub mod frame;
pub mod growth;
pub mod hook;
pub mod journal;
pub mod laws;
pub mod nonce;
pub mod outcomes;
pub mod packet;
pub mod plan;
pub mod protocol;
pub mod replies;
pub mod report;
pub mod state;
pub mod text;
pub mod wire;
