//! A client library for posting formatted notification messages to a
//! webhook-based chat endpoint.
//!
//! A [`rocketchat::Message`] is assembled through chained builder calls,
//! serialized to a JSON payload with precise field-omission rules, and
//! posted to a webhook URL; the reply is parsed tolerantly into a
//! [`rocketchat::Response`] that reports success or failure.

pub mod client;
pub mod json;
pub mod message;
pub mod parse;
pub mod response;
pub mod rocketchat;
pub mod timefmt;
