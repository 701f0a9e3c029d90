//! Core of a controller for 433 MHz ceiling fans: decoding the frames of their
//! remotes, and bridging the fans into Home Assistant and HomeKit.
//!
//! What is decided here is stated in contracts and proved. Radio, broker and
//! HomeKit server are outside: they hand in what happened, and get back what to
//! do.

pub mod config;
pub mod config_laws;
pub mod discovery;
pub mod discovery_laws;
pub mod homekit;
pub mod homekit_laws;
pub mod json;
pub mod message_laws;
pub mod mqtt;
pub mod mqtt_laws;
pub mod rx;
pub mod rx_laws;
pub mod speed;
pub mod speed_laws;
pub mod text;
pub mod text_laws;
