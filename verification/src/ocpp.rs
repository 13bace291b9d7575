//! OCPP charging-station and CSMS logic: scopes, RFID accept-lists, message records,
//! timestamps, security configuration and the per-version tables.

pub mod scope;
pub mod rfid;
pub mod message;
pub mod device;
pub mod security;
pub mod client;
pub mod server;
pub mod calendar;
pub mod payload;
pub mod commands;
pub mod setup;
pub mod status;
pub mod lifecycle;
pub mod refresh;
pub mod connector;
pub mod entries;
