//! Verified core of the ferrowl simulator: register memory ranges and slices,
//! Lua execution state, and the OCPP/command helpers of the terminal front end.

pub mod memory;
pub mod text;
pub mod view;
pub mod registry;
pub mod ocpp;
pub mod lua;
pub mod json;
pub mod statics;
pub mod session;
