//! Verified core of an infrared controller for ForestAir air conditioners.
//!
//! The library holds the 35-bit IR protocol (payload layout and pulse-distance
//! frame), the controller's state with its JSON text form, and the decisions
//! the HTTP command handler takes. Hardware access, networking and the web UI
//! live in the application around it.

pub mod ir_protocol;
pub mod text;
pub mod ac_state;
pub mod command;
