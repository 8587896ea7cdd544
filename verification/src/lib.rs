use vstd::prelude::*;

pub mod text;
pub mod adb;
pub mod log_entry;
pub mod parser;
pub mod filter;
pub mod ring_buffer;
pub mod statistics;
pub mod pid_cache;
pub mod recorder;
pub mod device;
pub mod device_manager;
pub mod threadtime;
pub mod websocket;

verus! {
} // verus!
