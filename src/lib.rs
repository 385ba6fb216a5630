//! Link supervision for a MAVLink autopilot: the decisions of the connect
//! sequence with bounded retry, the message receiver, batched parameter
//! writes, and the parameter catalog that the write path validates against.
//! Transport I/O, timers and tasks are left to the caller, which reports
//! outcomes back and performs the actions decided here.

pub mod catalog;
pub mod info;
pub mod numeric;
pub mod parse;
pub mod receiver;
pub mod state;
pub mod supervisor;
pub mod text;
pub mod writer;
