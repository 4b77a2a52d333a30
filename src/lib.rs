//! Kernel communication and execution correlation for a terminal notebook
//! client: the notebook model, the table that attributes kernel events to
//! cells, the completion exchange and the kernel launch rules.

pub mod commands;
pub mod events;
pub mod media;
pub mod model;
pub mod modes;
pub mod pending;
pub mod protocol;
pub mod search;
pub mod session;
pub mod supervisor;
pub mod text;
