//! Verified core of an SRT sender, listener and stream router.

pub mod access;
pub mod address;
pub mod buffer;
pub mod encapsulate;
pub mod listener;
pub mod loss_list;
pub mod numbers;
pub mod packet;
pub mod router;
pub mod settings;
pub mod source_id;
pub mod table;
pub mod time;
