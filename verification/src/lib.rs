//! Verified core of a system resource monitor: sliding sample windows, the
//! bookkeeping that keeps them aligned with cores, GPUs and network interfaces,
//! and the text that the monitor shows and stores.

pub mod text;
pub mod color;
pub mod window;
pub mod names;
pub mod monitor;
pub mod host;
pub mod laws;
