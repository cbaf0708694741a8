//! The text editor: a gap buffer, its reversible operations and the
//! window that shows it.

pub mod buffer;
pub mod buffer_display;
pub mod gap;
pub mod metrics;
pub mod alert;
pub mod model;
pub mod operation;
pub mod textwindow;
pub mod traverse_ops;
