//! A modal terminal text editor's core: positions, an event bus, a
//! compositing canvas, a gap buffer with reversible operations and a
//! tree of windows.

pub mod event;
pub mod plot;
pub mod sorted;
pub mod style;
pub mod text;
pub mod textedit;
pub mod window;
