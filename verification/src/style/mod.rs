//! Styling, and writing into regions of the terminal without knowing
//! where they end up.

pub mod canvas;
pub mod style;
