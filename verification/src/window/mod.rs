//! Windows, the containers that hold them, and what they say to each other.

pub mod command;
pub mod fswindow;
pub mod layout;
pub mod popup;
pub mod tab;
pub mod window;
pub mod windowcontainer;
pub mod windowmanager;
