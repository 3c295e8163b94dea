//! A clipboard history manager: the history store, its request protocol,
//! and the decision logic of its command-line and graphical pickers.

pub mod capture;
pub mod clock;
pub mod config;
pub mod daemonctl;
pub mod entry;
pub mod gui;
pub mod history;
pub mod paths;
pub mod picker;
pub mod protocol;
pub mod text;
