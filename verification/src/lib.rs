//! Browsing and installing Checkmk packages: the listing of the download
//! server, the version model, the output of `omd` and of the install tools,
//! and the state machine of the terminal interface.

pub mod api;
pub mod text;
pub mod installer;
pub mod ui;
pub mod render;
