//! Verified core of DeskTrace, a local-first desktop time machine: the rules that
//! decide which browser tabs, applications and screenshots a snapshot keeps, how a
//! snapshot is restored, and the small state the tray and the loopback server keep.

pub mod text;
pub mod tabs;
pub mod capture;
pub mod status;
pub mod store;
pub mod restore;
pub mod server;
pub mod tray;
pub mod autostart;
