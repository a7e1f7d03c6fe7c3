//! The logic of a small Hyprland overlay: finding and caching application
//! icons, keeping the compositor's workspaces and the network manager's view
//! of wireless networks in step, and reading the colour theme.
//!
//! Every function here is verified. The program around it runs the external
//! commands, reads the files and draws; it hands this library plain text and
//! values and acts on what comes back.

pub mod config;
pub mod icon;
pub mod network;
pub mod placement;
pub mod raster;
pub mod resolver;
pub mod text;
pub mod workspace;
