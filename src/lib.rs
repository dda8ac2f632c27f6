//! Window and overlay state for a Wayland desktop shell: geometry negotiation
//! with clients, the registry of shell-drawn overlay windows, per-frame
//! compositing plans and pixel conversion for overlay surfaces.

pub mod geometry;
pub mod view;
pub mod drawin;
pub mod render;
pub mod pixels;
pub mod client;
pub mod awesome;
pub mod ipc;
