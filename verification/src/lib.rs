//! Wallpaper composition library.
//!
//! Builds a background canvas (solid color or horizontal gradient), composites
//! a foreground pixel buffer onto it under one of five placement modes, applies
//! optional alpha attenuation and axis flips, and models the protocol state
//! changes needed to publish the result as a root-window background.

pub mod canvas;
pub mod color;
pub mod compositor;
pub mod error;
pub mod pipeline;
pub mod pixbuf;
pub mod publisher;
pub mod transform;
