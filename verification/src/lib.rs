//! A real-time 3D rendering engine core: scene composition, GPU resource
//! lifecycle, deferred scene mutation, and the fixed-point math it rests on.
//!
//! The library keeps the whole scene state — geometries, primitives, camera,
//! lights, surface configuration — as plain verified data. Each frame it
//! turns that state into an ordered list of GPU commands; an unverified
//! shell executes those commands against a real device and feeds surface
//! events back in.

pub mod anim;
pub mod camera;
pub mod event;
pub mod input;
pub mod lights;
pub mod matrix;
pub mod obj;
pub mod quat;
pub mod queue_family;
pub mod render;
pub mod scalar;
pub mod swapchain;
pub mod timer;
pub mod vector;

pub use scalar::SinCos;
pub use scalar::Sqrt;
