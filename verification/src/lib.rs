//! Compact binary codec for 3D spatial state: positions, velocities and unit
//! quaternions are packed into small fixed-size byte payloads with bounded
//! precision loss.
//!
//! All quantities are carried as scaled integers (a fixed number of integer
//! units per real-valued unit), so every transform here is exact integer
//! arithmetic with a full functional contract. The thin floating-point shims
//! that feed this library live outside it.

pub mod bytes;
pub mod physics;
pub mod quantizer;
pub mod quaternions;
