//! The providers, one for each platform.

pub mod apple_silicon;
pub mod linux;
pub mod windows;
