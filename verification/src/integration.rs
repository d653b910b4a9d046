//! Helpers for toolkits.

/// Helpers for iced-style widget toolkits.
pub mod iced;
