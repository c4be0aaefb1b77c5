//! Adaptive display brightness control.
//!
//! The library holds the verified core of a daemon that adjusts external
//! display brightness in response to ambient light: piecewise-linear curve
//! evaluation, monitor-identity matching against a priority-ordered
//! configuration, the per-monitor state machine that turns a raw curve output
//! into quantized, rate-limited brightness writes, and the polling interval
//! policy. Hardware access (the light sensor and the display write channel)
//! and configuration file handling live with the caller.

pub mod breakpoints;
pub mod brightness_curve;
pub mod config;
pub mod matcher;
pub mod monitor;
pub mod piecewise_linear;
pub mod scheduler;
