//! Flashing Qualcomm boards in emergency download mode.
//!
//! The client side reads rawprogram and patch files ([`rawprogram`], on top of
//! [`xml`], [`sectors`] and [`text`]), works out what they mean for the targets of
//! a device ([`plan`]) and decides in which order things are done ([`flash`], with
//! what holds of every run in [`flash_laws`]).
//!
//! The server side decides which devices are offered ([`provider`]), takes in the
//! programmer image that a client uploads ([`volume`], on top of [`buffer`]) and
//! hands it to the device ([`session`]).

pub mod buffer;
pub mod flash;
pub mod flash_laws;
pub mod plan;
pub mod provider;
pub mod rawprogram;
pub mod sectors;
pub mod session;
pub mod text;
pub mod volume;
pub mod xml;
