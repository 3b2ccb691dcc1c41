//! Profiles built from interactions.

pub mod profile;
