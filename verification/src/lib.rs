//! Logic of a command-line remote for Samsung TVs that routes volume keys to
//! the TV while Spotify plays there: configuration, playback positions, the
//! Spotify authorization and player checks, and the TV's endpoints, wake-up
//! and app launching. The network, keyring and file access live in the
//! program around this library.

pub mod config;
pub mod control;
pub mod numparse;
pub mod outside;
pub mod spotify;
pub mod text;
pub mod timestamp;
pub mod tv;
pub mod viska;
