//! Core of a small digital-audio-workstation shell: a catalog of host audio
//! devices and their advertised stream configurations, the user's device and
//! format selections with their persistence format, and a release-feed
//! version check.
//!
//! Everything that touches the outside world (the host audio subsystem, the
//! file system, the network, the windowing toolkit) lives outside this
//! library and hands it plain values.

pub mod audio;
pub mod encoding;
pub mod interface;
pub mod update;

pub use audio::AudioSystem;
pub use update::UpdateChecker;
