//! A realtime audio mixing engine in Q16.16 fixed point.
//!
//! Samples, gains, playback rates and durations are integers on a scale where
//! `UNIT` stands for 1.0; clip positions are exact rationals.

pub mod frame;
pub mod clip;
pub mod decode;
pub mod voice;
pub mod channel;
pub mod music;
pub mod sfx;
pub mod mixer;
pub mod backend;
pub mod linearity;
