//! Satellite ground-track library: two-line element set (TLE) text handling,
//! epoch arithmetic and the control state of the ground-track viewer.
pub mod text;
pub mod numeric;
pub mod tle;
pub mod ground_track;
pub mod sample;
pub mod renderer;
