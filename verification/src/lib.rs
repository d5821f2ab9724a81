//! Chart-file ingestion for a rhythm-game map format: a section-oriented
//! text parser that builds a structured map description, and a curve engine
//! that turns compact slider descriptors into dense, arc-length-aware point
//! sequences. All numeric work is done in exact integer and fixed-point
//! arithmetic so that every stated contract is machine-checked.
pub mod mathx;
pub mod bezier;
pub mod text;
pub mod num;
pub mod hit_object;
pub mod beatmap;
pub mod config;
pub mod game_state;
pub mod container;
