//! Verified building blocks for real-time generative-art sketches.
//!
//! [`screenshot`] saves rendered frames to disk without stalling the render
//! loop. [`cell_automata`] holds the rules of a cellular automaton on a
//! torus. [`circle`] keeps the books for a list of nested circles that is
//! drawn a stretch at a time.

pub mod cell_automata;
pub mod circle;
pub mod screenshot;
