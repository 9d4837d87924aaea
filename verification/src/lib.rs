//! Conway's game of life played on the surface of a Möbius strip.
pub mod gameoflife;
pub mod mobius;
pub mod naming;
pub mod torus;
