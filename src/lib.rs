//! Reads toolpath programs (G-code motion commands with filament extrusion)
//! and turns them into the segments along which material is deposited.
//!
//! Lengths are exact fixed-point values in nanometres (`number`). A line is
//! read into a command (`command`), commands drive a modal state machine that
//! lays down line and arc segments (`interpreter`), and a whole program is
//! interpreted with all-or-nothing error reporting (`program`). The mass of
//! the deposit is the filament fed times its cross-section and density.
use vstd::prelude::*;

pub mod command;
pub mod interpreter;
pub mod number;
pub mod program;

verus! {

} // verus!
