//! Core of a zero-knowledge proving toolchain for compiled arithmetic
//! circuits: a calibration engine that searches quantization parameters for a
//! circuit over a dataset, an orchestrator that sequences the proof lifecycle
//! (setup, witness binding, proving, verification, recursive aggregation), and
//! a soundness-fuzzing harness that checks that corrupted proof artifacts are
//! rejected by the verifier.
//!
//! The circuit compiler and the cryptographic backend are external
//! collaborators: this crate owns the decisions (trial enumeration and
//! selection, sizing rules, state transitions, fuzz verdict accounting) and
//! the artifact formats, while a driver performs the compiler and backend
//! calls and feeds their outcomes back in.

pub mod calibration;
pub mod codec;
pub mod fuzz;
pub mod hexfmt;
pub mod hub;
pub mod lifecycle;
pub mod settings;
