//! "Did you mean?" suggestions: rank the known values that resemble a
//! mistyped token, by Jaro-Winkler similarity.
//!
//! [`score`] scores a candidate against a target, [`rank`] keeps the
//! candidates that score above the confidence threshold and orders them,
//! and [`cli`] and [`present`] hold the decisions of a command-line front
//! end around them.
pub mod cli;
pub mod present;
pub mod rank;
pub mod score;
