//! Recovering the settings of a three-rotor Enigma machine with a genetic search.
//!
//! The crate holds the configuration model and its validity rules, the
//! index-of-coincidence fitness, the constraint-keeping genetic operators and
//! the decisions of the generation loop.
pub mod enigma;
pub mod coincidence;
pub mod random;
pub mod gen;
pub mod fitness;
pub mod evolution;
