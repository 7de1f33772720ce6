//! Rotor-aerodynamics support library: the model, wake-engine and integration
//! selectors, the command-line and report logic of the profiling tools, and
//! the rotor-file loading rules.

pub mod aero_model;
pub mod barnes_hut;
pub mod merge;
pub mod polar;
pub mod quasi_static_bem;
pub mod rotor_definition;
pub mod rotor_profile;
pub mod rotor_state;
pub mod rotor_yaml;
pub mod text;
pub mod theory_report;
pub mod vpm;
