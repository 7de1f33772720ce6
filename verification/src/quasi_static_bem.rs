//! The quasi-static blade-element model's state, shared with `rotor_state`.

pub use crate::rotor_state::QuasiStaticRotorState;
