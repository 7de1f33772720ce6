use vstd::prelude::*;

verus! {

/// State of the quasi-static model: it carries no inflow degrees of freedom.
#[derive(Clone, Copy, Debug, PartialEq, Eq, Structural)]
pub struct QuasiStaticRotorState;

impl Default for QuasiStaticRotorState {
    /// The (only) quasi-static state.
    fn default() -> (r: QuasiStaticRotorState)
        ensures
            r == QuasiStaticRotorState,
    {
        QuasiStaticRotorState
    }
}

impl QuasiStaticRotorState {
    /// Number of inflow degrees of freedom the state carries: none.
    pub fn inflow_dof(&self) -> (r: usize)
        ensures
            r == 0,
    {
        0
    }
}

} // verus!
