use vstd::prelude::*;

verus! {

/// Which free-wake evolution engine drives the wake.
#[derive(Clone, Copy, Debug, PartialEq, Eq, Structural)]
pub enum WakeEngine {
    /// Classic convection-only vortex-particle method: strengths and core
    /// sizes are frozen; supports Barnes-Hut and the merge/aging knobs.
    ClassicVpm,
    /// Reformulated vortex-particle method: particle strength and core size
    /// evolve by vortex stretching. Direct evaluation only.
    ReformulatedVpm,
}

impl Default for WakeEngine {
    /// The classic engine.
    fn default() -> (r: WakeEngine)
        ensures
            r == WakeEngine::ClassicVpm,
    {
        WakeEngine::ClassicVpm
    }
}

/// How the wake's induced velocity is evaluated.
#[derive(Clone, Copy, Debug, PartialEq, Eq, Structural)]
pub enum EvalPath {
    /// Scalar reference sum that checks every contribution (debugging).
    ScalarNanCheck,
    /// Barnes-Hut tree, parallel over targets.
    BarnesHutParallel,
    /// Barnes-Hut tree, sequential.
    BarnesHutSequential,
    /// Direct sum, parallel over targets.
    DirectParallel,
    /// Direct sum, sequential.
    DirectSequential,
}

/// How one wake sub-step convects the particles.
#[derive(Clone, Copy, Debug, PartialEq, Eq, Structural)]
pub enum AdvectPath {
    /// Reformulated engine (strength and core size evolve).
    Reformulated,
    /// Classic two-stage convection, velocities evaluated along the path.
    Classic(EvalPath),
}

/// The integer and switch settings of the wake solver that decide how each
/// sub-step is carried out.
#[derive(Clone, Copy, Debug, PartialEq, Eq, Structural)]
pub struct WakeControls {
    /// Most particles kept; the oldest are dropped beyond it.
    pub max_particles: usize,
    /// Use the Barnes-Hut evaluator once the wake is large enough.
    pub barnes_hut: bool,
    /// Wake size from which Barnes-Hut is used.
    pub bh_min_particles: usize,
    /// Parallel evaluation.
    pub use_rayon: bool,
    /// Route every evaluation through the checking scalar sum.
    pub use_scalar_nan_check: bool,
    /// Population control by merging far-field cells.
    pub merge_wake: bool,
    /// Merge every this many sub-steps (0 disables).
    pub merge_every: usize,
    /// No merging below this many particles.
    pub merge_min_particles: usize,
    /// Engine that convects the wake.
    pub wake_engine: WakeEngine,
}

/// Evaluation path for a wake of `len` particles.
pub open spec fn eval_path(c: WakeControls, len: nat) -> EvalPath {
    if c.use_scalar_nan_check {
        EvalPath::ScalarNanCheck
    } else if c.barnes_hut && len >= c.bh_min_particles {
        if c.use_rayon {
            EvalPath::BarnesHutParallel
        } else {
            EvalPath::BarnesHutSequential
        }
    } else if c.use_rayon {
        EvalPath::DirectParallel
    } else {
        EvalPath::DirectSequential
    }
}

/// The checking sum is used exactly when asked for; otherwise the tree is
/// used exactly when Barnes-Hut is on and the wake has reached its
/// threshold, and the evaluation is parallel exactly when parallelism is on.
pub proof fn lemma_eval_path_choice(c: WakeControls, len: nat)
    ensures
        eval_path(c, len) == EvalPath::ScalarNanCheck <==> c.use_scalar_nan_check,
        (eval_path(c, len) == EvalPath::BarnesHutParallel || eval_path(c, len)
            == EvalPath::BarnesHutSequential) <==> (!c.use_scalar_nan_check && c.barnes_hut && len
            >= c.bh_min_particles),
        (eval_path(c, len) == EvalPath::BarnesHutParallel || eval_path(c, len)
            == EvalPath::DirectParallel) <==> (!c.use_scalar_nan_check && c.use_rayon),
{
}

/// What one wake sub-step does, as plain values.
#[derive(Clone, Copy, Debug, PartialEq, Eq, Structural)]
pub struct WakeStep {
    /// How the particles are convected.
    pub advect: AdvectPath,
    /// How many of the oldest particles are dropped after convection.
    pub drop_oldest: usize,
    /// Whether the merge pass may run (it still waits for its azimuth).
    pub merge_allowed: bool,
}

impl WakeControls {
    /// Evaluation path for the induced velocity of a wake of `len` particles
    /// at probe points: the checking sum when asked for, Barnes-Hut once the
    /// wake has reached its threshold, otherwise the direct sum; parallel or
    /// not as configured.
    pub fn probe_path(&self, len: usize) -> (r: EvalPath)
        ensures
            r == eval_path(*self, len as nat),
    {
        if self.use_scalar_nan_check {
            EvalPath::ScalarNanCheck
        } else if self.barnes_hut && len >= self.bh_min_particles {
            if self.use_rayon {
                EvalPath::BarnesHutParallel
            } else {
                EvalPath::BarnesHutSequential
            }
        } else if self.use_rayon {
            EvalPath::DirectParallel
        } else {
            EvalPath::DirectSequential
        }
    }

    /// Plan of one sub-step on a wake of `len` particles: convect with the
    /// configured engine, drop the oldest particles beyond the cap, and allow
    /// the merge pass only when merging is on, has a period, and the capped
    /// wake is large enough.
    pub fn plan_step(&self, len: usize) -> (r: WakeStep)
        ensures
            r == wake_step(*self, len),
    {
        let advect = match self.wake_engine {
            WakeEngine::ReformulatedVpm => AdvectPath::Reformulated,
            WakeEngine::ClassicVpm => AdvectPath::Classic(self.probe_path(len)),
        };
        let drop_oldest = if len > self.max_particles {
            len - self.max_particles
        } else {
            0
        };
        let kept = len - drop_oldest;
        let merge_allowed = self.merge_wake && self.merge_every > 0
            && kept >= self.merge_min_particles;
        WakeStep { advect, drop_oldest, merge_allowed }
    }
}

/// What one sub-step on a wake of `len` particles does.
pub open spec fn wake_step(c: WakeControls, len: usize) -> WakeStep {
    let drop_oldest: usize = if len > c.max_particles {
        (len - c.max_particles) as usize
    } else {
        0
    };
    WakeStep {
        advect: match c.wake_engine {
            WakeEngine::ReformulatedVpm => AdvectPath::Reformulated,
            WakeEngine::ClassicVpm => AdvectPath::Classic(eval_path(c, len as nat)),
        },
        drop_oldest,
        merge_allowed: c.merge_wake && c.merge_every > 0 && len - drop_oldest
            >= c.merge_min_particles,
    }
}

/// After a sub-step the wake holds the smaller of its size and the cap:
/// the oldest particles are dropped only from a wake over the cap, and then
/// exactly down to the cap.
pub proof fn lemma_step_keeps_cap(c: WakeControls, len: usize)
    ensures
        wake_step(c, len).drop_oldest <= len,
        len - wake_step(c, len).drop_oldest == (if len > c.max_particles {
            c.max_particles as int
        } else {
            len as int
        }),
        wake_step(c, len).drop_oldest == 0 <==> len <= c.max_particles,
{
}

/// The merge pass is allowed exactly when merging is switched on, has a
/// period, and the wake left after truncation (the smaller of its size and
/// the cap) holds at least the merge threshold; with merging off it never
/// runs, whatever the wake.
pub proof fn lemma_merge_gate(c: WakeControls, len: usize)
    ensures
        wake_step(c, len).merge_allowed <==> (c.merge_wake && c.merge_every > 0 && (if len
            > c.max_particles {
            c.max_particles as int
        } else {
            len as int
        }) >= c.merge_min_particles),
        !c.merge_wake ==> !wake_step(c, len).merge_allowed,
        c.merge_every == 0 ==> !wake_step(c, len).merge_allowed,
{
}

/// The reformulated engine never uses the tree or the checking sum for
/// convection; the classic engine evaluates as the probes do.
pub proof fn lemma_advect_follows_engine(c: WakeControls, len: usize)
    ensures
        c.wake_engine == WakeEngine::ReformulatedVpm ==> wake_step(c, len).advect
            == AdvectPath::Reformulated,
        c.wake_engine == WakeEngine::ClassicVpm ==> wake_step(c, len).advect == AdvectPath::Classic(
            eval_path(c, len as nat),
        ),
{
}

/// Loads of a `march` are averaged over its second half, and over at least
/// one step.
pub fn march_avg_window(n_steps: usize) -> (r: usize)
    ensures
        r == (if n_steps / 2 >= 1 {
            n_steps / 2
        } else {
            1
        }),
{
    let h = n_steps / 2;
    if h >= 1 {
        h
    } else {
        1
    }
}

/// First sub-step whose loads enter the average: the last `avg_window`
/// steps of `total_steps` are averaged (all of them when the window is
/// longer).
pub fn averaging_start(total_steps: usize, avg_window: usize) -> (r: usize)
    ensures
        r == (if total_steps > avg_window {
            total_steps - avg_window
        } else {
            0
        }),
{
    total_steps.saturating_sub(avg_window)
}

/// The steps that enter the average are exactly the last
/// `min(total, window)` ones.
pub proof fn lemma_averaged_steps(total_steps: nat, avg_window: nat)
    ensures
        ({
            let start = if total_steps > avg_window {
                total_steps - avg_window
            } else {
                0
            };
            total_steps - start == (if total_steps < avg_window {
                total_steps
            } else {
                avg_window
            })
        }),
{
}

/// A persisted per-blade, per-station table seeds the next march only when
/// it has one row per blade and one entry per station in every row.
pub open spec fn table_fits(row_lens: Seq<usize>, n_blades: nat, n_stations: nat) -> bool {
    row_lens.len() == n_blades && forall|b: int|
        0 <= b < row_lens.len() ==> #[trigger] row_lens[b] == n_stations
}

/// Whether a persisted circulation table (given by its row lengths) has the
/// shape of the rotor (`n_blades` rows of `n_stations`).
pub fn table_fits_rotor(row_lens: &Vec<usize>, n_blades: usize, n_stations: usize) -> (r: bool)
    ensures
        r == table_fits(row_lens@, n_blades as nat, n_stations as nat),
{
    if row_lens.len() != n_blades {
        return false;
    }
    let mut b: usize = 0;
    while b < row_lens.len()
        invariant
            b <= row_lens@.len(),
            forall|j: int| 0 <= j < b ==> #[trigger] row_lens@[j] == n_stations,
        decreases row_lens@.len() - b,
    {
        if row_lens[b] != n_stations {
            return false;
        }
        b = b + 1;
    }
    true
}

/// A persisted per-blade state (flap or feathering) is reused only when its
/// degree of freedom is active and it has one entry per blade.
pub fn blade_state_reusable(active: bool, len: usize, n_blades: usize) -> (r: bool)
    ensures
        r == (active && len == n_blades),
{
    active && len == n_blades
}

/// Most wake sub-steps spent settling a wake towards its cap.
pub const SETTLE_MAX_STEPS: usize = 5000;

/// Consecutive steps without growth after which settling gives up.
pub const SETTLE_MAX_STALL: u32 = 20;

/// Progress of settling a wake up to its particle cap: steps taken, the
/// wake size last seen, and how many steps in a row it has not grown.
pub struct Settler {
    pub steps: usize,
    pub last_len: usize,
    pub stall: u32,
}

impl Settler {
    /// Starts settling from a wake of `len` particles.
    pub fn new(len: usize) -> (r: Settler)
        ensures
            r.steps == 0,
            r.last_len == len,
            r.stall == 0,
    {
        Settler { steps: 0, last_len: len, stall: 0 }
    }

    /// Whether another step is to be taken on a wake of `len` particles:
    /// not once the cap is reached, nor after the step budget.
    pub fn wants_step(&self, len: usize, cap: usize) -> (r: bool)
        ensures
            r == (self.steps < SETTLE_MAX_STEPS && len < cap),
    {
        self.steps < SETTLE_MAX_STEPS && len < cap
    }

    /// Records a step that left `len` particles; `false` when the wake has
    /// not grown for more than the allowed run of steps, which ends the
    /// settling.
    pub fn after_step(&mut self, len: usize) -> (r: bool)
        requires
            old(self).steps < SETTLE_MAX_STEPS,
            old(self).stall <= SETTLE_MAX_STALL,
        ensures
            final(self).steps == old(self).steps + 1,
            final(self).stall == (if len == old(self).last_len {
                old(self).stall + 1
            } else {
                0
            }),
            r == (final(self).stall <= SETTLE_MAX_STALL),
            final(self).last_len == len,
    {
        self.steps = self.steps + 1;
        if len == self.last_len {
            self.stall = self.stall + 1;
            if self.stall > SETTLE_MAX_STALL {
                return false;
            }
        } else {
            self.stall = 0;
        }
        self.last_len = len;
        true
    }
}

} // verus!
