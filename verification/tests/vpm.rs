use dynbem_rs::vpm::{
    averaging_start, blade_state_reusable, march_avg_window, table_fits_rotor, AdvectPath,
    EvalPath, Settler, WakeControls, WakeEngine,
};

fn controls() -> WakeControls {
    WakeControls {
        max_particles: 4800,
        barnes_hut: false,
        bh_min_particles: 2048,
        use_rayon: true,
        use_scalar_nan_check: false,
        merge_wake: false,
        merge_every: 0,
        merge_min_particles: 0,
        wake_engine: WakeEngine::ClassicVpm,
    }
}

#[test]
fn wake_engine_default_is_classic() {
    assert_eq!(WakeEngine::default(), WakeEngine::ClassicVpm);
}

#[test]
fn probe_path_selection() {
    let mut c = controls();
    assert_eq!(c.probe_path(10), EvalPath::DirectParallel);
    c.use_rayon = false;
    assert_eq!(c.probe_path(10), EvalPath::DirectSequential);
    c.barnes_hut = true;
    assert_eq!(c.probe_path(2047), EvalPath::DirectSequential);
    assert_eq!(c.probe_path(2048), EvalPath::BarnesHutSequential);
    c.use_rayon = true;
    assert_eq!(c.probe_path(5000), EvalPath::BarnesHutParallel);
    c.use_scalar_nan_check = true;
    assert_eq!(c.probe_path(5000), EvalPath::ScalarNanCheck);
}

#[test]
fn step_truncates_to_cap() {
    let c = controls();
    let s = c.plan_step(5000);
    assert_eq!(s.drop_oldest, 200);
    assert_eq!(s.advect, AdvectPath::Classic(EvalPath::DirectParallel));
    assert!(!s.merge_allowed);
    assert_eq!(c.plan_step(4800).drop_oldest, 0);
    assert_eq!(c.plan_step(0).drop_oldest, 0);
}

#[test]
fn reformulated_engine_ignores_barnes_hut() {
    let mut c = controls();
    c.wake_engine = WakeEngine::ReformulatedVpm;
    c.barnes_hut = true;
    assert_eq!(c.plan_step(9000).advect, AdvectPath::Reformulated);
    assert_eq!(c.probe_path(9000), EvalPath::BarnesHutParallel);
}

#[test]
fn merge_needs_switch_period_and_size() {
    let mut c = controls();
    c.merge_wake = true;
    c.merge_every = 4;
    c.merge_min_particles = 1000;
    assert!(c.plan_step(1000).merge_allowed);
    assert!(!c.plan_step(999).merge_allowed);
    c.max_particles = 900;
    assert!(!c.plan_step(5000).merge_allowed);
    c.max_particles = 4800;
    c.merge_every = 0;
    assert!(!c.plan_step(5000).merge_allowed);
}

#[test]
fn march_averages_second_half() {
    assert_eq!(march_avg_window(0), 1);
    assert_eq!(march_avg_window(1), 1);
    assert_eq!(march_avg_window(4), 2);
    assert_eq!(march_avg_window(9), 4);
    assert_eq!(averaging_start(4, 2), 2);
    assert_eq!(averaging_start(1, 1), 0);
    assert_eq!(averaging_start(3, 10), 0);
}

#[test]
fn persisted_state_shapes() {
    assert!(table_fits_rotor(&vec![20, 20, 20], 3, 20));
    assert!(!table_fits_rotor(&vec![20, 19, 20], 3, 20));
    assert!(!table_fits_rotor(&vec![20, 20], 3, 20));
    assert!(table_fits_rotor(&vec![], 0, 5));
    assert!(blade_state_reusable(true, 4, 4));
    assert!(!blade_state_reusable(false, 4, 4));
    assert!(!blade_state_reusable(true, 3, 4));
}

#[test]
fn settling_stops_at_cap_or_stall() {
    // Growing wake reaches the cap.
    let cap = 100;
    let mut len = 10;
    let mut s = Settler::new(len);
    let mut steps = 0;
    while s.wants_step(len, cap) {
        len += 30;
        steps += 1;
        if !s.after_step(len) {
            break;
        }
    }
    assert_eq!(len, 100);
    assert_eq!(steps, 3);

    // A wake that stops growing is given up after 21 flat steps.
    let mut s = Settler::new(50);
    let mut steps = 0;
    while s.wants_step(50, cap) {
        steps += 1;
        if !s.after_step(50) {
            break;
        }
    }
    assert_eq!(steps, 21);
    assert_eq!(s.stall, 21);
}

#[test]
fn settling_respects_step_budget() {
    let mut s = Settler::new(0);
    let mut len = 0;
    let mut steps = 0;
    while s.wants_step(len, usize::MAX) {
        len += 1;
        steps += 1;
        if !s.after_step(len) {
            break;
        }
    }
    assert_eq!(steps, 5000);
}
