use dynbem_rs::rotor_profile::{
    parse_profile_args, plan_profile, ModelKind, OutputFormat, TimingMode,
};

fn args(words: &[&str]) -> Vec<String> {
    let mut v = vec!["rotor_profile".to_string()];
    for w in words {
        v.push(w.to_string());
    }
    v
}

#[test]
fn model_names_are_canonical() {
    assert_eq!(ModelKind::VpmDirect.name(), "vpm-direct");
    assert_eq!(ModelKind::VpmBh.name(), "vpm-bh");
    assert_eq!(ModelKind::PittPeters.name(), "pitt-peters");
    assert_eq!(ModelKind::Oye.name(), "oye");
    assert_eq!(ModelKind::Bem.name(), "bem");
}

#[test]
fn model_name_round_trips_through_from_str() {
    for k in [
        ModelKind::VpmDirect,
        ModelKind::VpmBh,
        ModelKind::PittPeters,
        ModelKind::Oye,
        ModelKind::Bem,
    ] {
        assert_eq!(ModelKind::from_str(k.name()), Some(k));
    }
}

#[test]
fn from_str_accepts_aliases_case_and_spaces() {
    assert_eq!(ModelKind::from_str("  VPM_BH "), Some(ModelKind::VpmBh));
    assert_eq!(ModelKind::from_str("PP"), Some(ModelKind::PittPeters));
    assert_eq!(ModelKind::from_str("pitt_peters"), Some(ModelKind::PittPeters));
    assert_eq!(ModelKind::from_str("Vpm-Direct"), Some(ModelKind::VpmDirect));
    assert_eq!(ModelKind::from_str("all"), None);
    assert_eq!(ModelKind::from_str("bemx"), None);
    assert_eq!(ModelKind::from_str(""), None);
    assert_eq!(ModelKind::from_str("\u{3000}oye\u{2003}\n"), Some(ModelKind::Oye));
    assert_eq!(ModelKind::from_str(" \t "), None);
}

#[test]
fn timing_variants_match_mode() {
    assert_eq!(TimingMode::SeqOnly.variants(), &[(false, "-seq")]);
    assert_eq!(TimingMode::ParOnly.variants(), &[(true, "-par")]);
    assert_eq!(TimingMode::Both.variants(), &[(true, "-par"), (false, "-seq")]);
}

#[test]
fn timing_mode_from_flags() {
    assert_eq!(TimingMode::from_flags(true, false), TimingMode::SeqOnly);
    assert_eq!(TimingMode::from_flags(false, true), TimingMode::ParOnly);
    assert_eq!(TimingMode::from_flags(false, false), TimingMode::Both);
    assert_eq!(TimingMode::from_flags(true, true), TimingMode::Both);
}

#[test]
fn output_format_words() {
    assert_eq!(OutputFormat::from_word("csv"), OutputFormat::Csv);
    assert_eq!(OutputFormat::from_word("md"), OutputFormat::Markdown);
    assert_eq!(OutputFormat::from_word("markdown"), OutputFormat::Markdown);
    assert_eq!(OutputFormat::from_word("CSV"), OutputFormat::Text);
    assert_eq!(OutputFormat::from_word("html"), OutputFormat::Text);
}

#[test]
fn help_stops_parsing() {
    assert!(parse_profile_args(&args(&["--seq", "--help", "bem"])).is_none());
    assert!(parse_profile_args(&args(&["-h"])).is_none());
}

#[test]
fn defaults_without_arguments() {
    let a = parse_profile_args(&args(&[])).unwrap();
    assert!(a.models.is_empty());
    assert_eq!(a.max_particles, 20000);
    assert!(a.duration_words.is_empty());
    assert_eq!(a.output, OutputFormat::Text);
    assert!(!a.force_seq && !a.force_par && !a.long_sweep);
    let p = plan_profile(&a);
    assert_eq!(
        p.models,
        vec![
            ModelKind::VpmDirect,
            ModelKind::VpmBh,
            ModelKind::PittPeters,
            ModelKind::Oye,
            ModelKind::Bem
        ]
    );
    assert_eq!(p.particle_counts, vec![500, 2000, 5000, 10000, 20000]);
    assert_eq!(p.vpm_caps, vec![500, 2000, 5000, 10000, 20000]);
    assert_eq!(p.max_particles, 20000);
    assert_eq!(p.timing_mode, TimingMode::Both);
    assert!(p.want_direct && p.want_bh);
    assert_eq!(
        p.single_runs,
        vec![ModelKind::PittPeters, ModelKind::Oye, ModelKind::Bem]
    );
}

#[test]
fn options_and_model_lists() {
    let a = parse_profile_args(&args(&[
        "vpm-direct,vpm-bh",
        "--duration",
        "30",
        "--output",
        "csv",
        "--max-particles",
        "3000",
        "--seq",
    ]))
    .unwrap();
    assert_eq!(a.models, vec![ModelKind::VpmDirect, ModelKind::VpmBh]);
    assert_eq!(a.duration_words, vec!["30".to_string()]);
    assert_eq!(a.output, OutputFormat::Csv);
    assert_eq!(a.max_particles, 3000);
    assert!(a.force_seq && !a.force_par);
    let p = plan_profile(&a);
    assert_eq!(p.vpm_caps, vec![500, 2000, 3000, 3000, 3000]);
    assert_eq!(p.timing_mode, TimingMode::SeqOnly);
    assert!(p.single_runs.is_empty());
}

#[test]
fn unreadable_max_particles_falls_back() {
    let a = parse_profile_args(&args(&["--max-particles", "12k"])).unwrap();
    assert_eq!(a.max_particles, 20000);
    let a = parse_profile_args(&args(&["--max-particles", "+700"])).unwrap();
    assert_eq!(a.max_particles, 700);
    let a = parse_profile_args(&args(&["--max-particles"])).unwrap();
    assert_eq!(a.max_particles, 20000);
    let a = parse_profile_args(&args(&["--max-particles", "+"])).unwrap();
    assert_eq!(a.max_particles, 20000);
    let a = parse_profile_args(&args(&["--max-particles", ""])).unwrap();
    assert_eq!(a.max_particles, 20000);
    let a = parse_profile_args(&args(&["--max-particles", "-5"])).unwrap();
    assert_eq!(a.max_particles, 20000);
    let a = parse_profile_args(&args(&["--max-particles", "99999999999999999999999"])).unwrap();
    assert_eq!(a.max_particles, 20000);
    let a = parse_profile_args(&args(&["--max-particles", "007"])).unwrap();
    assert_eq!(a.max_particles, 7);
}

#[test]
fn all_replaces_the_model_list() {
    let a = parse_profile_args(&args(&["bem", "ALL", "oye"])).unwrap();
    assert_eq!(
        a.models,
        vec![
            ModelKind::VpmDirect,
            ModelKind::VpmBh,
            ModelKind::PittPeters,
            ModelKind::Oye,
            ModelKind::Bem,
            ModelKind::Oye
        ]
    );
    let p = plan_profile(&a);
    assert_eq!(
        p.single_runs,
        vec![ModelKind::PittPeters, ModelKind::Oye, ModelKind::Bem, ModelKind::Oye]
    );
}

#[test]
fn comma_list_skips_unknown_words() {
    let a = parse_profile_args(&args(&["oye,,nope, BEM", "--unknown", "-x"])).unwrap();
    assert_eq!(a.models, vec![ModelKind::Oye, ModelKind::Bem]);
    let p = plan_profile(&a);
    assert!(!p.want_direct && !p.want_bh);
    assert!(p.vpm_caps.is_empty());
}

#[test]
fn long_sweep_raises_the_cap() {
    let a = parse_profile_args(&args(&["--long", "vpm-bh", "--par"])).unwrap();
    let p = plan_profile(&a);
    assert_eq!(p.particle_counts, vec![2000, 5000, 10000, 16000, 32000]);
    assert_eq!(p.max_particles, 32000);
    assert_eq!(p.vpm_caps, vec![2000, 5000, 10000, 16000, 32000]);
    assert_eq!(p.timing_mode, TimingMode::ParOnly);
    let a = parse_profile_args(&args(&["--long", "--max-particles", "50000"])).unwrap();
    assert_eq!(plan_profile(&a).max_particles, 50000);
}

#[test]
fn every_cap_is_within_max() {
    let a = parse_profile_args(&args(&["vpm-direct", "--max-particles", "1000"])).unwrap();
    let p = plan_profile(&a);
    assert!(p.vpm_caps.iter().all(|&c| c <= p.max_particles));
    assert_eq!(p.vpm_caps, vec![500, 1000, 1000, 1000, 1000]);
}

#[test]
fn duration_words_keep_order() {
    let a = parse_profile_args(&args(&["--duration", "abc", "--duration", "2.5"])).unwrap();
    assert_eq!(a.duration_words, vec!["abc".to_string(), "2.5".to_string()]);
}

#[test]
fn ascii_model_words_ignore_case_and_padding() {
    let a = parse_profile_args(&args(&[" PP ", "Vpm_Bh,OYE", "nope"])).unwrap();
    assert_eq!(a.models, vec![ModelKind::PittPeters, ModelKind::VpmBh, ModelKind::Oye]);
}
