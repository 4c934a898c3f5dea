use kannaka_crystal::behavior::{
    apply_behavior_level, contract_for, known_capability, presence_chunks, record_capability, scramble,
    seed_split, seeds_from, target_text, Capability, CONTRACT_VERSION_V2, NOISE_SHIELDING,
    PATTERN_COMPLETION,
};
use kannaka_crystal::ids::Timestamp;
use kannaka_crystal::primitives::{Classification, DetectedStructure, MorphologyFeatures, PrimitiveClass};
use kannaka_crystal::registry::{BehavioralCapability, EvidenceRecord, Instantiation, Primitive, Registry};

fn structure() -> DetectedStructure {
    DetectedStructure {
        class: PrimitiveClass::StandingEcho,
        classification: Classification {
            display_class: "Standing Echo".into(),
            primitive_domain: "morphological".into(),
            classifier_version: "morphology-v1".into(),
            classifier_confidence: 0.8f64.to_bits(),
            features: MorphologyFeatures {
                relative_area: 0.01f64.to_bits(),
                elongation: 1.2f64.to_bits(),
                annularity: 0.1f64.to_bits(),
                angular_gap_count: 0,
                occupied_bins: 16,
                stability_ratio: 2.5f64.to_bits(),
            },
        },
        centroid: (0.5f64.to_bits(), 0.5f64.to_bits()),
        area: 40,
        stability_score: 2.5f64.to_bits(),
        signature: vec![0.0625f64.to_bits(); 256],
    }
}

fn seeded_primitive() -> Primitive {
    let mut r = Registry::default();
    r.register(&structure(), 0.6f64.to_bits(), 0.5f64.to_bits(), vec![], "metamaterial", vec![], "evolve gen 0", None, None, &[1, 2, 3], &vec![])
        .expect("registration")
}

fn capability(name: &str, passed: bool, trials: u64) -> BehavioralCapability {
    BehavioralCapability {
        name: name.into(),
        contract_version: CONTRACT_VERSION_V2.into(),
        passed,
        mean_advantage: (if passed { 0.05f64 } else { 0.0 }).to_bits(),
        std_advantage: 0.01f64.to_bits(),
        positive_fraction: (if passed { 1.0f64 } else { 0.0 }).to_bits(),
        trials,
        at: Timestamp { secs: 0, nanos: 0 },
        node: "test".into(),
        instantiation: Some(Instantiation::default()),
        fit_advantage: Some(0.05f64.to_bits()),
        control_advantage: Some(0.0f64.to_bits()),
        reassert_every: None,
        reassert_gain: None,
    }
}

#[test]
fn fit_and_held_out_seeds_never_overlap() {
    let (fit_seeds, held) = (3u64, 4u64);
    let (fit, score) = seed_split(fit_seeds, held, 2).unwrap();
    assert!(fit.iter().all(|f| !score.contains(f)));
    assert_eq!(score.len(), held as usize);
    assert_eq!(fit, vec![0, 1, 2]);
    assert_eq!(score, vec![3, 4, 5, 6]);
}

#[test]
fn scramble_preserves_values_and_destroys_arrangement() {
    let sig: Vec<u64> = (0..256).map(|i| (i as f64 / 256.0).to_bits()).collect();
    let mixed = scramble(&sig);
    assert_ne!(mixed, sig, "a scramble that changes nothing controls nothing");
    let mut a: Vec<f64> = sig.iter().map(|b| f64::from_bits(*b)).collect();
    let mut b: Vec<f64> = mixed.iter().map(|b| f64::from_bits(*b)).collect();
    a.sort_by(f64::total_cmp);
    b.sort_by(f64::total_cmp);
    assert_eq!(a, b, "scramble must permute, not alter, the values");
    assert_eq!(mixed, scramble(&sig), "scramble must be deterministic");
}

#[test]
fn v2_rejects_an_empty_seed_split() {
    assert!(seed_split(0, 2, 2).is_err());
    assert!(seed_split(2, 0, 2).is_err());
    assert_eq!(
        seed_split(0, 2, 2).unwrap_err(),
        "v2 needs at least one fit seed and one held-out seed"
    );
}

#[test]
fn v3_rejects_an_empty_seed_split() {
    assert!(seed_split(0, 2, 3).is_err());
    assert!(seed_split(2, 0, 3).is_err());
    assert_eq!(
        seed_split(2, 0, 3).unwrap_err(),
        "v3 needs at least one fit seed and one held-out seed"
    );
}

#[test]
fn unknown_capability_is_an_error() {
    assert!(contract_for("telepathy").is_err());
    assert_eq!(
        contract_for("telepathy").unwrap_err(),
        "unknown capability: telepathy (noise_shielding|pattern_completion)"
    );
    assert_eq!(contract_for(NOISE_SHIELDING), Ok(Capability::NoiseShielding));
    assert_eq!(contract_for(PATTERN_COMPLETION), Ok(Capability::PatternCompletion));
    assert!(known_capability("noise_shielding"));
    assert!(!known_capability("Noise_Shielding"));
}

#[test]
fn a_failed_contract_withdraws_the_level_6_it_granted() {
    let mut prim = seeded_primitive();
    prim.evidence_level = 3;
    prim.evidence_records.push(EvidenceRecord {
        level: 3,
        procedure: "perturbation-ensemble-v2".into(),
        metrics: "{}".into(),
        at: Timestamp { secs: 0, nanos: 0 },
        node: "test".into(),
    });
    prim.behavioral_capabilities.push(capability(NOISE_SHIELDING, true, 6));
    apply_behavior_level(&mut prim);
    assert_eq!(prim.evidence_level, 6, "a pass should grant L6");

    // A re-test that fails replaces the stale pass; the level falls back
    // to what the other evidence supports.
    record_capability(&mut prim, capability(NOISE_SHIELDING, false, 30));
    assert_eq!(prim.behavioral_capabilities.len(), 1);
    assert_eq!(
        prim.evidence_level, 3,
        "a failed re-test must fall back to the level other evidence supports"
    );
    // And a passing re-test restores it.
    record_capability(&mut prim, capability(NOISE_SHIELDING, true, 30));
    assert_eq!(prim.evidence_level, 6);
}

#[test]
fn demotion_floors_at_level_1_with_no_other_evidence() {
    let mut prim = seeded_primitive();
    prim.evidence_level = 6;
    prim.behavioral_capabilities.push(capability(NOISE_SHIELDING, false, 30));
    apply_behavior_level(&mut prim);
    assert_eq!(prim.evidence_level, 1);
}

#[test]
fn one_failing_capability_does_not_strip_a_still_passing_one() {
    let mut prim = seeded_primitive();
    prim.evidence_level = 6;
    for (name, passed) in [(NOISE_SHIELDING, false), (PATTERN_COMPLETION, true)] {
        prim.behavioral_capabilities.push(capability(name, passed, 30));
    }
    apply_behavior_level(&mut prim);
    assert_eq!(prim.evidence_level, 6);
}

#[test]
fn capability_record_gates_level_6_on_replication() {
    // A fresh primitive is Level 1: even a pass must not grant Level 6.
    let mut prim = seeded_primitive();
    record_capability(&mut prim, capability(NOISE_SHIELDING, true, 3));
    assert_eq!(prim.behavioral_capabilities.len(), 1);
    assert!(prim.evidence_level < 6, "unreplicated primitive must not reach L6");
}

#[test]
fn rerunning_a_contract_replaces_the_capability_record() {
    let mut prim = seeded_primitive();
    record_capability(&mut prim, capability(PATTERN_COMPLETION, false, 2));
    record_capability(&mut prim, capability(PATTERN_COMPLETION, false, 3));
    assert_eq!(prim.behavioral_capabilities.len(), 1, "no duplicate records");
    assert_eq!(prim.behavioral_capabilities[0].trials, 3);
}

#[test]
fn presence_schedule_covers_every_step() {
    assert_eq!(presence_chunks(100, 30), vec![30, 30, 30, 10]);
    assert_eq!(presence_chunks(90, 30), vec![30, 30, 30]);
    assert_eq!(presence_chunks(0, 10), Vec::<u64>::new());
    assert_eq!(presence_chunks(7, 10), vec![7]);
}

#[test]
fn seeds_and_target_texts() {
    assert_eq!(seeds_from(5, 3), vec![5, 6, 7]);
    assert_eq!(target_text(42), "behavioral target 42");
}
