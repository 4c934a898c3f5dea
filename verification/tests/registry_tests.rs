use kannaka_crystal::primitives::{Classification, DetectedStructure, MorphologyFeatures, PrimitiveClass};
use kannaka_crystal::ranking::total_order_key;
use kannaka_crystal::evidence::{
    manifest_id, record_cross_resolution, record_perturbation, record_reproduction,
};
use kannaka_crystal::registry::{caps_from, default_evidence_level, Primitive, Registry};

fn fake_signature(seed: f64) -> Vec<f64> {
    let mut signature = vec![0.0; 256];
    for (i, v) in signature.iter_mut().enumerate() {
        *v = ((i as f64 * seed).sin()).abs();
    }
    let norm: f64 = signature.iter().map(|v| v * v).sum::<f64>().sqrt();
    for v in signature.iter_mut() {
        *v /= norm;
    }
    signature
}

fn fake_structure(seed: f64) -> DetectedStructure {
    let signature = fake_signature(seed);
    DetectedStructure {
        class: PrimitiveClass::StandingEcho,
        classification: Classification {
            display_class: "Standing Echo".into(),
            primitive_domain: "morphological".into(),
            classifier_version: "morphology-v1".into(),
            classifier_confidence: 0.8f64.to_bits(),
            features: MorphologyFeatures {
                relative_area: 0.01f64.to_bits(),
                elongation: 1.2f64.to_bits(),
                annularity: 0.1f64.to_bits(),
                angular_gap_count: 0,
                occupied_bins: 16,
                stability_ratio: 2.5f64.to_bits(),
            },
        },
        centroid: (0.5f64.to_bits(), 0.5f64.to_bits()),
        area: 40,
        stability_score: 2.5f64.to_bits(),
        signature: signature.iter().map(|v| v.to_bits()).collect(),
    }
}

fn similarity(a: &[u64], b: &[u64]) -> f64 {
    a.iter()
        .zip(b)
        .map(|(x, y)| f64::from_bits(*x) * f64::from_bits(*y))
        .sum::<f64>()
        .clamp(-1.0, 1.0)
}

fn near(r: &Registry, sig: &[u64]) -> Vec<bool> {
    r.primitives.iter().map(|p| similarity(&p.signature, sig) >= 0.92).collect()
}

fn quantized(sig: &[u64]) -> Vec<u8> {
    sig.iter().map(|v| (f64::from_bits(*v) * 255.0) as u8).collect()
}

#[allow(clippy::too_many_arguments)]
fn register(
    r: &mut Registry,
    s: &DetectedStructure,
    persistence: f64,
    noise_tolerance: f64,
    energy: Vec<f64>,
    material: &str,
    provenance: &str,
    experiment: Option<(u128, String)>,
) -> Option<Primitive> {
    let flags = near(r, &s.signature);
    let q = quantized(&s.signature);
    r.register(
        s,
        persistence.to_bits(),
        noise_tolerance.to_bits(),
        energy.iter().map(|v| v.to_bits()).collect(),
        material,
        vec![],
        provenance,
        experiment,
        None,
        &q,
        &flags,
    )
}

fn quality_keys(r: &Registry) -> Vec<u64> {
    r.primitives
        .iter()
        .map(|p| {
            let q = f64::from_bits(p.persistence) * 0.7 + f64::from_bits(p.noise_tolerance) * 0.3;
            total_order_key(q.to_bits())
        })
        .collect()
}

#[test]
fn register_assigns_sequential_ids_and_rejects_duplicates() {
    let mut r = Registry::default();
    let s1 = fake_structure(0.13);
    let experiment_id: u128 = 0x1234_5678_9abc_4def_8123_456789abcdef;
    let experiment = Some((experiment_id, "abc123".to_string()));
    let p1 = register(&mut r, &s1, 0.9, 0.8, vec![1.0, 0.9], "silicon", "test", experiment)
        .expect("first registration");
    assert_eq!(p1.id, "CRY-000001");
    assert_eq!(p1.experiment_id, Some(experiment_id));
    assert_eq!(p1.experiment_hash.as_deref(), Some("abc123"));
    let cls = p1.classification.expect("classification metadata");
    assert_eq!(cls.classifier_version, "morphology-v1");
    assert_eq!(cls.primitive_domain, "morphological");

    // Exact duplicate is rejected.
    assert!(register(&mut r, &s1, 0.9, 0.8, vec![], "silicon", "test", None).is_none());

    // A different structure registers with the next serial.
    let p2 = register(&mut r, &fake_structure(0.77), 0.5, 0.4, vec![], "silicon", "test", None)
        .expect("second registration");
    assert_eq!(p2.id, "CRY-000002");
    assert!(p2.experiment_id.is_none());
}

#[test]
fn prune_respects_bucket_and_total_caps_keeping_quality() {
    let mut r = Registry::default();
    for i in 0..30 {
        let s = fake_structure(0.1 + i as f64 * 0.037);
        // Rising persistence so the best are the later ones.
        register(&mut r, &s, 0.2 + (i as f64) * 0.02, 0.5, vec![], "silicon", "t", None);
    }
    assert!(r.primitives.len() > 10, "need a populated registry");
    let mut persistences: Vec<f64> =
        r.primitives.iter().map(|p| f64::from_bits(p.persistence)).collect();
    persistences.sort_by(|a, b| b.total_cmp(a));
    let tenth_best = persistences[9];

    let q = quality_keys(&r);
    let evicted = r.prune(10, 100, &q);
    assert_eq!(r.primitives.len(), 10, "bucket cap enforced");
    assert!(evicted > 0);
    assert!(
        r.primitives.iter().all(|p| f64::from_bits(p.persistence) >= tenth_best - 1e-9),
        "prune must keep highest quality"
    );

    // Absolute cap dominates.
    let q2 = quality_keys(&r);
    let evicted2 = r.prune(10, 4, &q2);
    assert_eq!(r.primitives.len(), 4);
    assert_eq!(evicted2, 6);
}

#[test]
fn merge_remote_imports_once_and_reserials() {
    let mut local = Registry::default();
    let mut origin = Registry::default();
    let remote = register(&mut origin, &fake_structure(0.13), 0.9, 0.8, vec![], "silicon", "evolve gen 1", None)
        .unwrap();

    let flags = near(&local, &remote.signature);
    let merged_id = local.merge_remote(&remote, "crystal-abc123", &flags).expect("first merge");
    assert_eq!(merged_id, "CRY-000001", "local serial, not origin's");
    let merged = local.find(&merged_id).unwrap();
    assert_eq!(merged.uuid, remote.uuid, "swarm identity is the uuid");
    assert!(merged.provenance.contains("swarm:crystal-abc123:CRY-000001"));

    // Re-announcement is idempotent; near-duplicate structure rejected.
    let flags = near(&local, &remote.signature);
    assert!(local.merge_remote(&remote, "crystal-abc123", &flags).is_none());
    let near_dup = register(&mut origin, &fake_structure(0.13001), 0.9, 0.8, vec![], "silicon", "t", None);
    if let Some(nd) = near_dup {
        let flags = near(&local, &nd.signature);
        assert!(local.merge_remote(&nd, "crystal-def456", &flags).is_none());
    }
}

#[test]
fn search_filters_class_material_persistence() {
    let mut r = Registry::default();
    register(&mut r, &fake_structure(0.13), 0.9, 0.8, vec![], "silicon", "t", None);
    register(&mut r, &fake_structure(0.77), 0.3, 0.4, vec![], "vacuum", "t", None);
    let persistent = |floor: f64| -> Vec<bool> {
        r.primitives.iter().map(|p| f64::from_bits(p.persistence) >= floor).collect()
    };
    assert_eq!(r.search(Some("standing_echo"), None, &persistent(0.0), 0, None).len(), 2);
    assert_eq!(r.search(Some("Standing Echo"), Some("silicon"), &persistent(0.0), 0, None).len(), 1);
    assert_eq!(r.search(None, None, &persistent(0.5), 0, None).len(), 1);
    assert_eq!(r.search(Some("echo ring"), None, &persistent(0.0), 0, None).len(), 0);
}

#[test]
fn similarity_search_ranks_self_first() {
    let mut r = Registry::default();
    let a = fake_structure(0.13);
    let b = fake_structure(0.99);
    register(&mut r, &a, 0.9, 0.8, vec![], "silicon", "t", None);
    register(&mut r, &b, 0.9, 0.8, vec![], "silicon", "t", None);
    let scores: Vec<f64> = r.primitives.iter().map(|p| similarity(&p.signature, &a.signature)).collect();
    let keys: Vec<u64> = scores.iter().map(|s| total_order_key(s.to_bits())).collect();
    let hits = r.similar(&keys, 2);
    assert!(scores[hits[0]] > 0.999);
}

#[test]
fn registered_hash_is_blake3_hex_of_the_quantized_signature() {
    let mut r = Registry::default();
    let s = fake_structure(0.21);
    let p = register(&mut r, &s, 0.5, 0.5, vec![], "silicon", "t", None).unwrap();
    assert_eq!(p.hash, blake3::hash(&quantized(&s.signature)).to_hex().to_string());
    assert_eq!(p.hash.len(), 64);
    assert_eq!(p.evidence_level, 1);
}

#[test]
fn find_accepts_serial_or_uuid_text() {
    let mut r = Registry::default();
    let p = register(&mut r, &fake_structure(0.4), 0.5, 0.5, vec![], "silicon", "t", None).unwrap();
    let uuid_text = uuid::Uuid::from_u128(p.uuid).to_string();
    assert_eq!(r.find(&uuid_text).unwrap().id, "CRY-000001");
    assert_eq!(r.find_index("CRY-000001"), Some(0));
    assert!(r.find("CRY-000002").is_none());
    // A v4 UUID: version nibble 4, RFC 4122 variant.
    assert_eq!((p.uuid >> 76) & 0xf, 4);
    assert_eq!((p.uuid >> 62) & 0x3, 2);
}

#[test]
fn caps_fall_back_to_defaults() {
    assert_eq!(caps_from(None, None), (150, 5000));
    assert_eq!(caps_from(Some("12"), Some("40")), (12, 40));
    assert_eq!(caps_from(Some("twelve"), Some("-1")), (150, 5000));
    assert_eq!(caps_from(Some("+7"), None), (7, 5000));
    assert_eq!(default_evidence_level(), 1);
}

#[test]
fn total_order_key_orders_like_total_cmp() {
    let values = [f64::NEG_INFINITY, -2.5, -0.0, 0.0, 1e-300, 0.5, 0.92, 7.0, f64::INFINITY];
    for w in values.windows(2) {
        assert!(total_order_key(w[0].to_bits()) < total_order_key(w[1].to_bits()));
        assert_eq!(w[0].total_cmp(&w[1]), std::cmp::Ordering::Less);
    }
}

#[test]
fn prune_changes_nothing_once_caps_are_met() {
    let mut r = Registry::default();
    for i in 0..12 {
        let s = fake_structure(0.1 + i as f64 * 0.037);
        register(&mut r, &s, 0.2 + (i as f64) * 0.02, 0.5, vec![], "silicon", "t", None);
    }
    let q = quality_keys(&r);
    r.prune(5, 100, &q);
    let ids: Vec<String> = r.primitives.iter().map(|p| p.id.clone()).collect();
    let q2 = quality_keys(&r);
    assert_eq!(r.prune(5, 100, &q2), 0);
    let after: Vec<String> = r.primitives.iter().map(|p| p.id.clone()).collect();
    assert_eq!(ids, after, "pruning a registry within its caps keeps it, order included");
}

fn metrics() -> String {
    "{\"success\":true}".to_string()
}

fn node() -> String {
    "local".to_string()
}

#[test]
fn evidence_procedures_promote_demote_and_append() {
    let mut r = Registry::default();
    let p = register(&mut r, &fake_structure(0.3), 0.6, 0.4, vec![], "silicon", "t", None).unwrap();
    assert_eq!(p.evidence_level, 1);

    let rec = record_reproduction(&mut r, &p.id, metrics(), node(), true).unwrap();
    assert_eq!(rec.procedure, "reproduce-v2");
    assert_eq!(rec.level, 2);
    assert_eq!(rec.metrics, metrics());
    assert_eq!(rec.node, "local");
    assert_eq!(r.find(&p.id).unwrap().evidence_level, 2);
    assert_eq!(r.find(&p.id).unwrap().evidence_records.len(), 1);

    record_perturbation(&mut r, &p.id, metrics(), node(), false, 0.25f64.to_bits())
        .unwrap();
    let q = r.find(&p.id).unwrap();
    assert_eq!(q.evidence_level, 2, "a failed ensemble does not promote");
    assert_eq!(f64::from_bits(q.noise_tolerance), 0.25, "survival rate replaces noise tolerance");

    record_perturbation(&mut r, &p.id, metrics(), node(), true, 0.75f64.to_bits())
        .unwrap();
    assert_eq!(r.find(&p.id).unwrap().evidence_level, 3);

    // The UUID text names the same primitive.
    let uuid = r.find(&p.id).unwrap().uuid;
    let uuid_text = kannaka_crystal::ids::uuid_text(uuid);
    record_cross_resolution(&mut r, &uuid_text, metrics(), node(), true).unwrap();
    assert_eq!(r.find(&p.id).unwrap().evidence_level, 4);

    record_reproduction(&mut r, &p.id, metrics(), node(), false).unwrap();
    let q = r.find(&p.id).unwrap();
    assert_eq!(q.evidence_level, 1, "a failed reproduction demotes to Level 1");
    assert_eq!(q.evidence_records.len(), 5);
    let levels: Vec<u8> = q.evidence_records.iter().map(|e| e.level).collect();
    assert_eq!(levels, vec![2, 3, 3, 4, 2]);
    let names: Vec<&str> = q.evidence_records.iter().map(|e| e.procedure.as_str()).collect();
    assert_eq!(
        names,
        vec!["reproduce-v2", "perturbation-ensemble-v2", "perturbation-ensemble-v2", "cross-resolution-v2", "reproduce-v2"]
    );
    assert_eq!(r.primitives.len(), 1);
}

#[test]
fn evidence_for_an_unknown_id_is_refused() {
    let mut r = Registry::default();
    register(&mut r, &fake_structure(0.3), 0.6, 0.4, vec![], "silicon", "t", None).unwrap();
    let err = record_reproduction(&mut r, "CRY-999999", metrics(), node(), true).unwrap_err();
    assert_eq!(err, "unknown primitive: CRY-999999");
    assert_eq!(r.primitives[0].evidence_records.len(), 0);
}

#[test]
fn promotion_needs_an_experiment_manifest() {
    assert_eq!(manifest_id(Some(7), "CRY-000001").unwrap(), 7);
    let err = manifest_id(None, "CRY-999999").unwrap_err();
    assert!(err.starts_with("CRY-999999 has no experiment manifest"));
    assert!(err.contains("it cannot be promoted"));
}

#[test]
fn total_cap_evicts_lowest_quality_first() {
    let mut r = Registry::default();
    for i in 0..12 {
        let s = fake_structure(0.1 + i as f64 * 0.037);
        register(&mut r, &s, 0.2 + (i as f64) * 0.02, 0.5, vec![], "silicon", "t", None);
    }
    let before: Vec<(String, f64)> =
        r.primitives.iter().map(|p| (p.id.clone(), f64::from_bits(p.persistence))).collect();
    let q = quality_keys(&r);
    r.prune(100, 3, &q);
    assert_eq!(r.primitives.len(), before.len().min(3));
    let kept_min = r
        .primitives
        .iter()
        .map(|p| f64::from_bits(p.persistence))
        .fold(f64::INFINITY, f64::min);
    for (id, pers) in &before {
        if r.find(id).is_none() {
            assert!(*pers <= kept_min, "an evicted row never outranks a kept one");
        }
    }
}
