use kannaka_crystal::ids::Timestamp;
use kannaka_crystal::primitives::PrimitiveClass;
use kannaka_crystal::publish::{artifact_title, lineage_text, token_from};
use kannaka_crystal::registry::Primitive;

fn prim(lineage: Vec<String>) -> Primitive {
    Primitive {
        id: "CRY-000007".into(),
        uuid: 0,
        hash: "ab".repeat(32),
        class: PrimitiveClass::EchoRing,
        persistence: 0.613f64.to_bits(),
        noise_tolerance: 0.98f64.to_bits(),
        stability_score: 2.41f64.to_bits(),
        energy_profile: vec![1.0f64.to_bits(), 0.8f64.to_bits()],
        material_id: "metamaterial".into(),
        centroid: (0.51f64.to_bits(), 0.47f64.to_bits()),
        area: 120,
        signature: vec![0; 256],
        lineage,
        discovered_at: Timestamp { secs: 0, nanos: 0 },
        provenance: "evolve gen 2".into(),
        experiment_id: None,
        experiment_hash: None,
        classification: None,
        evidence_level: 1,
        evidence_records: vec![],
        genome_id: None,
        parent_genome_ids: vec![],
        behavioral_capabilities: vec![],
    }
}

#[test]
fn artifact_title_and_lineage() {
    let p = prim(vec!["CRY-000003".into()]);
    let title = artifact_title(&p);
    assert!(title.contains("CRY-000007") && title.contains("Echo Ring"));
    assert_eq!(title, "Crystal Primitive CRY-000007 — Echo Ring");
    assert_eq!(lineage_text(&p), "CRY-000003");
    assert_eq!(lineage_text(&prim(vec!["a".into(), "b".into()])), "a <- b");
    assert_eq!(lineage_text(&prim(vec![])), "first of its line");
}

#[test]
fn configured_tokens_are_trimmed() {
    assert_eq!(token_from(Some("  abc \n")), Some("abc".to_string()));
    assert_eq!(token_from(Some("   ")), None);
    assert_eq!(token_from(None), None);
}
