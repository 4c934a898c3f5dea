use kannaka_crystal::api::{
    content_type_for, default_top_k, evolve_limits, query_param, recall_limit, route_for, step_limit,
    HttpMethod, Route,
};
use kannaka_crystal::bench::{
    ablate_for, capacity_memories, conditions, distractors, evolution_for, recovered_count, target_text,
    BenchConfig, Condition, Evolution,
};
use kannaka_crystal::commands::{material_list, procedure_for, Procedure};
use kannaka_crystal::discovery::{clamp_steps, keep_count, latest_lineage, mutation_for, provenance_for, Mutation};
use kannaka_crystal::dream::{dream_mode_for, DreamMode};
use kannaka_crystal::engine::{mechanism_for, word_overlap, Ablation, Mechanism};
use kannaka_crystal::ids::{content_hash, uuid_text};
use kannaka_crystal::regions::{connected_regions, keep_large, min_region_cells};
use kannaka_crystal::swarm::{next_round, node_label, node_name, subjects_for};
use kannaka_crystal::text::{decimal, join, parse_u64, split_at_char};
use rand::Rng;
use rand::SeedableRng;

fn s(v: &[&str]) -> Vec<String> {
    v.iter().map(|x| x.to_string()).collect()
}

#[test]
fn query_params_follow_split_semantics() {
    assert_eq!(query_param("/primitives?class=echo&material=silicon", "material").as_deref(), Some("silicon"));
    assert_eq!(query_param("/primitives?class=echo&material=silicon", "class").as_deref(), Some("echo"));
    assert_eq!(query_param("/primitives?flag&k=v=w", "k").as_deref(), Some("v=w"));
    assert_eq!(query_param("/primitives?k=1&k=2", "k").as_deref(), Some("1"));
    assert_eq!(query_param("/primitives", "k"), None);
    assert_eq!(query_param("/p?k", "k"), None);
    assert_eq!(query_param("/p?a=1&", "a").as_deref(), Some("1"));
    assert_eq!(query_param("/p?x=1?k=2", "x").as_deref(), Some("1?k=2"));
}

#[test]
fn routes_by_method_and_path() {
    assert!(matches!(route_for(HttpMethod::Get, "/"), Route::Observatory));
    assert!(matches!(route_for(HttpMethod::Get, "/observatory?x=1"), Route::Observatory));
    assert!(matches!(route_for(HttpMethod::Get, "/crystal/state"), Route::State));
    assert!(matches!(route_for(HttpMethod::Get, "/primitives?class=x"), Route::Primitives));
    match route_for(HttpMethod::Get, "/primitives/CRY-000001") {
        Route::Primitive { id } => assert_eq!(id, "CRY-000001"),
        _ => panic!("expected a primitive route"),
    }
    match route_for(HttpMethod::Get, "/primitives//primitives/x") {
        Route::Primitive { id } => assert_eq!(id, "x"),
        _ => panic!("expected a primitive route"),
    }
    assert!(matches!(route_for(HttpMethod::Post, "/crystal/run"), Route::Run));
    assert!(matches!(route_for(HttpMethod::Post, "/crystal/state"), Route::NotFound));
    assert!(matches!(route_for(HttpMethod::Other, "/"), Route::NotFound));
    assert_eq!(content_type_for("<!doctype html>"), "text/html; charset=utf-8");
    assert_eq!(content_type_for("{\"a\":1}"), "application/json");
}

#[test]
fn request_limits() {
    assert_eq!(default_top_k(), 5);
    assert_eq!(step_limit(250_000), 100_000);
    assert_eq!(step_limit(7), 7);
    assert_eq!(recall_limit(80), 50);
    assert_eq!(evolve_limits(None, None), (5, 8));
    assert_eq!(evolve_limits(Some(500), Some(1)), (50, 2));
    assert_eq!(evolve_limits(Some(3), Some(64)), (3, 32));
}

#[test]
fn bench_protocol() {
    let cfg = BenchConfig::default();
    assert_eq!((cfg.material_id.as_str(), cfg.field_size, cfg.seeds, cfg.delay), ("ideal_resonator", 64, 10, 300));
    let names: Vec<String> = conditions().iter().map(|c| c.name()).collect();
    assert_eq!(names, vec!["crystal-full", "static-encoding", "conv-smoothing", "no-nonlinearity", "no-reflection"]);
    assert_eq!(evolution_for(Condition::ConvSmoothing, 300), Evolution::Blur { passes: 10 });
    assert_eq!(evolution_for(Condition::ConvSmoothing, 10), Evolution::Blur { passes: 1 });
    assert_eq!(evolution_for(Condition::StaticEncoding, 300), Evolution::Frozen);
    assert_eq!(evolution_for(Condition::NoReflection, 300), Evolution::Resonate { steps: 300 });
    let mut a = Ablation::default();
    ablate_for(Condition::NoNonlinearity, &mut a);
    assert!(!a.nonlinearity && a.boundary_reflection && a.damping);
    assert_eq!(target_text(3), "benchmark memory 3 resonant identity");
    assert_eq!(capacity_memories(9), s(&["capacity memory 9 item 0", "capacity memory 9 item 1", "capacity memory 9 item 2", "capacity memory 9 item 3"]));
    assert_eq!(distractors().len(), 5);
    assert_eq!(recovered_count(&vec![true, false, true, true]), 3);
}

#[test]
fn ablation_switches() {
    let mut a = Ablation::default();
    assert!(a.is_on(Mechanism::SemanticRecall));
    a.set(Mechanism::SemanticRecall, false);
    assert!(!a.is_on(Mechanism::SemanticRecall));
    assert!(a.is_on(Mechanism::Damping));
    assert_eq!(mechanism_for("reflection"), Some(Mechanism::BoundaryReflection));
    assert_eq!(mechanism_for("mutation"), Some(Mechanism::DreamMutation));
    assert_eq!(mechanism_for("Damping"), None);
}

#[test]
fn dream_modes() {
    assert_eq!(dream_mode_for(None), Ok(DreamMode::Deep));
    assert_eq!(dream_mode_for(Some("light")), Ok(DreamMode::Light));
    assert_eq!(dream_mode_for(Some("Light")), Err("unknown dream mode: Light".to_string()));
    assert_eq!(DreamMode::Light.observe_steps(), 150);
    assert_eq!(DreamMode::Deep.observe_steps(), 600);
    assert_eq!(DreamMode::Deep.name(), "deep");
}

#[test]
fn command_decisions() {
    assert_eq!(procedure_for("perturb"), Ok(Procedure::Perturb));
    assert_eq!(
        procedure_for("guess"),
        Err("unknown procedure: guess (replicate|perturb|resolution|behavior)".to_string())
    );
    let builtin = s(&["vacuum", "silicon"]);
    assert_eq!(material_list("all", &builtin), builtin);
    assert_eq!(material_list(" silicon , metamaterial,", &builtin), s(&["silicon", "metamaterial", ""]));
}

#[test]
fn word_overlap_counts_shared_words() {
    assert_eq!(word_overlap("Echo rings", "echo rings form in cavities"), (2, 2));
    assert_eq!(word_overlap("echo echo ECHO", "silicon disperses quickly"), (0, 1));
    assert_eq!(word_overlap("", "anything"), (0, 0));
    assert_eq!(word_overlap("a b c", "c b"), (2, 2));
}

#[test]
fn flood_fill_finds_four_connected_regions() {
    // 5x5 grid: an L-shaped region, a diagonal neighbour (separate), and a
    // single cell.
    let grid = [
        "XX..X",
        "X....",
        "..X..",
        ".....",
        "....X",
    ];
    let mask: Vec<bool> = grid.iter().flat_map(|row| row.chars().map(|c| c == 'X')).collect();
    let regions = connected_regions(&mask, 5);
    assert_eq!(regions, vec![vec![0, 5, 1], vec![4], vec![12], vec![24]]);
    assert_eq!(min_region_cells(5), 4);
    assert_eq!(min_region_cells(64), 8);
    assert_eq!(keep_large(&regions, 2), vec![vec![0, 5, 1]]);
    let none = connected_regions(&vec![false; 9], 3);
    assert!(none.is_empty());
    let full = connected_regions(&vec![true; 9], 3);
    assert_eq!(full.len(), 1);
    assert_eq!(full[0], vec![0, 3, 6, 7, 8, 5, 2, 4, 1], "depth-first visiting order");
    let mut cells = full[0].clone();
    cells.sort();
    assert_eq!(cells, (0..9).collect::<Vec<usize>>());
}

#[test]
fn discovery_shape_decisions() {
    assert_eq!(mutation_for(0, 1), Mutation::Retime);
    assert_eq!(mutation_for(0, 2), Mutation::RemovePulse);
    assert_eq!(mutation_for(1, 6), Mutation::Retime);
    assert_eq!(mutation_for(1, 5), Mutation::AddPulse);
    assert_eq!(mutation_for(3, 1), Mutation::NudgeWave);
    assert_eq!(clamp_steps(10), 50);
    assert_eq!(clamp_steps(5000), 1200);
    assert_eq!(clamp_steps(333), 333);
    assert_eq!(keep_count(1), 1);
    assert_eq!(keep_count(12), 6);
    assert_eq!(latest_lineage(&s(&["CRY-000001", "CRY-000004"])), s(&["CRY-000004"]));
    assert!(latest_lineage(&vec![]).is_empty());
    assert_eq!(provenance_for(12), "evolve gen 12");
}

#[test]
fn mutation_keeps_genomes_in_bounds() {
    let mut rng = rand_chacha::ChaCha8Rng::seed_from_u64(99);
    let mut pulses: usize = rng.gen_range(1..=4);
    let mut steps: u64 = rng.gen_range(100..600);
    for _ in 0..200 {
        match mutation_for(rng.gen_range(0..5), pulses) {
            Mutation::RemovePulse => pulses -= 1,
            Mutation::AddPulse => pulses += 1,
            Mutation::Retime => {
                steps = clamp_steps((steps as f64 * rng.gen_range(0.7..1.4)) as u64);
            }
            _ => {}
        }
        assert!(pulses >= 1 && pulses <= 6);
        assert!(steps >= 50 && steps <= 1200);
    }
}

#[test]
fn swarm_bookkeeping() {
    assert_eq!(subjects_for("primitive.discovered"), vec!["kannaka.crystal.events", "kannaka.crystal.primitive.discovered"]);
    assert_eq!(subjects_for("explorer.online"), vec!["kannaka.crystal.events"]);
    assert_eq!(node_label(0x0123_4567_89ab_4cde_8f01_23456789abcd), "crystal-01234567");
    assert_eq!(node_name(Some("node-7".to_string())), "node-7");
    let fresh = node_name(None);
    assert!(fresh.starts_with("crystal-") && fresh.len() == 16);
    assert_eq!(next_round(u64::MAX, 0, 3), (0, 1, 1));
    assert_eq!(next_round(5, 2, 3), (6, 3, 0));
}

#[test]
fn identifiers_and_text() {
    let u: u128 = 0x0123_4567_89ab_4cde_8f01_23456789abcd;
    assert_eq!(uuid_text(u), uuid::Uuid::from_u128(u).to_string());
    assert_eq!(content_hash(b"protocol"), blake3::hash(b"protocol").to_hex().to_string());
    assert_eq!(content_hash(b"protocol"), content_hash(b"protocol"));
    assert_ne!(content_hash(b"protocol 42"), content_hash(b"protocol 43"));
    assert_eq!(decimal(1200).iter().collect::<String>(), "1200");
    assert_eq!(parse_u64(&"18446744073709551615".chars().collect()), Some(u64::MAX));
    assert_eq!(parse_u64(&"18446744073709551616".chars().collect()), None);
    assert_eq!(join(&s(&["a", "b", "c"]), " <- "), "a <- b <- c");
    let parts: Vec<String> = split_at_char("a,,b", ',').into_iter().map(|v| v.into_iter().collect()).collect();
    assert_eq!(parts, s(&["a", "", "b"]));
}
