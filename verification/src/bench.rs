//! KCB-1 benchmark protocol: configuration, the comparison conditions and
//! what each of them changes, and the texts every trial writes and probes.
//!
//! Every benchmark compares the resonant medium against non-resonant
//! baselines and mechanism ablations; the numeric scoring runs in the
//! simulation layer.

use vstd::prelude::*;
use crate::engine::{Ablation, Mechanism, with_switch};
use crate::text::{dec, decimal, chars_of, push_chars, push_str, string_of};
use crate::registry::strings_view;

verus! {

#[derive(Debug)]
pub struct BenchConfig {
    pub material_id: String,
    pub field_size: usize,
    /// Number of deterministic seeds per condition (10-run standard).
    pub seeds: u64,
    /// Free-evolution steps between write and probe.
    pub delay: u64,
}

impl Default for BenchConfig {
    fn default() -> (r: Self)
        ensures
            r.material_id@ == "ideal_resonator"@,
            r.field_size == 64,
            r.seeds == 10,
            r.delay == 300,
    {
        BenchConfig {
            material_id: string_of(&chars_of("ideal_resonator")),
            field_size: 64,
            seeds: 10,
            delay: 300,
        }
    }
}

/// A comparison condition.
#[derive(Clone, Copy, Debug, PartialEq, Eq, Structural)]
pub enum Condition {
    /// The real medium, all mechanisms on.
    CrystalFull,
    /// No field evolution at all (encoder-only baseline).
    StaticEncoding,
    /// Evolution replaced by repeated 3x3 blurs (non-resonant diffusion).
    ConvSmoothing,
    /// Ablation: saturation off.
    NoNonlinearity,
    /// Ablation: absorbing walls.
    NoReflection,
}

pub open spec fn condition_name(c: Condition) -> Seq<char> {
    match c {
        Condition::CrystalFull => "crystal-full"@,
        Condition::StaticEncoding => "static-encoding"@,
        Condition::ConvSmoothing => "conv-smoothing"@,
        Condition::NoNonlinearity => "no-nonlinearity"@,
        Condition::NoReflection => "no-reflection"@,
    }
}

/// The conditions in report order.
pub open spec fn conditions_spec() -> Seq<Condition> {
    seq![
        Condition::CrystalFull,
        Condition::StaticEncoding,
        Condition::ConvSmoothing,
        Condition::NoNonlinearity,
        Condition::NoReflection,
    ]
}

pub fn conditions() -> (r: Vec<Condition>)
    ensures
        r@ == conditions_spec(),
{
    let r = vec![
        Condition::CrystalFull,
        Condition::StaticEncoding,
        Condition::ConvSmoothing,
        Condition::NoNonlinearity,
        Condition::NoReflection,
    ];
    proof {
        assert(r@ =~= conditions_spec());
    }
    r
}

impl Condition {
    pub fn name(&self) -> (s: String)
        ensures
            s@ == condition_name(*self),
    {
        let lit = match self {
            Condition::CrystalFull => "crystal-full",
            Condition::StaticEncoding => "static-encoding",
            Condition::ConvSmoothing => "conv-smoothing",
            Condition::NoNonlinearity => "no-nonlinearity",
            Condition::NoReflection => "no-reflection",
        };
        string_of(&chars_of(lit))
    }
}

/// The mechanism switches a condition's engine runs with.
pub open spec fn condition_ablation(c: Condition, base: Ablation) -> Ablation {
    match c {
        Condition::NoNonlinearity => with_switch(base, Mechanism::Nonlinearity, false),
        Condition::NoReflection => with_switch(base, Mechanism::BoundaryReflection, false),
        _ => base,
    }
}

/// Switch off what the condition ablates.
pub fn ablate_for(c: Condition, a: &mut Ablation)
    ensures
        *final(a) == condition_ablation(c, *old(a)),
{
    match c {
        Condition::NoNonlinearity => a.set(Mechanism::Nonlinearity, false),
        Condition::NoReflection => a.set(Mechanism::BoundaryReflection, false),
        _ => {},
    }
}

/// How a condition spends the delay between write and probe.
#[derive(Clone, Copy, Debug, PartialEq, Eq, Structural)]
pub enum Evolution {
    /// Nothing happens to the field.
    Frozen,
    /// This many 3x3 box blurs.
    Blur { passes: u64 },
    /// Real resonance for the whole delay, under the trial's noise.
    Resonate { steps: u64 },
}

/// Blurs stand in for resonance at one pass per 30 steps, at least one.
pub open spec fn evolution_spec(c: Condition, delay: u64) -> Evolution {
    match c {
        Condition::StaticEncoding => Evolution::Frozen,
        Condition::ConvSmoothing => Evolution::Blur {
            passes: if delay / 30 >= 1 {
                delay / 30
            } else {
                1
            },
        },
        _ => Evolution::Resonate { steps: delay },
    }
}

pub fn evolution_for(c: Condition, delay: u64) -> (e: Evolution)
    ensures
        e == evolution_spec(c, delay),
{
    match c {
        Condition::StaticEncoding => Evolution::Frozen,
        Condition::ConvSmoothing => {
            let p = delay / 30;
            Evolution::Blur { passes: if p >= 1 { p } else { 1 } }
        },
        _ => Evolution::Resonate { steps: delay },
    }
}

/// `benchmark memory <seed> resonant identity`.
pub open spec fn target_text_spec(seed: u64) -> Seq<char> {
    "benchmark memory "@ + dec(seed as nat) + " resonant identity"@
}

/// The memory an identity trial writes and probes for a seed.
pub fn target_text(seed: u64) -> (r: String)
    ensures
        r@ == target_text_spec(seed),
{
    let mut m = chars_of("benchmark memory ");
    let d = decimal(seed);
    push_chars(&mut m, &d);
    push_str(&mut m, " resonant identity");
    string_of(&m)
}

/// Memories per capacity trial.
pub const CAPACITY_MEMORIES: u64 = 4;

/// `capacity memory <seed> item <k>`.
pub open spec fn capacity_memory_spec(seed: u64, k: nat) -> Seq<char> {
    "capacity memory "@ + dec(seed as nat) + " item "@ + dec(k)
}

/// The memories a capacity trial writes, in order.
pub fn capacity_memories(seed: u64) -> (r: Vec<String>)
    ensures
        r@.len() == CAPACITY_MEMORIES,
        forall|k: int| 0 <= k < r@.len() ==> #[trigger] r@[k]@ == capacity_memory_spec(seed, k as nat),
{
    let mut r: Vec<String> = Vec::new();
    let mut k: u64 = 0;
    while k < CAPACITY_MEMORIES
        invariant
            k <= CAPACITY_MEMORIES,
            r@.len() == k,
            forall|j: int| 0 <= j < r@.len() ==> #[trigger] r@[j]@ == capacity_memory_spec(seed, j as nat),
        decreases CAPACITY_MEMORIES - k,
    {
        let mut m = chars_of("capacity memory ");
        let d = decimal(seed);
        push_chars(&mut m, &d);
        push_str(&mut m, " item ");
        let e = decimal(k);
        push_chars(&mut m, &e);
        r.push(string_of(&m));
        k = k + 1;
    }
    r
}

/// Never-written control phrases every trial probes.
pub open spec fn distractors_spec() -> Seq<Seq<char>> {
    seq![
        "unrelated sentence about tidal charts"@,
        "completely different content entirely"@,
        "the quick brown fox jumps over nothing"@,
        "orthogonal probe text with no overlap"@,
        "another never-written control phrase"@,
    ]
}

pub fn distractors() -> (r: Vec<String>)
    ensures
        strings_view(r@) == distractors_spec(),
{
    let mut r: Vec<String> = Vec::new();
    r.push(string_of(&chars_of("unrelated sentence about tidal charts")));
    r.push(string_of(&chars_of("completely different content entirely")));
    r.push(string_of(&chars_of("the quick brown fox jumps over nothing")));
    r.push(string_of(&chars_of("orthogonal probe text with no overlap")));
    r.push(string_of(&chars_of("another never-written control phrase")));
    proof {
        assert(strings_view(r@) =~= distractors_spec());
    }
    r
}

/// Benchmark names, in report order.
pub const IDENTITY_RECALL: &'static str = "identity_recall_after_delay";

pub const REJECTION: &'static str = "rejection_of_unrelated";

pub const NOISE_ROBUSTNESS: &'static str = "noise_robustness";

pub const CAPACITY: &'static str = "multi_memory_capacity";

/// Number of memories recovered: those whose probe beat the distractor
/// mean.
pub open spec fn count_true(s: Seq<bool>) -> nat
    decreases s.len(),
{
    if s.len() == 0 {
        0
    } else {
        count_true(s.drop_last()) + if s.last() { 1nat } else { 0nat }
    }
}

pub fn recovered_count(beat_distractors: &Vec<bool>) -> (n: usize)
    ensures
        n == count_true(beat_distractors@),
{
    let mut n: usize = 0;
    let mut i: usize = 0;
    while i < beat_distractors.len()
        invariant
            i <= beat_distractors@.len(),
            n == count_true(beat_distractors@.take(i as int)),
            n <= i,
        decreases beat_distractors@.len() - i,
    {
        proof {
            assert(beat_distractors@.take(i + 1).drop_last() =~= beat_distractors@.take(i as int));
        }
        if beat_distractors[i] {
            n = n + 1;
        }
        i = i + 1;
    }
    proof {
        assert(beat_distractors@.take(i as int) =~= beat_distractors@);
    }
    n
}

} // verus!
