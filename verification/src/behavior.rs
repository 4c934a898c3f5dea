//! Behavioral primitive contracts — the bookkeeping half.
//!
//! A behavioral capability is never inferred from morphology: it is a
//! measured, repeated demonstration. The trials themselves run in the
//! simulation layer; this module owns what must be exact about them:
//! which contracts exist, how seeds are split into disjoint fit and
//! held-out sets, the deterministic negative-control scramble, the
//! presence re-assertion schedule, and how capability records move a
//! primitive on the evidence ladder (Level 6 is held only while some
//! capability currently passes, and only above Level 2).

use vstd::prelude::*;
use crate::registry::{
    Primitive, PrimitiveView, BehavioralCapability, CapabilityView, EvidenceView, capabilities_view,
    records_view,
};
use crate::text::{dec, decimal, chars_of, push_chars, string_of, str_eq};

verus! {

pub const NOISE_SHIELDING: &'static str = "noise_shielding";

pub const PATTERN_COMPLETION: &'static str = "pattern_completion";

pub const CONTRACT_VERSION: &'static str = "behavior-contract-v1";

pub const CONTRACT_VERSION_V2: &'static str = "behavior-contract-v2";

pub const CONTRACT_VERSION_V3: &'static str = "behavior-contract-v3";

/// The level a passing capability grants.
pub const BEHAVIOR_LEVEL: u8 = 6;

/// The level a primitive must already hold (Replicated) before a passing
/// capability may promote it.
pub const MIN_LEVEL_FOR_PROMOTION: u8 = 2;

/// The contracts this build knows.
#[derive(Clone, Copy, Debug, PartialEq, Eq, Structural)]
pub enum Capability {
    NoiseShielding,
    PatternCompletion,
}

pub open spec fn capability_named(name: Seq<char>) -> Option<Capability> {
    if name == NOISE_SHIELDING@ {
        Some(Capability::NoiseShielding)
    } else if name == PATTERN_COMPLETION@ {
        Some(Capability::PatternCompletion)
    } else {
        None
    }
}

/// True for a name this build has a contract for — validate before a long
/// run, not trial by trial inside it.
pub fn known_capability(name: &str) -> (r: bool)
    ensures
        r == (name@ == NOISE_SHIELDING@ || name@ == PATTERN_COMPLETION@),
{
    str_eq(name, NOISE_SHIELDING) || str_eq(name, PATTERN_COMPLETION)
}

/// `unknown capability: <name> (noise_shielding|pattern_completion)`.
pub open spec fn unknown_capability_message(name: Seq<char>) -> Seq<char> {
    "unknown capability: "@ + name + " ("@ + NOISE_SHIELDING@ + "|"@ + PATTERN_COMPLETION@ + ")"@
}

/// The contract for a capability name, or the error a caller reports.
pub fn contract_for(name: &str) -> (r: Result<Capability, String>)
    ensures
        match r {
            Ok(c) => capability_named(name@) == Some(c),
            Err(e) => capability_named(name@) is None && e@ == unknown_capability_message(name@),
        },
{
    if str_eq(name, NOISE_SHIELDING) {
        Ok(Capability::NoiseShielding)
    } else if str_eq(name, PATTERN_COMPLETION) {
        Ok(Capability::PatternCompletion)
    } else {
        let mut m = chars_of("unknown capability: ");
        crate::text::push_str(&mut m, name);
        crate::text::push_str(&mut m, " (");
        crate::text::push_str(&mut m, NOISE_SHIELDING);
        crate::text::push_str(&mut m, "|");
        crate::text::push_str(&mut m, PATTERN_COMPLETION);
        crate::text::push_str(&mut m, ")");
        Err(string_of(&m))
    }
}

// ---------------------------------------------------------------------
// Seeds
// ---------------------------------------------------------------------

/// The seeds `start, start + 1, ..., start + count - 1`.
pub open spec fn seed_range(start: nat, count: nat) -> Seq<u64> {
    Seq::new(count, |k: int| (start + k) as u64)
}

pub fn seeds_from(start: u64, count: u64) -> (r: Vec<u64>)
    requires
        start + count <= u64::MAX,
        count <= usize::MAX,
    ensures
        r@ == seed_range(start as nat, count as nat),
{
    let mut r: Vec<u64> = Vec::new();
    let mut k: u64 = 0;
    while k < count
        invariant
            k <= count,
            start + count <= u64::MAX,
            r@ == seed_range(start as nat, k as nat),
        decreases count - k,
    {
        r.push(start + k);
        k = k + 1;
        proof {
            assert(r@ =~= seed_range(start as nat, k as nat));
        }
    }
    r
}

/// `v<version> needs at least one fit seed and one held-out seed`.
pub open spec fn empty_split_message(version: u8) -> Seq<char> {
    "v"@ + dec(version as nat) + " needs at least one fit seed and one held-out seed"@
}

/// Split seeds for a fit/held-out contract: the search sees
/// `[0, fit_seeds)`, the score is taken on
/// `[fit_seeds, fit_seeds + held_out_seeds)`. Both sets must be non-empty.
pub fn seed_split(fit_seeds: u64, held_out_seeds: u64, version: u8) -> (r: Result<
    (Vec<u64>, Vec<u64>),
    String,
>)
    requires
        fit_seeds > 0 && held_out_seeds > 0 ==> fit_seeds + held_out_seeds <= u64::MAX,
        fit_seeds > 0 && held_out_seeds > 0 ==> fit_seeds + held_out_seeds <= usize::MAX,
    ensures
        match r {
            Ok((fit, held)) => fit_seeds > 0 && held_out_seeds > 0 && fit@ == seed_range(
                0,
                fit_seeds as nat,
            ) && held@ == seed_range(fit_seeds as nat, held_out_seeds as nat),
            Err(e) => (fit_seeds == 0 || held_out_seeds == 0) && e@ == empty_split_message(
                version,
            ),
        },
{
    if fit_seeds == 0 || held_out_seeds == 0 {
        let mut m = chars_of("v");
        let d = decimal(version as u64);
        push_chars(&mut m, &d);
        crate::text::push_str(&mut m, " needs at least one fit seed and one held-out seed");
        return Err(string_of(&m));
    }
    let fit = seeds_from(0, fit_seeds);
    let held = seeds_from(fit_seeds, held_out_seeds);
    Ok((fit, held))
}

/// The fit and held-out seed sets never share a seed.
pub proof fn lemma_seed_split_disjoint(fit_seeds: nat, held_out_seeds: nat, k: int, l: int)
    requires
        fit_seeds + held_out_seeds <= u64::MAX,
        0 <= k < fit_seeds,
        0 <= l < held_out_seeds,
    ensures
        seed_range(0, fit_seeds)[k] != seed_range(fit_seeds, held_out_seeds)[l],
{
}

/// The task text a behavioral trial writes and probes: `behavioral target <seed>`.
pub open spec fn target_text_spec(seed: u64) -> Seq<char> {
    "behavioral target "@ + dec(seed as nat)
}

pub fn target_text(seed: u64) -> (r: String)
    ensures
        r@ == target_text_spec(seed),
{
    let mut m = chars_of("behavioral target ");
    let d = decimal(seed);
    push_chars(&mut m, &d);
    string_of(&m)
}

// ---------------------------------------------------------------------
// Presence schedule (v3)
// ---------------------------------------------------------------------

/// Chunk lengths of an evolution of `steps` steps with the structure
/// re-asserted every `every` steps: full chunks of `every`, then the
/// remainder. The structure is re-asserted after every chunk but the last.
pub open spec fn presence_chunks_spec(steps: nat, every: nat) -> Seq<u64>
    recommends
        every > 0,
    decreases steps,
{
    if steps == 0 || every == 0 {
        Seq::empty()
    } else if steps <= every {
        seq![steps as u64]
    } else {
        seq![every as u64] + presence_chunks_spec((steps - every) as nat, every)
    }
}

pub open spec fn seq_sum(s: Seq<u64>) -> nat
    decreases s.len(),
{
    if s.len() == 0 {
        0
    } else {
        s[0] as nat + seq_sum(s.drop_first())
    }
}

/// The chunked schedule covers exactly the requested number of steps, in
/// chunks of at most `every`.
pub proof fn lemma_presence_chunks_cover(steps: nat, every: nat)
    requires
        every > 0,
        steps <= u64::MAX,
        every <= u64::MAX,
    ensures
        seq_sum(presence_chunks_spec(steps, every)) == steps,
        forall|k: int|
            0 <= k < presence_chunks_spec(steps, every).len() ==> 0 < #[trigger] presence_chunks_spec(
                steps,
                every,
            )[k] <= every,
    decreases steps,
{
    if steps > every {
        lemma_presence_chunks_cover((steps - every) as nat, every);
        let rest = presence_chunks_spec((steps - every) as nat, every);
        assert((seq![every as u64] + rest).drop_first() =~= rest);
        assert((seq![every as u64] + rest)[0] == every as u64);
    } else if steps > 0 {
        assert(seq![steps as u64].drop_first() =~= Seq::<u64>::empty());
        assert(seq_sum(Seq::<u64>::empty()) == 0);
    }
}

/// How a presence trial splits its evolution (`every > 0`; with
/// `every == 0` the schedule never advances).
pub fn presence_chunks(steps: u64, every: u64) -> (r: Vec<u64>)
    requires
        every > 0,
    ensures
        r@ == presence_chunks_spec(steps as nat, every as nat),
{
    let mut r: Vec<u64> = Vec::new();
    let mut done: u64 = 0;
    while done < steps
        invariant
            every > 0,
            done <= steps,
            presence_chunks_spec(steps as nat, every as nat) == r@ + presence_chunks_spec(
                (steps - done) as nat,
                every as nat,
            ),
        decreases steps - done,
    {
        let left = steps - done;
        let chunk = if every < left { every } else { left };
        proof {
            let rest = presence_chunks_spec((left - chunk) as nat, every as nat);
            if left > every {
                assert(presence_chunks_spec(left as nat, every as nat) == seq![chunk] + rest);
            } else {
                assert(presence_chunks_spec(left as nat, every as nat) =~= seq![chunk] + rest);
            }
            assert(r@ + (seq![chunk] + rest) =~= r@.push(chunk) + rest);
        }
        r.push(chunk);
        done = done + chunk;
    }
    proof {
        assert(r@ + Seq::<u64>::empty() =~= r@);
    }
    r
}

// ---------------------------------------------------------------------
// Scramble control
// ---------------------------------------------------------------------

pub const SCRAMBLE_SEED: u64 = 0x9E37_79B9_7F4A_7C15;

pub const SCRAMBLE_MUL: u64 = 6364136223846793005;

pub const SCRAMBLE_INC: u64 = 1442695040888963407;

/// One step of the scramble's linear congruential generator.
pub open spec fn lcg_next(state: u64) -> u64 {
    vstd::wrapping::u64_specs::wrapping_add(
        vstd::wrapping::u64_specs::wrapping_mul(state, SCRAMBLE_MUL),
        SCRAMBLE_INC,
    )
}

pub open spec fn swap_seq<T>(s: Seq<T>, i: int, j: int) -> Seq<T> {
    s.update(i, s[j]).update(j, s[i])
}

/// Fisher–Yates from position `i` down to 1, drawing `j` from the top
/// bits of the generator.
#[verifier::opaque]
pub open spec fn shuffle_from<T>(s: Seq<T>, i: nat, state: u64) -> Seq<T>
    decreases i,
{
    if i == 0 {
        s
    } else {
        let st = lcg_next(state);
        let j = ((st >> 33u64) as int) % ((i as int) + 1);
        shuffle_from(swap_seq(s, i as int, j), (i - 1) as nat, st)
    }
}

/// The deterministic negative-control permutation of a signature.
pub open spec fn scramble_spec<T>(s: Seq<T>) -> Seq<T> {
    if s.len() <= 1 {
        s
    } else {
        shuffle_from(s, (s.len() - 1) as nat, SCRAMBLE_SEED)
    }
}

fn lcg_step(state: u64) -> (r: u64)
    ensures
        r == lcg_next(state),
{
    state.wrapping_mul(SCRAMBLE_MUL).wrapping_add(SCRAMBLE_INC)
}

fn draw(state: u64, i: usize) -> (j: usize)
    requires
        i < usize::MAX,
    ensures
        j as int == ((state >> 33u64) as int) % ((i as int) + 1),
        j <= i,
{
    let top: u64 = state >> 33u64;
    let m: u64 = (i as u64) + 1;
    let jj: u64 = top % m;
    assert(top < 0x8000_0000) by (bit_vector)
        requires
            top == state >> 33u64,
    ;
    jj as usize
}

/// Permute a signature deterministically, preserving its values and
/// destroying its spatial arrangement (fixed-seed Fisher–Yates).
pub fn scramble<T: Copy>(signature: &Vec<T>) -> (r: Vec<T>)
    ensures
        r@ == scramble_spec(signature@),
{
    let mut out = crate::primitives::copy_vec(signature);
    if out.len() <= 1 {
        return out;
    }
    let mut state: u64 = SCRAMBLE_SEED;
    let n = out.len();
    let mut i: usize = n - 1;
    while i > 0
        invariant
            n == out@.len(),
            out@.len() == signature@.len(),
            signature@.len() > 1,
            i < out@.len(),
            scramble_spec(signature@) == shuffle_from(out@, i as nat, state),
        decreases i,
    {
        let ghost old_state = state;
        let ghost before = out@;
        state = lcg_step(state);
        let j = draw(state, i);
        let a = out[i];
        let b = out[j];
        out.set(i, b);
        out.set(j, a);
        proof {
            assert(out@ =~= swap_seq(before, i as int, j as int));
            lemma_shuffle_step(before, i as nat, old_state);
        }
        i = i - 1;
    }
    proof {
        reveal(shuffle_from);
    }
    out
}

proof fn lemma_shuffle_step<T>(s: Seq<T>, i: nat, state: u64)
    requires
        i > 0,
    ensures
        shuffle_from(s, i, state) == shuffle_from(
            swap_seq(s, i as int, ((lcg_next(state) >> 33u64) as int) % ((i as int) + 1)),
            (i - 1) as nat,
            lcg_next(state),
        ),
{
    reveal(shuffle_from);
}

/// The scramble only permutes: every value keeps its multiplicity.
pub proof fn lemma_scramble_permutes<T>(s: Seq<T>)
    ensures
        scramble_spec(s).to_multiset() == s.to_multiset(),
        scramble_spec(s).len() == s.len(),
{
    if s.len() > 1 {
        lemma_shuffle_permutes(s, (s.len() - 1) as nat, SCRAMBLE_SEED);
    }
}

/// The shuffle below position `i` never touches positions above it.
proof fn lemma_shuffle_keeps_above<T>(s: Seq<T>, i: nat, state: u64, p: int)
    requires
        i < s.len(),
        i < p < s.len(),
    ensures
        shuffle_from(s, i, state).len() == s.len(),
        shuffle_from(s, i, state)[p] == s[p],
    decreases i,
{
    reveal(shuffle_from);
    if i > 0 {
        let st = lcg_next(state);
        let j = ((st >> 33u64) as int) % ((i as int) + 1);
        let t = swap_seq(s, i as int, j);
        assert(t.len() == s.len() && t[p] == s[p]);
        lemma_shuffle_keeps_above(t, (i - 1) as nat, st, p);
    }
}

/// The scramble's first draw decides its last position: for a signature
/// of `n >= 2` values, the last value afterwards is the one that stood at
/// `(lcg_next(seed) >> 33) % n`; so whenever that value differs from the
/// last one, the scramble changes the signature.
pub proof fn lemma_scramble_last<T>(s: Seq<T>)
    requires
        s.len() >= 2,
    ensures
        scramble_spec(s)[s.len() - 1] == s[((lcg_next(SCRAMBLE_SEED) >> 33u64) as int) % (
        s.len() as int)],
        s[((lcg_next(SCRAMBLE_SEED) >> 33u64) as int) % (s.len() as int)] != s[s.len() - 1]
            ==> scramble_spec(s) != s,
{
    let n = s.len() as int;
    let st = lcg_next(SCRAMBLE_SEED);
    let j = ((st >> 33u64) as int) % n;
    lemma_shuffle_step(s, (n - 1) as nat, SCRAMBLE_SEED);
    let t = swap_seq(s, n - 1, j);
    assert(t[n - 1] == s[j]);
    if n - 2 >= 0 {
        lemma_shuffle_keeps_above(t, (n - 2) as nat, st, n - 1);
    }
}

/// A 256-value signature always has its last value replaced by the one at
/// position 16, so scrambling any 256-value signature whose values at
/// positions 16 and 255 differ (a ramp, for one) changes it.
pub proof fn lemma_scramble_changes_256<T>(s: Seq<T>)
    requires
        s.len() == 256,
        s[16] != s[255],
    ensures
        scramble_spec(s)[255] == s[16],
        scramble_spec(s) != s,
{
    assert(lcg_next(SCRAMBLE_SEED) == 3236661110929538048u64);
    assert((3236661110929538048u64 >> 33u64) == 376796944u64) by (bit_vector);
    lemma_scramble_last(s);
}

proof fn lemma_swap_permutes<T>(s: Seq<T>, i: int, j: int)
    requires
        0 <= i < s.len(),
        0 <= j < s.len(),
    ensures
        swap_seq(s, i, j).to_multiset() == s.to_multiset(),
        swap_seq(s, i, j).len() == s.len(),
{
    broadcast use vstd::seq_lib::to_multiset_update;
    broadcast use vstd::multiset::group_multiset_axioms;
    broadcast use vstd::seq_lib::group_to_multiset_ensures;

    let t = s.update(i, s[j]);
    assert(t.to_multiset() == s.to_multiset().insert(s[j]).remove(s[i]));
    let u = t.update(j, s[i]);
    assert(t[j] == s[j]);
    assert(u.to_multiset() == t.to_multiset().insert(s[i]).remove(s[j]));
    let m = s.to_multiset();
    assert(m.count(s[i]) > 0) by {
        assert(s.contains(s[i]));
    }
    assert forall|x: T| #[trigger] u.to_multiset().count(x) == m.count(x) by {
        if x == s[i] && x == s[j] {
        } else if x == s[i] {
        } else if x == s[j] {
        } else {
        }
    }
    assert(u.to_multiset() =~= s.to_multiset());
}

proof fn lemma_shuffle_permutes<T>(s: Seq<T>, i: nat, state: u64)
    requires
        i < s.len(),
    ensures
        shuffle_from(s, i, state).to_multiset() == s.to_multiset(),
        shuffle_from(s, i, state).len() == s.len(),
    decreases i,
{
    reveal(shuffle_from);
    if i > 0 {
        let st = lcg_next(state);
        let j = ((st >> 33u64) as int) % ((i as int) + 1);
        lemma_swap_permutes(s, i as int, j);
        lemma_shuffle_permutes(swap_seq(s, i as int, j), (i - 1) as nat, st);
    }
}

// ---------------------------------------------------------------------
// Evidence level from capability records
// ---------------------------------------------------------------------

pub open spec fn any_passing(caps: Seq<CapabilityView>) -> bool {
    exists|k: int| 0 <= k < caps.len() && (#[trigger] caps[k]).passed
}

/// The best level the non-behavioral records support, never below 1.
pub open spec fn fallback_level(rs: Seq<EvidenceView>) -> u8
    decreases rs.len(),
{
    if rs.len() == 0 {
        1
    } else {
        let f = fallback_level(rs.drop_last());
        let l = rs.last().level;
        if l < BEHAVIOR_LEVEL && l > f {
            l
        } else {
            f
        }
    }
}

/// The level after capability records change: a pass promotes a
/// Replicated (>= 2) primitive to at least Level 6; with no passing
/// capability, a primitive at Level 6 or above falls back to what its
/// non-behavioral records support; otherwise the level stands.
pub open spec fn behavior_level(p: PrimitiveView) -> u8 {
    if any_passing(p.behavioral_capabilities) {
        if p.evidence_level >= MIN_LEVEL_FOR_PROMOTION && p.evidence_level < BEHAVIOR_LEVEL {
            BEHAVIOR_LEVEL
        } else {
            p.evidence_level
        }
    } else if p.evidence_level < BEHAVIOR_LEVEL {
        p.evidence_level
    } else {
        fallback_level(p.evidence_records)
    }
}

fn fallback_level_of(prim: &Primitive) -> (r: u8)
    ensures
        r == fallback_level(prim@.evidence_records),
{
    let mut f: u8 = 1;
    let mut k: usize = 0;
    while k < prim.evidence_records.len()
        invariant
            k <= prim@.evidence_records.len(),
            f == fallback_level(prim@.evidence_records.take(k as int)),
        decreases prim@.evidence_records.len() - k,
    {
        let l = prim.evidence_records[k].level;
        proof {
            let t = prim@.evidence_records.take(k + 1);
            assert(t.drop_last() =~= prim@.evidence_records.take(k as int));
            assert(t.last() == prim.evidence_records@[k as int]@);
        }
        if l < BEHAVIOR_LEVEL && l > f {
            f = l;
        }
        k = k + 1;
    }
    proof {
        assert(prim@.evidence_records.take(k as int) =~= prim@.evidence_records);
    }
    f
}

/// Recompute a primitive's level after its capability records change.
/// Level 6 is held only while some capability currently passes; a failed
/// re-test takes it back.
pub fn apply_behavior_level(prim: &mut Primitive)
    ensures
        final(prim)@ == (PrimitiveView { evidence_level: behavior_level(old(prim)@), ..old(prim)@ }),
{
    let mut any = false;
    let mut k: usize = 0;
    while k < prim.behavioral_capabilities.len()
        invariant
            k <= prim@.behavioral_capabilities.len(),
            any == exists|j: int| 0 <= j < k && (#[trigger] prim@.behavioral_capabilities[j]).passed,
        decreases prim@.behavioral_capabilities.len() - k,
    {
        if prim.behavioral_capabilities[k].passed {
            any = true;
        }
        proof {
            assert(prim@.behavioral_capabilities[k as int] == prim.behavioral_capabilities@[k as int]@);
        }
        k = k + 1;
    }
    if any {
        if prim.evidence_level >= MIN_LEVEL_FOR_PROMOTION && prim.evidence_level < BEHAVIOR_LEVEL {
            prim.evidence_level = BEHAVIOR_LEVEL;
        }
        return;
    }
    if prim.evidence_level < BEHAVIOR_LEVEL {
        return;
    }
    let f = fallback_level_of(prim);
    prim.evidence_level = f;
}

/// Record a capability measurement on a primitive: any earlier record of
/// the same capability is replaced (no duplicate records), then the level
/// is recomputed.
pub fn record_capability(prim: &mut Primitive, record: BehavioralCapability)
    ensures
        final(prim)@ == ({
            let caps = capabilities_view(old(prim).behavioral_capabilities@).filter(
                |c: CapabilityView| c.name != record@.name,
            ).push(record@);
            let q = PrimitiveView { behavioral_capabilities: caps, ..old(prim)@ };
            PrimitiveView { evidence_level: behavior_level(q), ..q }
        }),
{
    let ghost pred = |c: CapabilityView| c.name != record@.name;
    let ghost old_caps = capabilities_view(prim.behavioral_capabilities@);
    let mut kept: Vec<BehavioralCapability> = Vec::new();
    let mut k: usize = 0;
    while k < prim.behavioral_capabilities.len()
        invariant
            k <= prim@.behavioral_capabilities.len(),
            old_caps == prim@.behavioral_capabilities,
            pred == (|c: CapabilityView| c.name != record@.name),
            capabilities_view(kept@) == old_caps.take(k as int).filter(pred),
        decreases prim@.behavioral_capabilities.len() - k,
    {
        let c = &prim.behavioral_capabilities[k];
        proof {
            assert(old_caps.take(k + 1) =~= old_caps.take(k as int).push(c@));
            old_caps.take(k as int).lemma_filter_push(c@, pred);
        }
        if c.name != record.name {
            let ghost before = kept@;
            kept.push(c.clone());
            proof {
                assert(capabilities_view(kept@) =~= capabilities_view(before).push(c@));
            }
        }
        k = k + 1;
    }
    proof {
        assert(old_caps.take(k as int) =~= old_caps);
    }
    let ghost rv = record@;
    let ghost kept_view = capabilities_view(kept@);
    kept.push(record);
    proof {
        assert(capabilities_view(kept@) =~= kept_view.push(rv));
    }
    prim.behavioral_capabilities = kept;
    apply_behavior_level(prim);
}

proof fn lemma_fallback_range(rs: Seq<EvidenceView>)
    ensures
        1 <= fallback_level(rs) < BEHAVIOR_LEVEL,
    decreases rs.len(),
{
    if rs.len() > 0 {
        lemma_fallback_range(rs.drop_last());
    }
}

/// The evidence ladder's behavioral rules: Level 6 or above is held only
/// while some capability passes; a pass lifts a Replicated (Level >= 2)
/// primitive to at least Level 6; a demotion never goes below Level 1;
/// with nothing passing, a primitive below Level 6 keeps its level.
pub proof fn lemma_behavior_level_laws(p: PrimitiveView)
    ensures
        behavior_level(p) >= BEHAVIOR_LEVEL ==> any_passing(p.behavioral_capabilities),
        any_passing(p.behavioral_capabilities) && p.evidence_level >= MIN_LEVEL_FOR_PROMOTION
            ==> behavior_level(p) >= BEHAVIOR_LEVEL,
        p.evidence_level >= 1 ==> behavior_level(p) >= 1,
        !any_passing(p.behavioral_capabilities) && p.evidence_level < BEHAVIOR_LEVEL
            ==> behavior_level(p) == p.evidence_level,
{
    lemma_fallback_range(p.evidence_records);
}

/// Recording a capability leaves exactly one record of that name, the
/// new one, last; every other record is kept in order.
pub proof fn lemma_record_replaces(caps: Seq<CapabilityView>, record: CapabilityView)
    ensures
        ({
            let out = caps.filter(|c: CapabilityView| c.name != record.name).push(record);
            &&& out.last() == record
            &&& forall|k: int| 0 <= k < out.len() - 1 ==> #[trigger] out[k].name != record.name
            &&& forall|k: int| 0 <= k < caps.len() && caps[k].name != record.name ==> out.contains(
                #[trigger] caps[k],
            )
        }),
{
    let pred = |c: CapabilityView| c.name != record.name;
    let kept = caps.filter(pred);
    let out = kept.push(record);
    assert forall|k: int| 0 <= k < out.len() - 1 implies #[trigger] out[k].name != record.name by {
        caps.lemma_filter_pred(pred, k);
        assert(out[k] == kept[k]);
    }
    assert forall|k: int| 0 <= k < caps.len() && caps[k].name != record.name implies out.contains(
        #[trigger] caps[k],
    ) by {
        caps.lemma_filter_contains(pred, k);
        let j = choose|j: int| 0 <= j < kept.len() && kept[j] == caps[k];
        assert(out[j] == caps[k]);
    }
}


/// The fallback level is the best level among the non-behavioral records
/// (those below Level 6), or Level 1 when there is none: it is at least 1,
/// at least every such record's level, and is 1 or one of those levels.
pub proof fn lemma_fallback_is_best(rs: Seq<EvidenceView>)
    ensures
        fallback_level(rs) >= 1,
        forall|k: int|
            0 <= k < rs.len() && (#[trigger] rs[k]).level < BEHAVIOR_LEVEL ==> fallback_level(rs)
                >= rs[k].level,
        fallback_level(rs) == 1 || exists|k: int|
            0 <= k < rs.len() && (#[trigger] rs[k]).level < BEHAVIOR_LEVEL && fallback_level(rs)
                == rs[k].level,
    decreases rs.len(),
{
    if rs.len() > 0 {
        let t = rs.drop_last();
        lemma_fallback_is_best(t);
        assert forall|k: int|
            0 <= k < rs.len() && (#[trigger] rs[k]).level < BEHAVIOR_LEVEL implies fallback_level(rs)
                >= rs[k].level by {
            if k < rs.len() - 1 {
                assert(rs[k] == t[k]);
            }
        }
        if fallback_level(rs) != 1 {
            if fallback_level(rs) == fallback_level(t) {
                let k = choose|k: int|
                    0 <= k < t.len() && (#[trigger] t[k]).level < BEHAVIOR_LEVEL && fallback_level(t)
                        == t[k].level;
                assert(rs[k] == t[k]);
            } else {
                assert(rs[rs.len() - 1] == rs.last());
            }
        }
    }
}

/// Withdrawing Level 6: with no passing capability, a primitive at Level 6
/// or above falls back to the best level its non-behavioral records
/// support (never below 1), and never to a level below one of them.
pub proof fn lemma_withdrawal_falls_back_to_best(p: PrimitiveView, k: int)
    requires
        !any_passing(p.behavioral_capabilities),
        p.evidence_level >= BEHAVIOR_LEVEL,
    ensures
        1 <= behavior_level(p) < BEHAVIOR_LEVEL,
        0 <= k < p.evidence_records.len() && p.evidence_records[k].level < BEHAVIOR_LEVEL
            ==> behavior_level(p) >= p.evidence_records[k].level,
        behavior_level(p) == 1 || exists|j: int|
            0 <= j < p.evidence_records.len() && (#[trigger] p.evidence_records[j]).level
                < BEHAVIOR_LEVEL && behavior_level(p) == p.evidence_records[j].level,
{
    lemma_fallback_is_best(p.evidence_records);
    lemma_fallback_range(p.evidence_records);
}

} // verus!
