//! The discrete half of evolutionary discovery: how a genome's shape
//! mutates, how many survivors selection keeps, and how discoveries are
//! attributed. Pulses and fitness are floating-point and live with the
//! simulation.

use vstd::prelude::*;
use crate::text::{dec, decimal, chars_of, push_chars, string_of};
use crate::registry::strings_view;

verus! {

/// Most pulses a genome may carry.
pub const MAX_PULSES: usize = 6;

/// Fewest and most free-evolution steps a genome may schedule.
pub const MIN_RESONATE_STEPS: u64 = 50;

pub const MAX_RESONATE_STEPS: u64 = 1200;

/// What one mutation does to a genome.
#[derive(Clone, Copy, Debug, PartialEq, Eq, Structural)]
pub enum Mutation {
    /// Drop one pulse.
    RemovePulse,
    /// Add a fresh random pulse.
    AddPulse,
    /// Jitter one pulse's position and radius.
    NudgePosition,
    /// Jitter one pulse's frequency, phase and amplitude.
    NudgeWave,
    /// Rescale the resonance schedule and redraw the dream flag.
    Retime,
}

/// The mutation a draw `kind` in `[0, 5)` selects for a genome of
/// `pulses` pulses: removing needs more than one pulse and adding needs
/// room, otherwise the draw falls through to `Retime`.
pub open spec fn mutation_spec(kind: u64, pulses: nat) -> Mutation {
    if kind == 0 && pulses > 1 {
        Mutation::RemovePulse
    } else if kind == 1 && pulses < MAX_PULSES {
        Mutation::AddPulse
    } else if kind == 2 {
        Mutation::NudgePosition
    } else if kind == 3 {
        Mutation::NudgeWave
    } else {
        Mutation::Retime
    }
}

pub fn mutation_for(kind: u64, pulses: usize) -> (m: Mutation)
    ensures
        m == mutation_spec(kind, pulses as nat),
{
    if kind == 0 && pulses > 1 {
        Mutation::RemovePulse
    } else if kind == 1 && pulses < MAX_PULSES {
        Mutation::AddPulse
    } else if kind == 2 {
        Mutation::NudgePosition
    } else if kind == 3 {
        Mutation::NudgeWave
    } else {
        Mutation::Retime
    }
}

/// Pulse count after a mutation.
pub open spec fn pulses_after(m: Mutation, pulses: nat) -> nat {
    match m {
        Mutation::RemovePulse => (pulses - 1) as nat,
        Mutation::AddPulse => pulses + 1,
        _ => pulses,
    }
}

/// Mutation keeps a genome's pulse count within `[1, MAX_PULSES]`, so
/// a pulse can always be picked to nudge.
pub proof fn lemma_mutation_keeps_pulse_bounds(kind: u64, pulses: nat)
    requires
        1 <= pulses <= MAX_PULSES,
    ensures
        1 <= pulses_after(mutation_spec(kind, pulses), pulses) <= MAX_PULSES,
{
}

/// A rescaled schedule held to `[MIN_RESONATE_STEPS, MAX_RESONATE_STEPS]`.
pub fn clamp_steps(scaled: u64) -> (s: u64)
    ensures
        MIN_RESONATE_STEPS <= s <= MAX_RESONATE_STEPS,
        MIN_RESONATE_STEPS <= scaled <= MAX_RESONATE_STEPS ==> s == scaled,
        scaled < MIN_RESONATE_STEPS ==> s == MIN_RESONATE_STEPS,
        scaled > MAX_RESONATE_STEPS ==> s == MAX_RESONATE_STEPS,
{
    if scaled < MIN_RESONATE_STEPS {
        MIN_RESONATE_STEPS
    } else if scaled > MAX_RESONATE_STEPS {
        MAX_RESONATE_STEPS
    } else {
        scaled
    }
}

/// Survivors selection keeps: the top half, at least one.
pub fn keep_count(population: usize) -> (k: usize)
    ensures
        k == if population / 2 >= 1 { population / 2 } else { 1 },
{
    let h = population / 2;
    if h >= 1 { h } else { 1 }
}

/// A discovery's lineage: the run's most recent discovery, if any.
pub fn latest_lineage(discovered: &Vec<String>) -> (r: Vec<String>)
    ensures
        strings_view(r@) == if discovered@.len() == 0 {
            Seq::<Seq<char>>::empty()
        } else {
            seq![discovered@.last()@]
        },
{
    let mut r: Vec<String> = Vec::new();
    if discovered.len() > 0 {
        r.push(discovered[discovered.len() - 1].clone());
    }
    proof {
        if discovered@.len() == 0 {
            assert(strings_view(r@) =~= Seq::<Seq<char>>::empty());
        } else {
            assert(strings_view(r@) =~= seq![discovered@.last()@]);
        }
    }
    r
}

/// `evolve gen <gen>`.
pub open spec fn provenance_spec(generation: u64) -> Seq<char> {
    "evolve gen "@ + dec(generation as nat)
}

pub fn provenance_for(generation: u64) -> (r: String)
    ensures
        r@ == provenance_spec(generation),
{
    let mut m = chars_of("evolve gen ");
    let d = decimal(generation);
    push_chars(&mut m, &d);
    string_of(&m)
}

} // verus!
