//! Crystal primitive classes and the discrete parts of structure
//! detection: class names, class-name normalization for search, and the
//! angular-occupancy statistics the morphological classifier reads.

use vstd::prelude::*;
use crate::text::{lowercase, to_lower};

verus! {

/// **Morphological** primitive classes: observational labels from shape
/// heuristics, never behavioral claims. A structure the heuristics cannot
/// place confidently is `Unknown`.
#[derive(Clone, Copy, Debug, PartialEq, Eq, Structural)]
pub enum PrimitiveClass {
    /// Annular structure — energy on a ring, quiet core.
    EchoRing,
    /// Compact, roughly circular standing structure.
    StandingEcho,
    /// Strongly elongated structure connecting two regions.
    HarmonicBridge,
    /// Multiple lobes twisted around a shared center.
    PhaseKnot,
    /// Large diffuse basin that keeps drawing energy in.
    AttractorField,
    /// Small, very dense, very stable kernel.
    MemorySeed,
    /// No morphological heuristic fired with confidence.
    Unknown,
}

/// Display name of a class ("Echo Ring", "Standing Echo", ...).
pub open spec fn class_name(c: PrimitiveClass) -> Seq<char> {
    match c {
        PrimitiveClass::EchoRing => "Echo Ring"@,
        PrimitiveClass::StandingEcho => "Standing Echo"@,
        PrimitiveClass::HarmonicBridge => "Harmonic Bridge"@,
        PrimitiveClass::PhaseKnot => "Phase Knot"@,
        PrimitiveClass::AttractorField => "Attractor Field"@,
        PrimitiveClass::MemorySeed => "Memory Seed"@,
        PrimitiveClass::Unknown => "Unknown"@,
    }
}

impl PrimitiveClass {
    /// The display name (what the class prints as).
    pub fn name(&self) -> (s: &'static str)
        ensures
            s@ == class_name(*self),
    {
        match self {
            PrimitiveClass::EchoRing => "Echo Ring",
            PrimitiveClass::StandingEcho => "Standing Echo",
            PrimitiveClass::HarmonicBridge => "Harmonic Bridge",
            PrimitiveClass::PhaseKnot => "Phase Knot",
            PrimitiveClass::AttractorField => "Attractor Field",
            PrimitiveClass::MemorySeed => "Memory Seed",
            PrimitiveClass::Unknown => "Unknown",
        }
    }

    /// The display name as an owned string.
    pub fn to_display_string(&self) -> (s: String)
        ensures
            s@ == class_name(*self),
    {
        String::from_str(self.name())
    }
}

/// Search normalization of a name: lowercase, with `_` and `-` read as
/// spaces, so `standing_echo`, `Standing-Echo` and "Standing Echo" agree.
pub open spec fn normalize_name(s: Seq<char>) -> Seq<char> {
    lowercase(s).map_values(|c: char| if c == '_' || c == '-' { ' ' } else { c })
}

pub fn normalize(s: &str) -> (r: Vec<char>)
    ensures
        r@ == normalize_name(s@),
{
    let low = to_lower(s);
    let cs = crate::text::chars_of(low.as_str());
    let mut r: Vec<char> = Vec::new();
    let mut i: usize = 0;
    while i < cs.len()
        invariant
            i <= cs@.len(),
            cs@ == lowercase(s@),
            r@ == cs@.take(i as int).map_values(
                |c: char| if c == '_' || c == '-' { ' ' } else { c },
            ),
        decreases cs@.len() - i,
    {
        let c = cs[i];
        if c == '_' || c == '-' {
            r.push(' ');
        } else {
            r.push(c);
        }
        i = i + 1;
        proof {
            assert(r@ =~= cs@.take(i as int).map_values(
                |c: char| if c == '_' || c == '-' { ' ' } else { c },
            ));
        }
    }
    proof {
        assert(cs@.take(i as int) =~= cs@);
    }
    r
}

/// Vec equality on characters.
pub fn chars_eq(a: &Vec<char>, b: &Vec<char>) -> (r: bool)
    ensures
        r == (a@ == b@),
{
    if a.len() != b.len() {
        return false;
    }
    let mut i: usize = 0;
    while i < a.len()
        invariant
            i <= a@.len(),
            a@.len() == b@.len(),
            forall|j: int| 0 <= j < i ==> a@[j] == b@[j],
        decreases a@.len() - i,
    {
        if a[i] != b[i] {
            return false;
        }
        i = i + 1;
    }
    proof {
        assert(a@ =~= b@);
    }
    true
}

/// Whether a class display name matches a user-supplied class query
/// under `normalize_name`.
pub fn class_matches(class: PrimitiveClass, query: &str) -> (r: bool)
    ensures
        r == (normalize_name(class_name(class)) == normalize_name(query@)),
{
    let a = normalize(class.name());
    let b = normalize(query);
    chars_eq(&a, &b)
}

// ---------------------------------------------------------------------
// Angular occupancy
// ---------------------------------------------------------------------

/// Number of occupied bins in a 16-bin angular histogram.
pub open spec fn occupied_count(h: Seq<u32>, k: int) -> nat
    decreases k,
{
    if k <= 0 {
        0
    } else {
        occupied_count(h, k - 1) + (if h[k - 1] > 0 { 1nat } else { 0nat })
    }
}

/// Number of occupied bins whose clockwise neighbour (cyclically) is empty:
/// each is the trailing edge of a lobe, so this counts angular gaps.
pub open spec fn gap_count(h: Seq<u32>, k: int) -> nat
    decreases k,
{
    if k <= 0 {
        0
    } else {
        gap_count(h, k - 1) + (if h[k - 1] > 0 && h[k % 16] == 0 { 1nat } else { 0nat })
    }
}

/// `(occupied bins, gaps)` of an angular histogram — the lobe statistics
/// of a detected region.
pub fn angular_stats(h: &[u32; 16]) -> (r: (usize, usize))
    ensures
        r.0 == occupied_count(h@, 16),
        r.1 == gap_count(h@, 16),
{
    let mut occupied: usize = 0;
    let mut gaps: usize = 0;
    let mut k: usize = 0;
    while k < 16
        invariant
            k <= 16,
            h@.len() == 16,
            occupied == occupied_count(h@, k as int),
            gaps == gap_count(h@, k as int),
            occupied <= k,
            gaps <= k,
        decreases 16 - k,
    {
        if h[k] > 0 {
            occupied = occupied + 1;
        }
        if h[k] > 0 && h[(k + 1) % 16] == 0 {
            gaps = gaps + 1;
        }
        k = k + 1;
    }
    (occupied, gaps)
}


// ---------------------------------------------------------------------
// Detected structures
// ---------------------------------------------------------------------
//
// Measurements produced by the simulation are carried as the IEEE-754
// bit patterns of their `f64` values (`f64::to_bits`); the library
// stores, copies and compares them but never does arithmetic on them.

/// The raw morphology features a classification was derived from, kept
/// so a future classifier version can re-classify without re-running.
#[derive(Clone, Copy, Debug, PartialEq, Eq, Structural)]
pub struct MorphologyFeatures {
    /// `f64` bits: region area over field area.
    pub relative_area: u64,
    /// `f64` bits: sqrt of the covariance eigenvalue ratio.
    pub elongation: u64,
    /// `f64` bits: minimum radius over mean radius.
    pub annularity: u64,
    pub angular_gap_count: usize,
    pub occupied_bins: usize,
    /// `f64` bits: region mean stability over map mean.
    pub stability_ratio: u64,
}

/// Classification metadata: the label, its domain (morphological, never
/// behavioral), the classifier version, and its confidence.
#[derive(Debug)]
pub struct Classification {
    pub display_class: String,
    pub primitive_domain: String,
    pub classifier_version: String,
    /// `f64` bits of the confidence in [0.3, 0.95].
    pub classifier_confidence: u64,
    pub features: MorphologyFeatures,
}

pub struct ClassificationView {
    pub display_class: Seq<char>,
    pub primitive_domain: Seq<char>,
    pub classifier_version: Seq<char>,
    pub classifier_confidence: u64,
    pub features: MorphologyFeatures,
}

impl View for Classification {
    type V = ClassificationView;

    open spec fn view(&self) -> ClassificationView {
        ClassificationView {
            display_class: self.display_class@,
            primitive_domain: self.primitive_domain@,
            classifier_version: self.classifier_version@,
            classifier_confidence: self.classifier_confidence,
            features: self.features,
        }
    }
}

impl Clone for Classification {
    fn clone(&self) -> (r: Self)
        ensures
            r@ == self@,
    {
        Classification {
            display_class: self.display_class.clone(),
            primitive_domain: self.primitive_domain.clone(),
            classifier_version: self.classifier_version.clone(),
            classifier_confidence: self.classifier_confidence,
            features: self.features,
        }
    }
}

/// A detected (not yet registered) structure.
#[derive(Debug)]
pub struct DetectedStructure {
    pub class: PrimitiveClass,
    pub classification: Classification,
    /// `f64` bits of the normalized centroid `(x, y)`.
    pub centroid: (u64, u64),
    /// Cell count of the connected region.
    pub area: usize,
    /// `f64` bits: mean stability in the region relative to the map mean.
    pub stability_score: u64,
    /// `f64` bits of the 16x16 normalized signature.
    pub signature: Vec<u64>,
}

pub struct DetectedView {
    pub class: PrimitiveClass,
    pub classification: ClassificationView,
    pub centroid: (u64, u64),
    pub area: usize,
    pub stability_score: u64,
    pub signature: Seq<u64>,
}

impl View for DetectedStructure {
    type V = DetectedView;

    open spec fn view(&self) -> DetectedView {
        DetectedView {
            class: self.class,
            classification: self.classification@,
            centroid: self.centroid,
            area: self.area,
            stability_score: self.stability_score,
            signature: self.signature@,
        }
    }
}

/// An element-for-element copy of a vector of `Copy` values.
pub fn copy_vec<T: Copy>(v: &Vec<T>) -> (r: Vec<T>)
    ensures
        r@ == v@,
{
    let mut r: Vec<T> = Vec::new();
    let mut i: usize = 0;
    while i < v.len()
        invariant
            i <= v@.len(),
            r@ == v@.take(i as int),
        decreases v@.len() - i,
    {
        r.push(v[i]);
        i = i + 1;
        proof {
            assert(r@ =~= v@.take(i as int));
        }
    }
    proof {
        assert(v@.take(i as int) =~= v@);
    }
    r
}

/// An element-for-element copy of a vector of strings.
pub fn copy_strings(v: &Vec<String>) -> (r: Vec<String>)
    ensures
        r@ == v@,
        r@.map_values(|x: String| x@) == v@.map_values(|x: String| x@),
{
    let mut r: Vec<String> = Vec::new();
    let mut i: usize = 0;
    while i < v.len()
        invariant
            i <= v@.len(),
            r@ == v@.take(i as int),
        decreases v@.len() - i,
    {
        r.push(v[i].clone());
        i = i + 1;
        proof {
            assert(r@ =~= v@.take(i as int));
        }
    }
    proof {
        assert(v@.take(i as int) =~= v@);
    }
    r
}

impl Clone for DetectedStructure {
    fn clone(&self) -> (r: Self)
        ensures
            r@ == self@,
    {
        DetectedStructure {
            class: self.class,
            classification: self.classification.clone(),
            centroid: self.centroid,
            area: self.area,
            stability_score: self.stability_score,
            signature: copy_vec(&self.signature),
        }
    }
}

} // verus!
