//! Crystal Registry — every discovered primitive gets a stable identity:
//! a `CRY-######` serial id, a UUID, a blake3 hash of its quantized
//! signature, its measured properties, lineage, and its evidence.
//!
//! Measurements are carried as `f64` bit patterns (see
//! `primitives`); decisions that compare measurements — signature
//! similarity against the dedup threshold, quality order for pruning,
//! persistence floors in search — are made by the simulation layer and
//! handed in as booleans or order keys, one per registered primitive.

use vstd::prelude::*;
use crate::ids::{Timestamp, uuid_seq, uuid_text, new_uuid, content_hash, hex_seq, blake3_digest, utc_now};
use crate::primitives::{
    PrimitiveClass, Classification, ClassificationView, DetectedStructure, copy_vec, copy_strings,
};
use crate::primitives::{class_name, normalize_name, normalize, class_matches, chars_eq};
use crate::ranking::{is_ranking, rank_desc, ranks_before};
use crate::text::{dec, zero_pad, decimal, zero_padded, chars_of, push_str, push_chars, string_of};

verus! {

// ---------------------------------------------------------------------
// Records
// ---------------------------------------------------------------------

/// One recorded evidence procedure: what was run, what it measured
/// (JSON text), when, and where.
#[derive(Debug)]
pub struct EvidenceRecord {
    /// The ladder level this record supports.
    pub level: u8,
    /// e.g. "reproduce-v2", "perturbation-ensemble-v2".
    pub procedure: String,
    /// Procedure-specific metrics, serialized as JSON.
    pub metrics: String,
    pub at: Timestamp,
    pub node: String,
}

pub struct EvidenceView {
    pub level: u8,
    pub procedure: Seq<char>,
    pub metrics: Seq<char>,
    pub at: Timestamp,
    pub node: Seq<char>,
}

impl View for EvidenceRecord {
    type V = EvidenceView;

    open spec fn view(&self) -> EvidenceView {
        EvidenceView {
            level: self.level,
            procedure: self.procedure@,
            metrics: self.metrics@,
            at: self.at,
            node: self.node@,
        }
    }
}

impl Clone for EvidenceRecord {
    fn clone(&self) -> (r: Self)
        ensures
            r@ == self@,
    {
        EvidenceRecord {
            level: self.level,
            procedure: self.procedure.clone(),
            metrics: self.metrics.clone(),
            at: self.at,
            node: self.node.clone(),
        }
    }
}

/// How a structure is placed into a task field (`f64` bits of each
/// coordinate): centre, span as a fraction of the field, gain, rotation.
#[derive(Clone, Copy, Debug, PartialEq, Eq, Structural)]
pub struct Instantiation {
    pub cx: u64,
    pub cy: u64,
    pub scale: u64,
    pub gain: u64,
    pub rotation: u64,
}

/// `f64` bits of 0.5, 0.35, 3.0 and 0.0.
pub const HALF_BITS: u64 = 0x3FE0_0000_0000_0000;

pub const V1_SPAN_BITS: u64 = 0x3FD6_6666_6666_6666;

pub const V1_GAIN_BITS: u64 = 0x4008_0000_0000_0000;

pub const ZERO_BITS: u64 = 0;

impl Default for Instantiation {
    /// The v1 placement: centred at (0.5, 0.5), spanning 0.35 of the
    /// field, gain 3, unrotated.
    fn default() -> (r: Self)
        ensures
            r == (Instantiation {
                cx: HALF_BITS,
                cy: HALF_BITS,
                scale: V1_SPAN_BITS,
                gain: V1_GAIN_BITS,
                rotation: ZERO_BITS,
            }),
    {
        Instantiation {
            cx: HALF_BITS,
            cy: HALF_BITS,
            scale: V1_SPAN_BITS,
            gain: V1_GAIN_BITS,
            rotation: ZERO_BITS,
        }
    }
}

/// One measured behavioral capability: the same task run with and
/// without the primitive instantiated, over N trials. Failed tests are
/// recorded too.
#[derive(Debug)]
pub struct BehavioralCapability {
    /// e.g. "noise_shielding", "pattern_completion".
    pub name: String,
    /// Contract version — bumped when the trial protocol changes.
    pub contract_version: String,
    /// Whether the contract's pass criteria were met.
    pub passed: bool,
    /// `f64` bits: mean advantage of present over absent.
    pub mean_advantage: u64,
    /// `f64` bits.
    pub std_advantage: u64,
    /// `f64` bits: fraction of trials with positive advantage.
    pub positive_fraction: u64,
    pub trials: u64,
    pub at: Timestamp,
    pub node: String,
    pub instantiation: Option<Instantiation>,
    /// `f64` bits of the in-sample (fit) advantage.
    pub fit_advantage: Option<u64>,
    /// `f64` bits of the scrambled-signature control advantage.
    pub control_advantage: Option<u64>,
    pub reassert_every: Option<u64>,
    /// `f64` bits.
    pub reassert_gain: Option<u64>,
}

pub struct CapabilityView {
    pub name: Seq<char>,
    pub contract_version: Seq<char>,
    pub passed: bool,
    pub mean_advantage: u64,
    pub std_advantage: u64,
    pub positive_fraction: u64,
    pub trials: u64,
    pub at: Timestamp,
    pub node: Seq<char>,
    pub instantiation: Option<Instantiation>,
    pub fit_advantage: Option<u64>,
    pub control_advantage: Option<u64>,
    pub reassert_every: Option<u64>,
    pub reassert_gain: Option<u64>,
}

impl View for BehavioralCapability {
    type V = CapabilityView;

    open spec fn view(&self) -> CapabilityView {
        CapabilityView {
            name: self.name@,
            contract_version: self.contract_version@,
            passed: self.passed,
            mean_advantage: self.mean_advantage,
            std_advantage: self.std_advantage,
            positive_fraction: self.positive_fraction,
            trials: self.trials,
            at: self.at,
            node: self.node@,
            instantiation: self.instantiation,
            fit_advantage: self.fit_advantage,
            control_advantage: self.control_advantage,
            reassert_every: self.reassert_every,
            reassert_gain: self.reassert_gain,
        }
    }
}

impl Clone for BehavioralCapability {
    fn clone(&self) -> (r: Self)
        ensures
            r@ == self@,
    {
        BehavioralCapability {
            name: self.name.clone(),
            contract_version: self.contract_version.clone(),
            passed: self.passed,
            mean_advantage: self.mean_advantage,
            std_advantage: self.std_advantage,
            positive_fraction: self.positive_fraction,
            trials: self.trials,
            at: self.at,
            node: self.node.clone(),
            instantiation: self.instantiation,
            fit_advantage: self.fit_advantage,
            control_advantage: self.control_advantage,
            reassert_every: self.reassert_every,
            reassert_gain: self.reassert_gain,
        }
    }
}

pub open spec fn strings_view(v: Seq<String>) -> Seq<Seq<char>> {
    v.map_values(|s: String| s@)
}

pub open spec fn records_view(v: Seq<EvidenceRecord>) -> Seq<EvidenceView> {
    v.map_values(|r: EvidenceRecord| r@)
}

pub open spec fn capabilities_view(v: Seq<BehavioralCapability>) -> Seq<CapabilityView> {
    v.map_values(|c: BehavioralCapability| c@)
}

pub fn copy_records(v: &Vec<EvidenceRecord>) -> (r: Vec<EvidenceRecord>)
    ensures
        records_view(r@) == records_view(v@),
{
    let mut r: Vec<EvidenceRecord> = Vec::new();
    let mut i: usize = 0;
    while i < v.len()
        invariant
            i <= v@.len(),
            r@.len() == i,
            forall|k: int| 0 <= k < i ==> #[trigger] r@[k]@ == v@[k]@,
        decreases v@.len() - i,
    {
        r.push(v[i].clone());
        i = i + 1;
    }
    proof {
        assert(records_view(r@) =~= records_view(v@));
    }
    r
}

pub fn copy_capabilities(v: &Vec<BehavioralCapability>) -> (r: Vec<BehavioralCapability>)
    ensures
        capabilities_view(r@) == capabilities_view(v@),
{
    let mut r: Vec<BehavioralCapability> = Vec::new();
    let mut i: usize = 0;
    while i < v.len()
        invariant
            i <= v@.len(),
            r@.len() == i,
            forall|k: int| 0 <= k < i ==> #[trigger] r@[k]@ == v@[k]@,
        decreases v@.len() - i,
    {
        r.push(v[i].clone());
        i = i + 1;
    }
    proof {
        assert(capabilities_view(r@) =~= capabilities_view(v@));
    }
    r
}

// ---------------------------------------------------------------------
// Primitive
// ---------------------------------------------------------------------

/// A registered primitive.
#[derive(Debug)]
pub struct Primitive {
    /// Human-facing id, e.g. `CRY-000145`.
    pub id: String,
    /// Swarm-wide identity (big-endian value of the UUID).
    pub uuid: u128,
    /// blake3 of the quantized signature, lowercase hex — content identity.
    pub hash: String,
    pub class: PrimitiveClass,
    /// `f64` bits: fraction of resonance retained over the observation window.
    pub persistence: u64,
    /// `f64` bits: persistence retained under injected noise.
    pub noise_tolerance: u64,
    /// `f64` bits.
    pub stability_score: u64,
    /// `f64` bits.
    pub energy_profile: Vec<u64>,
    pub material_id: String,
    /// `f64` bits of the normalized centroid.
    pub centroid: (u64, u64),
    pub area: usize,
    /// `f64` bits of the 16x16 signature.
    pub signature: Vec<u64>,
    /// Parent primitive ids (structural genealogy).
    pub lineage: Vec<String>,
    pub discovered_at: Timestamp,
    /// Free-form provenance, e.g. "evolve gen 12".
    pub provenance: String,
    /// The experiment manifest that produced this primitive.
    pub experiment_id: Option<u128>,
    /// Protocol hash of that manifest.
    pub experiment_hash: Option<String>,
    pub classification: Option<Classification>,
    /// Evidence ladder level (0 Generated … 8 Hardware Observed).
    pub evidence_level: u8,
    pub evidence_records: Vec<EvidenceRecord>,
    /// The genome that produced this primitive (evolve runs).
    pub genome_id: Option<u128>,
    pub parent_genome_ids: Vec<u128>,
    /// Measured capability demonstrations, passed or not.
    pub behavioral_capabilities: Vec<BehavioralCapability>,
}

pub struct PrimitiveView {
    pub id: Seq<char>,
    pub uuid: u128,
    pub hash: Seq<char>,
    pub class: PrimitiveClass,
    pub persistence: u64,
    pub noise_tolerance: u64,
    pub stability_score: u64,
    pub energy_profile: Seq<u64>,
    pub material_id: Seq<char>,
    pub centroid: (u64, u64),
    pub area: usize,
    pub signature: Seq<u64>,
    pub lineage: Seq<Seq<char>>,
    pub discovered_at: Timestamp,
    pub provenance: Seq<char>,
    pub experiment_id: Option<u128>,
    pub experiment_hash: Option<Seq<char>>,
    pub classification: Option<ClassificationView>,
    pub evidence_level: u8,
    pub evidence_records: Seq<EvidenceView>,
    pub genome_id: Option<u128>,
    pub parent_genome_ids: Seq<u128>,
    pub behavioral_capabilities: Seq<CapabilityView>,
}

pub open spec fn opt_string_view(o: Option<String>) -> Option<Seq<char>> {
    match o {
        Some(s) => Some(s@),
        None => None,
    }
}

pub open spec fn opt_classification_view(o: Option<Classification>) -> Option<ClassificationView> {
    match o {
        Some(c) => Some(c@),
        None => None,
    }
}

impl View for Primitive {
    type V = PrimitiveView;

    open spec fn view(&self) -> PrimitiveView {
        PrimitiveView {
            id: self.id@,
            uuid: self.uuid,
            hash: self.hash@,
            class: self.class,
            persistence: self.persistence,
            noise_tolerance: self.noise_tolerance,
            stability_score: self.stability_score,
            energy_profile: self.energy_profile@,
            material_id: self.material_id@,
            centroid: self.centroid,
            area: self.area,
            signature: self.signature@,
            lineage: strings_view(self.lineage@),
            discovered_at: self.discovered_at,
            provenance: self.provenance@,
            experiment_id: self.experiment_id,
            experiment_hash: opt_string_view(self.experiment_hash),
            classification: opt_classification_view(self.classification),
            evidence_level: self.evidence_level,
            evidence_records: records_view(self.evidence_records@),
            genome_id: self.genome_id,
            parent_genome_ids: self.parent_genome_ids@,
            behavioral_capabilities: capabilities_view(self.behavioral_capabilities@),
        }
    }
}

fn copy_opt_string(o: &Option<String>) -> (r: Option<String>)
    ensures
        opt_string_view(r) == opt_string_view(*o),
{
    match o {
        Some(s) => Some(s.clone()),
        None => None,
    }
}

fn copy_opt_classification(o: &Option<Classification>) -> (r: Option<Classification>)
    ensures
        opt_classification_view(r) == opt_classification_view(*o),
{
    match o {
        Some(c) => Some(c.clone()),
        None => None,
    }
}

impl Clone for Primitive {
    fn clone(&self) -> (r: Self)
        ensures
            r@ == self@,
    {
        let lineage = copy_strings(&self.lineage);
        Primitive {
            id: self.id.clone(),
            uuid: self.uuid,
            hash: self.hash.clone(),
            class: self.class,
            persistence: self.persistence,
            noise_tolerance: self.noise_tolerance,
            stability_score: self.stability_score,
            energy_profile: copy_vec(&self.energy_profile),
            material_id: self.material_id.clone(),
            centroid: self.centroid,
            area: self.area,
            signature: copy_vec(&self.signature),
            lineage,
            discovered_at: self.discovered_at,
            provenance: self.provenance.clone(),
            experiment_id: self.experiment_id,
            experiment_hash: copy_opt_string(&self.experiment_hash),
            classification: copy_opt_classification(&self.classification),
            evidence_level: self.evidence_level,
            evidence_records: copy_records(&self.evidence_records),
            genome_id: self.genome_id,
            parent_genome_ids: copy_vec(&self.parent_genome_ids),
            behavioral_capabilities: copy_capabilities(&self.behavioral_capabilities),
        }
    }
}


// ---------------------------------------------------------------------
// Registry
// ---------------------------------------------------------------------

/// The registry: every primitive this node knows, plus the serial counter
/// behind `CRY-######` ids.
#[derive(Debug)]
pub struct Registry {
    pub primitives: Vec<Primitive>,
    pub next_serial: u64,
}

pub open spec fn prims_view(v: Seq<Primitive>) -> Seq<PrimitiveView> {
    v.map_values(|p: Primitive| p@)
}

pub struct RegistryView {
    pub primitives: Seq<PrimitiveView>,
    pub next_serial: u64,
}

impl View for Registry {
    type V = RegistryView;

    open spec fn view(&self) -> RegistryView {
        RegistryView { primitives: prims_view(self.primitives@), next_serial: self.next_serial }
    }
}

impl Default for Registry {
    fn default() -> (r: Self)
        ensures
            r@.primitives.len() == 0,
            r@.next_serial == 0,
    {
        Registry { primitives: Vec::new(), next_serial: 0 }
    }
}

/// The id of serial `n`: `CRY-` and the serial zero-padded to six digits
/// (`format!("CRY-{:06}", n)`).
pub open spec fn serial_text(n: nat) -> Seq<char> {
    "CRY-"@ + zero_pad(dec(n), 6)
}

pub fn serial_id(n: u64) -> (r: String)
    ensures
        r@ == serial_text(n as nat),
{
    let mut v = chars_of("CRY-");
    let digits = decimal(n);
    let padded = zero_padded(&digits, 6);
    push_chars(&mut v, &padded);
    string_of(&v)
}

/// `q` names `p`: its serial id or its UUID text.
pub open spec fn id_matches(p: PrimitiveView, q: Seq<char>) -> bool {
    p.id == q || uuid_seq(p.uuid) == q
}

/// Some registered primitive of class `class` was judged a near-duplicate
/// (`near[i]`: signature similarity to primitive `i` is at least 0.92).
pub open spec fn duplicate_of(ps: Seq<PrimitiveView>, near: Seq<bool>, class: PrimitiveClass) -> bool {
    exists|i: int| 0 <= i < ps.len() && near[i] && #[trigger] ps[i].class == class
}

/// A primitive with this UUID is already registered.
pub open spec fn uuid_known(ps: Seq<PrimitiveView>, uuid: u128) -> bool {
    exists|i: int| 0 <= i < ps.len() && #[trigger] ps[i].uuid == uuid
}

/// Provenance of an import: `swarm:<origin>:<remote id> | <remote provenance>`.
pub open spec fn swarm_provenance(origin: Seq<char>, remote_id: Seq<char>, remote_prov: Seq<char>) -> Seq<char> {
    "swarm:"@ + origin + ":"@ + remote_id + " | "@ + remote_prov
}

pub open spec fn genome_id_of(g: Option<(u128, Vec<u128>)>) -> Option<u128> {
    match g {
        Some(p) => Some(p.0),
        None => None,
    }
}

pub open spec fn genome_parents_of(g: Option<(u128, Vec<u128>)>) -> Seq<u128> {
    match g {
        Some(p) => p.1@,
        None => Seq::empty(),
    }
}

pub open spec fn experiment_id_of(e: Option<(u128, String)>) -> Option<u128> {
    match e {
        Some(p) => Some(p.0),
        None => None,
    }
}

pub open spec fn experiment_hash_of(e: Option<(u128, String)>) -> Option<Seq<char>> {
    match e {
        Some(p) => Some(p.1@),
        None => None,
    }
}

impl Registry {
    fn class_duplicate(&self, near: &Vec<bool>, class: PrimitiveClass) -> (r: bool)
        requires
            near@.len() == self.primitives@.len(),
        ensures
            r == duplicate_of(self@.primitives, near@, class),
    {
        let mut i: usize = 0;
        while i < self.primitives.len()
            invariant
                i <= self.primitives@.len(),
                near@.len() == self.primitives@.len(),
                forall|j: int| 0 <= j < i ==> !(near@[j] && self@.primitives[j].class == class),
            decreases self.primitives@.len() - i,
        {
            if near[i] && self.primitives[i].class == class {
                proof {
                    assert(self@.primitives[i as int].class == class);
                }
                return true;
            }
            i = i + 1;
        }
        false
    }

    fn uuid_present(&self, uuid: u128) -> (r: bool)
        ensures
            r == uuid_known(self@.primitives, uuid),
    {
        let mut i: usize = 0;
        while i < self.primitives.len()
            invariant
                i <= self.primitives@.len(),
                forall|j: int| 0 <= j < i ==> self@.primitives[j].uuid != uuid,
            decreases self.primitives@.len() - i,
        {
            if self.primitives[i].uuid == uuid {
                proof {
                    assert(self@.primitives[i as int].uuid == uuid);
                }
                return true;
            }
            i = i + 1;
        }
        false
    }

    /// Position of the first primitive named by `id` (serial id or UUID text).
    pub fn find_index(&self, id: &str) -> (r: Option<usize>)
        ensures
            match r {
                Some(i) => i < self@.primitives.len() && id_matches(self@.primitives[i as int], id@)
                    && forall|j: int| 0 <= j < i ==> !id_matches(self@.primitives[j], id@),
                None => forall|j: int|
                    0 <= j < self@.primitives.len() ==> !id_matches(self@.primitives[j], id@),
            },
    {
        let q = chars_of(id);
        let mut i: usize = 0;
        while i < self.primitives.len()
            invariant
                i <= self.primitives@.len(),
                q@ == id@,
                forall|j: int| 0 <= j < i ==> !id_matches(self@.primitives[j], id@),
            decreases self.primitives@.len() - i,
        {
            let pid = chars_of(self.primitives[i].id.as_str());
            let utext = uuid_text(self.primitives[i].uuid);
            let ucs = chars_of(utext.as_str());
            if crate::primitives::chars_eq(&pid, &q) || crate::primitives::chars_eq(&ucs, &q) {
                return Some(i);
            }
            i = i + 1;
        }
        None
    }

    /// The first primitive named by `id` (serial id or UUID text).
    pub fn find(&self, id: &str) -> (r: Option<&Primitive>)
        ensures
            match r {
                Some(p) => exists|i: int|
                    0 <= i < self@.primitives.len() && p@ == self@.primitives[i] && id_matches(
                        self@.primitives[i],
                        id@,
                    ) && forall|j: int| 0 <= j < i ==> !id_matches(self@.primitives[j], id@),
                None => forall|j: int|
                    0 <= j < self@.primitives.len() ==> !id_matches(self@.primitives[j], id@),
            },
    {
        match self.find_index(id) {
            Some(i) => Some(&self.primitives[i]),
            None => None,
        }
    }

    /// Register a detected structure. Returns `None` when it duplicates a
    /// registered primitive of the same class (`near[i]`: similarity to
    /// primitive `i` is at least 0.92). Otherwise the new primitive gets
    /// the next serial id, a fresh random version-4 UUID, the blake3 hash
    /// of the quantized signature, evidence Level 1, and is appended.
    pub fn register(
        &mut self,
        s: &DetectedStructure,
        persistence: u64,
        noise_tolerance: u64,
        energy_profile: Vec<u64>,
        material_id: &str,
        lineage: Vec<String>,
        provenance: &str,
        experiment: Option<(u128, String)>,
        genome: Option<(u128, Vec<u128>)>,
        quantized_signature: &[u8],
        near: &Vec<bool>,
    ) -> (r: Option<Primitive>)
        requires
            near@.len() == old(self)@.primitives.len(),
            old(self).next_serial < u64::MAX,
        ensures
            duplicate_of(old(self)@.primitives, near@, s.class) ==> r is None && final(self)@ == old(
                self,
            )@,
            !duplicate_of(old(self)@.primitives, near@, s.class) ==> r is Some && {
                let p = r->0@;
                &&& final(self)@.next_serial == old(self).next_serial + 1
                &&& final(self)@.primitives == old(self)@.primitives.push(p)
                &&& p.id == serial_text((old(self).next_serial + 1) as nat)
                &&& p.hash == hex_seq(blake3_digest(quantized_signature@))
                &&& p.hash.len() == 64
                &&& (p.uuid >> 76u128) & 0xf == 4
                &&& (p.uuid >> 62u128) & 0x3 == 2
                &&& p.discovered_at.nanos < 2_000_000_000
                &&& p.class == s.class
                &&& p.persistence == persistence
                &&& p.noise_tolerance == noise_tolerance
                &&& p.stability_score == s.stability_score
                &&& p.energy_profile == energy_profile@
                &&& p.material_id == material_id@
                &&& p.centroid == s.centroid
                &&& p.area == s.area
                &&& p.signature == s.signature@
                &&& p.lineage == strings_view(lineage@)
                &&& p.provenance == provenance@
                &&& p.experiment_id == experiment_id_of(experiment)
                &&& p.experiment_hash == experiment_hash_of(experiment)
                &&& p.classification == Some(s.classification@)
                &&& p.evidence_level == 1
                &&& p.evidence_records.len() == 0
                &&& p.genome_id == genome_id_of(genome)
                &&& p.parent_genome_ids == genome_parents_of(genome)
                &&& p.behavioral_capabilities.len() == 0
            },
    {
        if self.class_duplicate(near, s.class) {
            return None;
        }
        self.next_serial = self.next_serial + 1;
        let (experiment_id, experiment_hash) = match experiment {
            Some((id, hash)) => (Some(id), Some(hash)),
            None => (None, None),
        };
        let (genome_id, parent_genome_ids) = match genome {
            Some((id, parents)) => (Some(id), parents),
            None => (None, Vec::new()),
        };
        let prim = Primitive {
            id: serial_id(self.next_serial),
            uuid: new_uuid(),
            hash: content_hash(quantized_signature),
            class: s.class,
            persistence,
            noise_tolerance,
            stability_score: s.stability_score,
            energy_profile,
            material_id: String::from_str(material_id),
            centroid: s.centroid,
            area: s.area,
            signature: copy_vec(&s.signature),
            lineage,
            discovered_at: utc_now(),
            provenance: String::from_str(provenance),
            experiment_id,
            experiment_hash,
            classification: Some(s.classification.clone()),
            evidence_level: 1,
            evidence_records: Vec::new(),
            genome_id,
            parent_genome_ids,
            behavioral_capabilities: Vec::new(),
        };
        let out = prim.clone();
        self.primitives.push(prim);
        proof {
            assert(self@.primitives =~= old(self)@.primitives.push(out@));
        }
        Some(out)
    }

    /// Merge a primitive announced by another swarm node. Identity across
    /// the swarm is the UUID: an already-known UUID, or a near-duplicate
    /// structure of the same class, is rejected. Serial ids are per node,
    /// so the import gets a fresh local serial and the origin's id is kept
    /// in its provenance. Lineage is kept verbatim.
    pub fn merge_remote(&mut self, remote: &Primitive, origin_node: &str, near: &Vec<bool>) -> (r:
        Option<String>)
        requires
            near@.len() == old(self)@.primitives.len(),
            old(self).next_serial < u64::MAX,
        ensures
            (uuid_known(old(self)@.primitives, remote.uuid) || duplicate_of(
                old(self)@.primitives,
                near@,
                remote.class,
            )) ==> r is None && final(self)@ == old(self)@,
            !(uuid_known(old(self)@.primitives, remote.uuid) || duplicate_of(
                old(self)@.primitives,
                near@,
                remote.class,
            )) ==> r is Some && r->0@ == serial_text((old(self).next_serial + 1) as nat)
                && final(self)@.next_serial == old(self).next_serial + 1
                && final(self)@.primitives == old(self)@.primitives.push(
                PrimitiveView {
                    id: serial_text((old(self).next_serial + 1) as nat),
                    provenance: swarm_provenance(origin_node@, remote.id@, remote.provenance@),
                    ..remote@
                },
            ),
    {
        if self.uuid_present(remote.uuid) {
            return None;
        }
        if self.class_duplicate(near, remote.class) {
            return None;
        }
        self.next_serial = self.next_serial + 1;
        let mut prim = remote.clone();
        prim.id = serial_id(self.next_serial);
        let mut prov = chars_of("swarm:");
        push_str(&mut prov, origin_node);
        push_str(&mut prov, ":");
        push_str(&mut prov, remote.id.as_str());
        push_str(&mut prov, " | ");
        push_str(&mut prov, remote.provenance.as_str());
        prim.provenance = string_of(&prov);
        let id = prim.id.clone();
        let ghost pv = prim@;
        self.primitives.push(prim);
        proof {
            assert(self@.primitives =~= old(self)@.primitives.push(pv));
        }
        Some(id)
    }
}


/// `p` has a PASSED capability whose name matches `cap` under
/// `normalize_name` (a recorded-but-failed test does not count).
pub open spec fn has_passed_capability(p: PrimitiveView, cap: Seq<char>) -> bool {
    exists|k: int|
        0 <= k < p.behavioral_capabilities.len() && (#[trigger] p.behavioral_capabilities[k]).passed
            && normalize_name(p.behavioral_capabilities[k].name) == normalize_name(cap)
}

/// The search filter: class (normalized display name), material id,
/// persistence floor (decided by the caller per primitive), evidence
/// floor, and a passed capability.
pub open spec fn search_match(
    p: PrimitiveView,
    class: Option<&str>,
    material: Option<&str>,
    persistent: bool,
    min_evidence: u8,
    capability: Option<&str>,
) -> bool {
    &&& match class {
        Some(c) => normalize_name(class_name(p.class)) == normalize_name(c@),
        None => true,
    }
    &&& match material {
        Some(m) => p.material_id == m@,
        None => true,
    }
    &&& persistent
    &&& p.evidence_level >= min_evidence
    &&& match capability {
        Some(cap) => has_passed_capability(p, cap@),
        None => true,
    }
}

/// `r` lists, in increasing order, exactly the positions `i` below `n`
/// for which `pred(i)` holds.
pub open spec fn selects(r: Seq<usize>, n: int, pred: spec_fn(int) -> bool) -> bool {
    &&& forall|k: int| 0 <= k < r.len() ==> #[trigger] r[k] < n && pred(r[k] as int)
    &&& forall|k: int, l: int| 0 <= k < l < r.len() ==> #[trigger] r[k] < #[trigger] r[l]
    &&& forall|i: int| 0 <= i < n && pred(i) ==> #[trigger] r.contains(i as usize)
}

impl Registry {
    fn passed_capability(p: &Primitive, cap: &str) -> (r: bool)
        ensures
            r == has_passed_capability(p@, cap@),
    {
        let want = normalize(cap);
        let mut k: usize = 0;
        while k < p.behavioral_capabilities.len()
            invariant
                k <= p.behavioral_capabilities@.len(),
                want@ == normalize_name(cap@),
                forall|j: int|
                    0 <= j < k ==> !((#[trigger] p@.behavioral_capabilities[j]).passed
                        && normalize_name(p@.behavioral_capabilities[j].name) == normalize_name(
                        cap@,
                    )),
            decreases p.behavioral_capabilities@.len() - k,
        {
            let c = &p.behavioral_capabilities[k];
            if c.passed {
                let got = normalize(c.name.as_str());
                if chars_eq(&got, &want) {
                    proof {
                        assert(p@.behavioral_capabilities[k as int] == c@);
                    }
                    return true;
                }
            }
            proof {
                assert(p@.behavioral_capabilities[k as int] == c@);
            }
            k = k + 1;
        }
        false
    }

    /// Search the registry: positions of the primitives matching every
    /// given filter, in registry order. `persistent[i]` is the caller's
    /// verdict that primitive `i` meets the persistence floor. `class`
    /// matches the display name case-insensitively with `_`/`-` read as
    /// spaces; `capability` requires a PASSED capability of that name.
    pub fn search(
        &self,
        class: Option<&str>,
        material: Option<&str>,
        persistent: &Vec<bool>,
        min_evidence: u8,
        capability: Option<&str>,
    ) -> (r: Vec<usize>)
        requires
            persistent@.len() == self@.primitives.len(),
        ensures
            selects(
                r@,
                self@.primitives.len() as int,
                |i: int|
                    search_match(
                        self@.primitives[i],
                        class,
                        material,
                        persistent@[i],
                        min_evidence,
                        capability,
                    ),
            ),
    {
        let ghost pred = |i: int|
            search_match(self@.primitives[i], class, material, persistent@[i], min_evidence, capability);
        let mut r: Vec<usize> = Vec::new();
        let mut i: usize = 0;
        while i < self.primitives.len()
            invariant
                i <= self.primitives@.len(),
                persistent@.len() == self@.primitives.len(),
                pred == (|i: int|
                    search_match(
                        self@.primitives[i],
                        class,
                        material,
                        persistent@[i],
                        min_evidence,
                        capability,
                    )),
                forall|k: int| 0 <= k < r@.len() ==> #[trigger] r@[k] < i && pred(r@[k] as int),
                forall|k: int, l: int| 0 <= k < l < r@.len() ==> #[trigger] r@[k] < #[trigger] r@[l],
                forall|j: int| 0 <= j < i && pred(j) ==> #[trigger] r@.contains(j as usize),
            decreases self.primitives@.len() - i,
        {
            let p = &self.primitives[i];
            proof {
                assert(self@.primitives[i as int] == p@);
            }
            let class_ok = match class {
                Some(c) => class_matches(p.class, c),
                None => true,
            };
            let material_ok = match material {
                Some(m) => {
                    let a = chars_of(p.material_id.as_str());
                    let b = chars_of(m);
                    chars_eq(&a, &b)
                },
                None => true,
            };
            let cap_ok = match capability {
                Some(cap) => Self::passed_capability(p, cap),
                None => true,
            };
            let ok = class_ok && material_ok && persistent[i] && p.evidence_level >= min_evidence
                && cap_ok;
            proof {
                assert(ok == pred(i as int));
            }
            if ok {
                let ghost before = r@;
                r.push(i);
                proof {
                    assert forall|j: int| 0 <= j < i + 1 && pred(j) implies #[trigger] r@.contains(
                        j as usize,
                    ) by {
                        if j < i {
                            assert(before.contains(j as usize));
                            let k = choose|k: int| 0 <= k < before.len() && before[k] == j as usize;
                            assert(r@[k] == j as usize);
                        } else {
                            assert(r@[before.len() as int] == i);
                        }
                    }
                }
            } else {
                proof {
                    assert forall|j: int| 0 <= j < i + 1 && pred(j) implies #[trigger] r@.contains(
                        j as usize,
                    ) by {
                        assert(j < i);
                    }
                }
            }
            i = i + 1;
        }
        r
    }

    /// The `top_k` positions with the highest similarity keys, best first
    /// (ties in registry order). `similarity[i]` is the order key of the
    /// signature similarity of primitive `i` to the query.
    pub fn similar(&self, similarity: &Vec<u64>, top_k: usize) -> (r: Vec<usize>)
        requires
            similarity@.len() == self@.primitives.len(),
        ensures
            exists|order: Seq<usize>|
                is_ranking(similarity@, order) && r@ == order.take(
                    if top_k < order.len() { top_k as int } else { order.len() as int },
                ),
    {
        let mut order = rank_desc(similarity);
        let ghost full = order@;
        if top_k < order.len() {
            order.truncate(top_k);
        }
        proof {
            if top_k >= full.len() {
                assert(full.take(full.len() as int) =~= full);
            }
        }
        order
    }
}


// ---------------------------------------------------------------------
// Growth caps
// ---------------------------------------------------------------------

/// Same (class, material) bucket.
pub open spec fn same_bucket(a: PrimitiveView, b: PrimitiveView) -> bool {
    a.class == b.class && a.material_id == b.material_id
}

/// How many of the first `n` primitives share `i`'s bucket and rank
/// strictly above it (higher quality key, or equal key and earlier).
pub open spec fn bucket_rank(ps: Seq<PrimitiveView>, q: Seq<u64>, i: int, n: int) -> nat
    decreases n,
{
    if n <= 0 {
        0
    } else {
        bucket_rank(ps, q, i, n - 1) + (if same_bucket(ps[n - 1], ps[i]) && ranks_before(
            q,
            n - 1,
            i,
        ) { 1nat } else { 0nat })
    }
}

/// Primitive `i` falls outside the best `cap` of its bucket.
pub open spec fn over_bucket_cap(ps: Seq<PrimitiveView>, q: Seq<u64>, cap: nat, i: int) -> bool {
    bucket_rank(ps, q, i, ps.len() as int) >= cap
}

/// Eviction is by UUID: `i` stays unless some over-cap primitive shares
/// its UUID.
pub open spec fn survives_bucket_cap(ps: Seq<PrimitiveView>, q: Seq<u64>, cap: nat, i: int) -> bool {
    forall|j: int|
        0 <= j < ps.len() && #[trigger] over_bucket_cap(ps, q, cap, j) ==> ps[j].uuid != ps[i].uuid
}

/// The outcome of `prune`: `kept` are the bucket-cap survivors in registry
/// order; if more than `total_cap` remain, the best `total_cap` of them
/// (stable by quality key) are kept, best first.
pub open spec fn prune_outcome(
    ps: Seq<PrimitiveView>,
    q: Seq<u64>,
    bucket_cap: nat,
    total_cap: nat,
    kept: Seq<usize>,
    result: Seq<PrimitiveView>,
) -> bool {
    &&& selects(kept, ps.len() as int, |i: int| survives_bucket_cap(ps, q, bucket_cap, i))
    &&& if kept.len() <= total_cap {
        result == kept.map_values(|i: usize| ps[i as int])
    } else {
        exists|order: Seq<usize>|
            is_ranking(kept.map_values(|i: usize| q[i as int]), order) && result == order.take(
                total_cap as int,
            ).map_values(|o: usize| ps[kept[o as int] as int])
    }
}

impl Registry {
    /// Growth management. Two bounds: `bucket_cap` primitives per
    /// (class, material) bucket and `total_cap` overall. Eviction order is
    /// lowest quality first; `quality[i]` is the order key of primitive
    /// `i`'s quality (persistence·0.7 + noise tolerance·0.3). Lineage
    /// references may dangle afterwards — lineage is a genealogical
    /// record, not a foreign key. Returns the number evicted.
    pub fn prune(&mut self, bucket_cap: usize, total_cap: usize, quality: &Vec<u64>) -> (r: usize)
        requires
            quality@.len() == old(self)@.primitives.len(),
        ensures
            final(self)@.next_serial == old(self)@.next_serial,
            final(self)@.primitives.len() <= old(self)@.primitives.len(),
            r == old(self)@.primitives.len() - final(self)@.primitives.len(),
            final(self)@.primitives.len() <= total_cap,
            exists|kept: Seq<usize>|
                prune_outcome(
                    old(self)@.primitives,
                    quality@,
                    bucket_cap as nat,
                    total_cap as nat,
                    kept,
                    final(self)@.primitives,
                ),
    {
        let ghost ps = self@.primitives;
        let ghost q = quality@;
        let n = self.primitives.len();
        // Over-cap flags per bucket.
        let mut over: Vec<bool> = Vec::new();
        let mut i: usize = 0;
        while i < n
            invariant
                i <= n,
                n == ps.len(),
                ps == self@.primitives,
                q == quality@,
                q.len() == n,
                over@.len() == i,
                forall|k: int| 0 <= k < i ==> #[trigger] over@[k] == over_bucket_cap(ps, q, bucket_cap as nat, k),
            decreases n - i,
        {
            let mut count: usize = 0;
            let mut j: usize = 0;
            while j < n
                invariant
                    i < n,
                    j <= n,
                    n == ps.len(),
                    ps == self@.primitives,
                    q == quality@,
                    q.len() == n,
                    count == bucket_rank(ps, q, i as int, j as int),
                    count <= j,
                decreases n - j,
            {
                let pj = &self.primitives[j];
                let pi = &self.primitives[i];
                proof {
                    assert(ps[j as int] == pj@ && ps[i as int] == pi@);
                }
                if pj.class == pi.class && pj.material_id == pi.material_id && (quality[j] > quality[i]
                    || (quality[j] == quality[i] && j < i)) {
                    count = count + 1;
                }
                j = j + 1;
            }
            over.push(count >= bucket_cap);
            i = i + 1;
        }
        // Survivors: no over-cap primitive shares their UUID.
        let mut kept: Vec<usize> = Vec::new();
        let mut i: usize = 0;
        while i < n
            invariant
                i <= n,
                n == ps.len(),
                ps == self@.primitives,
                q == quality@,
                over@.len() == n,
                forall|k: int| 0 <= k < n ==> #[trigger] over@[k] == over_bucket_cap(ps, q, bucket_cap as nat, k),
                forall|k: int| 0 <= k < kept@.len() ==> #[trigger] kept@[k] < i && survives_bucket_cap(ps, q, bucket_cap as nat, kept@[k] as int),
                forall|k: int, l: int| 0 <= k < l < kept@.len() ==> #[trigger] kept@[k] < #[trigger] kept@[l],
                forall|j: int| 0 <= j < i && survives_bucket_cap(ps, q, bucket_cap as nat, j) ==> #[trigger] kept@.contains(j as usize),
            decreases n - i,
        {
            let mut survive = true;
            let mut j: usize = 0;
            while j < n
                invariant
                    i < n,
                    j <= n,
                    n == ps.len(),
                    ps == self@.primitives,
                    over@.len() == n,
                    forall|k: int| 0 <= k < n ==> #[trigger] over@[k] == over_bucket_cap(ps, q, bucket_cap as nat, k),
                    survive == forall|k: int| 0 <= k < j && #[trigger] over_bucket_cap(ps, q, bucket_cap as nat, k) ==> ps[k].uuid != ps[i as int].uuid,
                decreases n - j,
            {
                proof {
                    assert(ps[j as int] == self.primitives@[j as int]@);
                    assert(ps[i as int] == self.primitives@[i as int]@);
                }
                if over[j] && self.primitives[j].uuid == self.primitives[i].uuid {
                    survive = false;
                }
                proof {
                    assert(over@[j as int] == over_bucket_cap(ps, q, bucket_cap as nat, j as int));
                }
                j = j + 1;
            }
            if survive {
                let ghost before = kept@;
                kept.push(i);
                proof {
                    assert forall|j: int| 0 <= j < i + 1 && survives_bucket_cap(ps, q, bucket_cap as nat, j) implies #[trigger] kept@.contains(j as usize) by {
                        if j < i {
                            assert(before.contains(j as usize));
                            let k = choose|k: int| 0 <= k < before.len() && before[k] == j as usize;
                            assert(kept@[k] == j as usize);
                        } else {
                            assert(kept@[before.len() as int] == i);
                        }
                    }
                }
            } else {
                proof {
                    assert forall|j: int| 0 <= j < i + 1 && survives_bucket_cap(ps, q, bucket_cap as nat, j) implies #[trigger] kept@.contains(j as usize) by {
                        if j == i {
                            let k = choose|k: int| 0 <= k < n && #[trigger] over_bucket_cap(ps, q, bucket_cap as nat, k) && ps[k].uuid == ps[i as int].uuid;
                            assert(over_bucket_cap(ps, q, bucket_cap as nat, k) ==> ps[k].uuid != ps[j].uuid);
                        }
                    }
                }
            }
            i = i + 1;
        }
        let ghost kv = kept@;
        // Keys of the survivors, in survivor order.
        let mut keys: Vec<u64> = Vec::new();
        let mut t: usize = 0;
        while t < kept.len()
            invariant
                t <= kept@.len(),
                kv == kept@,
                q == quality@,
                n == ps.len(),
                q.len() == n,
                forall|k: int| 0 <= k < kept@.len() ==> #[trigger] kept@[k] < n,
                keys@ == kv.take(t as int).map_values(|i: usize| q[i as int]),
            decreases kept@.len() - t,
        {
            keys.push(quality[kept[t]]);
            t = t + 1;
            proof {
                assert(keys@ =~= kv.take(t as int).map_values(|i: usize| q[i as int]));
            }
        }
        proof {
            assert(kv.take(kv.len() as int) =~= kv);
        }
        let mut out: Vec<Primitive> = Vec::new();
        let ghost mut chosen: Seq<usize> = Seq::empty();
        if kept.len() > total_cap {
            let order = rank_desc(&keys);
            let mut t: usize = 0;
            while t < total_cap
                invariant
                    t <= total_cap,
                    total_cap < kv.len(),
                    kv == kept@,
                    n == ps.len(),
                    ps == self@.primitives,
                    forall|k: int| 0 <= k < kept@.len() ==> #[trigger] kept@[k] < n,
                    is_ranking(keys@, order@),
                    keys@.len() == kv.len(),
                    out@.len() == t,
                    forall|k: int| 0 <= k < t ==> #[trigger] out@[k]@ == ps[kv[order@[k] as int] as int],
                decreases total_cap - t,
            {
                let o = order[t];
                let idx = kept[o];
                out.push(self.primitives[idx].clone());
                t = t + 1;
            }
            proof {
                chosen = order@;
                assert(prims_view(out@) =~= order@.take(total_cap as int).map_values(|o: usize| ps[kv[o as int] as int]));
            }
        } else {
            let mut t: usize = 0;
            while t < kept.len()
                invariant
                    t <= kept@.len(),
                    kv == kept@,
                    n == ps.len(),
                    ps == self@.primitives,
                    forall|k: int| 0 <= k < kept@.len() ==> #[trigger] kept@[k] < n,
                    out@.len() == t,
                    forall|k: int| 0 <= k < t ==> #[trigger] out@[k]@ == ps[kv[k] as int],
                decreases kept@.len() - t,
            {
                let idx = kept[t];
                out.push(self.primitives[idx].clone());
                t = t + 1;
            }
            proof {
                assert(prims_view(out@) =~= kv.map_values(|i: usize| ps[i as int]));
            }
        }
        proof {
            // Distinct survivors: at most n of them.
            assert(kv.len() <= n) by {
                lemma_increasing_bounded(kv, n as int);
            }
        }
        let removed = n - out.len();
        self.primitives = out;
        proof {
            assert(keys@ =~= kv.map_values(|i: usize| q[i as int]));
            if kv.len() > total_cap {
                assert(is_ranking(kv.map_values(|i: usize| q[i as int]), chosen));
            }
            assert(prune_outcome(ps, q, bucket_cap as nat, total_cap as nat, kv, self@.primitives));
        }
        removed
    }
}

/// A strictly increasing sequence of values below `n` has at most `n`
/// elements.
pub proof fn lemma_increasing_bounded(s: Seq<usize>, n: int)
    requires
        0 <= n,
        forall|k: int| 0 <= k < s.len() ==> #[trigger] s[k] < n,
        forall|k: int, l: int| 0 <= k < l < s.len() ==> #[trigger] s[k] < #[trigger] s[l],
    ensures
        s.len() <= n,
    decreases s.len(),
{
    if s.len() > 0 {
        assert(s[s.len() - 1] < n);
        let t = s.drop_last();
        assert forall|k: int| 0 <= k < t.len() implies #[trigger] t[k] < s.last() by {
            assert(t[k] == s[k]);
        }
        assert forall|k: int, l: int| 0 <= k < l < t.len() implies #[trigger] t[k] < #[trigger] t[l] by {
            assert(t[k] == s[k] && t[l] == s[l]);
        }
        lemma_increasing_bounded(t, s.last() as int);
    }
}

/// The evidence level of a record written before the ladder existed:
/// Level 1 (Observed).
pub fn default_evidence_level() -> (l: u8)
    ensures
        l == 1,
{
    1
}

/// Default per class-and-material bucket cap.
pub const DEFAULT_BUCKET_CAP: usize = 150;

/// Default total primitive cap.
pub const DEFAULT_TOTAL_CAP: usize = 5000;

/// A configured cap, or its default when absent or not a `usize`.
pub open spec fn cap_or(value: Option<Seq<char>>, default: usize) -> usize {
    match value {
        Some(v) => match crate::text::parse_usize_spec(v) {
            Some(n) => n,
            None => default,
        },
        None => default,
    }
}

/// Growth caps `(bucket_cap, total_cap)` from their configured values
/// (`KANNAKA_CRYSTAL_BUCKET_CAP`, `KANNAKA_CRYSTAL_MAX_PRIMITIVES`).
pub fn caps_from(bucket: Option<&str>, total: Option<&str>) -> (r: (usize, usize))
    ensures
        r.0 == cap_or(crate::dream::opt_view(bucket), DEFAULT_BUCKET_CAP),
        r.1 == cap_or(crate::dream::opt_view(total), DEFAULT_TOTAL_CAP),
{
    let b = match bucket {
        Some(v) => match crate::text::parse_usize(v) {
            Some(n) => n,
            None => DEFAULT_BUCKET_CAP,
        },
        None => DEFAULT_BUCKET_CAP,
    };
    let t = match total {
        Some(v) => match crate::text::parse_usize(v) {
            Some(n) => n,
            None => DEFAULT_TOTAL_CAP,
        },
        None => DEFAULT_TOTAL_CAP,
    };
    (b, t)
}

/// A merged primitive's UUID is known afterwards, so announcing the same
/// primitive again is rejected.
pub proof fn lemma_merge_idempotent(ps: Seq<PrimitiveView>, merged: PrimitiveView)
    ensures
        uuid_known(ps.push(merged), merged.uuid),
{
    assert(ps.push(merged)[ps.len() as int] == merged);
}

// ---------------------------------------------------------------------
// The bucket cap holds after pruning
// ---------------------------------------------------------------------

proof fn lemma_rank_below(ps: Seq<PrimitiveView>, q: Seq<u64>, i: int, j: int, n: int)
    requires
        q.len() == ps.len(),
        0 <= i < ps.len(),
        0 <= j < ps.len(),
        0 <= n <= ps.len(),
        same_bucket(ps[i], ps[j]),
        ranks_before(q, i, j),
    ensures
        bucket_rank(ps, q, i, n) + (if i < n { 1int } else { 0int }) <= bucket_rank(ps, q, j, n),
    decreases n,
{
    if n > 0 {
        lemma_rank_below(ps, q, i, j, n - 1);
        let k = n - 1;
        if same_bucket(ps[k], ps[i]) && ranks_before(q, k, i) {
            assert(same_bucket(ps[k], ps[j]) && ranks_before(q, k, j));
        }
        if k == i {
            assert(same_bucket(ps[k], ps[j]) && ranks_before(q, k, j));
        }
    }
}

/// A survivor of the bucket cap ranks below `cap` in its bucket.
proof fn lemma_survivor_rank(ps: Seq<PrimitiveView>, q: Seq<u64>, cap: nat, i: int)
    requires
        0 <= i < ps.len(),
        survives_bucket_cap(ps, q, cap, i),
    ensures
        bucket_rank(ps, q, i, ps.len() as int) < cap,
{
    if over_bucket_cap(ps, q, cap, i) {
        assert(ps[i].uuid == ps[i].uuid);
    }
}

/// At most `cap` survivors of the bucket cap share a bucket.
pub proof fn lemma_bucket_survivors_bounded(
    ps: Seq<PrimitiveView>,
    q: Seq<u64>,
    cap: nat,
    p: PrimitiveView,
    s: Set<int>,
)
    requires
        q.len() == ps.len(),
        s.finite(),
        forall|i: int|
            #[trigger] s.contains(i) ==> 0 <= i < ps.len() && survives_bucket_cap(ps, q, cap, i)
                && same_bucket(ps[i], p),
    ensures
        s.len() <= cap,
{
    let n = ps.len() as int;
    let f = |i: int| bucket_rank(ps, q, i, n) as int;
    assert(vstd::relations::injective_on(f, s)) by {
        assert forall|i: int, j: int| s.contains(i) && s.contains(j) && #[trigger] f(i) == #[trigger] f(j)
            implies i == j by {
            if i != j {
                assert(same_bucket(ps[i], ps[j]));
                if ranks_before(q, i, j) {
                    lemma_rank_below(ps, q, i, j, n);
                } else {
                    lemma_rank_below(ps, q, j, i, n);
                }
            }
        }
    }
    vstd::set_lib::lemma_map_size(s, s.map(f), f);
    vstd::set_lib::lemma_int_range(0, cap as int);
    assert(s.map(f).subset_of(vstd::set_lib::set_int_range(0, cap as int))) by {
        assert forall|r: int| #[trigger] s.map(f).contains(r) implies vstd::set_lib::set_int_range(
            0,
            cap as int,
        ).contains(r) by {
            let i = choose|i: int| s.contains(i) && f(i) == r;
            lemma_survivor_rank(ps, q, cap, i);
        }
    }
    vstd::set_lib::lemma_len_subset(s.map(f), vstd::set_lib::set_int_range(0, cap as int));
}

/// Positions of `result` whose primitive shares `p`'s bucket.
pub open spec fn bucket_positions(result: Seq<PrimitiveView>, p: PrimitiveView) -> Set<int> {
    Set::new(|k: int| 0 <= k < result.len() && same_bucket(result[k], p))
}

proof fn lemma_positions_bounded(
    ps: Seq<PrimitiveView>,
    q: Seq<u64>,
    cap: nat,
    sel: Seq<usize>,
    result: Seq<PrimitiveView>,
    p: PrimitiveView,
)
    requires
        q.len() == ps.len(),
        result.len() == sel.len(),
        forall|k: int| 0 <= k < sel.len() ==> #[trigger] sel[k] < ps.len() && result[k] == ps[sel[k] as int]
            && survives_bucket_cap(ps, q, cap, sel[k] as int),
        forall|k: int, l: int| 0 <= k < l < sel.len() ==> sel[k] != sel[l],
    ensures
        bucket_positions(result, p).finite(),
        bucket_positions(result, p).len() <= cap,
{
    let pos = bucket_positions(result, p);
    vstd::set_lib::lemma_int_range(0, result.len() as int);
    assert(pos.subset_of(vstd::set_lib::set_int_range(0, result.len() as int)));
    vstd::set_lib::lemma_len_subset(pos, vstd::set_lib::set_int_range(0, result.len() as int));
    let g = |k: int| sel[k] as int;
    assert(vstd::relations::injective_on(g, pos)) by {
        assert forall|k: int, l: int| pos.contains(k) && pos.contains(l) && #[trigger] g(k) == #[trigger] g(l)
            implies k == l by {
            if k < l {
                assert(sel[k] != sel[l]);
            } else if l < k {
                assert(sel[l] != sel[k]);
            }
        }
    }
    vstd::set_lib::lemma_map_size(pos, pos.map(g), g);
    assert forall|i: int| #[trigger] pos.map(g).contains(i) implies 0 <= i < ps.len() && survives_bucket_cap(
        ps,
        q,
        cap,
        i,
    ) && same_bucket(ps[i], p) by {
        let k = choose|k: int| pos.contains(k) && g(k) == i;
        assert(result[k] == ps[sel[k] as int]);
    }
    lemma_bucket_survivors_bounded(ps, q, cap, p, pos.map(g));
}

/// After pruning, no (class, material) bucket holds more than
/// `bucket_cap` primitives.
pub proof fn lemma_prune_bucket_cap(
    ps: Seq<PrimitiveView>,
    q: Seq<u64>,
    bucket_cap: nat,
    total_cap: nat,
    kept: Seq<usize>,
    result: Seq<PrimitiveView>,
    p: PrimitiveView,
)
    requires
        q.len() == ps.len(),
        prune_outcome(ps, q, bucket_cap, total_cap, kept, result),
    ensures
        bucket_positions(result, p).finite(),
        bucket_positions(result, p).len() <= bucket_cap,
{
    let keys = kept.map_values(|i: usize| q[i as int]);
    if kept.len() <= total_cap {
        assert forall|k: int| 0 <= k < kept.len() implies #[trigger] kept[k] < ps.len() && result[k]
            == ps[kept[k] as int] && survives_bucket_cap(ps, q, bucket_cap, kept[k] as int) by {}
        assert forall|k: int, l: int| 0 <= k < l < kept.len() implies kept[k] != kept[l] by {}
        lemma_positions_bounded(ps, q, bucket_cap, kept, result, p);
    } else {
        let order = choose|order: Seq<usize>|
            is_ranking(keys, order) && result == order.take(total_cap as int).map_values(
                |o: usize| ps[kept[o as int] as int],
            );
        let t = order.take(total_cap as int);
        let sel = t.map_values(|o: usize| kept[o as int]);
        assert forall|k: int| 0 <= k < sel.len() implies #[trigger] sel[k] < ps.len() && result[k]
            == ps[sel[k] as int] && survives_bucket_cap(ps, q, bucket_cap, sel[k] as int) by {
            assert(t[k] == order[k]);
            assert(order[k] < keys.len());
        }
        assert forall|k: int, l: int| 0 <= k < l < sel.len() implies sel[k] != sel[l] by {
            assert(t[k] == order[k] && t[l] == order[l]);
            assert(ranks_before(keys, order[k] as int, order[l] as int));
            assert(order[k] != order[l]);
            if order[k] < order[l] {
                assert(kept[order[k] as int] < kept[order[l] as int]);
            } else {
                assert(kept[order[l] as int] < kept[order[k] as int]);
            }
        }
        lemma_positions_bounded(ps, q, bucket_cap, sel, result, p);
    }
}


// ---------------------------------------------------------------------
// Eviction order and caps already met
// ---------------------------------------------------------------------

/// Within one bucket the bucket cap evicts lowest quality first: a
/// primitive over the cap never has a higher quality key than one within
/// it.
pub proof fn lemma_over_cap_ranks_lower(ps: Seq<PrimitiveView>, q: Seq<u64>, cap: nat, i: int, j: int)
    requires
        q.len() == ps.len(),
        0 <= i < ps.len(),
        0 <= j < ps.len(),
        same_bucket(ps[i], ps[j]),
        over_bucket_cap(ps, q, cap, i),
        !over_bucket_cap(ps, q, cap, j),
    ensures
        q[i] <= q[j],
{
    if ranks_before(q, i, j) {
        lemma_rank_below(ps, q, i, j, ps.len() as int);
    }
}

/// With distinct UUIDs, a primitive survives the bucket cap exactly when
/// it is within the best `cap` of its bucket.
pub proof fn lemma_survives_iff_within_cap(ps: Seq<PrimitiveView>, q: Seq<u64>, cap: nat, i: int)
    requires
        0 <= i < ps.len(),
        forall|a: int, b: int| 0 <= a < b < ps.len() ==> #[trigger] ps[a].uuid != #[trigger] ps[b].uuid,
    ensures
        survives_bucket_cap(ps, q, cap, i) <==> !over_bucket_cap(ps, q, cap, i),
{
    if !over_bucket_cap(ps, q, cap, i) {
        assert forall|j: int| 0 <= j < ps.len() && #[trigger] over_bucket_cap(ps, q, cap, j) implies ps[j].uuid
            != ps[i].uuid by {
            if j < i {
                assert(ps[j].uuid != ps[i].uuid);
            } else if i < j {
                assert(ps[i].uuid != ps[j].uuid);
            }
        }
    } else {
        assert(ps[i].uuid == ps[i].uuid);
    }
}

/// The bucket-cap eviction order as a whole: with distinct UUIDs, an
/// evicted primitive has no higher quality key than any survivor of its
/// bucket.
pub proof fn lemma_bucket_evicts_lowest_first(
    ps: Seq<PrimitiveView>,
    q: Seq<u64>,
    cap: nat,
    e: int,
    k: int,
)
    requires
        q.len() == ps.len(),
        forall|a: int, b: int| 0 <= a < b < ps.len() ==> #[trigger] ps[a].uuid != #[trigger] ps[b].uuid,
        0 <= e < ps.len(),
        0 <= k < ps.len(),
        same_bucket(ps[e], ps[k]),
        !survives_bucket_cap(ps, q, cap, e),
        survives_bucket_cap(ps, q, cap, k),
    ensures
        q[e] <= q[k],
{
    lemma_survives_iff_within_cap(ps, q, cap, e);
    lemma_survives_iff_within_cap(ps, q, cap, k);
    lemma_over_cap_ranks_lower(ps, q, cap, e, k);
}

/// The primitives among the first `n` that share `i`'s bucket and rank
/// strictly above it.
pub open spec fn rank_set(ps: Seq<PrimitiveView>, q: Seq<u64>, i: int, n: int) -> Set<int> {
    Set::new(|k: int| 0 <= k < n && same_bucket(ps[k], ps[i]) && ranks_before(q, k, i))
}

proof fn lemma_rank_count(ps: Seq<PrimitiveView>, q: Seq<u64>, i: int, n: int)
    requires
        0 <= n,
    ensures
        rank_set(ps, q, i, n).finite(),
        rank_set(ps, q, i, n).len() == bucket_rank(ps, q, i, n),
    decreases n,
{
    if n == 0 {
        assert(rank_set(ps, q, i, n) =~= Set::<int>::empty());
    } else {
        lemma_rank_count(ps, q, i, n - 1);
        let prev = rank_set(ps, q, i, n - 1);
        assert(!prev.contains(n - 1));
        if same_bucket(ps[n - 1], ps[i]) && ranks_before(q, n - 1, i) {
            assert(rank_set(ps, q, i, n) =~= prev.insert(n - 1));
        } else {
            assert(rank_set(ps, q, i, n) =~= prev);
        }
    }
}

/// A bucket within the cap leaves every member within the cap.
proof fn lemma_small_bucket_within_cap(ps: Seq<PrimitiveView>, q: Seq<u64>, cap: nat, i: int)
    requires
        q.len() == ps.len(),
        0 <= i < ps.len(),
        bucket_positions(ps, ps[i]).len() <= cap,
    ensures
        !over_bucket_cap(ps, q, cap, i),
{
    let n = ps.len() as int;
    let pos = bucket_positions(ps, ps[i]);
    vstd::set_lib::lemma_int_range(0, n);
    assert(pos.subset_of(vstd::set_lib::set_int_range(0, n)));
    vstd::set_lib::lemma_len_subset(pos, vstd::set_lib::set_int_range(0, n));
    assert(pos.contains(i));
    lemma_rank_count(ps, q, i, n);
    assert(rank_set(ps, q, i, n).subset_of(pos.remove(i)));
    vstd::set_lib::lemma_len_subset(rank_set(ps, q, i, n), pos.remove(i));
}

/// A strictly increasing selection of positions below `n` that contains
/// every one of them is `0, 1, ..., n - 1`.
proof fn lemma_full_selection_at(r: Seq<usize>, n: int, k: int)
    requires
        forall|a: int| 0 <= a < r.len() ==> #[trigger] r[a] < n,
        forall|a: int, b: int| 0 <= a < b < r.len() ==> #[trigger] r[a] < #[trigger] r[b],
        forall|i: int| 0 <= i < n ==> #[trigger] r.contains(i as usize),
        0 <= k < r.len(),
    ensures
        r[k] == k,
    decreases k,
{
    if k > 0 {
        lemma_full_selection_at(r, n, k - 1);
        assert(r[k - 1] < r[k]);
    }
    if r[k] > k {
        assert(r.contains(k as usize));
        let m = choose|m: int| 0 <= m < r.len() && r[m] == k as usize;
        if m < k {
            lemma_full_selection_at(r, n, m);
        } else if m > k {
            assert(r[k] < r[m]);
        }
    }
}

proof fn lemma_full_selection(r: Seq<usize>, n: int)
    requires
        0 <= n <= usize::MAX + 1,
        forall|a: int| 0 <= a < r.len() ==> #[trigger] r[a] < n,
        forall|a: int, b: int| 0 <= a < b < r.len() ==> #[trigger] r[a] < #[trigger] r[b],
        forall|i: int| 0 <= i < n ==> #[trigger] r.contains(i as usize),
    ensures
        r.len() == n,
        forall|k: int| 0 <= k < r.len() ==> #[trigger] r[k] == k,
{
    assert forall|k: int| 0 <= k < r.len() implies #[trigger] r[k] == k by {
        lemma_full_selection_at(r, n, k);
    }
    if r.len() > 0 {
        assert(r[r.len() - 1] < n);
    }
    if n > 0 {
        assert(r.contains((n - 1) as usize));
        let m = choose|m: int| 0 <= m < r.len() && r[m] == (n - 1) as usize;
        assert(r[m] == m);
    }
}

/// Pruning a registry that already meets both caps changes nothing, order
/// included (so `prune` evicts none, and pruning twice is pruning once).
/// (`ps.len() <= usize::MAX`: the registry is held in a `Vec`.)
pub proof fn lemma_prune_noop_when_caps_met(
    ps: Seq<PrimitiveView>,
    q: Seq<u64>,
    bucket_cap: nat,
    total_cap: nat,
    kept: Seq<usize>,
    result: Seq<PrimitiveView>,
)
    requires
        q.len() == ps.len(),
        ps.len() <= usize::MAX,
        ps.len() <= total_cap,
        forall|i: int| 0 <= i < ps.len() ==> (#[trigger] bucket_positions(ps, ps[i])).len() <= bucket_cap,
        prune_outcome(ps, q, bucket_cap, total_cap, kept, result),
    ensures
        result == ps,
{
    let n = ps.len() as int;
    assert forall|i: int| 0 <= i < n implies survives_bucket_cap(ps, q, bucket_cap, i) by {
        assert forall|j: int| 0 <= j < n && #[trigger] over_bucket_cap(ps, q, bucket_cap, j) implies ps[j].uuid
            != ps[i].uuid by {
            assert(bucket_positions(ps, ps[j]).len() <= bucket_cap);
            lemma_small_bucket_within_cap(ps, q, bucket_cap, j);
        }
    }
    assert forall|i: int| 0 <= i < n implies #[trigger] kept.contains(i as usize) by {
        assert(survives_bucket_cap(ps, q, bucket_cap, i));
    }
    lemma_full_selection(kept, n);
    assert(result =~= ps);
}


/// A ranking lists every position: `order` names each index below its
/// length exactly once.
proof fn lemma_ranking_covers(keys: Seq<u64>, order: Seq<usize>, o: int)
    requires
        is_ranking(keys, order),
        keys.len() <= usize::MAX + 1,
        0 <= o < keys.len(),
    ensures
        order.contains(o as usize),
{
    let n = keys.len() as int;
    assert(order.no_duplicates()) by {
        assert forall|k: int, l: int| 0 <= k < order.len() && 0 <= l < order.len() && k != l implies order[k]
            != order[l] by {
            if k < l {
                assert(ranks_before(keys, order[k] as int, order[l] as int));
            } else {
                assert(ranks_before(keys, order[l] as int, order[k] as int));
            }
        }
    }
    order.unique_seq_to_set();
    let all = Seq::new(n as nat, |k: int| k as usize);
    assert(all.no_duplicates());
    all.unique_seq_to_set();
    assert(order.to_set().subset_of(all.to_set())) by {
        assert forall|u: usize| order.to_set().contains(u) implies all.to_set().contains(u) by {
            let k = choose|k: int| 0 <= k < order.len() && order[k] == u;
            assert(all[u as int] == u);
        }
    }
    vstd::set_lib::lemma_subset_equality(order.to_set(), all.to_set());
    assert(all[o] == o as usize);
    assert(all.to_set().contains(o as usize));
}

/// The total cap evicts lowest quality first: the kept primitives are the
/// bucket-cap survivors at positions `sel`, and every survivor left out
/// has no higher quality key than any kept one.
pub proof fn lemma_total_cap_evicts_lowest(
    ps: Seq<PrimitiveView>,
    q: Seq<u64>,
    bucket_cap: nat,
    total_cap: nat,
    kept: Seq<usize>,
    result: Seq<PrimitiveView>,
)
    requires
        q.len() == ps.len(),
        ps.len() <= usize::MAX,
        prune_outcome(ps, q, bucket_cap, total_cap, kept, result),
    ensures
        exists|sel: Seq<usize>|
            {
                &&& sel.len() == result.len()
                &&& forall|k: int|
                    0 <= k < sel.len() ==> #[trigger] sel[k] < ps.len() && result[k] == ps[sel[k] as int]
                        && survives_bucket_cap(ps, q, bucket_cap, sel[k] as int)
                &&& forall|k: int, l: int| 0 <= k < l < sel.len() ==> sel[k] != sel[l]
                &&& forall|i: int, k: int|
                    0 <= i < ps.len() && #[trigger] survives_bucket_cap(ps, q, bucket_cap, i) && !sel.contains(
                        i as usize,
                    ) && 0 <= k < sel.len() ==> q[i] <= q[#[trigger] sel[k] as int]
            },
{
    let keys = kept.map_values(|i: usize| q[i as int]);
    if kept.len() <= total_cap {
        let sel = kept;
        assert forall|i: int, k: int|
            0 <= i < ps.len() && #[trigger] survives_bucket_cap(ps, q, bucket_cap, i) && !sel.contains(i as usize)
                && 0 <= k < sel.len() implies q[i] <= q[#[trigger] sel[k] as int] by {
            assert(kept.contains(i as usize));
        }
        assert forall|k: int, l: int| 0 <= k < l < sel.len() implies sel[k] != sel[l] by {
            assert(kept[k] < kept[l]);
        }
    } else {
        let order = choose|order: Seq<usize>|
            is_ranking(keys, order) && result == order.take(total_cap as int).map_values(
                |o: usize| ps[kept[o as int] as int],
            );
        let t = order.take(total_cap as int);
        let sel = t.map_values(|o: usize| kept[o as int]);
        assert forall|k: int| 0 <= k < sel.len() implies #[trigger] sel[k] < ps.len() && result[k]
            == ps[sel[k] as int] && survives_bucket_cap(ps, q, bucket_cap, sel[k] as int) by {
            assert(t[k] == order[k]);
            assert(order[k] < keys.len());
        }
        assert forall|k: int, l: int| 0 <= k < l < sel.len() implies sel[k] != sel[l] by {
            assert(t[k] == order[k] && t[l] == order[l]);
            assert(ranks_before(keys, order[k] as int, order[l] as int));
            if order[k] < order[l] {
                assert(kept[order[k] as int] < kept[order[l] as int]);
            } else {
                assert(kept[order[l] as int] < kept[order[k] as int]);
            }
        }
        assert(kept.len() <= ps.len()) by {
            lemma_increasing_bounded(kept, ps.len() as int);
        }
        assert forall|i: int, k: int|
            0 <= i < ps.len() && #[trigger] survives_bucket_cap(ps, q, bucket_cap, i) && !sel.contains(i as usize)
                && 0 <= k < sel.len() implies q[i] <= q[#[trigger] sel[k] as int] by {
            assert(kept.contains(i as usize));
            let o = choose|o: int| 0 <= o < kept.len() && kept[o] == i as usize;
            lemma_ranking_covers(keys, order, o);
            let b = choose|b: int| 0 <= b < order.len() && order[b] == o as usize;
            assert(t[k] == order[k]);
            if b < total_cap {
                assert(t[b] == order[b]);
                assert(sel[b] == i as usize);
            } else {
                assert(ranks_before(keys, order[k] as int, order[b] as int));
                assert(keys[order[k] as int] == q[kept[order[k] as int] as int]);
                assert(keys[o] == q[i]);
            }
        }
        assert(sel.len() == result.len());
    }
}


/// The capability filter counts only PASSED tests: a primitive matches a
/// search for capability `cap` only if one of its capability records both
/// passed and carries that name (under `normalize_name`); conversely such
/// a record satisfies the capability filter, whatever the failed records
/// beside it. In particular a primitive none of whose records passed never
/// matches a capability search.
pub proof fn lemma_capability_filter_needs_pass(
    p: PrimitiveView,
    class: Option<&str>,
    material: Option<&str>,
    persistent: bool,
    min_evidence: u8,
    cap: &str,
    k: int,
)
    ensures
        search_match(p, class, material, persistent, min_evidence, Some(cap)) ==> exists|j: int|
            0 <= j < p.behavioral_capabilities.len() && (#[trigger] p.behavioral_capabilities[j]).passed
                && normalize_name(p.behavioral_capabilities[j].name) == normalize_name(cap@),
        (forall|j: int|
            0 <= j < p.behavioral_capabilities.len() ==> !(#[trigger] p.behavioral_capabilities[j]).passed)
            ==> !search_match(p, class, material, persistent, min_evidence, Some(cap)),
        0 <= k < p.behavioral_capabilities.len() && p.behavioral_capabilities[k].passed
            && normalize_name(p.behavioral_capabilities[k].name) == normalize_name(cap@)
            ==> (search_match(p, class, material, persistent, min_evidence, Some(cap))
            == search_match(p, class, material, persistent, min_evidence, None)),
{
}

} // verus!
