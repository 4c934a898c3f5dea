//! Evidence promotion (the ladder): a primitive climbs only through a
//! recorded procedure, and failed procedures are recorded too.
//!
//! - reproduction → Level 2 Replicated; a FAILED reproduction demotes to
//!   Level 1 — replication failures matter.
//! - perturbation ensemble → Level 3 Perturbation-Stable; the ensemble
//!   survival rate replaces the registration-time noise tolerance either way.
//! - cross-resolution → Level 4 Resolution-Stable.
//!
//! The re-runs themselves are simulation work; what they conclude arrives
//! here as a success flag plus the record to append.

use vstd::prelude::*;
use crate::registry::{Registry, RegistryView, Primitive, PrimitiveView, EvidenceRecord, records_view, id_matches};
use crate::ids::{Timestamp, utc_now};
use crate::text::{chars_of, push_str, string_of};

verus! {

pub const REPRODUCE_PROCEDURE: &'static str = "reproduce-v2";

pub const PERTURBATION_PROCEDURE: &'static str = "perturbation-ensemble-v2";

pub const RESOLUTION_PROCEDURE: &'static str = "cross-resolution-v2";

/// `unknown primitive: <id>`.
pub open spec fn unknown_primitive_message(id: Seq<char>) -> Seq<char> {
    "unknown primitive: "@ + id
}

pub fn unknown_primitive(id: &str) -> (r: String)
    ensures
        r@ == unknown_primitive_message(id@),
{
    let mut m = chars_of("unknown primitive: ");
    push_str(&mut m, id);
    string_of(&m)
}

pub open spec fn max_u8(a: u8, b: u8) -> u8 {
    if a >= b { a } else { b }
}

pub open spec fn min_u8(a: u8, b: u8) -> u8 {
    if a <= b { a } else { b }
}

/// The level after a procedure: raised to `achieved` if given, then
/// capped at `demote_to` if given.
pub open spec fn level_after(level: u8, achieved: Option<u8>, demote_to: Option<u8>) -> u8 {
    let raised = match achieved {
        Some(l) => max_u8(level, l),
        None => level,
    };
    match demote_to {
        Some(l) => min_u8(raised, l),
        None => raised,
    }
}

/// What `apply` does to the primitive it finds.
pub open spec fn applied(
    p: PrimitiveView,
    record: crate::registry::EvidenceView,
    achieved: Option<u8>,
    demote_to: Option<u8>,
    noise_tolerance: Option<u64>,
) -> PrimitiveView {
    PrimitiveView {
        evidence_level: level_after(p.evidence_level, achieved, demote_to),
        noise_tolerance: match noise_tolerance {
            Some(t) => t,
            None => p.noise_tolerance,
        },
        evidence_records: p.evidence_records.push(record),
        ..p
    }
}

/// Whether `id` names no registered primitive (neither its serial id nor
/// its UUID text).
pub open spec fn unregistered(ps: Seq<PrimitiveView>, id: Seq<char>) -> bool {
    forall|j: int| 0 <= j < ps.len() ==> !id_matches(ps[j], id)
}

/// The outcome of applying evidence to the registry: either the first
/// primitive matching `id` is updated by `applied` (and nothing else
/// changes), or no primitive matches `id`, the registry is untouched and
/// the error is `unknown primitive: <id>`.
pub open spec fn evidence_outcome(
    before: RegistryView,
    after: RegistryView,
    id: Seq<char>,
    achieved: Option<u8>,
    demote_to: Option<u8>,
    noise_tolerance: Option<u64>,
    r: Result<EvidenceRecord, String>,
) -> bool {
    match r {
        Ok(rec) => exists|i: int|
            0 <= i < before.primitives.len() && id_matches(before.primitives[i], id) && (forall|
                j: int,
            | 0 <= j < i ==> !id_matches(before.primitives[j], id)) && after.primitives
                == before.primitives.update(
                i,
                applied(before.primitives[i], rec@, achieved, demote_to, noise_tolerance),
            ) && after.next_serial == before.next_serial,
        Err(e) => e@ == unknown_primitive_message(id) && after == before && unregistered(
            before.primitives,
            id,
        ),
    }
}

/// The record a ladder procedure stores: its level and procedure name are
/// fixed by the procedure, its metrics and node are the caller's.
pub open spec fn procedure_record(
    r: Result<EvidenceRecord, String>,
    level: u8,
    procedure: Seq<char>,
    metrics: Seq<char>,
    node: Seq<char>,
) -> bool {
    match r {
        Ok(rec) => rec.level == level && rec.procedure@ == procedure && rec.metrics@ == metrics
            && rec.node@ == node && rec.at.nanos < 2_000_000_000,
        Err(_) => true,
    }
}

/// A new evidence record stamped with the current time (the clock's
/// value itself is not a function of the arguments).
pub fn evidence_record(level: u8, procedure: &str, metrics: String, node: String) -> (r:
    EvidenceRecord)
    ensures
        r.level == level,
        r.procedure@ == procedure@,
        r.metrics@ == metrics@,
        r.node@ == node@,
        r.at.nanos < 2_000_000_000,
{
    EvidenceRecord {
        level,
        procedure: String::from_str(procedure),
        metrics,
        at: utc_now(),
        node,
    }
}

/// Append `record` to the primitive named `id`, raising its level to
/// `achieved` and/or capping it at `demote_to`, and replacing its noise
/// tolerance (`f64` bits) if one is given. Returns a copy of the record,
/// or `unknown primitive: <id>` when nothing is registered under `id`.
pub fn apply(
    registry: &mut Registry,
    id: &str,
    record: EvidenceRecord,
    achieved: Option<u8>,
    demote_to: Option<u8>,
    noise_tolerance: Option<u64>,
) -> (r: Result<EvidenceRecord, String>)
    ensures
        evidence_outcome(old(registry)@, final(registry)@, id@, achieved, demote_to, noise_tolerance, r),
        r is Ok ==> r->Ok_0@ == record@,
{
    let idx = match registry.find_index(id) {
        Some(i) => i,
        None => {
            return Err(unknown_primitive(id));
        },
    };
    let mut p = registry.primitives[idx].clone();
    let ghost pv = p@;
    if let Some(level) = achieved {
        if level > p.evidence_level {
            p.evidence_level = level;
        }
    }
    if let Some(level) = demote_to {
        if level < p.evidence_level {
            p.evidence_level = level;
        }
    }
    if let Some(tol) = noise_tolerance {
        p.noise_tolerance = tol;
    }
    let out = record.clone();
    let ghost rv = record@;
    let ghost before_records = records_view(p.evidence_records@);
    p.evidence_records.push(record);
    proof {
        assert(records_view(p.evidence_records@) =~= before_records.push(rv));
    }
    let ghost newv = p@;
    registry.primitives.set(idx, p);
    proof {
        assert(newv == applied(pv, rv, achieved, demote_to, noise_tolerance));
        assert(registry@.primitives =~= old(registry)@.primitives.update(idx as int, newv));
    }
    Ok(out)
}

/// Level 2: an exact-protocol reproduction, recorded as a Level 2
/// `reproduce-v2` record with the given metrics and node. Success promotes
/// to at least Level 2; failure demotes to at most Level 1.
pub fn record_reproduction(
    registry: &mut Registry,
    id: &str,
    metrics: String,
    node: String,
    success: bool,
) -> (r: Result<EvidenceRecord, String>)
    ensures
        procedure_record(r, 2, REPRODUCE_PROCEDURE@, metrics@, node@),
        evidence_outcome(
            old(registry)@,
            final(registry)@,
            id@,
            if success { Some(2u8) } else { None },
            if success { None } else { Some(1u8) },
            None,
            r,
        ),
{
    let record = evidence_record(2, REPRODUCE_PROCEDURE, metrics, node);
    if success {
        apply(registry, id, record, Some(2), None, None)
    } else {
        apply(registry, id, record, None, Some(1), None)
    }
}

/// Level 3: a perturbation ensemble, recorded as a Level 3
/// `perturbation-ensemble-v2` record. Success promotes to at least
/// Level 3; the ensemble survival rate (`f64` bits) becomes the noise
/// tolerance whether or not it succeeded.
pub fn record_perturbation(
    registry: &mut Registry,
    id: &str,
    metrics: String,
    node: String,
    success: bool,
    survival: u64,
) -> (r: Result<EvidenceRecord, String>)
    ensures
        procedure_record(r, 3, PERTURBATION_PROCEDURE@, metrics@, node@),
        evidence_outcome(
            old(registry)@,
            final(registry)@,
            id@,
            if success { Some(3u8) } else { None },
            None,
            Some(survival),
            r,
        ),
{
    let record = evidence_record(3, PERTURBATION_PROCEDURE, metrics, node);
    apply(registry, id, record, if success { Some(3) } else { None }, None, Some(survival))
}

/// Level 4: cross-resolution stability, recorded as a Level 4
/// `cross-resolution-v2` record. Success promotes to at least Level 4;
/// failure leaves the level alone.
pub fn record_cross_resolution(
    registry: &mut Registry,
    id: &str,
    metrics: String,
    node: String,
    success: bool,
) -> (r: Result<EvidenceRecord, String>)
    ensures
        procedure_record(r, 4, RESOLUTION_PROCEDURE@, metrics@, node@),
        evidence_outcome(
            old(registry)@,
            final(registry)@,
            id@,
            if success { Some(4u8) } else { None },
            None,
            None,
            r,
        ),
{
    let record = evidence_record(4, RESOLUTION_PROCEDURE, metrics, node);
    apply(registry, id, record, if success { Some(4) } else { None }, None, None)
}

/// `<id> has no experiment manifest (...) — it cannot be promoted; ...`.
pub open spec fn no_manifest_message(prim_id: Seq<char>) -> Seq<char> {
    prim_id + " has no experiment manifest (registered before ADR-0004 Phase 1) — it cannot be promoted; regenerate it through a manifested run"@
}

/// The experiment a ladder procedure re-runs: a primitive registered
/// without an experiment manifest cannot be promoted.
pub fn manifest_id(experiment_id: Option<u128>, prim_id: &str) -> (r: Result<u128, String>)
    ensures
        match experiment_id {
            Some(u) => r is Ok && r->Ok_0 == u,
            None => r is Err && r->Err_0@ == no_manifest_message(prim_id@),
        },
{
    match experiment_id {
        Some(u) => Ok(u),
        None => {
            let mut m = chars_of(prim_id);
            push_str(
                &mut m,
                " has no experiment manifest (registered before ADR-0004 Phase 1) — it cannot be promoted; regenerate it through a manifested run",
            );
            Err(string_of(&m))
        },
    }
}

/// A failed reproduction never leaves a primitive above Level 1, and a
/// successful one never lowers it.
pub proof fn lemma_reproduction_levels(level: u8)
    ensures
        level_after(level, None, Some(1)) <= 1,
        level_after(level, Some(2), None) >= level,
        level_after(level, Some(2), None) >= 2,
{
}

/// Promotions only raise: a successful procedure at level `l` leaves the
/// primitive at `max(level, l)`.
pub proof fn lemma_promotion_monotone(level: u8, l: u8)
    ensures
        level_after(level, Some(l), None) == max_u8(level, l),
        level_after(level, None, None) == level,
{
}

} // verus!
