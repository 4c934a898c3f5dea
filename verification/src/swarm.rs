//! Swarm bookkeeping: node names, event subjects, and the explorer's
//! self-scheduling step. The NATS connection lives in the application.

use vstd::prelude::*;
use crate::text::{str_eq, chars_of, push_chars, string_of, copy_range};
use crate::ids::{uuid_seq, uuid_text, new_uuid};

verus! {

pub const SUBJECT_EVENTS: &'static str = "kannaka.crystal.events";

pub const SUBJECT_DISCOVERED: &'static str = "kannaka.crystal.primitive.discovered";

pub const SUBJECT_EXPLORE: &'static str = "kannaka.crystal.explore.request";

/// The event kind that is also announced on the discovery subject.
pub const DISCOVERED_KIND: &'static str = "primitive.discovered";

/// Subjects an event of `kind` is published on: always the event
/// stream, and discoveries also on the discovery subject.
pub open spec fn subjects_spec(kind: Seq<char>) -> Seq<Seq<char>> {
    if kind == DISCOVERED_KIND@ {
        seq![SUBJECT_EVENTS@, SUBJECT_DISCOVERED@]
    } else {
        seq![SUBJECT_EVENTS@]
    }
}

pub fn subjects_for(kind: &str) -> (r: Vec<&'static str>)
    ensures
        r@.map_values(|s: &'static str| s@) == subjects_spec(kind@),
{
    let mut r: Vec<&'static str> = Vec::new();
    r.push(SUBJECT_EVENTS);
    if str_eq(kind, DISCOVERED_KIND) {
        r.push(SUBJECT_DISCOVERED);
    }
    proof {
        assert(r@.map_values(|s: &'static str| s@) =~= subjects_spec(kind@));
    }
    r
}

/// `crystal-` and the first eight characters of a UUID's text form.
pub open spec fn node_label_spec(u: u128) -> Seq<char> {
    "crystal-"@ + uuid_seq(u).take(8)
}

pub fn node_label(u: u128) -> (r: String)
    ensures
        r@ == node_label_spec(u),
{
    let t = uuid_text(u);
    let cs = chars_of(t.as_str());
    let head = copy_range(&cs, 0, 8);
    let mut m = chars_of("crystal-");
    push_chars(&mut m, &head);
    string_of(&m)
}

/// This node's name: the configured one, else a fresh random label.
pub fn node_name(configured: Option<String>) -> (r: String)
    ensures
        match configured {
            Some(s) => r@ == s@,
            None => exists|u: u128| r@ == node_label_spec(u),
        },
{
    match configured {
        Some(s) => s,
        None => {
            let u = new_uuid();
            node_label(u)
        },
    }
}

/// One self-scheduled explore round: the seed advances by one (wrapping),
/// the round counter by one, and the material rotates.
pub open spec fn next_round_spec(seed: u64, round: usize, materials: nat) -> (u64, usize, nat) {
    (
        if seed == u64::MAX { 0 } else { (seed + 1) as u64 },
        (round + 1) as usize,
        ((round + 1) as nat) % materials,
    )
}

/// The next self-scheduled round: new seed, new round counter, and the
/// index of the material to search.
pub fn next_round(seed: u64, round: usize, materials: usize) -> (r: (u64, usize, usize))
    requires
        materials > 0,
        round < usize::MAX,
    ensures
        (r.0, r.1, r.2 as nat) == next_round_spec(seed, round, materials as nat),
{
    let s = seed.wrapping_add(1);
    let k = round + 1;
    (s, k, k % materials)
}

} // verus!
