//! Gallery artifacts: how a primitive is titled and its lineage told.

use vstd::prelude::*;
use crate::text::{chars_of, push_str, string_of, join, join_spec, trim, trim_seq};
use crate::registry::{Primitive, PrimitiveView, strings_view};
use crate::primitives::class_name;

verus! {

/// `Crystal Primitive <id> — <class>`.
pub open spec fn title_spec(p: PrimitiveView) -> Seq<char> {
    "Crystal Primitive "@ + p.id + " — "@ + class_name(p.class)
}

pub fn artifact_title(prim: &Primitive) -> (r: String)
    ensures
        r@ == title_spec(prim@),
{
    let mut m = chars_of("Crystal Primitive ");
    push_str(&mut m, prim.id.as_str());
    push_str(&mut m, " — ");
    push_str(&mut m, prim.class.name());
    string_of(&m)
}

/// The lineage line: parents joined with ` <- `, or `first of its line`.
pub open spec fn lineage_spec(lineage: Seq<Seq<char>>) -> Seq<char> {
    if lineage.len() == 0 {
        "first of its line"@
    } else {
        join_spec(lineage, " <- "@)
    }
}

pub fn lineage_text(prim: &Primitive) -> (r: String)
    ensures
        r@ == lineage_spec(prim@.lineage),
{
    if prim.lineage.len() == 0 {
        string_of(&chars_of("first of its line"))
    } else {
        proof {
            assert(prim.lineage@.map_values(|p: String| p@) =~= strings_view(prim.lineage@));
        }
        join(&prim.lineage, " <- ")
    }
}

/// The token a configured environment value supplies: its trimmed text,
/// when that is not empty.
pub fn token_from(value: Option<&str>) -> (r: Option<String>)
    ensures
        match value {
            Some(v) => match r {
                Some(t) => trim_seq(v@).len() > 0 && t@ == trim_seq(v@),
                None => trim_seq(v@).len() == 0,
            },
            None => r is None,
        },
{
    match value {
        Some(v) => {
            let t = trim(&chars_of(v));
            if t.len() > 0 {
                Some(string_of(&t))
            } else {
                None
            }
        },
        None => None,
    }
}

} // verus!
