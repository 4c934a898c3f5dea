//! Dream (offline consolidation) modes.

use vstd::prelude::*;
use crate::text::{str_eq, chars_of, push_str, string_of};

verus! {

/// How hard a dream consolidates.
#[derive(Clone, Copy, Debug, PartialEq, Eq, Structural)]
pub enum DreamMode {
    /// Gentle pass: short observation, mild reshaping.
    Light,
    /// Full consolidation: long observation, strong prune and amplify,
    /// plus a mutation kick that lets structures reorganize.
    Deep,
}

pub open spec fn mode_name(m: DreamMode) -> Seq<char> {
    match m {
        DreamMode::Light => "light"@,
        DreamMode::Deep => "deep"@,
    }
}

pub open spec fn observe_steps_of(m: DreamMode) -> u64 {
    match m {
        DreamMode::Light => 150,
        DreamMode::Deep => 600,
    }
}

impl DreamMode {
    /// The mode's name (`light` / `deep`).
    pub fn name(&self) -> (s: &'static str)
        ensures
            s@ == mode_name(*self),
    {
        match self {
            DreamMode::Light => {
                let s = "light";
                proof {
                    reveal_strlit("light");
                }
                s
            },
            DreamMode::Deep => {
                let s = "deep";
                proof {
                    reveal_strlit("deep");
                }
                s
            },
        }
    }

    /// Steps the medium evolves freely while stability is observed.
    pub fn observe_steps(&self) -> (n: u64)
        ensures
            n == observe_steps_of(*self),
    {
        match self {
            DreamMode::Light => 150,
            DreamMode::Deep => 600,
        }
    }
}

/// The mode a request names: `light`, `deep`, or no name at all (deep).
pub open spec fn dream_mode_named(name: Option<Seq<char>>) -> Result<DreamMode, Seq<char>> {
    match name {
        None => Ok(DreamMode::Deep),
        Some(n) => if n == "deep"@ {
            Ok(DreamMode::Deep)
        } else if n == "light"@ {
            Ok(DreamMode::Light)
        } else {
            Err("unknown dream mode: "@ + n)
        },
    }
}

pub fn dream_mode_for(name: Option<&str>) -> (r: Result<DreamMode, String>)
    ensures
        match r {
            Ok(m) => dream_mode_named(opt_view(name)) == Ok::<DreamMode, Seq<char>>(m),
            Err(e) => dream_mode_named(opt_view(name)) == Err::<DreamMode, Seq<char>>(e@),
        },
{
    match name {
        None => Ok(DreamMode::Deep),
        Some(n) => {
            if str_eq(n, "deep") {
                Ok(DreamMode::Deep)
            } else if str_eq(n, "light") {
                Ok(DreamMode::Light)
            } else {
                let mut m = chars_of("unknown dream mode: ");
                push_str(&mut m, n);
                Err(string_of(&m))
            }
        },
    }
}

pub open spec fn opt_view(o: Option<&str>) -> Option<Seq<char>> {
    match o {
        Some(s) => Some(s@),
        None => None,
    }
}

} // verus!
