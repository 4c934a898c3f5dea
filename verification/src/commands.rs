//! Decisions behind the command line: which evidence procedure a name
//! selects, and which materials an explorer rotates through.

use vstd::prelude::*;
use crate::text::{str_eq, chars_of, push_str, string_of, split_char, split_at_char, trim, trim_seq};
use crate::registry::strings_view;

verus! {

/// A recorded evidence procedure.
#[derive(Clone, Copy, Debug, PartialEq, Eq, Structural)]
pub enum Procedure {
    /// Reproduction (Level 2).
    Replicate,
    /// Perturbation ensemble (Level 3).
    Perturb,
    /// Cross-resolution (Level 4).
    Resolution,
    /// A behavioral contract (Level 6).
    Behavior,
}

pub open spec fn procedure_named(name: Seq<char>) -> Result<Procedure, Seq<char>> {
    if name == "behavior"@ {
        Ok(Procedure::Behavior)
    } else if name == "replicate"@ {
        Ok(Procedure::Replicate)
    } else if name == "perturb"@ {
        Ok(Procedure::Perturb)
    } else if name == "resolution"@ {
        Ok(Procedure::Resolution)
    } else {
        Err("unknown procedure: "@ + name + " (replicate|perturb|resolution|behavior)"@)
    }
}

pub fn procedure_for(name: &str) -> (r: Result<Procedure, String>)
    ensures
        match r {
            Ok(p) => procedure_named(name@) == Ok::<Procedure, Seq<char>>(p),
            Err(e) => procedure_named(name@) == Err::<Procedure, Seq<char>>(e@),
        },
{
    if str_eq(name, "behavior") {
        Ok(Procedure::Behavior)
    } else if str_eq(name, "replicate") {
        Ok(Procedure::Replicate)
    } else if str_eq(name, "perturb") {
        Ok(Procedure::Perturb)
    } else if str_eq(name, "resolution") {
        Ok(Procedure::Resolution)
    } else {
        let mut m = chars_of("unknown procedure: ");
        push_str(&mut m, name);
        push_str(&mut m, " (replicate|perturb|resolution|behavior)");
        Err(string_of(&m))
    }
}

/// The materials an explorer argument names: `all` names every built-in
/// material, anything else is a comma-separated list, each entry trimmed.
pub open spec fn material_list_spec(arg: Seq<char>, builtin: Seq<Seq<char>>) -> Seq<Seq<char>> {
    if arg == "all"@ {
        builtin
    } else {
        split_char(arg, ',').map_values(|p: Seq<char>| trim_seq(p))
    }
}

pub fn material_list(arg: &str, builtin: &Vec<String>) -> (r: Vec<String>)
    ensures
        strings_view(r@) == material_list_spec(arg@, strings_view(builtin@)),
{
    if str_eq(arg, "all") {
        let mut r: Vec<String> = Vec::new();
        let mut i: usize = 0;
        while i < builtin.len()
            invariant
                i <= builtin@.len(),
                strings_view(r@) == strings_view(builtin@).take(i as int),
            decreases builtin@.len() - i,
        {
            let ghost prev = strings_view(r@);
            r.push(builtin[i].clone());
            i = i + 1;
            proof {
                assert(strings_view(r@) =~= prev.push(builtin@[i - 1]@));
                assert(strings_view(builtin@).take(i as int) =~= strings_view(builtin@).take(i - 1).push(
                    builtin@[i - 1]@,
                ));
            }
        }
        proof {
            assert(strings_view(builtin@).take(i as int) =~= strings_view(builtin@));
        }
        return r;
    }
    let pieces = split_at_char(arg, ',');
    let ghost ps = pieces@.map_values(|v: Vec<char>| v@);
    let mut r: Vec<String> = Vec::new();
    let mut i: usize = 0;
    while i < pieces.len()
        invariant
            i <= pieces@.len(),
            ps == pieces@.map_values(|v: Vec<char>| v@),
            ps == split_char(arg@, ','),
            strings_view(r@) == ps.take(i as int).map_values(|p: Seq<char>| trim_seq(p)),
        decreases pieces@.len() - i,
    {
        let ghost prev = strings_view(r@);
        let t = trim(&pieces[i]);
        r.push(string_of(&t));
        i = i + 1;
        proof {
            assert(strings_view(r@) =~= prev.push(trim_seq(ps[i - 1])));
            assert(ps.take(i as int).map_values(|p: Seq<char>| trim_seq(p)) =~= ps.take(i - 1).map_values(
                |p: Seq<char>| trim_seq(p),
            ).push(trim_seq(ps[i - 1])));
        }
    }
    proof {
        assert(ps.take(i as int) =~= ps);
    }
    r
}


/// The word that names each procedure on the command line.
pub open spec fn procedure_word(p: Procedure) -> Seq<char> {
    match p {
        Procedure::Replicate => "replicate"@,
        Procedure::Perturb => "perturb"@,
        Procedure::Resolution => "resolution"@,
        Procedure::Behavior => "behavior"@,
    }
}

/// Each procedure is selected by its own word and by nothing else: a name
/// that selects a procedure is that procedure's word, and every
/// procedure's word selects it.
pub proof fn lemma_procedure_names(name: Seq<char>, p: Procedure)
    ensures
        procedure_named(name) is Ok ==> procedure_word(procedure_named(name)->Ok_0) == name,
        procedure_named(procedure_word(p)) == Ok::<Procedure, Seq<char>>(p),
{
    reveal_strlit("replicate");
    reveal_strlit("perturb");
    reveal_strlit("resolution");
    reveal_strlit("behavior");
    assert("replicate"@.len() == 9 && "perturb"@.len() == 7 && "resolution"@.len() == 10
        && "behavior"@.len() == 8);
    assert("replicate"@ != "behavior"@);
    assert("perturb"@ != "behavior"@ && "perturb"@ != "replicate"@);
    assert("resolution"@ != "behavior"@ && "resolution"@ != "replicate"@ && "resolution"@
        != "perturb"@);
}

} // verus!
