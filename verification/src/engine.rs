//! Mechanism switches of the resonance engine.
//!
//! Every mechanism of the medium can be switched off for an ablation
//! experiment; all are on by default. Programs name mechanisms in
//! `ABLATE <mechanism> on|off`, so the names are part of the protocol.

use vstd::prelude::*;
use crate::text::{str_eq, is_ws, is_whitespace, chars_of, copy_range, lowercase, to_lower};
use crate::lang::{word_len, lemma_word_len};

verus! {

/// Mechanism switches, all on by default.
#[derive(Clone, Copy, Debug, PartialEq, Eq, Structural)]
pub struct Ablation {
    pub damping: bool,
    pub nonlinearity: bool,
    pub viscosity: bool,
    pub boundary_reflection: bool,
    pub thermal_noise: bool,
    pub external_noise: bool,
    pub dream_pruning: bool,
    pub dream_amplification: bool,
    pub dream_mutation: bool,
    pub semantic_recall: bool,
}

pub open spec fn all_on() -> Ablation {
    Ablation {
        damping: true,
        nonlinearity: true,
        viscosity: true,
        boundary_reflection: true,
        thermal_noise: true,
        external_noise: true,
        dream_pruning: true,
        dream_amplification: true,
        dream_mutation: true,
        semantic_recall: true,
    }
}

impl Default for Ablation {
    fn default() -> (r: Self)
        ensures
            r == all_on(),
    {
        Ablation {
            damping: true,
            nonlinearity: true,
            viscosity: true,
            boundary_reflection: true,
            thermal_noise: true,
            external_noise: true,
            dream_pruning: true,
            dream_amplification: true,
            dream_mutation: true,
            semantic_recall: true,
        }
    }
}

/// One switchable mechanism.
#[derive(Clone, Copy, Debug, PartialEq, Eq, Structural)]
pub enum Mechanism {
    Damping,
    Nonlinearity,
    Viscosity,
    BoundaryReflection,
    ThermalNoise,
    ExternalNoise,
    DreamPruning,
    DreamAmplification,
    DreamMutation,
    SemanticRecall,
}

/// The mechanism a (lowercase) program name denotes. Four mechanisms
/// also answer to a short name.
pub open spec fn mechanism_named(name: Seq<char>) -> Option<Mechanism> {
    if name == "damping"@ {
        Some(Mechanism::Damping)
    } else if name == "nonlinearity"@ {
        Some(Mechanism::Nonlinearity)
    } else if name == "viscosity"@ {
        Some(Mechanism::Viscosity)
    } else if name == "boundary_reflection"@ || name == "reflection"@ {
        Some(Mechanism::BoundaryReflection)
    } else if name == "thermal_noise"@ {
        Some(Mechanism::ThermalNoise)
    } else if name == "external_noise"@ {
        Some(Mechanism::ExternalNoise)
    } else if name == "dream_pruning"@ || name == "pruning"@ {
        Some(Mechanism::DreamPruning)
    } else if name == "dream_amplification"@ || name == "amplification"@ {
        Some(Mechanism::DreamAmplification)
    } else if name == "dream_mutation"@ || name == "mutation"@ {
        Some(Mechanism::DreamMutation)
    } else if name == "semantic_recall"@ {
        Some(Mechanism::SemanticRecall)
    } else {
        None
    }
}

pub fn mechanism_for(name: &str) -> (r: Option<Mechanism>)
    ensures
        r == mechanism_named(name@),
{
    if str_eq(name, "damping") {
        Some(Mechanism::Damping)
    } else if str_eq(name, "nonlinearity") {
        Some(Mechanism::Nonlinearity)
    } else if str_eq(name, "viscosity") {
        Some(Mechanism::Viscosity)
    } else if str_eq(name, "boundary_reflection") || str_eq(name, "reflection") {
        Some(Mechanism::BoundaryReflection)
    } else if str_eq(name, "thermal_noise") {
        Some(Mechanism::ThermalNoise)
    } else if str_eq(name, "external_noise") {
        Some(Mechanism::ExternalNoise)
    } else if str_eq(name, "dream_pruning") || str_eq(name, "pruning") {
        Some(Mechanism::DreamPruning)
    } else if str_eq(name, "dream_amplification") || str_eq(name, "amplification") {
        Some(Mechanism::DreamAmplification)
    } else if str_eq(name, "dream_mutation") || str_eq(name, "mutation") {
        Some(Mechanism::DreamMutation)
    } else if str_eq(name, "semantic_recall") {
        Some(Mechanism::SemanticRecall)
    } else {
        None
    }
}

/// `a` with one switch set.
pub open spec fn with_switch(a: Ablation, m: Mechanism, on: bool) -> Ablation {
    match m {
        Mechanism::Damping => Ablation { damping: on, ..a },
        Mechanism::Nonlinearity => Ablation { nonlinearity: on, ..a },
        Mechanism::Viscosity => Ablation { viscosity: on, ..a },
        Mechanism::BoundaryReflection => Ablation { boundary_reflection: on, ..a },
        Mechanism::ThermalNoise => Ablation { thermal_noise: on, ..a },
        Mechanism::ExternalNoise => Ablation { external_noise: on, ..a },
        Mechanism::DreamPruning => Ablation { dream_pruning: on, ..a },
        Mechanism::DreamAmplification => Ablation { dream_amplification: on, ..a },
        Mechanism::DreamMutation => Ablation { dream_mutation: on, ..a },
        Mechanism::SemanticRecall => Ablation { semantic_recall: on, ..a },
    }
}

/// The state of one switch.
pub open spec fn switch_of(a: Ablation, m: Mechanism) -> bool {
    match m {
        Mechanism::Damping => a.damping,
        Mechanism::Nonlinearity => a.nonlinearity,
        Mechanism::Viscosity => a.viscosity,
        Mechanism::BoundaryReflection => a.boundary_reflection,
        Mechanism::ThermalNoise => a.thermal_noise,
        Mechanism::ExternalNoise => a.external_noise,
        Mechanism::DreamPruning => a.dream_pruning,
        Mechanism::DreamAmplification => a.dream_amplification,
        Mechanism::DreamMutation => a.dream_mutation,
        Mechanism::SemanticRecall => a.semantic_recall,
    }
}

impl Ablation {
    /// Set one switch.
    pub fn set(&mut self, m: Mechanism, on: bool)
        ensures
            *final(self) == with_switch(*old(self), m, on),
    {
        match m {
            Mechanism::Damping => self.damping = on,
            Mechanism::Nonlinearity => self.nonlinearity = on,
            Mechanism::Viscosity => self.viscosity = on,
            Mechanism::BoundaryReflection => self.boundary_reflection = on,
            Mechanism::ThermalNoise => self.thermal_noise = on,
            Mechanism::ExternalNoise => self.external_noise = on,
            Mechanism::DreamPruning => self.dream_pruning = on,
            Mechanism::DreamAmplification => self.dream_amplification = on,
            Mechanism::DreamMutation => self.dream_mutation = on,
            Mechanism::SemanticRecall => self.semantic_recall = on,
        }
    }

    /// Whether a switch is on.
    pub fn is_on(&self, m: Mechanism) -> (r: bool)
        ensures
            r == switch_of(*self, m),
    {
        match m {
            Mechanism::Damping => self.damping,
            Mechanism::Nonlinearity => self.nonlinearity,
            Mechanism::Viscosity => self.viscosity,
            Mechanism::BoundaryReflection => self.boundary_reflection,
            Mechanism::ThermalNoise => self.thermal_noise,
            Mechanism::ExternalNoise => self.external_noise,
            Mechanism::DreamPruning => self.dream_pruning,
            Mechanism::DreamAmplification => self.dream_amplification,
            Mechanism::DreamMutation => self.dream_mutation,
            Mechanism::SemanticRecall => self.semantic_recall,
        }
    }
}

/// Setting a switch changes that switch and no other: reading it back
/// gives what was set, and every other switch reads as before.
pub proof fn lemma_switch_read_back(a: Ablation, m: Mechanism, other: Mechanism, on: bool)
    ensures
        switch_of(with_switch(a, m, on), m) == on,
        other != m ==> switch_of(with_switch(a, m, on), other) == switch_of(a, other),
{
}

// ---------------------------------------------------------------------
// Lexical overlap (the semantic recall channel)
// ---------------------------------------------------------------------

/// The whitespace-separated words of `s` (`str::split_whitespace`).
pub open spec fn words_spec(s: Seq<char>) -> Seq<Seq<char>>
    decreases s.len(),
{
    if s.len() == 0 {
        Seq::empty()
    } else if is_ws(s[0]) {
        words_spec(s.drop_first())
    } else {
        proof {
            lemma_word_len(s);
        }
        seq![s.take(word_len(s) as int)] + words_spec(s.skip(word_len(s) as int))
    }
}

pub open spec fn char_vecs_view(v: Seq<Vec<char>>) -> Seq<Seq<char>> {
    v.map_values(|w: Vec<char>| w@)
}

proof fn lemma_word_len_run(s: Seq<char>, k: int)
    requires
        0 <= k <= s.len(),
        forall|j: int| 0 <= j < k ==> !is_ws(#[trigger] s[j]),
        k == s.len() || is_ws(s[k]),
    ensures
        word_len(s) == k,
    decreases s.len(),
{
    if s.len() > 0 && k > 0 {
        assert forall|j: int| 0 <= j < k - 1 implies !is_ws(#[trigger] s.drop_first()[j]) by {
            assert(s.drop_first()[j] == s[j + 1]);
        }
        lemma_word_len_run(s.drop_first(), k - 1);
    }
}

/// The words of `s`.
pub fn words_of(s: &str) -> (r: Vec<Vec<char>>)
    ensures
        char_vecs_view(r@) == words_spec(s@),
{
    let cs = chars_of(s);
    let n = cs.len();
    let mut out: Vec<Vec<char>> = Vec::new();
    let mut i: usize = 0;
    proof {
        assert(cs@.skip(0) =~= cs@);
        assert(char_vecs_view(out@) =~= Seq::<Seq<char>>::empty());
    }
    while i < n
        invariant
            n == cs@.len(),
            cs@ == s@,
            i <= n,
            words_spec(s@) == char_vecs_view(out@) + words_spec(cs@.skip(i as int)),
        decreases n - i,
    {
        let ghost rest = cs@.skip(i as int);
        let ghost before = char_vecs_view(out@);
        proof {
            assert(rest[0] == cs@[i as int]);
        }
        if is_whitespace(cs[i]) {
            proof {
                assert(rest.drop_first() =~= cs@.skip(i + 1));
            }
            i = i + 1;
        } else {
            let mut j = i;
            while j < n && !is_whitespace(cs[j])
                invariant
                    i <= j <= n,
                    n == cs@.len(),
                    forall|k: int| i <= k < j ==> !is_ws(#[trigger] cs@[k]),
                decreases n - j,
            {
                j = j + 1;
            }
            proof {
                assert forall|k: int| 0 <= k < j - i implies !is_ws(#[trigger] rest[k]) by {
                    assert(rest[k] == cs@[i + k]);
                }
                if j < n {
                    assert(rest[j - i] == cs@[j as int]);
                }
                lemma_word_len_run(rest, j - i);
            }
            let w = copy_range(&cs, i, j);
            out.push(w);
            proof {
                assert(rest.skip(j - i) =~= cs@.skip(j as int));
                assert(rest.take(j - i) =~= cs@.subrange(i as int, j as int));
                assert(char_vecs_view(out@) =~= before.push(cs@.subrange(i as int, j as int)));
                assert(before + (seq![cs@.subrange(i as int, j as int)] + words_spec(cs@.skip(j as int)))
                    =~= before.push(cs@.subrange(i as int, j as int)) + words_spec(cs@.skip(j as int)));
            }
            i = j;
        }
    }
    proof {
        assert(cs@.skip(i as int) =~= Seq::<char>::empty());
        assert(char_vecs_view(out@) + Seq::<Seq<char>>::empty() =~= char_vecs_view(out@));
    }
    out
}

fn contains_word(ws: &Vec<Vec<char>>, w: &Vec<char>) -> (r: bool)
    ensures
        r == char_vecs_view(ws@).contains(w@),
{
    let mut i: usize = 0;
    while i < ws.len()
        invariant
            i <= ws@.len(),
            forall|k: int| 0 <= k < i ==> char_vecs_view(ws@)[k] != w@,
        decreases ws@.len() - i,
    {
        if crate::primitives::chars_eq(&ws[i], w) {
            proof {
                assert(char_vecs_view(ws@)[i as int] == w@);
            }
            return true;
        }
        i = i + 1;
    }
    false
}

/// The distinct words of `ws`, first occurrences in order.
fn distinct(ws: &Vec<Vec<char>>) -> (r: Vec<Vec<char>>)
    ensures
        char_vecs_view(r@).no_duplicates(),
        char_vecs_view(r@).to_set() == char_vecs_view(ws@).to_set(),
{
    let ghost all = char_vecs_view(ws@);
    let mut out: Vec<Vec<char>> = Vec::new();
    let mut i: usize = 0;
    proof {
        assert(char_vecs_view(out@) =~= Seq::<Seq<char>>::empty());
        assert(all.take(0) =~= Seq::<Seq<char>>::empty());
    }
    while i < ws.len()
        invariant
            i <= ws@.len(),
            all == char_vecs_view(ws@),
            char_vecs_view(out@).no_duplicates(),
            char_vecs_view(out@).to_set() == all.take(i as int).to_set(),
        decreases ws@.len() - i,
    {
        let ghost o = char_vecs_view(out@);
        proof {
            assert(all.take(i + 1) =~= all.take(i as int).push(all[i as int]));
        }
        if !contains_word(&out, &ws[i]) {
            out.push(crate::primitives::copy_vec(&ws[i]));
            proof {
                assert(char_vecs_view(out@) =~= o.push(all[i as int]));
                o.lemma_push_to_set_commute(all[i as int]);
                all.take(i as int).lemma_push_to_set_commute(all[i as int]);
            }
        } else {
            proof {
                all.take(i as int).lemma_push_to_set_commute(all[i as int]);
                assert(o.to_set().contains(all[i as int]));
                assert(all.take(i as int).to_set().insert(all[i as int]) =~= all.take(i as int).to_set());
            }
        }
        i = i + 1;
    }
    proof {
        assert(all.take(i as int) =~= all);
    }
    out
}

/// Word-set overlap of two (already lowercased) texts: the number of
/// words they share and the size of the smaller word set.
pub open spec fn overlap_spec(a: Seq<char>, b: Seq<char>) -> (nat, nat) {
    let wa = words_spec(a).to_set();
    let wb = words_spec(b).to_set();
    (wa.intersect(wb).len(), if wa.len() <= wb.len() { wa.len() } else { wb.len() })
}

pub fn overlap_counts(a: &str, b: &str) -> (r: (usize, usize))
    ensures
        (r.0 as nat, r.1 as nat) == overlap_spec(a@, b@),
        r.0 <= r.1,
{
    let wa = words_of(a);
    let wb = words_of(b);
    let da = distinct(&wa);
    let db = distinct(&wb);
    let ghost sa = char_vecs_view(da@);
    let ghost sb = char_vecs_view(db@);
    let mut count: usize = 0;
    let mut i: usize = 0;
    let ghost mut acc: Seq<Seq<char>> = Seq::empty();
    proof {
        assert(sa.take(0) =~= Seq::<Seq<char>>::empty());
        assert(acc.to_set() =~= sa.take(0).to_set().intersect(sb.to_set()));
    }
    while i < da.len()
        invariant
            i <= da@.len(),
            sa == char_vecs_view(da@),
            sb == char_vecs_view(db@),
            sa.no_duplicates(),
            acc.no_duplicates(),
            count == acc.len(),
            acc.len() <= i,
            acc.to_set() == sa.take(i as int).to_set().intersect(sb.to_set()),
            forall|k: int| 0 <= k < acc.len() ==> sa.take(i as int).contains(#[trigger] acc[k]),
        decreases da@.len() - i,
    {
        proof {
            assert(sa.take(i + 1) =~= sa.take(i as int).push(sa[i as int]));
        }
        if contains_word(&db, &da[i]) {
            proof {
                assert(!acc.contains(sa[i as int])) by {
                    if acc.contains(sa[i as int]) {
                        let k = choose|k: int| 0 <= k < acc.len() && acc[k] == sa[i as int];
                        assert(sa.take(i as int).contains(acc[k]));
                        let m = choose|m: int| 0 <= m < i && sa.take(i as int)[m] == acc[k];
                        assert(sa[m] == sa[i as int]);
                    }
                }
                let acc2 = acc.push(sa[i as int]);
                acc.lemma_push_to_set_commute(sa[i as int]);
                sa.take(i as int).lemma_push_to_set_commute(sa[i as int]);
                assert(sb.to_set().contains(sa[i as int]));
                assert(acc2.to_set() =~= sa.take(i + 1).to_set().intersect(sb.to_set()));
                assert forall|k: int| 0 <= k < acc2.len() implies sa.take(i + 1).contains(#[trigger] acc2[k]) by {
                    if k < acc.len() {
                        let m = choose|m: int| 0 <= m < i && sa.take(i as int)[m] == acc[k];
                        assert(sa.take(i + 1)[m] == acc[k]);
                    } else {
                        assert(sa.take(i + 1)[i as int] == acc2[k]);
                    }
                }
                acc = acc2;
            }
            count = count + 1;
        } else {
            proof {
                sa.take(i as int).lemma_push_to_set_commute(sa[i as int]);
                assert(!sb.to_set().contains(sa[i as int]));
                assert(acc.to_set() =~= sa.take(i + 1).to_set().intersect(sb.to_set()));
                assert forall|k: int| 0 <= k < acc.len() implies sa.take(i + 1).contains(#[trigger] acc[k]) by {
                    let m = choose|m: int| 0 <= m < i && sa.take(i as int)[m] == acc[k];
                    assert(sa.take(i + 1)[m] == acc[k]);
                }
            }
        }
        i = i + 1;
    }
    proof {
        assert(sa.take(i as int) =~= sa);
        acc.unique_seq_to_set();
        sa.unique_seq_to_set();
        sb.unique_seq_to_set();
        lemma_overlap_bounded(a@, b@);
    }
    let la = da.len();
    let lb = db.len();
    (count, if la <= lb { la } else { lb })
}

/// Two texts never share more words than the smaller word set holds,
/// so the overlap fraction lies in `[0, 1]`.
pub proof fn lemma_overlap_bounded(a: Seq<char>, b: Seq<char>)
    ensures
        overlap_spec(a, b).0 <= overlap_spec(a, b).1,
{
    let wa = words_spec(a).to_set();
    let wb = words_spec(b).to_set();
    vstd::seq_lib::seq_to_set_is_finite(words_spec(a));
    vstd::seq_lib::seq_to_set_is_finite(words_spec(b));
    vstd::set_lib::lemma_len_intersect(wa, wb);
    vstd::set_lib::lemma_len_intersect(wb, wa);
    assert(wb.intersect(wa) =~= wa.intersect(wb));
}

/// Word overlap of two texts after lowercasing both.
pub fn word_overlap(a: &str, b: &str) -> (r: (usize, usize))
    ensures
        (r.0 as nat, r.1 as nat) == overlap_spec(lowercase(a@), lowercase(b@)),
        r.0 <= r.1,
{
    let la = to_lower(a);
    let lb = to_lower(b);
    overlap_counts(la.as_str(), lb.as_str())
}

} // verus!
