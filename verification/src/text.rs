//! Character-level text handling: decimal rendering and parsing, Unicode
//! whitespace, trimming, and the conversions between `&str`/`String` and
//! `Vec<char>` that the rest of the library works on.

use vstd::prelude::*;

verus! {

// ---------------------------------------------------------------------
// Decimal digits
// ---------------------------------------------------------------------

/// The ASCII digit for `d` (only meaningful for `d < 10`).
pub open spec fn digit_char(d: nat) -> char {
    if d == 0 { '0' }
    else if d == 1 { '1' }
    else if d == 2 { '2' }
    else if d == 3 { '3' }
    else if d == 4 { '4' }
    else if d == 5 { '5' }
    else if d == 6 { '6' }
    else if d == 7 { '7' }
    else if d == 8 { '8' }
    else { '9' }
}

pub open spec fn is_digit(c: char) -> bool {
    '0' <= c && c <= '9'
}

/// Numeric value of an ASCII digit character.
pub open spec fn digit_value(c: char) -> nat {
    (c as u32 - '0' as u32) as nat
}

/// Canonical base-10 rendering of `n` (no sign, no leading zeros).
pub open spec fn dec(n: nat) -> Seq<char>
    decreases n,
{
    if n < 10 {
        seq![digit_char(n)]
    } else {
        dec(n / 10).push(digit_char(n % 10))
    }
}

pub open spec fn all_digits(s: Seq<char>) -> bool {
    forall|i: int| 0 <= i < s.len() ==> #[trigger] is_digit(s[i])
}

/// Value of a digit string, most significant digit first.
pub open spec fn digits_value(s: Seq<char>) -> nat
    decreases s.len(),
{
    if s.len() == 0 {
        0
    } else {
        digits_value(s.drop_last()) * 10 + digit_value(s.last())
    }
}

/// What `str::parse::<u64>` accepts: an optional `+`, then one or more
/// ASCII digits whose value fits in a `u64`.
pub open spec fn parse_u64_spec(s: Seq<char>) -> Option<u64> {
    let body = if s.len() > 0 && s[0] == '+' { s.drop_first() } else { s };
    if body.len() > 0 && all_digits(body) && digits_value(body) <= u64::MAX {
        Some(digits_value(body) as u64)
    } else {
        None
    }
}

fn digit_of(d: u64) -> (c: char)
    requires
        d < 10,
    ensures
        c == digit_char(d as nat),
{
    if d == 0 { '0' }
    else if d == 1 { '1' }
    else if d == 2 { '2' }
    else if d == 3 { '3' }
    else if d == 4 { '4' }
    else if d == 5 { '5' }
    else if d == 6 { '6' }
    else if d == 7 { '7' }
    else if d == 8 { '8' }
    else { '9' }
}

/// Base-10 rendering of a `u64`, as `format!("{n}")` prints it.
pub fn decimal(n: u64) -> (r: Vec<char>)
    ensures
        r@ == dec(n as nat),
    decreases n,
{
    if n < 10 {
        let mut v = Vec::new();
        v.push(digit_of(n));
        v
    } else {
        let mut v = decimal(n / 10);
        v.push(digit_of(n % 10));
        v
    }
}

pub proof fn lemma_digit_char(d: nat)
    requires
        d < 10,
    ensures
        is_digit(digit_char(d)),
        digit_value(digit_char(d)) == d,
        digit_char(d) != '+',
{
}

pub proof fn lemma_dec_props(n: nat)
    ensures
        dec(n).len() > 0,
        all_digits(dec(n)),
        digits_value(dec(n)) == n,
        dec(n)[0] != '+',
    decreases n,
{
    if n < 10 {
        lemma_digit_char(n);
        assert(seq![digit_char(n)].drop_last() =~= Seq::<char>::empty());
        assert(digits_value(Seq::<char>::empty()) == 0);
    } else {
        lemma_dec_props(n / 10);
        lemma_digit_char(n % 10);
        let s = dec(n / 10).push(digit_char(n % 10));
        assert(s.drop_last() =~= dec(n / 10));
        assert(n == (n / 10) * 10 + n % 10);
        assert(digits_value(s) == digits_value(dec(n / 10)) * 10 + digit_value(digit_char(n % 10)));
        assert forall|i: int| 0 <= i < s.len() implies #[trigger] is_digit(s[i]) by {
            if i < s.len() - 1 {
                assert(s[i] == dec(n / 10)[i]);
            }
        }
    }
}

/// Rendering then parsing gives the number back.
pub proof fn lemma_decimal_roundtrip(n: u64)
    ensures
        parse_u64_spec(dec(n as nat)) == Some(n),
{
    lemma_dec_props(n as nat);
}

proof fn lemma_digits_value_prefix_mono(s: Seq<char>, i: int)
    requires
        0 <= i <= s.len(),
        all_digits(s),
    ensures
        digits_value(s.take(i)) <= digits_value(s),
    decreases s.len() - i,
{
    if i < s.len() {
        lemma_digits_value_prefix_mono(s, i + 1);
        assert(s.take(i + 1).drop_last() =~= s.take(i));
        assert(is_digit(s[i]));
    } else {
        assert(s.take(i) =~= s);
    }
}

/// `str::parse::<u64>` on a character sequence, proved equal to
/// `parse_u64_spec`.
pub fn parse_u64(s: &Vec<char>) -> (r: Option<u64>)
    ensures
        r == parse_u64_spec(s@),
{
    let ghost body = if s@.len() > 0 && s@[0] == '+' { s@.drop_first() } else { s@ };
    let start: usize = if s.len() > 0 && s[0] == '+' { 1 } else { 0 };
    proof {
        assert(body =~= s@.skip(start as int));
        assert(body.take(0) =~= Seq::<char>::empty());
    }
    if start >= s.len() {
        return None;
    }
    let mut acc: u64 = 0;
    let mut i: usize = start;
    while i < s.len()
        invariant
            start <= i <= s.len(),
            start < s.len(),
            body == s@.skip(start as int),
            body == (if s@.len() > 0 && s@[0] == '+' { s@.drop_first() } else { s@ }),
            acc as nat == digits_value(body.take(i - start)),
            all_digits(body.take(i - start)),
        decreases s.len() - i,
    {
        let c = s[i];
        if !('0' <= c && c <= '9') {
            proof {
                assert(body[i - start] == s@[i as int]);
                assert(!is_digit(body[i - start]));
                assert(!all_digits(body));
            }
            return None;
        }
        let d: u64 = ((c as u32) - ('0' as u32)) as u64;
        proof {
            assert(body[i - start] == s@[i as int]);
            assert(body.take(i - start + 1).drop_last() =~= body.take(i - start));
            assert(body.take(i - start + 1).last() == c);
            assert(d == digit_value(c));
            assert(digits_value(body.take(i - start + 1)) == acc * 10 + d);
        }
        if acc > (u64::MAX - d) / 10 {
            proof {
                assert(acc * 10 + d > u64::MAX) by (nonlinear_arith)
                    requires
                        acc > (u64::MAX - d) / 10,
                        d < 10,
                ;
                assert forall|j: int| 0 <= j < i - start + 1 implies #[trigger] is_digit(
                    body.take(i - start + 1)[j],
                ) by {
                    if j < i - start {
                        assert(body.take(i - start + 1)[j] == body.take(i - start)[j]);
                    }
                }
                if all_digits(body) {
                    lemma_digits_value_prefix_mono(body, i - start + 1);
                    assert(digits_value(body) > u64::MAX);
                }
            }
            return None;
        }
        acc = acc * 10 + d;
        i = i + 1;
        proof {
            assert forall|j: int| 0 <= j < i - start implies #[trigger] is_digit(
                body.take(i - start)[j],
            ) by {
                if j < i - start - 1 {
                    assert(body.take(i - start)[j] == body.take(i - start - 1)[j]);
                }
            }
        }
    }
    proof {
        assert(body.take(i - start) =~= body);
    }
    Some(acc)
}

// ---------------------------------------------------------------------
// Whitespace and trimming
// ---------------------------------------------------------------------

/// The Unicode `White_Space` property, which `char::is_whitespace`,
/// `str::trim` and `str::split_whitespace` all use.
pub open spec fn is_ws(c: char) -> bool {
    let u = c as u32;
    (0x9 <= u && u <= 0xD) || u == 0x20 || u == 0x85 || u == 0xA0 || u == 0x1680 || (0x2000
        <= u && u <= 0x200A) || u == 0x2028 || u == 0x2029 || u == 0x202F || u == 0x205F || u
        == 0x3000
}

pub fn is_whitespace(c: char) -> (b: bool)
    ensures
        b == is_ws(c),
{
    let u = c as u32;
    (0x9 <= u && u <= 0xD) || u == 0x20 || u == 0x85 || u == 0xA0 || u == 0x1680 || (0x2000 <= u
        && u <= 0x200A) || u == 0x2028 || u == 0x2029 || u == 0x202F || u == 0x205F || u == 0x3000
}

pub open spec fn trim_start_seq(s: Seq<char>) -> Seq<char>
    decreases s.len(),
{
    if s.len() > 0 && is_ws(s[0]) {
        trim_start_seq(s.drop_first())
    } else {
        s
    }
}

pub open spec fn trim_end_seq(s: Seq<char>) -> Seq<char>
    decreases s.len(),
{
    if s.len() > 0 && is_ws(s.last()) {
        trim_end_seq(s.drop_last())
    } else {
        s
    }
}

/// What `str::trim` leaves of `s`.
pub open spec fn trim_seq(s: Seq<char>) -> Seq<char> {
    trim_end_seq(trim_start_seq(s))
}

proof fn lemma_trim_start_skip(s: Seq<char>, i: int)
    requires
        0 <= i <= s.len(),
        forall|j: int| 0 <= j < i ==> is_ws(#[trigger] s[j]),
    ensures
        trim_start_seq(s) == trim_start_seq(s.skip(i)),
    decreases i,
{
    if i > 0 {
        assert(is_ws(s[0]));
        let t = s.drop_first();
        assert forall|j: int| 0 <= j < i - 1 implies is_ws(#[trigger] t[j]) by {
            assert(t[j] == s[j + 1]);
        }
        lemma_trim_start_skip(t, i - 1);
        assert(t.skip(i - 1) =~= s.skip(i));
    } else {
        assert(s.skip(0) =~= s);
    }
}

proof fn lemma_trim_end_take(s: Seq<char>, k: int)
    requires
        0 <= k <= s.len(),
        forall|j: int| k <= j < s.len() ==> is_ws(#[trigger] s[j]),
    ensures
        trim_end_seq(s) == trim_end_seq(s.take(k)),
    decreases s.len() - k,
{
    if k < s.len() {
        assert(is_ws(s.last()));
        let t = s.drop_last();
        assert forall|j: int| k <= j < t.len() implies is_ws(#[trigger] t[j]) by {
            assert(t[j] == s[j]);
        }
        lemma_trim_end_take(t, k);
        assert(t.take(k) =~= s.take(k));
    } else {
        assert(s.take(k) =~= s);
    }
}

/// `str::trim` on a character sequence.
pub fn trim(s: &Vec<char>) -> (r: Vec<char>)
    ensures
        r@ == trim_seq(s@),
{
    let n = s.len();
    let mut i: usize = 0;
    while i < n && is_whitespace(s[i])
        invariant
            i <= n,
            n == s@.len(),
            forall|j: int| 0 <= j < i ==> is_ws(#[trigger] s@[j]),
        decreases n - i,
    {
        i = i + 1;
    }
    proof {
        lemma_trim_start_skip(s@, i as int);
    }
    let ghost t = s@.skip(i as int);
    if i == n {
        proof {
            assert(t.len() == 0);
        }
        return Vec::new();
    }
    // s[i] is not whitespace, so the start is trimmed at i.
    let mut k: usize = n;
    while k > i && is_whitespace(s[k - 1])
        invariant
            i < n,
            i <= k <= n,
            n == s@.len(),
            !is_ws(s@[i as int]),
            forall|j: int| k <= j < n ==> is_ws(#[trigger] s@[j]),
        decreases k,
    {
        k = k - 1;
    }
    proof {
        assert(trim_start_seq(t) == t);
        assert forall|j: int| k - i <= j < t.len() implies is_ws(#[trigger] t[j]) by {
            assert(t[j] == s@[j + i]);
        }
        lemma_trim_end_take(t, k - i);
        let u = t.take(k - i);
        assert(u.last() == s@[k - 1]);
        assert(trim_end_seq(u) == u);
    }
    let mut r: Vec<char> = Vec::new();
    let mut j: usize = i;
    while j < k
        invariant
            i <= j <= k <= n,
            n == s@.len(),
            r@ == s@.subrange(i as int, j as int),
        decreases k - j,
    {
        r.push(s[j]);
        j = j + 1;
    }
    proof {
        assert(r@ =~= t.take(k - i));
    }
    r
}

// ---------------------------------------------------------------------
// Conversions
// ---------------------------------------------------------------------

/// The characters of `s`, in order.
pub fn chars_of(s: &str) -> (v: Vec<char>)
    ensures
        v@ == s@,
{
    broadcast use vstd::string::group_string_axioms;

    let mut v: Vec<char> = Vec::new();
    for c in it: s.chars()
        invariant
            v@ == it.seq().take(it.index() as int),
    {
        v.push(c);
    }
    v
}

/// Collects characters into a `String` (`Iterator<Item = char>::collect`).
#[verifier::external_body]
pub(crate) fn string_of(v: &Vec<char>) -> (s: String)
    ensures
        s@ == v@,
{
    v.iter().collect()
}

/// Appends the characters of `s` to `v`.
pub fn push_str(v: &mut Vec<char>, s: &str)
    ensures
        final(v)@ == old(v)@ + s@,
{
    let cs = chars_of(s);
    let ghost start = v@;
    let mut i: usize = 0;
    while i < cs.len()
        invariant
            i <= cs@.len(),
            cs@ == s@,
            v@ == start + cs@.take(i as int),
        decreases cs@.len() - i,
    {
        v.push(cs[i]);
        i = i + 1;
        proof {
            assert(cs@.take(i as int) =~= cs@.take(i - 1).push(cs@[i - 1]));
        }
    }
    proof {
        assert(cs@.take(i as int) =~= cs@);
    }
}

/// Appends the characters of `w` to `v`.
pub fn push_chars(v: &mut Vec<char>, w: &Vec<char>)
    ensures
        final(v)@ == old(v)@ + w@,
{
    let ghost start = v@;
    let mut i: usize = 0;
    while i < w.len()
        invariant
            i <= w@.len(),
            v@ == start + w@.take(i as int),
        decreases w@.len() - i,
    {
        v.push(w[i]);
        i = i + 1;
        proof {
            assert(w@.take(i as int) =~= w@.take(i - 1).push(w@[i - 1]));
        }
    }
    proof {
        assert(w@.take(i as int) =~= w@);
    }
}

/// `s` left-padded with `'0'` to at least `width` characters
/// (`format!("{:0width$}")` on an unsigned number).
pub open spec fn zero_pad(s: Seq<char>, width: nat) -> Seq<char> {
    if s.len() < width {
        Seq::new((width - s.len()) as nat, |i: int| '0') + s
    } else {
        s
    }
}

pub fn zero_padded(s: &Vec<char>, width: usize) -> (r: Vec<char>)
    ensures
        r@ == zero_pad(s@, width as nat),
{
    let mut r: Vec<char> = Vec::new();
    if s.len() < width {
        let fill = width - s.len();
        let mut i: usize = 0;
        while i < fill
            invariant
                i <= fill,
                r@ == Seq::new(i as nat, |j: int| '0'),
            decreases fill - i,
        {
            r.push('0');
            i = i + 1;
            proof {
                assert(r@ =~= Seq::new(i as nat, |j: int| '0'));
            }
        }
    }
    push_chars(&mut r, s);
    proof {
        if s@.len() < width {
            assert(r@ =~= zero_pad(s@, width as nat));
        } else {
            assert(r@ =~= s@);
        }
    }
    r
}

/// Lowercase mapping of a string (Unicode-aware, as `str::to_lowercase`).
pub uninterp spec fn lowercase(s: Seq<char>) -> Seq<char>;

/// Uppercase mapping of a string (Unicode-aware, as `str::to_uppercase`).
pub uninterp spec fn uppercase(s: Seq<char>) -> Seq<char>;

/// Calls `str::to_lowercase`. Claims only that the result is a function
/// of the input characters (named `lowercase`).
#[verifier::external_body]
pub(crate) fn to_lower(s: &str) -> (r: String)
    ensures
        r@ == lowercase(s@),
{
    s.to_lowercase()
}

/// Calls `str::to_uppercase`. Claims only that the result is a function
/// of the input characters (named `uppercase`).
#[verifier::external_body]
pub(crate) fn to_upper(s: &str) -> (r: String)
    ensures
        r@ == uppercase(s@),
{
    s.to_uppercase()
}


// ---------------------------------------------------------------------
// Searching and slicing
// ---------------------------------------------------------------------

/// Text equality.
pub fn str_eq(a: &str, b: &str) -> (r: bool)
    ensures
        r == (a@ == b@),
{
    let x = chars_of(a);
    let y = chars_of(b);
    crate::primitives::chars_eq(&x, &y)
}

/// Position of the first `c` in `s`.
pub open spec fn index_of_char(s: Seq<char>, c: char) -> Option<nat>
    decreases s.len(),
{
    if s.len() == 0 {
        None
    } else if s[0] == c {
        Some(0)
    } else {
        match index_of_char(s.drop_first(), c) {
            Some(k) => Some(k + 1),
            None => None,
        }
    }
}

/// `index_of_char` is the first occurrence.
pub proof fn lemma_index_of_char(s: Seq<char>, c: char)
    ensures
        match index_of_char(s, c) {
            Some(k) => k < s.len() && s[k as int] == c && forall|j: int|
                0 <= j < k ==> s[j] != c,
            None => forall|j: int| 0 <= j < s.len() ==> s[j] != c,
        },
    decreases s.len(),
{
    if s.len() > 0 && s[0] != c {
        lemma_index_of_char(s.drop_first(), c);
        assert forall|j: int| 0 < j < s.len() implies s[j] == s.drop_first()[j - 1] by {}
    }
}

/// The first occurrence determines `index_of_char`.
pub proof fn lemma_index_of_char_is(s: Seq<char>, c: char, k: int)
    requires
        0 <= k <= s.len(),
        forall|j: int| 0 <= j < k ==> s[j] != c,
        k == s.len() || s[k] == c,
    ensures
        index_of_char(s, c) == (if k < s.len() { Some(k as nat) } else { None::<nat> }),
    decreases s.len(),
{
    if s.len() > 0 && k > 0 {
        lemma_index_of_char_is(s.drop_first(), c, k - 1);
    }
}

/// The first index in `[from, to)` holding `c`, or `to`.
pub fn find_char(cs: &Vec<char>, from: usize, to: usize, c: char) -> (r: usize)
    requires
        from <= to <= cs@.len(),
    ensures
        from <= r <= to,
        forall|j: int| from <= j < r ==> cs@[j] != c,
        r < to ==> cs@[r as int] == c,
        index_of_char(cs@.subrange(from as int, to as int), c) == (if r < to {
            Some((r - from) as nat)
        } else {
            None::<nat>
        }),
{
    let mut j = from;
    while j < to && cs[j] != c
        invariant
            from <= j <= to <= cs@.len(),
            forall|k: int| from <= k < j ==> cs@[k] != c,
        decreases to - j,
    {
        j = j + 1;
    }
    proof {
        lemma_index_of_char_is(cs@.subrange(from as int, to as int), c, j - from);
    }
    j
}

/// A copy of `cs[from..to]`.
pub fn copy_range(cs: &Vec<char>, from: usize, to: usize) -> (r: Vec<char>)
    requires
        from <= to <= cs@.len(),
    ensures
        r@ == cs@.subrange(from as int, to as int),
{
    let mut r: Vec<char> = Vec::new();
    let mut j = from;
    while j < to
        invariant
            from <= j <= to <= cs@.len(),
            r@ == cs@.subrange(from as int, j as int),
        decreases to - j,
    {
        r.push(cs[j]);
        j = j + 1;
        proof {
            assert(r@ =~= cs@.subrange(from as int, j as int));
        }
    }
    r
}

/// The pieces of `s` between occurrences of `c` (`str::split` on a char).
pub open spec fn split_char(s: Seq<char>, c: char) -> Seq<Seq<char>>
    decreases s.len(),
{
    match index_of_char(s, c) {
        Some(k) => {
            proof {
                lemma_index_of_char(s, c);
            }
            seq![s.take(k as int)] + split_char(s.skip(k as int + 1), c)
        },
        None => seq![s],
    }
}

/// Split `s` at every `c`.
pub fn split_at_char(s: &str, c: char) -> (r: Vec<Vec<char>>)
    ensures
        r@.map_values(|v: Vec<char>| v@) == split_char(s@, c),
{
    let cs = chars_of(s);
    let n = cs.len();
    let mut out: Vec<Vec<char>> = Vec::new();
    let mut i: usize = 0;
    proof {
        assert(cs@.skip(0) =~= cs@);
        assert(out@.map_values(|v: Vec<char>| v@) =~= Seq::<Seq<char>>::empty());
    }
    loop
        invariant
            n == cs@.len(),
            cs@ == s@,
            i <= n,
            split_char(s@, c) == out@.map_values(|v: Vec<char>| v@) + split_char(cs@.skip(i as int), c),
        decreases n - i,
    {
        let ghost rest = cs@.skip(i as int);
        let ghost before = out@.map_values(|v: Vec<char>| v@);
        let k = find_char(&cs, i, n, c);
        proof {
            assert(cs@.subrange(i as int, n as int) =~= rest);
        }
        let piece = copy_range(&cs, i, k);
        out.push(piece);
        proof {
            assert(out@.map_values(|v: Vec<char>| v@) =~= before.push(cs@.subrange(i as int, k as int)));
        }
        if k == n {
            proof {
                assert(rest =~= cs@.subrange(i as int, k as int));
                assert(split_char(s@, c) =~= out@.map_values(|v: Vec<char>| v@));
            }
            return out;
        }
        proof {
            assert(rest.take(k - i) =~= cs@.subrange(i as int, k as int));
            assert(rest.skip(k - i + 1) =~= cs@.skip(k + 1));
            assert(before + (seq![cs@.subrange(i as int, k as int)] + split_char(cs@.skip(k + 1), c))
                =~= before.push(cs@.subrange(i as int, k as int)) + split_char(cs@.skip(k + 1), c));
        }
        i = k + 1;
    }
}

/// `parts` joined with `sep` between consecutive parts (`[String]::join`).
pub open spec fn join_spec(parts: Seq<Seq<char>>, sep: Seq<char>) -> Seq<char>
    decreases parts.len(),
{
    if parts.len() == 0 {
        Seq::empty()
    } else if parts.len() == 1 {
        parts[0]
    } else {
        join_spec(parts.drop_last(), sep) + sep + parts.last()
    }
}

pub fn join(parts: &Vec<String>, sep: &str) -> (r: String)
    ensures
        r@ == join_spec(parts@.map_values(|p: String| p@), sep@),
{
    let ghost ps = parts@.map_values(|p: String| p@);
    let mut m: Vec<char> = Vec::new();
    let mut i: usize = 0;
    while i < parts.len()
        invariant
            i <= parts@.len(),
            ps == parts@.map_values(|p: String| p@),
            m@ == join_spec(ps.take(i as int), sep@),
        decreases parts@.len() - i,
    {
        proof {
            assert(ps.take(i + 1).drop_last() =~= ps.take(i as int));
        }
        if i > 0 {
            push_str(&mut m, sep);
        }
        push_str(&mut m, parts[i].as_str());
        i = i + 1;
        proof {
            if i == 1 {
                assert(ps.take(1) =~= seq![ps[0]]);
                assert(m@ =~= join_spec(ps.take(1), sep@));
            }
        }
    }
    proof {
        assert(ps.take(i as int) =~= ps);
    }
    string_of(&m)
}

/// `str::parse::<usize>`: the `u64` reading when it fits.
pub open spec fn parse_usize_spec(s: Seq<char>) -> Option<usize> {
    match parse_u64_spec(s) {
        Some(v) => if v <= usize::MAX {
            Some(v as usize)
        } else {
            None
        },
        None => None,
    }
}

pub fn parse_usize(s: &str) -> (r: Option<usize>)
    ensures
        r == parse_usize_spec(s@),
{
    let cs = chars_of(s);
    match parse_u64(&cs) {
        Some(v) => if v <= usize::MAX as u64 {
            Some(v as usize)
        } else {
            None
        },
        None => None,
    }
}

// ---------------------------------------------------------------------
// Floating-point literal syntax
// ---------------------------------------------------------------------

pub open spec fn count_char(s: Seq<char>, c: char) -> nat
    decreases s.len(),
{
    if s.len() == 0 {
        0
    } else {
        count_char(s.drop_last(), c) + (if s.last() == c { 1nat } else { 0nat })
    }
}

pub open spec fn count_digits(s: Seq<char>) -> nat
    decreases s.len(),
{
    if s.len() == 0 {
        0
    } else {
        count_digits(s.drop_last()) + (if is_digit(s.last()) { 1nat } else { 0nat })
    }
}

/// Digits with at most one `.`, and at least one digit.
pub open spec fn mantissa_ok(m: Seq<char>) -> bool {
    &&& forall|i: int| 0 <= i < m.len() ==> is_digit(#[trigger] m[i]) || m[i] == '.'
    &&& count_char(m, '.') <= 1
    &&& count_digits(m) >= 1
}

/// An optional sign followed by one or more digits.
pub open spec fn exponent_ok(x: Seq<char>) -> bool {
    let d = if x.len() > 0 && (x[0] == '+' || x[0] == '-') { x.drop_first() } else { x };
    d.len() > 0 && all_digits(d)
}

pub open spec fn is_exp_marker(c: char) -> bool {
    c == 'e' || c == 'E'
}

/// Position of the first `e`/`E` (the length when there is none).
pub open spec fn exp_pos(b: Seq<char>) -> int
    decreases b.len(),
{
    if b.len() == 0 {
        0
    } else if is_exp_marker(b[0]) {
        0
    } else {
        1 + exp_pos(b.drop_first())
    }
}

pub open spec fn number_ok(b: Seq<char>) -> bool {
    let k = exp_pos(b);
    if k < b.len() {
        mantissa_ok(b.take(k)) && exponent_ok(b.skip(k + 1))
    } else {
        mantissa_ok(b)
    }
}

/// `s` equals the lowercase ASCII word `w` ignoring ASCII case.
pub open spec fn word_eq(s: Seq<char>, w: Seq<char>) -> bool {
    s.len() == w.len() && forall|i: int|
        0 <= i < s.len() ==> #[trigger] s[i] == w[i] || ('A' <= s[i] && s[i] <= 'Z' && s[i] as u32
            + 32 == w[i] as u32)
}

/// The grammar `str::parse::<f64>` documents:
/// `Sign? ( 'inf' | 'infinity' | 'nan' | Number )`, where
/// `Number ::= ( Digit+ | Digit+ '.' Digit* | Digit* '.' Digit+ ) Exp?` and
/// `Exp ::= [eE] Sign? Digit+`; the words are ASCII case-insensitive.
pub open spec fn float_literal(s: Seq<char>) -> bool {
    let body = if s.len() > 0 && (s[0] == '+' || s[0] == '-') { s.drop_first() } else { s };
    word_eq(body, seq!['i', 'n', 'f']) || word_eq(
        body,
        seq!['i', 'n', 'f', 'i', 'n', 'i', 't', 'y'],
    ) || word_eq(body, seq!['n', 'a', 'n']) || number_ok(body)
}

fn word_check(s: &Vec<char>, lo: usize, w: &Vec<char>) -> (b: bool)
    requires
        lo <= s@.len(),
    ensures
        b == word_eq(s@.skip(lo as int), w@),
{
    let ghost body = s@.skip(lo as int);
    let n = s.len();
    if n - lo != w.len() {
        return false;
    }
    let mut i: usize = 0;
    while i < w.len()
        invariant
            n == s@.len(),
            i <= w@.len(),
            s@.len() - lo == w@.len(),
            lo <= s@.len(),
            body == s@.skip(lo as int),
            forall|j: int|
                0 <= j < i ==> #[trigger] body[j] == w@[j] || ('A' <= body[j] && body[j] <= 'Z'
                    && body[j] as u32 + 32 == w@[j] as u32),
        decreases w@.len() - i,
    {
        let c = s[lo + i];
        let d = w[i];
        if !(c == d || ('A' <= c && c <= 'Z' && (c as u32) + 32 == (d as u32))) {
            proof {
                assert(body[i as int] == c);
            }
            return false;
        }
        i = i + 1;
    }
    true
}

fn mantissa_check(s: &Vec<char>, lo: usize, hi: usize) -> (b: bool)
    requires
        lo <= hi <= s@.len(),
    ensures
        b == mantissa_ok(s@.subrange(lo as int, hi as int)),
{
    let ghost m = s@.subrange(lo as int, hi as int);
    let mut dots: usize = 0;
    let mut digits: usize = 0;
    let mut j: usize = lo;
    proof {
        assert(m.take(0) =~= Seq::<char>::empty());
    }
    while j < hi
        invariant
            lo <= j <= hi <= s@.len(),
            m == s@.subrange(lo as int, hi as int),
            dots == count_char(m.take(j - lo), '.'),
            digits == count_digits(m.take(j - lo)),
            dots <= 1,
            digits <= j - lo,
            forall|i: int| 0 <= i < j - lo ==> is_digit(#[trigger] m[i]) || m[i] == '.',
        decreases hi - j,
    {
        let c = s[j];
        proof {
            assert(m[j - lo] == c);
            assert(m.take(j - lo + 1).drop_last() =~= m.take(j - lo));
        }
        if c == '.' {
            if dots == 1 {
                proof {
                    assert(count_char(m.take(j - lo + 1), '.') == 2);
                    lemma_count_char_prefix_mono(m, '.', j - lo + 1);
                }
                return false;
            }
            dots = dots + 1;
        } else if '0' <= c && c <= '9' {
            digits = digits + 1;
        } else {
            proof {
                assert(!(is_digit(m[j - lo]) || m[j - lo] == '.'));
            }
            return false;
        }
        j = j + 1;
    }
    proof {
        assert(m.take(j - lo) =~= m);
    }
    digits >= 1
}

proof fn lemma_count_char_prefix_mono(s: Seq<char>, c: char, i: int)
    requires
        0 <= i <= s.len(),
    ensures
        count_char(s.take(i), c) <= count_char(s, c),
    decreases s.len() - i,
{
    if i < s.len() {
        lemma_count_char_prefix_mono(s, c, i + 1);
        assert(s.take(i + 1).drop_last() =~= s.take(i));
    } else {
        assert(s.take(i) =~= s);
    }
}

fn digits_check(s: &Vec<char>, lo: usize) -> (b: bool)
    requires
        lo <= s@.len(),
    ensures
        b == (s@.skip(lo as int).len() > 0 && all_digits(s@.skip(lo as int))),
{
    let ghost d = s@.skip(lo as int);
    if lo == s.len() {
        return false;
    }
    let mut j: usize = lo;
    while j < s.len()
        invariant
            lo <= j <= s@.len(),
            d == s@.skip(lo as int),
            forall|i: int| 0 <= i < j - lo ==> #[trigger] is_digit(d[i]),
        decreases s@.len() - j,
    {
        let c = s[j];
        if !('0' <= c && c <= '9') {
            proof {
                assert(d[j - lo] == c);
                assert(!is_digit(d[j - lo]));
                assert(!all_digits(d));
            }
            return false;
        }
        j = j + 1;
    }
    true
}

/// Whether `str::parse::<f64>` accepts `s`, decided by the documented
/// grammar (`float_literal`).
pub fn is_float_literal(s: &Vec<char>) -> (b: bool)
    ensures
        b == float_literal(s@),
{
    let lo: usize = if s.len() > 0 && (s[0] == '+' || s[0] == '-') { 1 } else { 0 };
    let ghost body = s@.skip(lo as int);
    proof {
        if lo == 1 {
            assert(body =~= s@.drop_first());
        } else {
            assert(body =~= s@);
        }
    }
    let inf: Vec<char> = vec!['i', 'n', 'f'];
    let infinity: Vec<char> = vec!['i', 'n', 'f', 'i', 'n', 'i', 't', 'y'];
    let nan: Vec<char> = vec!['n', 'a', 'n'];
    proof {
        assert(inf@ =~= seq!['i', 'n', 'f']);
        assert(infinity@ =~= seq!['i', 'n', 'f', 'i', 'n', 'i', 't', 'y']);
        assert(nan@ =~= seq!['n', 'a', 'n']);
    }
    if word_check(s, lo, &inf) || word_check(s, lo, &infinity) || word_check(s, lo, &nan) {
        return true;
    }
    // Locate the first exponent marker.
    let mut k: usize = lo;
    while k < s.len() && !(s[k] == 'e' || s[k] == 'E')
        invariant
            lo <= k <= s@.len(),
            body == s@.skip(lo as int),
            exp_pos(body) == (k - lo) + exp_pos(s@.skip(k as int)),
        decreases s@.len() - k,
    {
        proof {
            assert(s@.skip(k as int).drop_first() =~= s@.skip(k + 1));
        }
        k = k + 1;
    }
    proof {
        if k < s.len() {
            assert(s@.skip(k as int)[0] == s@[k as int]);
        }
        assert(exp_pos(body) == k - lo);
        assert(body.take(k - lo) =~= s@.subrange(lo as int, k as int));
        if k < s.len() {
            assert(body.skip(k - lo + 1) =~= s@.skip(k + 1));
        } else {
            assert(body =~= s@.subrange(lo as int, k as int));
        }
    }
    if k < s.len() {
        if !mantissa_check(s, lo, k) {
            return false;
        }
        let e_lo: usize = if k + 1 < s.len() && (s[k + 1] == '+' || s[k + 1] == '-') {
            k + 2
        } else {
            k + 1
        };
        proof {
            let x = s@.skip(k + 1);
            if e_lo == k + 2 {
                assert(x.drop_first() =~= s@.skip(e_lo as int));
            } else {
                assert(x =~= s@.skip(e_lo as int));
            }
        }
        digits_check(s, e_lo)
    } else {
        mantissa_check(s, lo, k)
    }
}

} // verus!
