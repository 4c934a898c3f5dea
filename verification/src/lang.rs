//! The Crystal Language front end: a line-oriented language for resonance
//! experiments.
//!
//! ```text
//! # comment
//! MATERIAL optical_cavity
//! SEED 42
//! WRITE "hello world" 0.8
//! PULSE 0.5 0.5 0.05 1.0 2.0 0.0     # x y radius amplitude frequency phase
//! RESONATE 500
//! DREAM deep
//! ```
//!
//! This module turns program text into numbered statements and reports
//! the exact parse errors; executing a statement against the medium is
//! the caller's job. A line's text is what precedes its first `#`,
//! trimmed; blank results are skipped. A statement is tokens separated by
//! whitespace, where a double-quoted token may hold whitespace.

use vstd::prelude::*;
use crate::text::{
    is_ws, is_whitespace, index_of_char, lemma_index_of_char, lemma_index_of_char_is, find_char,
    copy_range, chars_of, string_of,
};
use crate::registry::strings_view;
use crate::engine::{Mechanism, mechanism_named, mechanism_for, words_spec};
use crate::dream::{DreamMode, dream_mode_named, dream_mode_for, opt_view};
use crate::text::{parse_u64, parse_u64_spec, float_literal, is_float_literal, str_eq, lowercase,
    uppercase, to_lower, to_upper, push_str};

verus! {

// ---------------------------------------------------------------------
// Errors
// ---------------------------------------------------------------------

/// A parse or runtime error, with the 1-based program line.
#[derive(Debug)]
pub enum LangError {
    Parse { line: usize, message: String },
    Runtime { line: usize, message: String },
}

pub enum LangErrorView {
    Parse { line: usize, message: Seq<char> },
    Runtime { line: usize, message: Seq<char> },
}

impl View for LangError {
    type V = LangErrorView;

    open spec fn view(&self) -> LangErrorView {
        match self {
            LangError::Parse { line, message } => LangErrorView::Parse { line: *line, message: message@ },
            LangError::Runtime { line, message } => LangErrorView::Runtime {
                line: *line,
                message: message@,
            },
        }
    }
}

pub open spec fn parse_error(line: usize, message: Seq<char>) -> LangErrorView {
    LangErrorView::Parse { line, message }
}

/// `line <line>: <message>`.
pub open spec fn error_text(e: LangErrorView) -> Seq<char> {
    match e {
        LangErrorView::Parse { line, message } => "line "@ + crate::text::dec(line as nat) + ": "@
            + message,
        LangErrorView::Runtime { line, message } => "line "@ + crate::text::dec(line as nat)
            + ": "@ + message,
    }
}

impl LangError {
    /// The error as displayed: `line <line>: <message>`.
    pub fn to_display_string(&self) -> (r: String)
        ensures
            r@ == error_text(self@),
    {
        let (line, message) = match self {
            LangError::Parse { line, message } => (*line, message),
            LangError::Runtime { line, message } => (*line, message),
        };
        let mut m = chars_of("line ");
        let d = crate::text::decimal(line as u64);
        crate::text::push_chars(&mut m, &d);
        crate::text::push_str(&mut m, ": ");
        crate::text::push_str(&mut m, message.as_str());
        string_of(&m)
    }
}

// ---------------------------------------------------------------------
// Tokens
// ---------------------------------------------------------------------

/// Length of the leading run of non-whitespace characters.
pub open spec fn word_len(s: Seq<char>) -> nat
    decreases s.len(),
{
    if s.len() == 0 || is_ws(s[0]) {
        0
    } else {
        1 + word_len(s.drop_first())
    }
}

pub proof fn lemma_word_len(s: Seq<char>)
    ensures
        word_len(s) <= s.len(),
        s.len() > 0 && !is_ws(s[0]) ==> word_len(s) >= 1,
    decreases s.len(),
{
    if s.len() > 0 && !is_ws(s[0]) {
        lemma_word_len(s.drop_first());
    }
}

proof fn lemma_word_len_is(s: Seq<char>, k: int)
    requires
        0 <= k <= s.len(),
        forall|j: int| 0 <= j < k ==> !is_ws(#[trigger] s[j]),
        k == s.len() || is_ws(s[k]),
    ensures
        word_len(s) == k,
    decreases s.len(),
{
    if s.len() > 0 && k > 0 {
        assert forall|j: int| 0 <= j < k - 1 implies !is_ws(#[trigger] s.drop_first()[j]) by {
            assert(s.drop_first()[j] == s[j + 1]);
        }
        lemma_word_len_is(s.drop_first(), k - 1);
    }
}

/// The tokens of a statement: whitespace separates tokens; a `"` starts
/// a token that runs to the next `"` (neither quote is part of it); any
/// other character starts a token that runs to the next whitespace.
/// `None` when a quoted token is never closed.
pub open spec fn tokens_spec(s: Seq<char>) -> Option<Seq<Seq<char>>>
    decreases s.len(),
{
    if s.len() == 0 {
        Some(Seq::empty())
    } else if is_ws(s[0]) {
        tokens_spec(s.drop_first())
    } else if s[0] == '"' {
        match index_of_char(s.drop_first(), '"') {
            None => None,
            Some(q) => {
                proof {
                    lemma_index_of_char(s.drop_first(), '"');
                }
                match tokens_spec(s.skip(q as int + 2)) {
                    Some(t) => Some(seq![s.subrange(1, q as int + 1)] + t),
                    None => None,
                }
            },
        }
    } else {
        proof {
            lemma_word_len(s);
        }
        match tokens_spec(s.skip(word_len(s) as int)) {
            Some(t) => Some(seq![s.take(word_len(s) as int)] + t),
            None => None,
        }
    }
}

pub open spec fn prepend_tokens(acc: Seq<Seq<char>>, rest: Option<Seq<Seq<char>>>) -> Option<
    Seq<Seq<char>>,
> {
    match rest {
        Some(t) => Some(acc + t),
        None => None,
    }
}

/// What `tokenize` returns for a statement's text.
pub open spec fn tokenize_spec(text: Seq<char>, line: usize) -> Result<Seq<Seq<char>>, LangErrorView> {
    match tokens_spec(text) {
        None => Err(parse_error(line, "unterminated string"@)),
        Some(t) => if t.len() == 0 {
            Err(parse_error(line, "empty statement"@))
        } else {
            Ok(t)
        },
    }
}

/// Tokenize a statement, honoring double-quoted strings.
pub fn tokenize(text: &str, line: usize) -> (r: Result<Vec<String>, LangError>)
    ensures
        match r {
            Ok(v) => tokenize_spec(text@, line) == Ok::<Seq<Seq<char>>, LangErrorView>(
                strings_view(v@),
            ),
            Err(e) => tokenize_spec(text@, line) == Err::<Seq<Seq<char>>, LangErrorView>(e@),
        },
{
    let cs = chars_of(text);
    let n = cs.len();
    let mut tokens: Vec<String> = Vec::new();
    let mut i: usize = 0;
    proof {
        assert(cs@.skip(0) =~= cs@);
        assert(strings_view(tokens@) =~= Seq::<Seq<char>>::empty());
    }
    while i < n
        invariant
            n == cs@.len(),
            cs@ == text@,
            i <= n,
            tokens_spec(cs@) == prepend_tokens(strings_view(tokens@), tokens_spec(cs@.skip(i as int))),
        decreases n - i,
    {
        let ghost rest = cs@.skip(i as int);
        let c = cs[i];
        proof {
            assert(rest[0] == c);
        }
        if is_whitespace(c) {
            proof {
                assert(rest.drop_first() =~= cs@.skip(i + 1));
            }
            i = i + 1;
        } else if c == '"' {
            let j = find_char(&cs, i + 1, n, '"');
            proof {
                assert(cs@.subrange(i + 1, n as int) =~= rest.drop_first());
            }
            if j == n {
                return Err(LangError::Parse { line, message: string_of(&chars_of("unterminated string")) });
            }
            let tok = copy_range(&cs, i + 1, j);
            let ghost before = strings_view(tokens@);
            tokens.push(string_of(&tok));
            proof {
                let q = (j - (i + 1)) as nat;
                assert(rest.skip(q as int + 2) =~= cs@.skip(j + 1));
                assert(rest.subrange(1, q as int + 1) =~= cs@.subrange(i + 1, j as int));
                assert(strings_view(tokens@) =~= before.push(tok@));
                assert(forall|t: Seq<Seq<char>>| before + (seq![tok@] + t) =~= before.push(tok@) + t);
            }
            i = j + 1;
        } else {
            let mut j = i;
            while j < n && !is_whitespace(cs[j])
                invariant
                    i <= j <= n,
                    n == cs@.len(),
                    forall|k: int| i <= k < j ==> !is_ws(#[trigger] cs@[k]),
                decreases n - j,
            {
                j = j + 1;
            }
            proof {
                assert forall|k: int| 0 <= k < j - i implies !is_ws(#[trigger] rest[k]) by {
                    assert(rest[k] == cs@[i + k]);
                }
                if j < n {
                    assert(rest[j - i] == cs@[j as int]);
                }
                lemma_word_len_is(rest, j - i);
            }
            let tok = copy_range(&cs, i, j);
            let ghost before = strings_view(tokens@);
            tokens.push(string_of(&tok));
            proof {
                let w = (j - i) as int;
                assert(rest.skip(w) =~= cs@.skip(j as int));
                assert(rest.take(w) =~= cs@.subrange(i as int, j as int));
                assert(strings_view(tokens@) =~= before.push(tok@));
                assert(forall|t: Seq<Seq<char>>| before + (seq![tok@] + t) =~= before.push(tok@) + t);
            }
            i = j;
        }
    }
    proof {
        assert(cs@.skip(i as int) =~= Seq::<char>::empty());
        assert(strings_view(tokens@) + Seq::<Seq<char>>::empty() =~= strings_view(tokens@));
    }
    if tokens.len() == 0 {
        return Err(LangError::Parse { line, message: string_of(&chars_of("empty statement")) });
    }
    Ok(tokens)
}

// ---------------------------------------------------------------------
// Arguments
// ---------------------------------------------------------------------

/// Argument `i`, or `missing argument: <what>`.
pub open spec fn arg_spec(args: Seq<Seq<char>>, i: int, line: usize, what: Seq<char>) -> Result<
    Seq<char>,
    LangErrorView,
> {
    if 0 <= i < args.len() {
        Ok(args[i])
    } else {
        Err(parse_error(line, "missing argument: "@ + what))
    }
}

/// Argument `i` as an unsigned integer (as `str::parse::<u64>` reads it),
/// or `missing argument: number` / `not a number: <arg>`.
pub open spec fn num_spec(args: Seq<Seq<char>>, i: int, line: usize) -> Result<u64, LangErrorView> {
    match arg_spec(args, i, line, "number"@) {
        Err(e) => Err(e),
        Ok(s) => match parse_u64_spec(s) {
            Some(v) => Ok(v),
            None => Err(parse_error(line, "not a number: "@ + s)),
        },
    }
}

/// Argument `i` when it is a floating-point literal (as
/// `str::parse::<f64>` accepts it), with the errors of `num_spec`.
pub open spec fn float_spec(args: Seq<Seq<char>>, i: int, line: usize) -> Result<
    Seq<char>,
    LangErrorView,
> {
    match arg_spec(args, i, line, "number"@) {
        Err(e) => Err(e),
        Ok(s) => if float_literal(s) {
            Ok(s)
        } else {
            Err(parse_error(line, "not a number: "@ + s))
        },
    }
}

/// Argument `i` when it is present and a floating-point literal.
pub open spec fn opt_float_spec(args: Seq<Seq<char>>, i: int) -> Option<Seq<char>> {
    if 0 <= i < args.len() && float_literal(args[i]) {
        Some(args[i])
    } else {
        None
    }
}

pub fn arg(args: &[String], i: usize, line: usize, what: &str) -> (r: Result<String, LangError>)
    ensures
        match r {
            Ok(s) => arg_spec(strings_view(args@), i as int, line, what@) == Ok::<
                Seq<char>,
                LangErrorView,
            >(s@),
            Err(e) => arg_spec(strings_view(args@), i as int, line, what@) == Err::<
                Seq<char>,
                LangErrorView,
            >(e@),
        },
{
    if i < args.len() {
        Ok(args[i].clone())
    } else {
        let mut m = chars_of("missing argument: ");
        push_str(&mut m, what);
        Err(LangError::Parse { line, message: string_of(&m) })
    }
}

fn not_a_number(line: usize, s: &str) -> (e: LangError)
    ensures
        e@ == parse_error(line, "not a number: "@ + s@),
{
    let mut m = chars_of("not a number: ");
    push_str(&mut m, s);
    LangError::Parse { line, message: string_of(&m) }
}

pub fn parse_num(args: &[String], i: usize, line: usize) -> (r: Result<u64, LangError>)
    ensures
        match r {
            Ok(v) => num_spec(strings_view(args@), i as int, line) == Ok::<u64, LangErrorView>(v),
            Err(e) => num_spec(strings_view(args@), i as int, line) == Err::<u64, LangErrorView>(
                e@,
            ),
        },
{
    let s = arg(args, i, line, "number")?;
    let cs = chars_of(s.as_str());
    match parse_u64(&cs) {
        Some(v) => Ok(v),
        None => Err(not_a_number(line, s.as_str())),
    }
}

pub fn parse_float(args: &[String], i: usize, line: usize) -> (r: Result<String, LangError>)
    ensures
        match r {
            Ok(s) => float_spec(strings_view(args@), i as int, line) == Ok::<
                Seq<char>,
                LangErrorView,
            >(s@),
            Err(e) => float_spec(strings_view(args@), i as int, line) == Err::<
                Seq<char>,
                LangErrorView,
            >(e@),
        },
{
    let s = arg(args, i, line, "number")?;
    let cs = chars_of(s.as_str());
    if is_float_literal(&cs) {
        Ok(s)
    } else {
        Err(not_a_number(line, s.as_str()))
    }
}

pub fn opt_num(args: &[String], i: usize) -> (r: Option<String>)
    ensures
        opt_string_view(r) == opt_float_spec(strings_view(args@), i as int),
{
    if i < args.len() {
        let cs = chars_of(args[i].as_str());
        if is_float_literal(&cs) {
            return Some(args[i].clone());
        }
    }
    None
}

pub open spec fn opt_string_view(o: Option<String>) -> Option<Seq<char>> {
    match o {
        Some(s) => Some(s@),
        None => None,
    }
}

// ---------------------------------------------------------------------
// Statements
// ---------------------------------------------------------------------

/// A parsed statement. Floating-point arguments are carried as their
/// validated literal text.
pub enum Statement {
    Material { id: String },
    Seed { seed: u64 },
    Temperature { kelvin: String },
    Noise { level: String },
    Ablate { mechanism: Mechanism, name: String, enabled: bool },
    Write { text: String, importance: Option<String> },
    Pulse {
        x: String,
        y: String,
        radius: Option<String>,
        amplitude: Option<String>,
        frequency: Option<String>,
        phase: Option<String>,
    },
    /// `WAIT n` and `RESONATE n`.
    Resonate { steps: u64 },
    Probe { text: String },
    Dream { mode: DreamMode },
    Stabilize,
    Recall { query: String, top_k: Option<String> },
    Merge { a: String, b: String },
    Split { id: String },
}

pub enum StatementView {
    Material { id: Seq<char> },
    Seed { seed: u64 },
    Temperature { kelvin: Seq<char> },
    Noise { level: Seq<char> },
    Ablate { mechanism: Mechanism, name: Seq<char>, enabled: bool },
    Write { text: Seq<char>, importance: Option<Seq<char>> },
    Pulse {
        x: Seq<char>,
        y: Seq<char>,
        radius: Option<Seq<char>>,
        amplitude: Option<Seq<char>>,
        frequency: Option<Seq<char>>,
        phase: Option<Seq<char>>,
    },
    Resonate { steps: u64 },
    Probe { text: Seq<char> },
    Dream { mode: DreamMode },
    Stabilize,
    Recall { query: Seq<char>, top_k: Option<Seq<char>> },
    Merge { a: Seq<char>, b: Seq<char> },
    Split { id: Seq<char> },
}

impl View for Statement {
    type V = StatementView;

    open spec fn view(&self) -> StatementView {
        match self {
            Statement::Material { id } => StatementView::Material { id: id@ },
            Statement::Seed { seed } => StatementView::Seed { seed: *seed },
            Statement::Temperature { kelvin } => StatementView::Temperature { kelvin: kelvin@ },
            Statement::Noise { level } => StatementView::Noise { level: level@ },
            Statement::Ablate { mechanism, name, enabled } => StatementView::Ablate {
                mechanism: *mechanism,
                name: name@,
                enabled: *enabled,
            },
            Statement::Write { text, importance } => StatementView::Write {
                text: text@,
                importance: opt_string_view(*importance),
            },
            Statement::Pulse { x, y, radius, amplitude, frequency, phase } => StatementView::Pulse {
                x: x@,
                y: y@,
                radius: opt_string_view(*radius),
                amplitude: opt_string_view(*amplitude),
                frequency: opt_string_view(*frequency),
                phase: opt_string_view(*phase),
            },
            Statement::Resonate { steps } => StatementView::Resonate { steps: *steps },
            Statement::Probe { text } => StatementView::Probe { text: text@ },
            Statement::Dream { mode } => StatementView::Dream { mode: *mode },
            Statement::Stabilize => StatementView::Stabilize,
            Statement::Recall { query, top_k } => StatementView::Recall {
                query: query@,
                top_k: opt_string_view(*top_k),
            },
            Statement::Merge { a, b } => StatementView::Merge { a: a@, b: b@ },
            Statement::Split { id } => StatementView::Split { id: id@ },
        }
    }
}

/// `ABLATE` once its two arguments are lowercased: the switch must read
/// `on` or `off` (checked first), the mechanism must be known.
pub open spec fn ablate_spec(mechanism: Seq<char>, switch: Seq<char>, line: usize) -> Result<
    StatementView,
    LangErrorView,
> {
    if switch == "on"@ || switch == "off"@ {
        match mechanism_named(mechanism) {
            Some(m) => Ok(StatementView::Ablate { mechanism: m, name: mechanism, enabled: switch == "on"@ }),
            None => Err(parse_error(line, "unknown mechanism: "@ + mechanism)),
        }
    } else {
        Err(parse_error(line, "expected on|off, got "@ + switch))
    }
}

/// `DREAM` once its optional argument is lowercased.
pub open spec fn dream_spec(mode: Option<Seq<char>>, line: usize) -> Result<StatementView, LangErrorView> {
    match dream_mode_named(mode) {
        Ok(m) => Ok(StatementView::Dream { mode: m }),
        Err(msg) => Err(parse_error(line, msg)),
    }
}

/// The statement an (uppercased) op and its arguments denote.
pub open spec fn statement_spec(op: Seq<char>, args: Seq<Seq<char>>, line: usize) -> Result<
    StatementView,
    LangErrorView,
> {
    if op == "MATERIAL"@ {
        match arg_spec(args, 0, line, "material id"@) {
            Ok(id) => Ok(StatementView::Material { id }),
            Err(e) => Err(e),
        }
    } else if op == "SEED"@ {
        match num_spec(args, 0, line) {
            Ok(seed) => Ok(StatementView::Seed { seed }),
            Err(e) => Err(e),
        }
    } else if op == "TEMPERATURE"@ {
        match float_spec(args, 0, line) {
            Ok(kelvin) => Ok(StatementView::Temperature { kelvin }),
            Err(e) => Err(e),
        }
    } else if op == "NOISE"@ {
        match float_spec(args, 0, line) {
            Ok(level) => Ok(StatementView::Noise { level }),
            Err(e) => Err(e),
        }
    } else if op == "ABLATE"@ {
        match arg_spec(args, 0, line, "mechanism"@) {
            Err(e) => Err(e),
            Ok(m) => match arg_spec(args, 1, line, "on|off"@) {
                Err(e) => Err(e),
                Ok(sw) => ablate_spec(lowercase(m), lowercase(sw), line),
            },
        }
    } else if op == "WRITE"@ {
        match arg_spec(args, 0, line, "text"@) {
            Ok(text) => Ok(StatementView::Write { text, importance: opt_float_spec(args, 1) }),
            Err(e) => Err(e),
        }
    } else if op == "PULSE"@ {
        match float_spec(args, 0, line) {
            Err(e) => Err(e),
            Ok(x) => match float_spec(args, 1, line) {
                Err(e) => Err(e),
                Ok(y) => Ok(
                    StatementView::Pulse {
                        x,
                        y,
                        radius: opt_float_spec(args, 2),
                        amplitude: opt_float_spec(args, 3),
                        frequency: opt_float_spec(args, 4),
                        phase: opt_float_spec(args, 5),
                    },
                ),
            },
        }
    } else if op == "WAIT"@ || op == "RESONATE"@ {
        match num_spec(args, 0, line) {
            Ok(steps) => Ok(StatementView::Resonate { steps }),
            Err(e) => Err(e),
        }
    } else if op == "PROBE"@ {
        match arg_spec(args, 0, line, "text"@) {
            Ok(text) => Ok(StatementView::Probe { text }),
            Err(e) => Err(e),
        }
    } else if op == "DREAM"@ {
        dream_spec(
            if args.len() > 0 {
                Some(lowercase(args[0]))
            } else {
                None
            },
            line,
        )
    } else if op == "STABILIZE"@ {
        Ok(StatementView::Stabilize)
    } else if op == "RECALL"@ {
        match arg_spec(args, 0, line, "query"@) {
            Ok(query) => Ok(StatementView::Recall { query, top_k: opt_float_spec(args, 1) }),
            Err(e) => Err(e),
        }
    } else if op == "MERGE"@ {
        match arg_spec(args, 0, line, "primitive id"@) {
            Err(e) => Err(e),
            Ok(a) => match arg_spec(args, 1, line, "primitive id"@) {
                Err(e) => Err(e),
                Ok(b) => Ok(StatementView::Merge { a, b }),
            },
        }
    } else if op == "SPLIT"@ {
        match arg_spec(args, 0, line, "primitive id"@) {
            Ok(id) => Ok(StatementView::Split { id }),
            Err(e) => Err(e),
        }
    } else {
        Err(parse_error(line, "unknown op: "@ + op))
    }
}

fn parse_err(line: usize, prefix: &str, s: &str) -> (e: LangError)
    ensures
        e@ == parse_error(line, prefix@ + s@),
{
    let mut m = chars_of(prefix);
    push_str(&mut m, s);
    LangError::Parse { line, message: string_of(&m) }
}

/// `ABLATE` on lowercased arguments.
pub fn ablate_statement(mechanism: &str, switch: &str, line: usize) -> (r: Result<Statement, LangError>)
    ensures
        match r {
            Ok(st) => ablate_spec(mechanism@, switch@, line) == Ok::<StatementView, LangErrorView>(st@),
            Err(e) => ablate_spec(mechanism@, switch@, line) == Err::<StatementView, LangErrorView>(e@),
        },
{
    let on = str_eq(switch, "on");
    if !on && !str_eq(switch, "off") {
        return Err(parse_err(line, "expected on|off, got ", switch));
    }
    match mechanism_for(mechanism) {
        Some(m) => Ok(Statement::Ablate { mechanism: m, name: string_of(&chars_of(mechanism)), enabled: on }),
        None => Err(parse_err(line, "unknown mechanism: ", mechanism)),
    }
}

/// `DREAM` on its lowercased optional argument.
pub fn dream_statement(mode: Option<&str>, line: usize) -> (r: Result<Statement, LangError>)
    ensures
        match r {
            Ok(st) => dream_spec(opt_view(mode), line) == Ok::<StatementView, LangErrorView>(st@),
            Err(e) => dream_spec(opt_view(mode), line) == Err::<StatementView, LangErrorView>(e@),
        },
{
    match dream_mode_for(mode) {
        Ok(m) => Ok(Statement::Dream { mode: m }),
        Err(msg) => Err(LangError::Parse { line, message: msg }),
    }
}

/// The statement an (uppercased) op and its arguments denote.
pub fn statement_for(op: &str, args: &[String], line: usize) -> (r: Result<Statement, LangError>)
    ensures
        match r {
            Ok(st) => statement_spec(op@, strings_view(args@), line) == Ok::<
                StatementView,
                LangErrorView,
            >(st@),
            Err(e) => statement_spec(op@, strings_view(args@), line) == Err::<
                StatementView,
                LangErrorView,
            >(e@),
        },
{
    let ghost a = strings_view(args@);
    if str_eq(op, "MATERIAL") {
        let id = arg(args, 0, line, "material id")?;
        Ok(Statement::Material { id })
    } else if str_eq(op, "SEED") {
        let seed = parse_num(args, 0, line)?;
        Ok(Statement::Seed { seed })
    } else if str_eq(op, "TEMPERATURE") {
        let kelvin = parse_float(args, 0, line)?;
        Ok(Statement::Temperature { kelvin })
    } else if str_eq(op, "NOISE") {
        let level = parse_float(args, 0, line)?;
        Ok(Statement::Noise { level })
    } else if str_eq(op, "ABLATE") {
        let m = arg(args, 0, line, "mechanism")?;
        let sw = arg(args, 1, line, "on|off")?;
        let m_lower = to_lower(m.as_str());
        let sw_lower = to_lower(sw.as_str());
        ablate_statement(m_lower.as_str(), sw_lower.as_str(), line)
    } else if str_eq(op, "WRITE") {
        let text = arg(args, 0, line, "text")?;
        Ok(Statement::Write { text, importance: opt_num(args, 1) })
    } else if str_eq(op, "PULSE") {
        let x = parse_float(args, 0, line)?;
        let y = parse_float(args, 1, line)?;
        Ok(
            Statement::Pulse {
                x,
                y,
                radius: opt_num(args, 2),
                amplitude: opt_num(args, 3),
                frequency: opt_num(args, 4),
                phase: opt_num(args, 5),
            },
        )
    } else if str_eq(op, "WAIT") || str_eq(op, "RESONATE") {
        let steps = parse_num(args, 0, line)?;
        Ok(Statement::Resonate { steps })
    } else if str_eq(op, "PROBE") {
        let text = arg(args, 0, line, "text")?;
        Ok(Statement::Probe { text })
    } else if str_eq(op, "DREAM") {
        if args.len() > 0 {
            let lower = to_lower(args[0].as_str());
            dream_statement(Some(lower.as_str()), line)
        } else {
            dream_statement(None, line)
        }
    } else if str_eq(op, "STABILIZE") {
        Ok(Statement::Stabilize)
    } else if str_eq(op, "RECALL") {
        let query = arg(args, 0, line, "query")?;
        Ok(Statement::Recall { query, top_k: opt_num(args, 1) })
    } else if str_eq(op, "MERGE") {
        let a = arg(args, 0, line, "primitive id")?;
        let b = arg(args, 1, line, "primitive id")?;
        Ok(Statement::Merge { a, b })
    } else if str_eq(op, "SPLIT") {
        let id = arg(args, 0, line, "primitive id")?;
        Ok(Statement::Split { id })
    } else {
        Err(parse_err(line, "unknown op: ", op))
    }
}

/// What `parse_statement` yields for a statement's text: the uppercased
/// op and the statement, or the first error.
pub open spec fn parse_statement_spec(text: Seq<char>, line: usize) -> Result<
    (Seq<char>, StatementView),
    LangErrorView,
> {
    match tokenize_spec(text, line) {
        Err(e) => Err(e),
        Ok(t) => match statement_spec(uppercase(t[0]), t.drop_first(), line) {
            Ok(st) => Ok((uppercase(t[0]), st)),
            Err(e) => Err(e),
        },
    }
}

/// Parse one statement (a program line's text) into its uppercased op
/// and the statement.
pub fn parse_statement(line: usize, text: &str) -> (r: Result<(String, Statement), LangError>)
    ensures
        match r {
            Ok((op, st)) => parse_statement_spec(text@, line) == Ok::<
                (Seq<char>, StatementView),
                LangErrorView,
            >((op@, st@)),
            Err(e) => parse_statement_spec(text@, line) == Err::<
                (Seq<char>, StatementView),
                LangErrorView,
            >(e@),
        },
{
    let tokens = tokenize(text, line)?;
    let op = to_upper(tokens[0].as_str());
    let mut args: Vec<String> = Vec::new();
    let mut k: usize = 1;
    while k < tokens.len()
        invariant
            1 <= k <= tokens@.len(),
            strings_view(args@) == strings_view(tokens@).subrange(1, k as int),
        decreases tokens@.len() - k,
    {
        let ghost prev = strings_view(args@);
        let t = tokens[k].clone();
        args.push(t);
        k = k + 1;
        proof {
            assert(strings_view(args@) =~= prev.push(tokens@[k - 1]@));
            assert(strings_view(tokens@).subrange(1, k as int) =~= strings_view(tokens@).subrange(
                1,
                k - 1,
            ).push(tokens@[k - 1]@));
        }
    }
    proof {
        assert(strings_view(tokens@).subrange(1, k as int) =~= strings_view(tokens@).drop_first());
    }
    let st = statement_for(op.as_str(), args.as_slice(), line)?;
    Ok((op, st))
}

// ---------------------------------------------------------------------
// Program lines
// ---------------------------------------------------------------------

/// A line's statement text: what precedes its first `#`, trimmed.
pub open spec fn line_text(raw: Seq<char>) -> Seq<char> {
    crate::text::trim_seq(
        match index_of_char(raw, '#') {
            Some(h) => raw.take(h as int),
            None => raw,
        },
    )
}

/// The numbered statement texts of a program whose first line is
/// `first`: lines are separated by `\n`, and lines whose text is empty
/// are skipped.
pub open spec fn program_lines_from(s: Seq<char>, first: nat) -> Seq<(nat, Seq<char>)>
    decreases s.len(),
{
    let piece = match index_of_char(s, '\n') {
        Some(k) => s.take(k as int),
        None => s,
    };
    let head = if line_text(piece).len() > 0 {
        seq![(first, line_text(piece))]
    } else {
        Seq::empty()
    };
    match index_of_char(s, '\n') {
        Some(k) => {
            proof {
                lemma_index_of_char(s, '\n');
            }
            head + program_lines_from(s.skip(k as int + 1), first + 1)
        },
        None => head,
    }
}

pub open spec fn numbered_view(v: Seq<(usize, String)>) -> Seq<(nat, Seq<char>)> {
    v.map_values(|p: (usize, String)| (p.0 as nat, p.1@))
}

/// The statement texts of a program with their 1-based line numbers.
pub fn program_lines(source: &str) -> (r: Vec<(usize, String)>)
    requires
        source@.len() < usize::MAX,
    ensures
        numbered_view(r@) == program_lines_from(source@, 1),
{
    let cs = chars_of(source);
    let n = cs.len();
    let mut out: Vec<(usize, String)> = Vec::new();
    let mut i: usize = 0;
    let mut line: usize = 1;
    proof {
        assert(cs@.skip(0) =~= cs@);
        assert(numbered_view(out@) =~= Seq::<(nat, Seq<char>)>::empty());
    }
    loop
        invariant
            n == cs@.len(),
            n < usize::MAX,
            cs@ == source@,
            i <= n,
            1 <= line <= i + 1,
            program_lines_from(cs@, 1) == numbered_view(out@) + program_lines_from(
                cs@.skip(i as int),
                line as nat,
            ),
        decreases n - i,
    {
        let ghost s = cs@.skip(i as int);
        let k = find_char(&cs, i, n, '\n');
        proof {
            assert(cs@.subrange(i as int, n as int) =~= s);
        }
        let h = find_char(&cs, i, k, '#');
        let raw = copy_range(&cs, i, h);
        let text = crate::text::trim(&raw);
        let ghost piece = if k < n { s.take(k - i) } else { s };
        proof {
            assert(cs@.subrange(i as int, k as int) =~= piece);
            if h < k {
                assert(piece.take(h - i) =~= raw@);
            } else {
                assert(piece =~= raw@);
            }
            assert(line_text(piece) == text@);
        }
        let ghost before = numbered_view(out@);
        if text.len() > 0 {
            out.push((line, string_of(&text)));
            proof {
                assert(numbered_view(out@) =~= before + seq![(line as nat, text@)]);
            }
        } else {
            proof {
                assert(numbered_view(out@) =~= before + Seq::<(nat, Seq<char>)>::empty());
            }
        }
        if k == n {
            proof {
                assert(program_lines_from(s, line as nat) == numbered_view(out@).subrange(
                    before.len() as int,
                    numbered_view(out@).len() as int,
                ));
                assert(program_lines_from(cs@, 1) =~= numbered_view(out@));
            }
            return out;
        }
        proof {
            assert(s.skip(k - i + 1) =~= cs@.skip(k + 1));
            assert(forall|t: Seq<(nat, Seq<char>)>| #![auto] (before + (numbered_view(out@).subrange(before.len() as int, numbered_view(out@).len() as int) + t)) =~= numbered_view(out@) + t);
        }
        i = k + 1;
        line = line + 1;
    }
}

/// Program lines come out in order: every listed text is non-empty, and
/// line numbers start at `first` or later and strictly increase.
pub proof fn lemma_program_lines_ordered(s: Seq<char>, first: nat)
    ensures
        forall|k: int|
            0 <= k < program_lines_from(s, first).len() ==> (#[trigger] program_lines_from(
                s,
                first,
            )[k]).1.len() > 0 && program_lines_from(s, first)[k].0 >= first,
        forall|k: int, l: int|
            0 <= k < l < program_lines_from(s, first).len() ==> (#[trigger] program_lines_from(
                s,
                first,
            )[k]).0 < (#[trigger] program_lines_from(s, first)[l]).0,
    decreases s.len(),
{
    let out = program_lines_from(s, first);
    let piece = match index_of_char(s, '\n') {
        Some(k) => s.take(k as int),
        None => s,
    };
    let head = if line_text(piece).len() > 0 {
        seq![(first, line_text(piece))]
    } else {
        Seq::empty()
    };
    match index_of_char(s, '\n') {
        Some(k) => {
            lemma_index_of_char(s, '\n');
            let rest = program_lines_from(s.skip(k as int + 1), first + 1);
            lemma_program_lines_ordered(s.skip(k as int + 1), first + 1);
            assert(out == head + rest);
            assert forall|a: int| 0 <= a < out.len() implies (#[trigger] out[a]).1.len() > 0 && out[a].0
                >= first by {
                if a >= head.len() {
                    assert(out[a] == rest[a - head.len()]);
                }
            }
            assert forall|a: int, b: int| 0 <= a < b < out.len() implies (#[trigger] out[a]).0 < (
            #[trigger] out[b]).0 by {
                if a >= head.len() {
                    assert(out[a] == rest[a - head.len()]);
                    assert(out[b] == rest[b - head.len()]);
                } else {
                    assert(out[b] == rest[b - head.len()]);
                }
            }
        },
        None => {},
    }
}


/// Without double quotes, tokenizing is splitting on whitespace: the
/// tokens are the whitespace-separated words, and a statement is empty
/// exactly when it has no word.
pub proof fn lemma_quote_free_tokens(s: Seq<char>, line: usize)
    requires
        forall|i: int| 0 <= i < s.len() ==> s[i] != '"',
    ensures
        tokens_spec(s) == Some(words_spec(s)),
        tokenize_spec(s, line) == (if words_spec(s).len() == 0 {
            Err::<Seq<Seq<char>>, LangErrorView>(parse_error(line, "empty statement"@))
        } else {
            Ok(words_spec(s))
        }),
    decreases s.len(),
{
    if s.len() > 0 {
        if is_ws(s[0]) {
            let t = s.drop_first();
            assert forall|i: int| 0 <= i < t.len() implies t[i] != '"' by {
                assert(t[i] == s[i + 1]);
            }
            lemma_quote_free_tokens(t, line);
        } else {
            lemma_word_len(s);
            let t = s.skip(word_len(s) as int);
            assert forall|i: int| 0 <= i < t.len() implies t[i] != '"' by {
                assert(t[i] == s[i + word_len(s)]);
            }
            lemma_quote_free_tokens(t, line);
        }
    }
}


/// `WRITE text [importance]`: the first argument is the text and the
/// second, when it is a number, the importance; with no number there the
/// importance is left to its default. Arguments past the second are
/// ignored. Without any argument the text is missing.
pub proof fn lemma_write_arguments(args: Seq<Seq<char>>, line: usize)
    ensures
        args.len() >= 1 ==> statement_spec("WRITE"@, args, line) == Ok::<StatementView, LangErrorView>(
            StatementView::Write {
                text: args[0],
                importance: if args.len() >= 2 && float_literal(args[1]) {
                    Some(args[1])
                } else {
                    None
                },
            },
        ),
        args.len() == 0 ==> statement_spec("WRITE"@, args, line) is Err,
{
    lemma_ops_distinct();
}


/// The statement keywords are pairwise different.
proof fn lemma_ops_distinct()
    ensures
        "MATERIAL"@ != "SEED"@,
        "MATERIAL"@ != "TEMPERATURE"@,
        "MATERIAL"@ != "NOISE"@,
        "MATERIAL"@ != "ABLATE"@,
        "MATERIAL"@ != "WRITE"@,
        "MATERIAL"@ != "PULSE"@,
        "MATERIAL"@ != "WAIT"@,
        "MATERIAL"@ != "RESONATE"@,
        "MATERIAL"@ != "PROBE"@,
        "MATERIAL"@ != "DREAM"@,
        "MATERIAL"@ != "STABILIZE"@,
        "MATERIAL"@ != "RECALL"@,
        "MATERIAL"@ != "MERGE"@,
        "MATERIAL"@ != "SPLIT"@,
        "SEED"@ != "TEMPERATURE"@,
        "SEED"@ != "NOISE"@,
        "SEED"@ != "ABLATE"@,
        "SEED"@ != "WRITE"@,
        "SEED"@ != "PULSE"@,
        "SEED"@ != "WAIT"@,
        "SEED"@ != "RESONATE"@,
        "SEED"@ != "PROBE"@,
        "SEED"@ != "DREAM"@,
        "SEED"@ != "STABILIZE"@,
        "SEED"@ != "RECALL"@,
        "SEED"@ != "MERGE"@,
        "SEED"@ != "SPLIT"@,
        "TEMPERATURE"@ != "NOISE"@,
        "TEMPERATURE"@ != "ABLATE"@,
        "TEMPERATURE"@ != "WRITE"@,
        "TEMPERATURE"@ != "PULSE"@,
        "TEMPERATURE"@ != "WAIT"@,
        "TEMPERATURE"@ != "RESONATE"@,
        "TEMPERATURE"@ != "PROBE"@,
        "TEMPERATURE"@ != "DREAM"@,
        "TEMPERATURE"@ != "STABILIZE"@,
        "TEMPERATURE"@ != "RECALL"@,
        "TEMPERATURE"@ != "MERGE"@,
        "TEMPERATURE"@ != "SPLIT"@,
        "NOISE"@ != "ABLATE"@,
        "NOISE"@ != "WRITE"@,
        "NOISE"@ != "PULSE"@,
        "NOISE"@ != "WAIT"@,
        "NOISE"@ != "RESONATE"@,
        "NOISE"@ != "PROBE"@,
        "NOISE"@ != "DREAM"@,
        "NOISE"@ != "STABILIZE"@,
        "NOISE"@ != "RECALL"@,
        "NOISE"@ != "MERGE"@,
        "NOISE"@ != "SPLIT"@,
        "ABLATE"@ != "WRITE"@,
        "ABLATE"@ != "PULSE"@,
        "ABLATE"@ != "WAIT"@,
        "ABLATE"@ != "RESONATE"@,
        "ABLATE"@ != "PROBE"@,
        "ABLATE"@ != "DREAM"@,
        "ABLATE"@ != "STABILIZE"@,
        "ABLATE"@ != "RECALL"@,
        "ABLATE"@ != "MERGE"@,
        "ABLATE"@ != "SPLIT"@,
        "WRITE"@ != "PULSE"@,
        "WRITE"@ != "WAIT"@,
        "WRITE"@ != "RESONATE"@,
        "WRITE"@ != "PROBE"@,
        "WRITE"@ != "DREAM"@,
        "WRITE"@ != "STABILIZE"@,
        "WRITE"@ != "RECALL"@,
        "WRITE"@ != "MERGE"@,
        "WRITE"@ != "SPLIT"@,
        "PULSE"@ != "WAIT"@,
        "PULSE"@ != "RESONATE"@,
        "PULSE"@ != "PROBE"@,
        "PULSE"@ != "DREAM"@,
        "PULSE"@ != "STABILIZE"@,
        "PULSE"@ != "RECALL"@,
        "PULSE"@ != "MERGE"@,
        "PULSE"@ != "SPLIT"@,
        "WAIT"@ != "RESONATE"@,
        "WAIT"@ != "PROBE"@,
        "WAIT"@ != "DREAM"@,
        "WAIT"@ != "STABILIZE"@,
        "WAIT"@ != "RECALL"@,
        "WAIT"@ != "MERGE"@,
        "WAIT"@ != "SPLIT"@,
        "RESONATE"@ != "PROBE"@,
        "RESONATE"@ != "DREAM"@,
        "RESONATE"@ != "STABILIZE"@,
        "RESONATE"@ != "RECALL"@,
        "RESONATE"@ != "MERGE"@,
        "RESONATE"@ != "SPLIT"@,
        "PROBE"@ != "DREAM"@,
        "PROBE"@ != "STABILIZE"@,
        "PROBE"@ != "RECALL"@,
        "PROBE"@ != "MERGE"@,
        "PROBE"@ != "SPLIT"@,
        "DREAM"@ != "STABILIZE"@,
        "DREAM"@ != "RECALL"@,
        "DREAM"@ != "MERGE"@,
        "DREAM"@ != "SPLIT"@,
        "STABILIZE"@ != "RECALL"@,
        "STABILIZE"@ != "MERGE"@,
        "STABILIZE"@ != "SPLIT"@,
        "RECALL"@ != "MERGE"@,
        "RECALL"@ != "SPLIT"@,
        "MERGE"@ != "SPLIT"@,
{
    reveal_strlit("MATERIAL");
    reveal_strlit("SEED");
    reveal_strlit("TEMPERATURE");
    reveal_strlit("NOISE");
    reveal_strlit("ABLATE");
    reveal_strlit("WRITE");
    reveal_strlit("PULSE");
    reveal_strlit("WAIT");
    reveal_strlit("RESONATE");
    reveal_strlit("PROBE");
    reveal_strlit("DREAM");
    reveal_strlit("STABILIZE");
    reveal_strlit("RECALL");
    reveal_strlit("MERGE");
    reveal_strlit("SPLIT");
    assert("MATERIAL"@ != "SEED"@) by { assert("MATERIAL"@.len() != "SEED"@.len()); }
    assert("MATERIAL"@ != "TEMPERATURE"@) by { assert("MATERIAL"@.len() != "TEMPERATURE"@.len()); }
    assert("MATERIAL"@ != "NOISE"@) by { assert("MATERIAL"@.len() != "NOISE"@.len()); }
    assert("MATERIAL"@ != "ABLATE"@) by { assert("MATERIAL"@.len() != "ABLATE"@.len()); }
    assert("MATERIAL"@ != "WRITE"@) by { assert("MATERIAL"@.len() != "WRITE"@.len()); }
    assert("MATERIAL"@ != "PULSE"@) by { assert("MATERIAL"@.len() != "PULSE"@.len()); }
    assert("MATERIAL"@ != "WAIT"@) by { assert("MATERIAL"@.len() != "WAIT"@.len()); }
    assert("MATERIAL"@ != "RESONATE"@) by { assert("MATERIAL"@[0] != "RESONATE"@[0]); }
    assert("MATERIAL"@ != "PROBE"@) by { assert("MATERIAL"@.len() != "PROBE"@.len()); }
    assert("MATERIAL"@ != "DREAM"@) by { assert("MATERIAL"@.len() != "DREAM"@.len()); }
    assert("MATERIAL"@ != "STABILIZE"@) by { assert("MATERIAL"@.len() != "STABILIZE"@.len()); }
    assert("MATERIAL"@ != "RECALL"@) by { assert("MATERIAL"@.len() != "RECALL"@.len()); }
    assert("MATERIAL"@ != "MERGE"@) by { assert("MATERIAL"@.len() != "MERGE"@.len()); }
    assert("MATERIAL"@ != "SPLIT"@) by { assert("MATERIAL"@.len() != "SPLIT"@.len()); }
    assert("SEED"@ != "TEMPERATURE"@) by { assert("SEED"@.len() != "TEMPERATURE"@.len()); }
    assert("SEED"@ != "NOISE"@) by { assert("SEED"@.len() != "NOISE"@.len()); }
    assert("SEED"@ != "ABLATE"@) by { assert("SEED"@.len() != "ABLATE"@.len()); }
    assert("SEED"@ != "WRITE"@) by { assert("SEED"@.len() != "WRITE"@.len()); }
    assert("SEED"@ != "PULSE"@) by { assert("SEED"@.len() != "PULSE"@.len()); }
    assert("SEED"@ != "WAIT"@) by { assert("SEED"@[0] != "WAIT"@[0]); }
    assert("SEED"@ != "RESONATE"@) by { assert("SEED"@.len() != "RESONATE"@.len()); }
    assert("SEED"@ != "PROBE"@) by { assert("SEED"@.len() != "PROBE"@.len()); }
    assert("SEED"@ != "DREAM"@) by { assert("SEED"@.len() != "DREAM"@.len()); }
    assert("SEED"@ != "STABILIZE"@) by { assert("SEED"@.len() != "STABILIZE"@.len()); }
    assert("SEED"@ != "RECALL"@) by { assert("SEED"@.len() != "RECALL"@.len()); }
    assert("SEED"@ != "MERGE"@) by { assert("SEED"@.len() != "MERGE"@.len()); }
    assert("SEED"@ != "SPLIT"@) by { assert("SEED"@.len() != "SPLIT"@.len()); }
    assert("TEMPERATURE"@ != "NOISE"@) by { assert("TEMPERATURE"@.len() != "NOISE"@.len()); }
    assert("TEMPERATURE"@ != "ABLATE"@) by { assert("TEMPERATURE"@.len() != "ABLATE"@.len()); }
    assert("TEMPERATURE"@ != "WRITE"@) by { assert("TEMPERATURE"@.len() != "WRITE"@.len()); }
    assert("TEMPERATURE"@ != "PULSE"@) by { assert("TEMPERATURE"@.len() != "PULSE"@.len()); }
    assert("TEMPERATURE"@ != "WAIT"@) by { assert("TEMPERATURE"@.len() != "WAIT"@.len()); }
    assert("TEMPERATURE"@ != "RESONATE"@) by { assert("TEMPERATURE"@.len() != "RESONATE"@.len()); }
    assert("TEMPERATURE"@ != "PROBE"@) by { assert("TEMPERATURE"@.len() != "PROBE"@.len()); }
    assert("TEMPERATURE"@ != "DREAM"@) by { assert("TEMPERATURE"@.len() != "DREAM"@.len()); }
    assert("TEMPERATURE"@ != "STABILIZE"@) by { assert("TEMPERATURE"@.len() != "STABILIZE"@.len()); }
    assert("TEMPERATURE"@ != "RECALL"@) by { assert("TEMPERATURE"@.len() != "RECALL"@.len()); }
    assert("TEMPERATURE"@ != "MERGE"@) by { assert("TEMPERATURE"@.len() != "MERGE"@.len()); }
    assert("TEMPERATURE"@ != "SPLIT"@) by { assert("TEMPERATURE"@.len() != "SPLIT"@.len()); }
    assert("NOISE"@ != "ABLATE"@) by { assert("NOISE"@.len() != "ABLATE"@.len()); }
    assert("NOISE"@ != "WRITE"@) by { assert("NOISE"@[0] != "WRITE"@[0]); }
    assert("NOISE"@ != "PULSE"@) by { assert("NOISE"@[0] != "PULSE"@[0]); }
    assert("NOISE"@ != "WAIT"@) by { assert("NOISE"@.len() != "WAIT"@.len()); }
    assert("NOISE"@ != "RESONATE"@) by { assert("NOISE"@.len() != "RESONATE"@.len()); }
    assert("NOISE"@ != "PROBE"@) by { assert("NOISE"@[0] != "PROBE"@[0]); }
    assert("NOISE"@ != "DREAM"@) by { assert("NOISE"@[0] != "DREAM"@[0]); }
    assert("NOISE"@ != "STABILIZE"@) by { assert("NOISE"@.len() != "STABILIZE"@.len()); }
    assert("NOISE"@ != "RECALL"@) by { assert("NOISE"@.len() != "RECALL"@.len()); }
    assert("NOISE"@ != "MERGE"@) by { assert("NOISE"@[0] != "MERGE"@[0]); }
    assert("NOISE"@ != "SPLIT"@) by { assert("NOISE"@[0] != "SPLIT"@[0]); }
    assert("ABLATE"@ != "WRITE"@) by { assert("ABLATE"@.len() != "WRITE"@.len()); }
    assert("ABLATE"@ != "PULSE"@) by { assert("ABLATE"@.len() != "PULSE"@.len()); }
    assert("ABLATE"@ != "WAIT"@) by { assert("ABLATE"@.len() != "WAIT"@.len()); }
    assert("ABLATE"@ != "RESONATE"@) by { assert("ABLATE"@.len() != "RESONATE"@.len()); }
    assert("ABLATE"@ != "PROBE"@) by { assert("ABLATE"@.len() != "PROBE"@.len()); }
    assert("ABLATE"@ != "DREAM"@) by { assert("ABLATE"@.len() != "DREAM"@.len()); }
    assert("ABLATE"@ != "STABILIZE"@) by { assert("ABLATE"@.len() != "STABILIZE"@.len()); }
    assert("ABLATE"@ != "RECALL"@) by { assert("ABLATE"@[0] != "RECALL"@[0]); }
    assert("ABLATE"@ != "MERGE"@) by { assert("ABLATE"@.len() != "MERGE"@.len()); }
    assert("ABLATE"@ != "SPLIT"@) by { assert("ABLATE"@.len() != "SPLIT"@.len()); }
    assert("WRITE"@ != "PULSE"@) by { assert("WRITE"@[0] != "PULSE"@[0]); }
    assert("WRITE"@ != "WAIT"@) by { assert("WRITE"@.len() != "WAIT"@.len()); }
    assert("WRITE"@ != "RESONATE"@) by { assert("WRITE"@.len() != "RESONATE"@.len()); }
    assert("WRITE"@ != "PROBE"@) by { assert("WRITE"@[0] != "PROBE"@[0]); }
    assert("WRITE"@ != "DREAM"@) by { assert("WRITE"@[0] != "DREAM"@[0]); }
    assert("WRITE"@ != "STABILIZE"@) by { assert("WRITE"@.len() != "STABILIZE"@.len()); }
    assert("WRITE"@ != "RECALL"@) by { assert("WRITE"@.len() != "RECALL"@.len()); }
    assert("WRITE"@ != "MERGE"@) by { assert("WRITE"@[0] != "MERGE"@[0]); }
    assert("WRITE"@ != "SPLIT"@) by { assert("WRITE"@[0] != "SPLIT"@[0]); }
    assert("PULSE"@ != "WAIT"@) by { assert("PULSE"@.len() != "WAIT"@.len()); }
    assert("PULSE"@ != "RESONATE"@) by { assert("PULSE"@.len() != "RESONATE"@.len()); }
    assert("PULSE"@ != "PROBE"@) by { assert("PULSE"@[1] != "PROBE"@[1]); }
    assert("PULSE"@ != "DREAM"@) by { assert("PULSE"@[0] != "DREAM"@[0]); }
    assert("PULSE"@ != "STABILIZE"@) by { assert("PULSE"@.len() != "STABILIZE"@.len()); }
    assert("PULSE"@ != "RECALL"@) by { assert("PULSE"@.len() != "RECALL"@.len()); }
    assert("PULSE"@ != "MERGE"@) by { assert("PULSE"@[0] != "MERGE"@[0]); }
    assert("PULSE"@ != "SPLIT"@) by { assert("PULSE"@[0] != "SPLIT"@[0]); }
    assert("WAIT"@ != "RESONATE"@) by { assert("WAIT"@.len() != "RESONATE"@.len()); }
    assert("WAIT"@ != "PROBE"@) by { assert("WAIT"@.len() != "PROBE"@.len()); }
    assert("WAIT"@ != "DREAM"@) by { assert("WAIT"@.len() != "DREAM"@.len()); }
    assert("WAIT"@ != "STABILIZE"@) by { assert("WAIT"@.len() != "STABILIZE"@.len()); }
    assert("WAIT"@ != "RECALL"@) by { assert("WAIT"@.len() != "RECALL"@.len()); }
    assert("WAIT"@ != "MERGE"@) by { assert("WAIT"@.len() != "MERGE"@.len()); }
    assert("WAIT"@ != "SPLIT"@) by { assert("WAIT"@.len() != "SPLIT"@.len()); }
    assert("RESONATE"@ != "PROBE"@) by { assert("RESONATE"@.len() != "PROBE"@.len()); }
    assert("RESONATE"@ != "DREAM"@) by { assert("RESONATE"@.len() != "DREAM"@.len()); }
    assert("RESONATE"@ != "STABILIZE"@) by { assert("RESONATE"@.len() != "STABILIZE"@.len()); }
    assert("RESONATE"@ != "RECALL"@) by { assert("RESONATE"@.len() != "RECALL"@.len()); }
    assert("RESONATE"@ != "MERGE"@) by { assert("RESONATE"@.len() != "MERGE"@.len()); }
    assert("RESONATE"@ != "SPLIT"@) by { assert("RESONATE"@.len() != "SPLIT"@.len()); }
    assert("PROBE"@ != "DREAM"@) by { assert("PROBE"@[0] != "DREAM"@[0]); }
    assert("PROBE"@ != "STABILIZE"@) by { assert("PROBE"@.len() != "STABILIZE"@.len()); }
    assert("PROBE"@ != "RECALL"@) by { assert("PROBE"@.len() != "RECALL"@.len()); }
    assert("PROBE"@ != "MERGE"@) by { assert("PROBE"@[0] != "MERGE"@[0]); }
    assert("PROBE"@ != "SPLIT"@) by { assert("PROBE"@[0] != "SPLIT"@[0]); }
    assert("DREAM"@ != "STABILIZE"@) by { assert("DREAM"@.len() != "STABILIZE"@.len()); }
    assert("DREAM"@ != "RECALL"@) by { assert("DREAM"@.len() != "RECALL"@.len()); }
    assert("DREAM"@ != "MERGE"@) by { assert("DREAM"@[0] != "MERGE"@[0]); }
    assert("DREAM"@ != "SPLIT"@) by { assert("DREAM"@[0] != "SPLIT"@[0]); }
    assert("STABILIZE"@ != "RECALL"@) by { assert("STABILIZE"@.len() != "RECALL"@.len()); }
    assert("STABILIZE"@ != "MERGE"@) by { assert("STABILIZE"@.len() != "MERGE"@.len()); }
    assert("STABILIZE"@ != "SPLIT"@) by { assert("STABILIZE"@.len() != "SPLIT"@.len()); }
    assert("RECALL"@ != "MERGE"@) by { assert("RECALL"@.len() != "MERGE"@.len()); }
    assert("RECALL"@ != "SPLIT"@) by { assert("RECALL"@.len() != "SPLIT"@.len()); }
    assert("MERGE"@ != "SPLIT"@) by { assert("MERGE"@[0] != "SPLIT"@[0]); }
}

/// `PULSE x y [radius amplitude frequency phase]`: the position is the
/// first two arguments (both must be numbers), and each optional
/// parameter is the argument at its own place when that is a number.
pub proof fn lemma_pulse_arguments(args: Seq<Seq<char>>, line: usize)
    ensures
        args.len() >= 2 && float_literal(args[0]) && float_literal(args[1]) ==> statement_spec(
            "PULSE"@,
            args,
            line,
        ) == Ok::<StatementView, LangErrorView>(
            StatementView::Pulse {
                x: args[0],
                y: args[1],
                radius: if args.len() > 2 && float_literal(args[2]) { Some(args[2]) } else { None },
                amplitude: if args.len() > 3 && float_literal(args[3]) { Some(args[3]) } else { None },
                frequency: if args.len() > 4 && float_literal(args[4]) { Some(args[4]) } else { None },
                phase: if args.len() > 5 && float_literal(args[5]) { Some(args[5]) } else { None },
            },
        ),
        args.len() < 2 ==> statement_spec("PULSE"@, args, line) is Err,
{
    lemma_ops_distinct();
}

/// `RECALL query [top_k]` and `MERGE a b`: each argument lands in the
/// field of its own place.
pub proof fn lemma_recall_merge_arguments(args: Seq<Seq<char>>, line: usize)
    ensures
        args.len() >= 1 ==> statement_spec("RECALL"@, args, line) == Ok::<StatementView, LangErrorView>(
            StatementView::Recall { query: args[0], top_k: if args.len() > 1 && float_literal(args[1]) { Some(args[1]) } else { None } },
        ),
        args.len() >= 2 ==> statement_spec("MERGE"@, args, line) == Ok::<StatementView, LangErrorView>(
            StatementView::Merge { a: args[0], b: args[1] },
        ),
        args.len() >= 1 ==> statement_spec("PROBE"@, args, line) == Ok::<StatementView, LangErrorView>(
            StatementView::Probe { text: args[0] },
        ),
        args.len() >= 1 ==> statement_spec("SPLIT"@, args, line) == Ok::<StatementView, LangErrorView>(
            StatementView::Split { id: args[0] },
        ),
{
    lemma_ops_distinct();
}

} // verus!
