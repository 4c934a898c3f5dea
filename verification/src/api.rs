//! REST API decisions: routing, query parameters, request limits.
//!
//! The HTTP server itself lives in the application; it hands each request's
//! method and URL to `route_for` and applies these limits before touching
//! the engine.

use vstd::prelude::*;
use crate::text::{index_of_char, lemma_index_of_char, find_char, copy_range, chars_of, string_of, str_eq};

verus! {

/// Hard cap on synchronous evolution work per request.
pub const MAX_GENERATIONS_PER_REQUEST: usize = 50;

/// Hard cap on free-evolution steps per request.
pub const MAX_STEPS_PER_REQUEST: u64 = 100_000;

/// Hard cap on recall results per request.
pub const MAX_TOP_K: usize = 50;

// ---------------------------------------------------------------------
// Query parameters
// ---------------------------------------------------------------------

/// The value of `key` among `&`-separated `k=v` pairs: the first pair
/// whose key (up to its first `=`) is `key`; pairs without `=` are skipped.
pub open spec fn param_in(query: Seq<char>, key: Seq<char>) -> Option<Seq<char>>
    decreases query.len(),
{
    let piece = match index_of_char(query, '&') {
        Some(a) => query.take(a as int),
        None => query,
    };
    let found = match index_of_char(piece, '=') {
        Some(e) => if piece.take(e as int) == key {
            Some(piece.skip(e as int + 1))
        } else {
            None
        },
        None => None,
    };
    if found is Some {
        found
    } else {
        match index_of_char(query, '&') {
            Some(a) => {
                proof {
                    lemma_index_of_char(query, '&');
                }
                param_in(query.skip(a as int + 1), key)
            },
            None => None,
        }
    }
}

/// The query string is everything after the URL's first `?`.
pub open spec fn query_param_spec(url: Seq<char>, key: Seq<char>) -> Option<Seq<char>> {
    match index_of_char(url, '?') {
        Some(q) => param_in(url.skip(q as int + 1), key),
        None => None,
    }
}

pub open spec fn opt_string_view(o: Option<String>) -> Option<Seq<char>> {
    match o {
        Some(s) => Some(s@),
        None => None,
    }
}

fn range_eq(cs: &Vec<char>, from: usize, to: usize, key: &Vec<char>) -> (r: bool)
    requires
        from <= to <= cs@.len(),
    ensures
        r == (cs@.subrange(from as int, to as int) == key@),
{
    if to - from != key.len() {
        return false;
    }
    let mut j: usize = 0;
    while j < key.len()
        invariant
            j <= key@.len(),
            to - from == key@.len(),
            from <= to <= cs@.len(),
            forall|k: int| 0 <= k < j ==> cs@[from + k] == key@[k],
        decreases key@.len() - j,
    {
        if cs[from + j] != key[j] {
            return false;
        }
        j = j + 1;
    }
    proof {
        assert(cs@.subrange(from as int, to as int) =~= key@);
    }
    true
}

/// A query parameter of a URL.
pub fn query_param(url: &str, key: &str) -> (r: Option<String>)
    ensures
        opt_string_view(r) == query_param_spec(url@, key@),
{
    let cs = chars_of(url);
    let kv = chars_of(key);
    let n = cs.len();
    let q = find_char(&cs, 0, n, '?');
    proof {
        assert(cs@.subrange(0, n as int) =~= cs@);
    }
    if q == n {
        return None;
    }
    let mut i = q + 1;
    proof {
        assert(cs@.skip(q + 1) =~= cs@.skip(i as int));
    }
    loop
        invariant
            n == cs@.len(),
            kv@ == key@,
            q < i <= n,
            query_param_spec(url@, key@) == param_in(cs@.skip(i as int), key@),
            cs@ == url@,
        decreases n - i,
    {
        let ghost s = cs@.skip(i as int);
        let a = find_char(&cs, i, n, '&');
        proof {
            assert(cs@.subrange(i as int, n as int) =~= s);
        }
        let ghost piece = if a < n { s.take(a - i) } else { s };
        let e = find_char(&cs, i, a, '=');
        proof {
            assert(cs@.subrange(i as int, a as int) =~= piece);
        }
        if e < a && range_eq(&cs, i, e, &kv) {
            let v = copy_range(&cs, e + 1, a);
            proof {
                assert(piece.take(e - i) =~= cs@.subrange(i as int, e as int));
                assert(piece.skip(e - i + 1) =~= cs@.subrange(e + 1, a as int));
            }
            return Some(string_of(&v));
        }
        proof {
            if e < a {
                assert(piece.take(e - i) =~= cs@.subrange(i as int, e as int));
            }
        }
        if a == n {
            return None;
        }
        proof {
            assert(s.skip(a - i + 1) =~= cs@.skip(a + 1));
        }
        i = a + 1;
    }
}

// ---------------------------------------------------------------------
// Routing
// ---------------------------------------------------------------------

#[derive(Clone, Copy, Debug, PartialEq, Eq, Structural)]
pub enum HttpMethod {
    Get,
    Post,
    Other,
}

/// What a request asks for.
pub enum Route {
    Observatory,
    State,
    Materials,
    Primitives,
    Primitive { id: String },
    Write,
    Pulse,
    Step,
    Dream,
    Probe,
    Recall,
    Evolve,
    Run,
    NotFound,
}

pub enum RouteView {
    Observatory,
    State,
    Materials,
    Primitives,
    Primitive { id: Seq<char> },
    Write,
    Pulse,
    Step,
    Dream,
    Probe,
    Recall,
    Evolve,
    Run,
    NotFound,
}

impl View for Route {
    type V = RouteView;

    open spec fn view(&self) -> RouteView {
        match self {
            Route::Observatory => RouteView::Observatory,
            Route::State => RouteView::State,
            Route::Materials => RouteView::Materials,
            Route::Primitives => RouteView::Primitives,
            Route::Primitive { id } => RouteView::Primitive { id: id@ },
            Route::Write => RouteView::Write,
            Route::Pulse => RouteView::Pulse,
            Route::Step => RouteView::Step,
            Route::Dream => RouteView::Dream,
            Route::Probe => RouteView::Probe,
            Route::Recall => RouteView::Recall,
            Route::Evolve => RouteView::Evolve,
            Route::Run => RouteView::Run,
            Route::NotFound => RouteView::NotFound,
        }
    }
}

/// The URL's path: what precedes its first `?`.
pub open spec fn url_path(url: Seq<char>) -> Seq<char> {
    match index_of_char(url, '?') {
        Some(q) => url.take(q as int),
        None => url,
    }
}

pub open spec fn has_prefix(s: Seq<char>, p: Seq<char>) -> bool {
    p.len() <= s.len() && s.take(p.len() as int) == p
}

/// `s` with every leading repetition of the non-empty `p` removed
/// (`str::trim_start_matches`).
pub open spec fn strip_repeated(s: Seq<char>, p: Seq<char>) -> Seq<char>
    decreases s.len(),
{
    if p.len() > 0 && has_prefix(s, p) {
        strip_repeated(s.skip(p.len() as int), p)
    } else {
        s
    }
}

pub open spec fn route_spec(method: HttpMethod, url: Seq<char>) -> RouteView {
    let path = url_path(url);
    match method {
        HttpMethod::Get => if path == "/"@ || path == "/observatory"@ {
            RouteView::Observatory
        } else if path == "/crystal/state"@ {
            RouteView::State
        } else if path == "/materials"@ {
            RouteView::Materials
        } else if path == "/primitives"@ {
            RouteView::Primitives
        } else if has_prefix(path, "/primitives/"@) {
            RouteView::Primitive { id: strip_repeated(path, "/primitives/"@) }
        } else {
            RouteView::NotFound
        },
        HttpMethod::Post => if path == "/crystal/write"@ {
            RouteView::Write
        } else if path == "/crystal/pulse"@ {
            RouteView::Pulse
        } else if path == "/crystal/step"@ {
            RouteView::Step
        } else if path == "/crystal/dream"@ {
            RouteView::Dream
        } else if path == "/crystal/probe"@ {
            RouteView::Probe
        } else if path == "/crystal/recall"@ {
            RouteView::Recall
        } else if path == "/crystal/evolve"@ {
            RouteView::Evolve
        } else if path == "/crystal/run"@ {
            RouteView::Run
        } else {
            RouteView::NotFound
        },
        HttpMethod::Other => RouteView::NotFound,
    }
}

fn starts_with_at(cs: &Vec<char>, i: usize, p: &Vec<char>) -> (r: bool)
    requires
        i <= cs@.len(),
    ensures
        r == has_prefix(cs@.skip(i as int), p@),
{
    let n = cs.len();
    if n - i < p.len() {
        return false;
    }
    let r = range_eq(cs, i, i + p.len(), p);
    proof {
        assert(cs@.skip(i as int).take(p@.len() as int) =~= cs@.subrange(i as int, i + p@.len()));
    }
    r
}

/// `s` with every leading repetition of `p` removed.
pub fn strip_prefixes(s: &str, p: &str) -> (r: String)
    ensures
        r@ == strip_repeated(s@, p@),
{
    let cs = chars_of(s);
    let pv = chars_of(p);
    let n = cs.len();
    let mut i: usize = 0;
    proof {
        assert(cs@.skip(0) =~= cs@);
    }
    if pv.len() > 0 {
        while starts_with_at(&cs, i, &pv)
            invariant
                i <= n,
                n == cs@.len(),
                pv@ == p@,
                pv@.len() > 0,
                strip_repeated(s@, p@) == strip_repeated(cs@.skip(i as int), p@),
                cs@ == s@,
            decreases n - i,
        {
            proof {
                assert(cs@.skip(i as int).skip(pv@.len() as int) =~= cs@.skip(i + pv@.len()));
            }
            i = i + pv.len();
        }
    }
    let rest = copy_range(&cs, i, n);
    proof {
        assert(cs@.subrange(i as int, n as int) =~= cs@.skip(i as int));
    }
    string_of(&rest)
}

/// Route a request by method and URL.
pub fn route_for(method: HttpMethod, url: &str) -> (r: Route)
    ensures
        r@ == route_spec(method, url@),
{
    let cs = chars_of(url);
    let n = cs.len();
    let q = find_char(&cs, 0, n, '?');
    proof {
        assert(cs@.subrange(0, n as int) =~= cs@);
        assert(cs@.subrange(0, q as int) =~= url_path(url@));
    }
    let path_chars = copy_range(&cs, 0, q);
    let path = string_of(&path_chars);
    let p = path.as_str();
    match method {
        HttpMethod::Get => {
            if str_eq(p, "/") || str_eq(p, "/observatory") {
                Route::Observatory
            } else if str_eq(p, "/crystal/state") {
                Route::State
            } else if str_eq(p, "/materials") {
                Route::Materials
            } else if str_eq(p, "/primitives") {
                Route::Primitives
            } else {
                let pc = chars_of(p);
                let prefix = chars_of("/primitives/");
                proof {
                    assert(pc@.skip(0) =~= pc@);
                }
                if starts_with_at(&pc, 0, &prefix) {
                    Route::Primitive { id: strip_prefixes(p, "/primitives/") }
                } else {
                    Route::NotFound
                }
            }
        },
        HttpMethod::Post => {
            if str_eq(p, "/crystal/write") {
                Route::Write
            } else if str_eq(p, "/crystal/pulse") {
                Route::Pulse
            } else if str_eq(p, "/crystal/step") {
                Route::Step
            } else if str_eq(p, "/crystal/dream") {
                Route::Dream
            } else if str_eq(p, "/crystal/probe") {
                Route::Probe
            } else if str_eq(p, "/crystal/recall") {
                Route::Recall
            } else if str_eq(p, "/crystal/evolve") {
                Route::Evolve
            } else if str_eq(p, "/crystal/run") {
                Route::Run
            } else {
                Route::NotFound
            }
        },
        HttpMethod::Other => Route::NotFound,
    }
}

/// HTML for the Observatory page, JSON for everything else.
pub open spec fn content_type_spec(payload: Seq<char>) -> Seq<char> {
    if has_prefix(payload, "<!"@) || has_prefix(payload, "<html"@) {
        "text/html; charset=utf-8"@
    } else {
        "application/json"@
    }
}

pub fn content_type_for(payload: &str) -> (r: String)
    ensures
        r@ == content_type_spec(payload@),
{
    let cs = chars_of(payload);
    let a = chars_of("<!");
    let b = chars_of("<html");
    proof {
        assert(cs@.skip(0) =~= cs@);
    }
    if starts_with_at(&cs, 0, &a) || starts_with_at(&cs, 0, &b) {
        string_of(&chars_of("text/html; charset=utf-8"))
    } else {
        string_of(&chars_of("application/json"))
    }
}

// ---------------------------------------------------------------------
// Request limits
// ---------------------------------------------------------------------

/// Results a recall request returns when it names no count.
pub fn default_top_k() -> (k: usize)
    ensures
        k == 5,
{
    5
}

/// Steps a step request may run.
pub fn step_limit(requested: u64) -> (n: u64)
    ensures
        n == if requested <= MAX_STEPS_PER_REQUEST { requested } else { MAX_STEPS_PER_REQUEST },
{
    if requested <= MAX_STEPS_PER_REQUEST { requested } else { MAX_STEPS_PER_REQUEST }
}

/// Results a recall request may return.
pub fn recall_limit(requested: usize) -> (n: usize)
    ensures
        n == if requested <= MAX_TOP_K { requested } else { MAX_TOP_K },
{
    if requested <= MAX_TOP_K { requested } else { MAX_TOP_K }
}

/// Generations and population of an evolve request: 5 generations by
/// default, at most `MAX_GENERATIONS_PER_REQUEST`; population 8 by
/// default, held to `[2, 32]`.
pub fn evolve_limits(generations: Option<usize>, population: Option<usize>) -> (r: (usize, usize))
    ensures
        r.0 == match generations {
            Some(g) => if g <= MAX_GENERATIONS_PER_REQUEST { g } else { MAX_GENERATIONS_PER_REQUEST },
            None => 5,
        },
        r.1 == match population {
            Some(p) => if p < 2 { 2 } else if p > 32 { 32 } else { p },
            None => 8,
        },
{
    let g = match generations {
        Some(g) => if g <= MAX_GENERATIONS_PER_REQUEST { g } else { MAX_GENERATIONS_PER_REQUEST },
        None => 5,
    };
    let p = match population {
        Some(p) => if p < 2 { 2 } else if p > 32 { 32 } else { p },
        None => 8,
    };
    (g, p)
}


/// The path each POST operation is served at: `/crystal/` and the
/// operation's name.
pub open spec fn post_path(r: RouteView) -> Option<Seq<char>> {
    match r {
        RouteView::Write => Some("/crystal/write"@),
        RouteView::Pulse => Some("/crystal/pulse"@),
        RouteView::Step => Some("/crystal/step"@),
        RouteView::Dream => Some("/crystal/dream"@),
        RouteView::Probe => Some("/crystal/probe"@),
        RouteView::Recall => Some("/crystal/recall"@),
        RouteView::Evolve => Some("/crystal/evolve"@),
        RouteView::Run => Some("/crystal/run"@),
        _ => None,
    }
}

/// POST routing: a request is routed to an operation exactly when its path
/// is that operation's path, so each path reaches the operation of the
/// same name and no other.
pub proof fn lemma_post_routes(url: Seq<char>, r: RouteView)
    ensures
        route_spec(HttpMethod::Post, url) != RouteView::NotFound ==> post_path(
            route_spec(HttpMethod::Post, url),
        ) == Some(url_path(url)),
        post_path(r) == Some(url_path(url)) ==> route_spec(HttpMethod::Post, url) == r,
        route_spec(HttpMethod::Post, url) == RouteView::NotFound ==> forall|o: RouteView|
            #[trigger] post_path(o) != Some(url_path(url)),
{
    reveal_strlit("/crystal/write");
    reveal_strlit("/crystal/pulse");
    reveal_strlit("/crystal/step");
    reveal_strlit("/crystal/dream");
    reveal_strlit("/crystal/probe");
    reveal_strlit("/crystal/recall");
    reveal_strlit("/crystal/evolve");
    reveal_strlit("/crystal/run");
    assert("/crystal/write"@ != "/crystal/pulse"@) by { assert("/crystal/write"@[9] != "/crystal/pulse"@[9]); }
    assert("/crystal/write"@ != "/crystal/step"@) by { assert("/crystal/write"@.len() != "/crystal/step"@.len()); }
    assert("/crystal/write"@ != "/crystal/dream"@) by { assert("/crystal/write"@[9] != "/crystal/dream"@[9]); }
    assert("/crystal/write"@ != "/crystal/probe"@) by { assert("/crystal/write"@[9] != "/crystal/probe"@[9]); }
    assert("/crystal/write"@ != "/crystal/recall"@) by { assert("/crystal/write"@.len() != "/crystal/recall"@.len()); }
    assert("/crystal/write"@ != "/crystal/evolve"@) by { assert("/crystal/write"@.len() != "/crystal/evolve"@.len()); }
    assert("/crystal/write"@ != "/crystal/run"@) by { assert("/crystal/write"@.len() != "/crystal/run"@.len()); }
    assert("/crystal/pulse"@ != "/crystal/step"@) by { assert("/crystal/pulse"@.len() != "/crystal/step"@.len()); }
    assert("/crystal/pulse"@ != "/crystal/dream"@) by { assert("/crystal/pulse"@[9] != "/crystal/dream"@[9]); }
    assert("/crystal/pulse"@ != "/crystal/probe"@) by { assert("/crystal/pulse"@[10] != "/crystal/probe"@[10]); }
    assert("/crystal/pulse"@ != "/crystal/recall"@) by { assert("/crystal/pulse"@.len() != "/crystal/recall"@.len()); }
    assert("/crystal/pulse"@ != "/crystal/evolve"@) by { assert("/crystal/pulse"@.len() != "/crystal/evolve"@.len()); }
    assert("/crystal/pulse"@ != "/crystal/run"@) by { assert("/crystal/pulse"@.len() != "/crystal/run"@.len()); }
    assert("/crystal/step"@ != "/crystal/dream"@) by { assert("/crystal/step"@.len() != "/crystal/dream"@.len()); }
    assert("/crystal/step"@ != "/crystal/probe"@) by { assert("/crystal/step"@.len() != "/crystal/probe"@.len()); }
    assert("/crystal/step"@ != "/crystal/recall"@) by { assert("/crystal/step"@.len() != "/crystal/recall"@.len()); }
    assert("/crystal/step"@ != "/crystal/evolve"@) by { assert("/crystal/step"@.len() != "/crystal/evolve"@.len()); }
    assert("/crystal/step"@ != "/crystal/run"@) by { assert("/crystal/step"@.len() != "/crystal/run"@.len()); }
    assert("/crystal/dream"@ != "/crystal/probe"@) by { assert("/crystal/dream"@[9] != "/crystal/probe"@[9]); }
    assert("/crystal/dream"@ != "/crystal/recall"@) by { assert("/crystal/dream"@.len() != "/crystal/recall"@.len()); }
    assert("/crystal/dream"@ != "/crystal/evolve"@) by { assert("/crystal/dream"@.len() != "/crystal/evolve"@.len()); }
    assert("/crystal/dream"@ != "/crystal/run"@) by { assert("/crystal/dream"@.len() != "/crystal/run"@.len()); }
    assert("/crystal/probe"@ != "/crystal/recall"@) by { assert("/crystal/probe"@.len() != "/crystal/recall"@.len()); }
    assert("/crystal/probe"@ != "/crystal/evolve"@) by { assert("/crystal/probe"@.len() != "/crystal/evolve"@.len()); }
    assert("/crystal/probe"@ != "/crystal/run"@) by { assert("/crystal/probe"@.len() != "/crystal/run"@.len()); }
    assert("/crystal/recall"@ != "/crystal/evolve"@) by { assert("/crystal/recall"@[9] != "/crystal/evolve"@[9]); }
    assert("/crystal/recall"@ != "/crystal/run"@) by { assert("/crystal/recall"@.len() != "/crystal/run"@.len()); }
    assert("/crystal/evolve"@ != "/crystal/run"@) by { assert("/crystal/evolve"@.len() != "/crystal/run"@.len()); }
}


/// GET routing: each page and listing is served at its own path, and a
/// path under `/primitives/` names one primitive by the rest of the path.
pub proof fn lemma_get_routes(url: Seq<char>)
    ensures
        (route_spec(HttpMethod::Get, url) == RouteView::Observatory) <==> (url_path(url) == "/"@
            || url_path(url) == "/observatory"@),
        (route_spec(HttpMethod::Get, url) == RouteView::State) <==> url_path(url) == "/crystal/state"@,
        (route_spec(HttpMethod::Get, url) == RouteView::Materials) <==> url_path(url) == "/materials"@,
        (route_spec(HttpMethod::Get, url) == RouteView::Primitives) <==> url_path(url) == "/primitives"@,
        has_prefix(url_path(url), "/primitives/"@) ==> route_spec(HttpMethod::Get, url)
            == (RouteView::Primitive { id: strip_repeated(url_path(url), "/primitives/"@) }),
{
    reveal_strlit("/");
    reveal_strlit("/observatory");
    reveal_strlit("/crystal/state");
    reveal_strlit("/materials");
    reveal_strlit("/primitives");
    reveal_strlit("/primitives/");
    assert("/"@ != "/observatory"@) by { assert("/"@.len() != "/observatory"@.len()); }
    assert("/"@ != "/crystal/state"@) by { assert("/"@.len() != "/crystal/state"@.len()); }
    assert("/"@ != "/materials"@) by { assert("/"@.len() != "/materials"@.len()); }
    assert("/"@ != "/primitives"@) by { assert("/"@.len() != "/primitives"@.len()); }
    assert("/observatory"@ != "/crystal/state"@) by { assert("/observatory"@.len() != "/crystal/state"@.len()); }
    assert("/observatory"@ != "/materials"@) by { assert("/observatory"@.len() != "/materials"@.len()); }
    assert("/observatory"@ != "/primitives"@) by { assert("/observatory"@.len() != "/primitives"@.len()); }
    assert("/crystal/state"@ != "/materials"@) by { assert("/crystal/state"@.len() != "/materials"@.len()); }
    assert("/crystal/state"@ != "/primitives"@) by { assert("/crystal/state"@.len() != "/primitives"@.len()); }
    assert("/materials"@ != "/primitives"@) by { assert("/materials"@.len() != "/primitives"@.len()); }
    assert(!has_prefix("/"@, "/primitives/"@)) by { assert("/"@.len() < "/primitives/"@.len()); }
    assert(!has_prefix("/observatory"@, "/primitives/"@)) by { assert("/observatory"@.take(12)[1] != "/primitives/"@[1]); }
    assert(!has_prefix("/crystal/state"@, "/primitives/"@)) by { assert("/crystal/state"@.take(12)[1] != "/primitives/"@[1]); }
    assert(!has_prefix("/materials"@, "/primitives/"@)) by { assert("/materials"@.len() < "/primitives/"@.len()); }
    assert(!has_prefix("/primitives"@, "/primitives/"@)) by { assert("/primitives"@.len() < "/primitives/"@.len()); }
    if has_prefix(url_path(url), "/primitives/"@) {
        let p = url_path(url);
        assert(p != "/"@ && p != "/observatory"@ && p != "/crystal/state"@ && p != "/materials"@
            && p != "/primitives"@);
    }
}

} // verus!
