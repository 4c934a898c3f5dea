//! Connected regions of a cell mask on a square grid.
//!
//! Structure detection thresholds a stability map and flood-fills the
//! cells above threshold into 4-connected regions; this module does the
//! flood fill. Cell `i` of a `size`-wide grid sits at column `i % size`,
//! row `i / size`.

use vstd::prelude::*;
use vstd::arithmetic::div_mod::{lemma_fundamental_div_mod, lemma_fundamental_div_mod_converse};

verus! {

/// `j` is one of the (up to four) edge neighbors of cell `i`.
pub open spec fn is_neighbor(size: int, i: int, j: int) -> bool {
    &&& 0 <= i < size * size
    &&& {
        ||| (i % size > 0 && j == i - 1)
        ||| (i % size + 1 < size && j == i + 1)
        ||| (i / size > 0 && j == i - size)
        ||| (i / size + 1 < size && j == i + size)
    }
}

proof fn lemma_cell_coords(size: int, i: int)
    requires
        size > 0,
        0 <= i < size * size,
    ensures
        i == (i / size) * size + i % size,
        0 <= i % size < size,
        0 <= i / size < size,
{
    lemma_fundamental_div_mod(i, size);
    assert(0 <= i % size < size) by {
        vstd::arithmetic::div_mod::lemma_mod_pos_bound(i, size);
    }
    assert(i == (i / size) * size + i % size) by (nonlinear_arith)
        requires
            i == size * (i / size) + (i % size),
    ;
    assert(0 <= i / size) by (nonlinear_arith)
        requires
            i == (i / size) * size + i % size,
            0 <= i % size < size,
            0 <= i,
            size > 0,
    ;
    assert(i / size < size) by (nonlinear_arith)
        requires
            i == (i / size) * size + i % size,
            0 <= i % size,
            i < size * size,
            size > 0,
    ;
}

/// Neighborhood is symmetric and stays on the grid.
pub proof fn lemma_neighbor_symmetric(size: int, i: int, j: int)
    requires
        size > 0,
        is_neighbor(size, i, j),
    ensures
        0 <= j < size * size,
        is_neighbor(size, j, i),
{
    lemma_cell_coords(size, i);
    let x = i % size;
    let y = i / size;
    assert(y * size >= 0) by (nonlinear_arith)
        requires
            y >= 0,
            size > 0,
    ;
    if x > 0 && j == i - 1 {
        lemma_fundamental_div_mod_converse(j, size, y, x - 1);
        assert(j % size + 1 < size && i == j + 1);
    } else if x + 1 < size && j == i + 1 {
        lemma_fundamental_div_mod_converse(j, size, y, x + 1);
        assert(j < size * size) by (nonlinear_arith)
            requires
                j == y * size + (x + 1),
                y < size,
                x + 1 < size,
                size > 0,
        ;
        assert(j % size > 0 && i == j - 1);
    } else if y > 0 && j == i - size {
        assert(j == (y - 1) * size + x) by (nonlinear_arith)
            requires
                j == i - size,
                i == y * size + x,
        ;
        lemma_fundamental_div_mod_converse(j, size, y - 1, x);
        assert(0 <= j) by (nonlinear_arith)
            requires
                j == (y - 1) * size + x,
                y >= 1,
                x >= 0,
                size > 0,
        ;
        assert(j / size + 1 < size && i == j + size);
    } else {
        assert(y + 1 < size && j == i + size);
        assert(j == (y + 1) * size + x) by (nonlinear_arith)
            requires
                j == i + size,
                i == y * size + x,
        ;
        lemma_fundamental_div_mod_converse(j, size, y + 1, x);
        assert(j < size * size) by (nonlinear_arith)
            requires
                j == (y + 1) * size + x,
                y + 1 < size,
                x < size,
                size > 0,
        ;
        assert(j / size > 0 && i == j - size);
    }
}

/// Number of `false` entries.
pub open spec fn count_false(s: Seq<bool>) -> nat
    decreases s.len(),
{
    if s.len() == 0 {
        0
    } else {
        count_false(s.drop_last()) + if s.last() { 0nat } else { 1nat }
    }
}

proof fn lemma_count_false_mark(s: Seq<bool>, j: int)
    requires
        0 <= j < s.len(),
        !s[j],
    ensures
        count_false(s.update(j, true)) + 1 == count_false(s),
    decreases s.len(),
{
    let t = s.update(j, true);
    if j == s.len() - 1 {
        assert(t.drop_last() =~= s.drop_last());
    } else {
        assert(t.drop_last() =~= s.drop_last().update(j, true));
        lemma_count_false_mark(s.drop_last(), j);
    }
}

// ---------------------------------------------------------------------
// Visiting order
// ---------------------------------------------------------------------

/// Offer cell `j` to the fill: a set, not yet visited cell is marked and
/// stacked.
pub open spec fn offer(mask: Seq<bool>, visited: Seq<bool>, stack: Seq<usize>, j: int) -> (Seq<bool>, Seq<usize>) {
    if 0 <= j < visited.len() && j < mask.len() && !visited[j] && mask[j] {
        (visited.update(j, true), stack.push(j as usize))
    } else {
        (visited, stack)
    }
}

/// Offer the neighbors of cell `i` in the fill's order: left, right, up,
/// down.
pub open spec fn expand(size: int, mask: Seq<bool>, visited: Seq<bool>, stack: Seq<usize>, i: int) -> (
    Seq<bool>,
    Seq<usize>,
) {
    let o1 = if i % size > 0 { offer(mask, visited, stack, i - 1) } else { (visited, stack) };
    let o2 = if i % size + 1 < size { offer(mask, o1.0, o1.1, i + 1) } else { o1 };
    let o3 = if i / size > 0 { offer(mask, o2.0, o2.1, i - size) } else { o2 };
    if i / size + 1 < size { offer(mask, o3.0, o3.1, i + size) } else { o3 }
}

proof fn lemma_offer_measure(mask: Seq<bool>, visited: Seq<bool>, stack: Seq<usize>, j: int)
    ensures
        offer(mask, visited, stack, j).0.len() == visited.len(),
        2 * count_false(offer(mask, visited, stack, j).0) + offer(mask, visited, stack, j).1.len()
            <= 2 * count_false(visited) + stack.len(),
{
    if 0 <= j < visited.len() && j < mask.len() && !visited[j] && mask[j] {
        lemma_count_false_mark(visited, j);
    }
}

/// Offering a cell's neighbors never raises the fill's measure (twice the
/// unvisited cells plus the stack's length), so the fill terminates.
pub proof fn lemma_expand_measure(size: int, mask: Seq<bool>, visited: Seq<bool>, stack: Seq<usize>, i: int)
    ensures
        expand(size, mask, visited, stack, i).0.len() == visited.len(),
        2 * count_false(expand(size, mask, visited, stack, i).0) + expand(size, mask, visited, stack, i).1.len()
            <= 2 * count_false(visited) + stack.len(),
{
    let o1 = if i % size > 0 { offer(mask, visited, stack, i - 1) } else { (visited, stack) };
    let o2 = if i % size + 1 < size { offer(mask, o1.0, o1.1, i + 1) } else { o1 };
    let o3 = if i / size > 0 { offer(mask, o2.0, o2.1, i - size) } else { o2 };
    lemma_offer_measure(mask, visited, stack, i - 1);
    lemma_offer_measure(mask, o1.0, o1.1, i + 1);
    lemma_offer_measure(mask, o2.0, o2.1, i - size);
    lemma_offer_measure(mask, o3.0, o3.1, i + size);
}

/// The cells a depth-first fill lists from the given state: pop the top
/// of the stack, list it, offer its neighbors, repeat until the stack is
/// empty.
pub open spec fn dfs_order(size: int, mask: Seq<bool>, visited: Seq<bool>, stack: Seq<usize>) -> Seq<usize>
    decreases 2 * count_false(visited) + stack.len(),
{
    if stack.len() == 0 {
        Seq::empty()
    } else {
        let i = stack.last();
        let e = expand(size, mask, visited, stack.drop_last(), i as int);
        proof {
            lemma_expand_measure(size, mask, visited, stack.drop_last(), i as int);
        }
        seq![i] + dfs_order(size, mask, e.0, e.1)
    }
}

proof fn lemma_dfs_unfold(size: int, mask: Seq<bool>, visited: Seq<bool>, stack: Seq<usize>)
    requires
        stack.len() > 0,
    ensures
        dfs_order(size, mask, visited, stack) == seq![stack.last()] + dfs_order(
            size,
            mask,
            expand(size, mask, visited, stack.drop_last(), stack.last() as int).0,
            expand(size, mask, visited, stack.drop_last(), stack.last() as int).1,
        ),
{
}

pub open spec fn regions_view(r: Seq<Vec<usize>>) -> Seq<Seq<usize>> {
    r.map_values(|v: Vec<usize>| v@)
}

/// `regions` are exactly the 4-connected components of the set cells of
/// `mask`, each listed from its lowest cell, in order of that cell.
pub open spec fn is_component_list(mask: Seq<bool>, size: int, regions: Seq<Seq<usize>>) -> bool {
    // every listed cell is a set cell of the grid
    &&& forall|a: int, k: int|
        0 <= a < regions.len() && 0 <= k < regions[a].len() ==> regions[a][k] < mask.len()
            && mask[regions[a][k] as int]
    // no cell is listed twice, in one region or across two
    &&& forall|a: int, k: int, l: int|
        0 <= a < regions.len() && 0 <= k < l < regions[a].len() ==> regions[a][k] != regions[a][l]
    &&& forall|a: int, b: int, k: int, l: int|
        0 <= a < b < regions.len() && 0 <= k < regions[a].len() && 0 <= l < regions[b].len()
            ==> regions[a][k] != regions[b][l]
    // every set cell is listed
    &&& forall|c: int|
        0 <= c < mask.len() && mask[c] ==> exists|a: int|
            0 <= a < regions.len() && #[trigger] regions[a].contains(c as usize)
    // a region holds every set neighbor of its cells
    &&& forall|a: int, k: int, d: int|
        0 <= a < regions.len() && 0 <= k < regions[a].len() && is_neighbor(
            size,
            regions[a][k] as int,
            d,
        ) && 0 <= d < mask.len() && mask[d] ==> regions[a].contains(d as usize)
    // each cell after a region's first touches an earlier one (connected)
    &&& forall|a: int, k: int|
        #![trigger regions[a][k]]
        0 <= a < regions.len() && 0 < k < regions[a].len() ==> exists|m: int|
            #![trigger regions[a][m]]
            0 <= m < k && is_neighbor(size, regions[a][m] as int, regions[a][k] as int)
    // non-empty, lowest cell first, ordered by lowest cell
    &&& forall|a: int| 0 <= a < regions.len() ==> regions[a].len() > 0
    &&& forall|a: int, k: int|
        0 <= a < regions.len() && 0 <= k < regions[a].len() ==> regions[a][0] <= #[trigger] regions[a][k]
    &&& forall|a: int, b: int| 0 <= a < b < regions.len() ==> regions[a][0] < regions[b][0]
}


/// Marks and stacks cell `j` when it is set and not yet visited.
fn try_cell(mask: &Vec<bool>, visited: &mut Vec<bool>, stack: &mut Vec<usize>, j: usize) -> (pushed: bool)
    requires
        j < old(visited)@.len(),
        j < mask@.len(),
    ensures
        pushed == (!old(visited)@[j as int] && mask@[j as int]),
        pushed ==> final(visited)@ == old(visited)@.update(j as int, true) && final(stack)@ == old(
            stack,
        )@.push(j),
        !pushed ==> final(visited)@ == old(visited)@ && final(stack)@ == old(stack)@,
{
    if !visited[j] && mask[j] {
        visited.set(j, true);
        stack.push(j);
        true
    } else {
        false
    }
}

/// The region state before and after filling from one start cell,
/// described through `own`: the region index owning each cell, `-1` for
/// cells not yet reached.
pub open spec fn owners_ok(mask: Seq<bool>, size: int, visited: Seq<bool>, own: Seq<int>, bound: int) -> bool {
    &&& visited.len() == mask.len() && own.len() == mask.len()
    &&& forall|c: int| 0 <= c < mask.len() ==> (#[trigger] visited[c] <==> own[c] >= 0)
    &&& forall|c: int| 0 <= c < mask.len() ==> #[trigger] own[c] <= bound
    &&& forall|c: int| 0 <= c < mask.len() && #[trigger] own[c] >= 0 ==> mask[c]
}

/// Owned cells' set neighbors have the same owner.
pub open spec fn owners_closed(mask: Seq<bool>, size: int, own: Seq<int>, below: int) -> bool {
    forall|c: int, d: int|
        0 <= c < mask.len() && 0 <= #[trigger] own[c] < below && #[trigger] is_neighbor(size, c, d)
            && 0 <= d < mask.len() && mask[d] ==> own[d] == own[c]
}

/// The flood fill's state while filling region `cur` from `start`:
/// `own` extends `owner` by the cells reached so far, which are `cells`
/// (visited) and `stack` (waiting); the first `closed` cells have had
/// their neighbors offered; `par_c` and `par_s` name, for each cell, an
/// earlier visited neighbor.
#[verifier::opaque]
pub open spec fn fill_inv(
    mask: Seq<bool>,
    sz: int,
    start: int,
    owner: Seq<int>,
    cur: int,
    visited: Seq<bool>,
    own: Seq<int>,
    cells: Seq<usize>,
    stack: Seq<usize>,
    par_c: Seq<int>,
    par_s: Seq<int>,
    closed: int,
) -> bool {
    let total = mask.len() as int;
    &&& sz > 0 && total == sz * sz && 0 <= start < total && cur >= 0 && total <= usize::MAX
    &&& owner.len() == total
    &&& forall|c: int| 0 <= c < start && mask[c] ==> #[trigger] owner[c] >= 0
    &&& owners_ok(mask, sz, visited, own, cur)
    &&& owners_closed(mask, sz, own, cur)
    &&& forall|c: int| 0 <= c < total && owner[c] >= 0 ==> #[trigger] own[c] == owner[c]
    &&& forall|c: int| 0 <= c < total && owner[c] < 0 && #[trigger] own[c] >= 0 ==> own[c] == cur
    &&& forall|c: int| 0 <= c < total ==> #[trigger] owner[c] < cur
    &&& forall|k: int|
        0 <= k < cells.len() ==> #[trigger] cells[k] < total && own[cells[k] as int] == cur
            && cells[k] >= start
    &&& forall|k: int|
        0 <= k < stack.len() ==> #[trigger] stack[k] < total && own[stack[k] as int] == cur
            && stack[k] >= start
    &&& forall|c: int|
        0 <= c < total && #[trigger] own[c] == cur ==> cells.contains(c as usize) || stack.contains(
            c as usize,
        )
    &&& forall|k: int, l: int| 0 <= k < l < cells.len() ==> cells[k] != cells[l]
    &&& forall|k: int, l: int| 0 <= k < l < stack.len() ==> stack[k] != stack[l]
    &&& forall|k: int, l: int| 0 <= k < cells.len() && 0 <= l < stack.len() ==> cells[k] != stack[l]
    &&& 0 <= closed <= cells.len()
    &&& forall|k: int, d: int|
        0 <= k < closed && #[trigger] is_neighbor(sz, cells[k] as int, d) && 0 <= d < total
            && mask[d] ==> own[d] == cur
    &&& par_c.len() == cells.len()
    &&& forall|k: int|
        0 < k < cells.len() ==> 0 <= #[trigger] par_c[k] < k && is_neighbor(
            sz,
            cells[par_c[k]] as int,
            cells[k] as int,
        )
    &&& par_s.len() == stack.len()
    &&& cells.len() == 0 ==> stack == seq![start as usize]
    &&& cells.len() > 0 ==> cells[0] == start
    &&& cells.len() > 0 ==> forall|k: int|
        0 <= k < stack.len() ==> 0 <= #[trigger] par_s[k] < cells.len() && is_neighbor(
            sz,
            cells[par_s[k]] as int,
            stack[k] as int,
        )
}

proof fn lemma_fill_start(
    mask: Seq<bool>,
    sz: int,
    start: int,
    owner: Seq<int>,
    cur: int,
    visited: Seq<bool>,
)
    requires
        sz > 0,
        mask.len() == sz * sz,
        mask.len() <= usize::MAX,
        0 <= start < mask.len(),
        mask[start],
        !visited[start],
        cur >= 0,
        owners_ok(mask, sz, visited, owner, cur - 1),
        owners_closed(mask, sz, owner, cur),
        forall|c: int| 0 <= c < start && mask[c] ==> #[trigger] owner[c] >= 0,
    ensures
        fill_inv(
            mask,
            sz,
            start,
            owner,
            cur,
            visited.update(start, true),
            owner.update(start, cur),
            Seq::empty(),
            seq![start as usize],
            Seq::empty(),
            seq![0int],
            0,
        ),
{
    reveal(fill_inv);
    let own = owner.update(start, cur);
    let v = visited.update(start, true);
    let stack = seq![start as usize];
    assert forall|c: int| 0 <= c < mask.len() && #[trigger] own[c] == cur implies Seq::<usize>::empty().contains(
        c as usize,
    ) || stack.contains(c as usize) by {
        if c != start {
            assert(owner[c] <= cur - 1);
        }
        assert(stack[0] == start as usize);
    }
    assert forall|c: int, d: int|
        0 <= c < mask.len() && 0 <= #[trigger] own[c] < cur && #[trigger] is_neighbor(sz, c, d) && 0 <= d
            < mask.len() && mask[d] implies own[d] == own[c] by {
        if c != start {
            assert(owner[c] >= 0 && owner[c] < cur);
            if d == start {
                lemma_neighbor_symmetric(sz, c, d);
                assert(!visited[start]);
                assert(owner[start] < 0);
                assert(owner[d] == owner[c]);
            }
        }
    }
    assert(owners_ok(mask, sz, v, own, cur));
}

proof fn lemma_fill_pop(
    mask: Seq<bool>,
    sz: int,
    start: int,
    owner: Seq<int>,
    cur: int,
    visited: Seq<bool>,
    own: Seq<int>,
    cells: Seq<usize>,
    stack: Seq<usize>,
    par_c: Seq<int>,
    par_s: Seq<int>,
)
    requires
        fill_inv(mask, sz, start, owner, cur, visited, own, cells, stack, par_c, par_s, cells.len() as int),
        stack.len() > 0,
    ensures
        fill_inv(
            mask,
            sz,
            start,
            owner,
            cur,
            visited,
            own,
            cells.push(stack.last()),
            stack.drop_last(),
            par_c.push(if cells.len() == 0 { 0 } else { par_s.last() }),
            par_s.drop_last(),
            cells.len() as int,
        ),
{
    reveal(fill_inv);
    let i = stack.last();
    let cells2 = cells.push(i);
    let stack2 = stack.drop_last();
    let total = mask.len() as int;
    assert forall|c: int| 0 <= c < total && #[trigger] own[c] == cur implies cells2.contains(c as usize)
        || stack2.contains(c as usize) by {
        if cells.contains(c as usize) {
            let k = choose|k: int| 0 <= k < cells.len() && cells[k] == c as usize;
            assert(cells2[k] == c as usize);
        } else {
            let k = choose|k: int| 0 <= k < stack.len() && stack[k] == c as usize;
            if k == stack.len() - 1 {
                assert(cells2[cells.len() as int] == c as usize);
            } else {
                assert(stack2[k] == c as usize);
            }
        }
    }
    assert forall|k: int, l: int| 0 <= k < l < cells2.len() implies cells2[k] != cells2[l] by {
        if l == cells.len() {
            assert(stack[stack.len() - 1] == i);
        }
    }
    let par_c2 = par_c.push(if cells.len() == 0 { 0 } else { par_s.last() });
    assert forall|k: int|
        0 < k < cells2.len() implies 0 <= #[trigger] par_c2[k] < k && is_neighbor(
        sz,
        cells2[par_c2[k]] as int,
        cells2[k] as int,
    ) by {
        if k == cells.len() {
            assert(par_s[stack.len() - 1] == par_s.last());
        }
    }
    if cells.len() == 0 {
        assert(stack2.len() == 0);
    }
}

proof fn lemma_fill_offer(
    mask: Seq<bool>,
    sz: int,
    start: int,
    owner: Seq<int>,
    cur: int,
    visited: Seq<bool>,
    own: Seq<int>,
    cells: Seq<usize>,
    stack: Seq<usize>,
    par_c: Seq<int>,
    par_s: Seq<int>,
    j: int,
)
    requires
        fill_inv(mask, sz, start, owner, cur, visited, own, cells, stack, par_c, par_s, cells.len() - 1),
        cells.len() > 0,
        is_neighbor(sz, cells.last() as int, j),
        0 <= j < mask.len(),
        !visited[j],
        mask[j],
    ensures
        fill_inv(
            mask,
            sz,
            start,
            owner,
            cur,
            visited.update(j, true),
            own.update(j, cur),
            cells,
            stack.push(j as usize),
            par_c,
            par_s.push(cells.len() - 1),
            cells.len() - 1,
        ),
{
    reveal(fill_inv);
    let total = mask.len() as int;
    let own2 = own.update(j, cur);
    let v2 = visited.update(j, true);
    let stack2 = stack.push(j as usize);
    assert(own[j] < 0);
    assert(owner[j] < 0) by {
        if owner[j] >= 0 {
            assert(own[j] == owner[j]);
        }
    }
    assert(j >= start);
    assert forall|c: int| 0 <= c < total && #[trigger] own2[c] == cur implies cells.contains(c as usize)
        || stack2.contains(c as usize) by {
        if c == j {
            assert(stack2[stack.len() as int] == j as usize);
        } else {
            if stack.contains(c as usize) {
                let k = choose|k: int| 0 <= k < stack.len() && stack[k] == c as usize;
                assert(stack2[k] == c as usize);
            }
        }
    }
    assert forall|c: int, d: int|
        0 <= c < total && 0 <= #[trigger] own2[c] < cur && #[trigger] is_neighbor(sz, c, d) && 0 <= d
            < total && mask[d] implies own2[d] == own2[c] by {
        if d == j {
            lemma_neighbor_symmetric(sz, c, d);
            assert(own[d] == own[c]);
        }
    }
    assert forall|k: int, l: int| 0 <= k < cells.len() && 0 <= l < stack2.len() implies cells[k]
        != stack2[l] by {
        if l == stack.len() {
            assert(own[cells[k] as int] == cur);
        }
    }
    assert forall|k: int, l: int| 0 <= k < l < stack2.len() implies stack2[k] != stack2[l] by {
        if l == stack.len() {
            assert(own[stack[k] as int] == cur);
        }
    }
    assert(owners_ok(mask, sz, v2, own2, cur));
}

proof fn lemma_fill_close(
    mask: Seq<bool>,
    sz: int,
    start: int,
    owner: Seq<int>,
    cur: int,
    visited: Seq<bool>,
    own: Seq<int>,
    cells: Seq<usize>,
    stack: Seq<usize>,
    par_c: Seq<int>,
    par_s: Seq<int>,
)
    requires
        fill_inv(mask, sz, start, owner, cur, visited, own, cells, stack, par_c, par_s, cells.len() - 1),
        cells.len() > 0,
        forall|d: int|
            #[trigger] is_neighbor(sz, cells.last() as int, d) && 0 <= d < mask.len() && mask[d]
                ==> visited[d],
    ensures
        fill_inv(mask, sz, start, owner, cur, visited, own, cells, stack, par_c, par_s, cells.len() as int),
{
    reveal(fill_inv);
    let total = mask.len() as int;
    let last = cells.len() - 1;
    let i = cells[last] as int;
    assert forall|k: int, d: int|
        0 <= k < cells.len() && #[trigger] is_neighbor(sz, cells[k] as int, d) && 0 <= d < total
            && mask[d] implies own[d] == cur by {
        if k == last {
            assert(cells.last() == cells[k]);
            assert(is_neighbor(sz, cells.last() as int, d));
            assert(visited[d]);
            assert(own[i] == cur);
            if own[d] < cur {
                lemma_neighbor_symmetric(sz, i, d);
                assert(mask[i]);
                assert(own[i] == own[d]);
            }
        }
    }
}

proof fn lemma_fill_done(
    mask: Seq<bool>,
    sz: int,
    start: int,
    owner: Seq<int>,
    cur: int,
    visited: Seq<bool>,
    own: Seq<int>,
    cells: Seq<usize>,
    stack: Seq<usize>,
    par_c: Seq<int>,
    par_s: Seq<int>,
)
    requires
        fill_inv(mask, sz, start, owner, cur, visited, own, cells, stack, par_c, par_s, cells.len() as int),
        stack.len() == 0,
    ensures
        owners_ok(mask, sz, visited, own, cur),
        owners_closed(mask, sz, own, cur + 1),
        forall|c: int| 0 <= c < mask.len() && owner[c] >= 0 ==> #[trigger] own[c] == owner[c],
        forall|c: int| 0 <= c < mask.len() && owner[c] < 0 && #[trigger] own[c] >= 0 ==> own[c] == cur,
        forall|k: int|
            0 <= k < cells.len() ==> #[trigger] cells[k] < mask.len() && own[cells[k] as int] == cur
                && cells[k] >= start,
        forall|c: int| 0 <= c < mask.len() && #[trigger] own[c] == cur ==> cells.contains(c as usize),
        forall|k: int, l: int| 0 <= k < l < cells.len() ==> cells[k] != cells[l],
        cells.len() > 0,
        cells[0] == start,
        forall|k: int|
            #![trigger cells[k]]
            0 < k < cells.len() ==> exists|m: int|
                #![trigger cells[m]]
                0 <= m < k && is_neighbor(sz, cells[m] as int, cells[k] as int),
{
    reveal(fill_inv);
    let total = mask.len() as int;
    assert(cells.len() > 0) by {
        if cells.len() == 0 {
            assert(stack.len() == 1);
        }
    }
    assert forall|c: int, d: int|
        0 <= c < total && 0 <= #[trigger] own[c] < cur + 1 && #[trigger] is_neighbor(sz, c, d) && 0
            <= d < total && mask[d] implies own[d] == own[c] by {
        if own[c] == cur {
            assert(cells.contains(c as usize) || stack.contains(c as usize));
            let k = choose|k: int| 0 <= k < cells.len() && cells[k] == c as usize;
            assert(is_neighbor(sz, cells[k] as int, d));
        }
    }
    assert forall|k: int|
        #![trigger cells[k]]
        0 < k < cells.len() implies exists|m: int|
            #![trigger cells[m]]
            0 <= m < k && is_neighbor(sz, cells[m] as int, cells[k] as int) by {
        let m = par_c[k];
        assert(0 <= m < k && is_neighbor(sz, cells[m] as int, cells[k] as int));
    }
}

/// Fill the region of `start` (a set cell not yet visited); returns its
/// cells in visiting order and the updated owners.
#[verifier::rlimit(60)]
fn fill_region(
    mask: &Vec<bool>,
    size: usize,
    visited: &mut Vec<bool>,
    start: usize,
    Ghost(owner): Ghost<Seq<int>>,
    Ghost(cur): Ghost<int>,
) -> (r: (Vec<usize>, Ghost<Seq<int>>))
    requires
        size > 0,
        mask@.len() == size * size,
        mask@.len() <= usize::MAX,
        start < mask@.len(),
        mask@[start as int],
        !old(visited)@[start as int],
        cur >= 0,
        owners_ok(mask@, size as int, old(visited)@, owner, cur - 1),
        owners_closed(mask@, size as int, owner, cur),
        forall|c: int| 0 <= c < start && mask@[c] ==> #[trigger] owner[c] >= 0,
    ensures
        owners_ok(mask@, size as int, final(visited)@, r.1@, cur),
        owners_closed(mask@, size as int, r.1@, cur + 1),
        forall|c: int| 0 <= c < mask@.len() && owner[c] >= 0 ==> #[trigger] r.1@[c] == owner[c],
        forall|c: int| 0 <= c < mask@.len() && owner[c] < 0 && #[trigger] r.1@[c] >= 0 ==> r.1@[c] == cur,
        forall|k: int|
            0 <= k < r.0@.len() ==> #[trigger] r.0@[k] < mask@.len() && r.1@[r.0@[k] as int] == cur
                && r.0@[k] >= start,
        forall|c: int| 0 <= c < mask@.len() && #[trigger] r.1@[c] == cur ==> r.0@.contains(c as usize),
        forall|k: int, l: int| 0 <= k < l < r.0@.len() ==> r.0@[k] != r.0@[l],
        r.0@.len() > 0,
        r.0@[0] == start,
        forall|k: int|
            #![trigger r.0@[k]]
            0 < k < r.0@.len() ==> exists|m: int|
                #![trigger r.0@[m]]
                0 <= m < k && is_neighbor(size as int, r.0@[m] as int, r.0@[k] as int),
        r.0@ == dfs_order(size as int, mask@, old(visited)@.update(start as int, true), seq![start]),
{
    let ghost total = mask@.len() as int;
    let ghost sz = size as int;
    let mut cells: Vec<usize> = Vec::new();
    let mut stack: Vec<usize> = Vec::new();
    stack.push(start);
    proof {
        lemma_count_false_mark(visited@, start as int);
        lemma_fill_start(mask@, sz, start as int, owner, cur, visited@);
    }
    visited.set(start, true);
    let ghost mut own = owner.update(start as int, cur);
    let ghost mut par_c: Seq<int> = Seq::empty();
    let ghost mut par_s: Seq<int> = seq![0int];
    proof {
        assert(stack@ =~= seq![start]);
        assert(cells@ =~= Seq::<usize>::empty());
    }
    let ghost full = dfs_order(sz, mask@, visited@, stack@);
    proof {
        assert(cells@ + dfs_order(sz, mask@, visited@, stack@) =~= full);
    }
    while stack.len() > 0
        invariant
            cells@ + dfs_order(sz, mask@, visited@, stack@) == full,
            fill_inv(mask@, sz, start as int, owner, cur, visited@, own, cells@, stack@, par_c, par_s, cells@.len() as int),
            sz == size,
            total == mask@.len(),
            total == sz * sz,
            total <= usize::MAX,
            visited@.len() == total,
        decreases 2 * count_false(visited@) + stack@.len(),
    {
        proof {
            lemma_fill_pop(mask@, sz, start as int, owner, cur, visited@, own, cells@, stack@, par_c, par_s);
            assert(stack@.last() < total) by {
                reveal(fill_inv);
            }
        }
        let ghost cells0 = cells@;
        let ghost measure0 = 2 * count_false(visited@) + stack@.len();
        let ghost vb = visited@;
        let ghost sb = stack@;
        proof {
            lemma_dfs_unfold(sz, mask@, vb, sb);
        }
        let i = stack.pop().unwrap();
        cells.push(i);
        let ghost sp = stack@;
        proof {
            par_c = par_c.push(if cells0.len() == 0 { 0 } else { par_s.last() });
            par_s = par_s.drop_last();
            lemma_cell_coords(sz, i as int);
        }
        let ghost ci = cells0.len() as int;
        let x = i % size;
        let y = i / size;
        let ghost va1 = visited@;
        let ghost sa1 = stack@;
        if x > 0 {
            proof {
                lemma_neighbor_symmetric(sz, i as int, i - 1);
            }
            let ghost v0 = visited@;
            let ghost s0 = stack@;
            if try_cell(mask, visited, &mut stack, i - 1) {
                proof {
                    lemma_fill_offer(mask@, sz, start as int, owner, cur, v0, own, cells@, s0, par_c, par_s, i - 1);
                    lemma_count_false_mark(v0, i - 1);
                    own = own.update(i - 1, cur);
                    par_s = par_s.push(ci);
                }
            }
            proof {
                assert((visited@, stack@) == offer(mask@, v0, s0, i as int - 1));
            }
        }
        proof {
            assert((visited@, stack@) == (if x > 0 { offer(mask@, va1, sa1, i as int - 1) } else { (va1, sa1) }));
        }
        let ghost va2 = visited@;
        let ghost sa2 = stack@;
        if x + 1 < size {
            proof {
                lemma_neighbor_symmetric(sz, i as int, i + 1);
            }
            let ghost v0 = visited@;
            let ghost s0 = stack@;
            if try_cell(mask, visited, &mut stack, i + 1) {
                proof {
                    lemma_fill_offer(mask@, sz, start as int, owner, cur, v0, own, cells@, s0, par_c, par_s, i + 1);
                    lemma_count_false_mark(v0, i + 1);
                    own = own.update(i + 1, cur);
                    par_s = par_s.push(ci);
                }
            }
            proof {
                assert((visited@, stack@) == offer(mask@, v0, s0, i as int + 1));
            }
        }
        proof {
            assert((visited@, stack@) == (if x + 1 < size { offer(mask@, va2, sa2, i as int + 1) } else { (va2, sa2) }));
        }
        let ghost va3 = visited@;
        let ghost sa3 = stack@;
        if y > 0 {
            proof {
                lemma_neighbor_symmetric(sz, i as int, i - sz);
            }
            let ghost v0 = visited@;
            let ghost s0 = stack@;
            if try_cell(mask, visited, &mut stack, i - size) {
                proof {
                    lemma_fill_offer(mask@, sz, start as int, owner, cur, v0, own, cells@, s0, par_c, par_s, i - sz);
                    lemma_count_false_mark(v0, i - sz);
                    own = own.update(i - sz, cur);
                    par_s = par_s.push(ci);
                }
            }
            proof {
                assert((visited@, stack@) == offer(mask@, v0, s0, i as int - sz));
            }
        }
        proof {
            assert((visited@, stack@) == (if y > 0 { offer(mask@, va3, sa3, i as int - sz) } else { (va3, sa3) }));
        }
        let ghost va4 = visited@;
        let ghost sa4 = stack@;
        if y + 1 < size {
            proof {
                lemma_neighbor_symmetric(sz, i as int, i + sz);
            }
            let ghost v0 = visited@;
            let ghost s0 = stack@;
            if try_cell(mask, visited, &mut stack, i + size) {
                proof {
                    lemma_fill_offer(mask@, sz, start as int, owner, cur, v0, own, cells@, s0, par_c, par_s, i + sz);
                    lemma_count_false_mark(v0, i + sz);
                    own = own.update(i + sz, cur);
                    par_s = par_s.push(ci);
                }
            }
            proof {
                assert((visited@, stack@) == offer(mask@, v0, s0, i as int + sz));
            }
        }
        proof {
            assert((visited@, stack@) == (if y + 1 < size { offer(mask@, va4, sa4, i as int + sz) } else { (va4, sa4) }));
        }
        proof {
            assert(vb == va1 && sp == sa1);
            assert((visited@, stack@) == expand(sz, mask@, vb, sp, i as int));
            assert(sb.last() == i && sb.drop_last() == sp);
            assert(cells@ + dfs_order(sz, mask@, visited@, stack@) =~= cells0 + dfs_order(sz, mask@, vb, sb));
            assert(cells@.last() == i);
            assert forall|d: int|
                #[trigger] is_neighbor(sz, cells@.last() as int, d) && 0 <= d < total && mask@[d]
                    implies visited@[d] by {}
            lemma_fill_close(mask@, sz, start as int, owner, cur, visited@, own, cells@, stack@, par_c, par_s);
        }
    }
    proof {
        lemma_fill_done(mask@, sz, start as int, owner, cur, visited@, own, cells@, stack@, par_c, par_s);
        assert(cells@ =~= full);
    }
    (cells, Ghost(own))
}

/// Outer-loop state: `regions` are the regions found so far, each cell's
/// owner is its region's index, and every set cell below `start` is owned.
#[verifier::opaque]
pub open spec fn scan_inv(mask: Seq<bool>, sz: int, start: int, visited: Seq<bool>, own: Seq<int>, r: Seq<Seq<usize>>) -> bool {
    let total = mask.len() as int;
    &&& total == sz * sz && total <= usize::MAX && 0 <= start <= total
    &&& owners_ok(mask, sz, visited, own, r.len() - 1)
    &&& owners_closed(mask, sz, own, r.len() as int)
    &&& forall|c: int| 0 <= c < start && mask[c] ==> #[trigger] own[c] >= 0
    &&& forall|a: int, k: int|
        0 <= a < r.len() && 0 <= k < r[a].len() ==> #[trigger] r[a][k] < total && own[r[a][k] as int] == a
    &&& forall|c: int| 0 <= c < total && #[trigger] own[c] >= 0 ==> r[own[c]].contains(c as usize)
    &&& forall|a: int, k: int, l: int| 0 <= a < r.len() && 0 <= k < l < r[a].len() ==> r[a][k] != r[a][l]
    &&& forall|a: int, k: int|
        #![trigger r[a][k]]
        0 <= a < r.len() && 0 < k < r[a].len() ==> exists|m: int|
            #![trigger r[a][m]]
            0 <= m < k && is_neighbor(sz, r[a][m] as int, r[a][k] as int)
    &&& forall|a: int| 0 <= a < r.len() ==> #[trigger] r[a].len() > 0 && r[a][0] < start
    &&& forall|a: int, k: int| 0 <= a < r.len() && 0 <= k < r[a].len() ==> r[a][0] <= #[trigger] r[a][k]
    &&& forall|a: int, b: int| 0 <= a < b < r.len() ==> r[a][0] < r[b][0]
}

proof fn lemma_scan_skip(mask: Seq<bool>, sz: int, start: int, visited: Seq<bool>, own: Seq<int>, r: Seq<Seq<usize>>)
    requires
        scan_inv(mask, sz, start, visited, own, r),
        start < mask.len(),
        visited[start] || !mask[start],
    ensures
        scan_inv(mask, sz, start + 1, visited, own, r),
{
    reveal(scan_inv);
}

proof fn lemma_scan_add(
    mask: Seq<bool>,
    sz: int,
    start: int,
    visited: Seq<bool>,
    own: Seq<int>,
    r: Seq<Seq<usize>>,
    visited2: Seq<bool>,
    own2: Seq<int>,
    cells: Seq<usize>,
)
    requires
        scan_inv(mask, sz, start, visited, own, r),
        start < mask.len(),
        owners_ok(mask, sz, visited2, own2, r.len() as int),
        owners_closed(mask, sz, own2, r.len() as int + 1),
        forall|c: int| 0 <= c < mask.len() && own[c] >= 0 ==> #[trigger] own2[c] == own[c],
        forall|c: int| 0 <= c < mask.len() && own[c] < 0 && #[trigger] own2[c] >= 0 ==> own2[c] == r.len(),
        forall|k: int|
            0 <= k < cells.len() ==> #[trigger] cells[k] < mask.len() && own2[cells[k] as int] == r.len()
                && cells[k] >= start,
        forall|c: int| 0 <= c < mask.len() && #[trigger] own2[c] == r.len() ==> cells.contains(c as usize),
        forall|k: int, l: int| 0 <= k < l < cells.len() ==> cells[k] != cells[l],
        cells.len() > 0,
        cells[0] == start,
        forall|k: int|
            #![trigger cells[k]]
            0 < k < cells.len() ==> exists|m: int|
                #![trigger cells[m]]
                0 <= m < k && is_neighbor(sz, cells[m] as int, cells[k] as int),
    ensures
        scan_inv(mask, sz, start + 1, visited2, own2, r.push(cells)),
{
    reveal(scan_inv);
    let r2 = r.push(cells);
    let total = mask.len() as int;
    let cur = r.len() as int;
    assert forall|a: int, k: int|
        0 <= a < r2.len() && 0 <= k < r2[a].len() implies #[trigger] r2[a][k] < total && own2[r2[a][k] as int] == a by {
        if a < cur {
            assert(r2[a] == r[a]);
            assert(own[r[a][k] as int] == a);
        }
    }
    assert forall|c: int| 0 <= c < total && #[trigger] own2[c] >= 0 implies r2[own2[c]].contains(c as usize) by {
        if own[c] >= 0 {
            assert(r2[own[c]] == r[own[c]]);
        } else {
            assert(own2[c] == cur);
        }
    }
    assert forall|c: int| 0 <= c < start + 1 && mask[c] implies #[trigger] own2[c] >= 0 by {
        if c == start {
            assert(own2[cells[0] as int] == cur);
        } else {
            assert(own[c] >= 0);
        }
    }
    assert forall|a: int, k: int|
        #![trigger r2[a][k]]
        0 <= a < r2.len() && 0 < k < r2[a].len() implies exists|m: int|
            #![trigger r2[a][m]]
            0 <= m < k && is_neighbor(sz, r2[a][m] as int, r2[a][k] as int) by {
        if a < cur {
            assert(r2[a] == r[a]);
            let m = choose|m: int| 0 <= m < k && is_neighbor(sz, r[a][m] as int, r[a][k] as int);
            assert(r2[a][m] == r[a][m]);
        } else {
            assert(r2[a] == cells);
            let m = choose|m: int| 0 <= m < k && is_neighbor(sz, cells[m] as int, cells[k] as int);
            assert(r2[a][m] == cells[m]);
        }
    }
    assert forall|a: int, b: int| 0 <= a < b < r2.len() implies r2[a][0] < r2[b][0] by {
        assert(r2[a] == r[a]);
        if b < cur {
            assert(r2[b] == r[b]);
        }
    }
    assert forall|a: int| 0 <= a < r2.len() implies #[trigger] r2[a].len() > 0 && r2[a][0] < start + 1 by {
        if a < cur {
            assert(r2[a] == r[a]);
        }
    }
}

proof fn lemma_scan_done(mask: Seq<bool>, sz: int, visited: Seq<bool>, own: Seq<int>, r: Seq<Seq<usize>>)
    requires
        scan_inv(mask, sz, mask.len() as int, visited, own, r),
    ensures
        is_component_list(mask, sz, r),
{
    reveal(scan_inv);
    let total = mask.len() as int;
    assert forall|a: int, b: int, k: int, l: int|
        0 <= a < b < r.len() && 0 <= k < r[a].len() && 0 <= l < r[b].len() implies r[a][k] != r[b][l] by {
        assert(own[r[a][k] as int] == a);
        assert(own[r[b][l] as int] == b);
    }
    assert forall|c: int| 0 <= c < total && mask[c] implies exists|a: int|
        0 <= a < r.len() && #[trigger] r[a].contains(c as usize) by {
        assert(own[c] >= 0);
        assert(r[own[c]].contains(c as usize));
    }
    assert forall|a: int, k: int, d: int|
        0 <= a < r.len() && 0 <= k < r[a].len() && is_neighbor(sz, r[a][k] as int, d) && 0 <= d < total
            && mask[d] implies r[a].contains(d as usize) by {
        let c = r[a][k] as int;
        assert(own[c] == a);
        assert(own[d] == own[c]);
        assert(r[own[d]].contains(d as usize));
    }
    assert forall|a: int, k: int|
        0 <= a < r.len() && 0 <= k < r[a].len() implies r[a][k] < mask.len() && mask[r[a][k] as int] by {
        assert(own[r[a][k] as int] == a);
    }
}

/// The cells listed in the regions before region `a`, as visited marks
/// over a grid of `n` cells.
pub open spec fn marked_before(n: int, regions: Seq<Seq<usize>>, a: int) -> Seq<bool> {
    Seq::new(n as nat, |c: int| exists|b: int| 0 <= b < a && #[trigger] regions[b].contains(c as usize))
}

/// Each region lists its cells in the order a depth-first fill from its
/// lowest cell visits them, with the cells of the earlier regions already
/// visited.
pub open spec fn fills_in_order(mask: Seq<bool>, size: int, regions: Seq<Seq<usize>>) -> bool {
    forall|a: int|
        0 <= a < regions.len() ==> #[trigger] regions[a] == dfs_order(
            size,
            mask,
            marked_before(mask.len() as int, regions, a).update(regions[a][0] as int, true),
            seq![regions[a][0]],
        )
}

proof fn lemma_visited_marked(
    mask: Seq<bool>,
    sz: int,
    start: int,
    visited: Seq<bool>,
    own: Seq<int>,
    r: Seq<Seq<usize>>,
)
    requires
        scan_inv(mask, sz, start, visited, own, r),
    ensures
        visited == marked_before(mask.len() as int, r, r.len() as int),
{
    reveal(scan_inv);
    let m = marked_before(mask.len() as int, r, r.len() as int);
    assert forall|c: int| 0 <= c < mask.len() implies visited[c] == m[c] by {
        if visited[c] {
            assert(r[own[c]].contains(c as usize));
        }
        if m[c] {
            let b = choose|b: int| 0 <= b < r.len() && #[trigger] r[b].contains(c as usize);
            let k = choose|k: int| 0 <= k < r[b].len() && r[b][k] == c as usize;
            assert(own[r[b][k] as int] == b);
        }
    }
    assert(visited =~= m);
}

proof fn lemma_marked_push(n: int, r: Seq<Seq<usize>>, x: Seq<usize>, a: int)
    requires
        0 <= n,
        0 <= a <= r.len(),
    ensures
        marked_before(n, r.push(x), a) == marked_before(n, r, a),
{
    let r2 = r.push(x);
    assert forall|c: int| 0 <= c < n implies marked_before(n, r2, a)[c] == marked_before(n, r, a)[c] by {
        if marked_before(n, r2, a)[c] {
            let b = choose|b: int| 0 <= b < a && #[trigger] r2[b].contains(c as usize);
            assert(r2[b] == r[b]);
        }
        if marked_before(n, r, a)[c] {
            let b = choose|b: int| 0 <= b < a && #[trigger] r[b].contains(c as usize);
            assert(r2[b] == r[b]);
        }
    }
    assert(marked_before(n, r2, a) =~= marked_before(n, r, a));
}

/// The 4-connected regions of the set cells of a `size`-wide square
/// mask, each listed from its lowest cell in depth-first visiting order
/// (neighbors offered left, right, up, down), in order of lowest cell.
pub fn connected_regions(mask: &Vec<bool>, size: usize) -> (regions: Vec<Vec<usize>>)
    requires
        size * size <= usize::MAX,
        mask@.len() == size * size,
    ensures
        is_component_list(mask@, size as int, regions_view(regions@)),
        fills_in_order(mask@, size as int, regions_view(regions@)),
{
    let total = size * size;
    let ghost sz = size as int;
    let mut visited: Vec<bool> = Vec::new();
    let mut k: usize = 0;
    while k < total
        invariant
            k <= total,
            visited@.len() == k,
            forall|c: int| 0 <= c < k ==> !#[trigger] visited@[c],
        decreases total - k,
    {
        visited.push(false);
        k = k + 1;
    }
    let mut regions: Vec<Vec<usize>> = Vec::new();
    let ghost mut own: Seq<int> = Seq::new(total as nat, |c: int| -1int);
    proof {
        reveal(scan_inv);
        assert(regions_view(regions@) =~= Seq::<Seq<usize>>::empty());
        assert(scan_inv(mask@, sz, 0, visited@, own, regions_view(regions@)));
        assert(fills_in_order(mask@, sz, regions_view(regions@)));
    }
    let mut start: usize = 0;
    while start < total
        invariant
            scan_inv(mask@, sz, start as int, visited@, own, regions_view(regions@)),
            fills_in_order(mask@, sz, regions_view(regions@)),
            total == size * size,
            total == mask@.len(),
            visited@.len() == total,
            own.len() == total,
            sz == size,
        decreases total - start,
    {
        if !visited[start] && mask[start] {
            let ghost r = regions_view(regions@);
            let ghost v0 = visited@;
            proof {
                lemma_visited_marked(mask@, sz, start as int, v0, own, r);
                reveal(scan_inv);
                assert(r.len() == regions@.len());
                assert(size > 0) by (nonlinear_arith)
                    requires
                        start < size * size,
                        size >= 0,
                ;
            }
            let (cells, Ghost(own2)) = fill_region(
                mask,
                size,
                &mut visited,
                start,
                Ghost(own),
                Ghost(regions@.len() as int),
            );
            proof {
                lemma_scan_add(mask@, sz, start as int, v0, own, r, visited@, own2, cells@);
                own = own2;
            }
            let ghost cv = cells@;
            regions.push(cells);
            proof {
                let r2 = r.push(cv);
                assert(regions_view(regions@) =~= r2);
                assert forall|a: int| 0 <= a < r2.len() implies #[trigger] r2[a] == dfs_order(
                    sz,
                    mask@,
                    marked_before(mask@.len() as int, r2, a).update(r2[a][0] as int, true),
                    seq![r2[a][0]],
                ) by {
                    lemma_marked_push(mask@.len() as int, r, cv, a);
                    if a < r.len() {
                        assert(r2[a] == r[a]);
                    } else {
                        assert(r2[a] == cv);
                        assert(cv[0] == start);
                    }
                }
            }
        } else {
            proof {
                lemma_scan_skip(mask@, sz, start as int, visited@, own, regions_view(regions@));
            }
        }
        start = start + 1;
    }
    proof {
        lemma_scan_done(mask@, sz, visited@, own, regions_view(regions@));
    }
    regions
}

/// Fewest cells a detected structure may have: 1/512 of the field,
/// and never fewer than four (smaller regions are specks).
pub open spec fn min_region_cells_spec(size: int) -> int {
    if (size * size) / 512 >= 4 {
        (size * size) / 512
    } else {
        4
    }
}

pub fn min_region_cells(size: usize) -> (n: usize)
    requires
        size * size <= usize::MAX,
    ensures
        n == min_region_cells_spec(size as int),
{
    let a = (size * size) / 512;
    if a >= 4 { a } else { 4 }
}

pub open spec fn large_enough(min: usize) -> spec_fn(Seq<usize>) -> bool {
    |c: Seq<usize>| c.len() >= min
}

/// The regions with at least `min` cells, in their original order.
pub fn keep_large(regions: &Vec<Vec<usize>>, min: usize) -> (r: Vec<Vec<usize>>)
    ensures
        regions_view(r@) == regions_view(regions@).filter(large_enough(min)),
{
    let ghost all = regions_view(regions@);
    let mut out: Vec<Vec<usize>> = Vec::new();
    let mut i: usize = 0;
    proof {
        reveal(Seq::filter);
        assert(all.take(0) =~= Seq::<Seq<usize>>::empty());
        assert(regions_view(out@) =~= all.take(0).filter(large_enough(min)));
    }
    while i < regions.len()
        invariant
            i <= regions@.len(),
            all == regions_view(regions@),
            regions_view(out@) == all.take(i as int).filter(large_enough(min)),
        decreases regions@.len() - i,
    {
        let ghost o = regions_view(out@);
        proof {
            reveal(Seq::filter);
            assert(all.take(i + 1).drop_last() =~= all.take(i as int));
            assert(all.take(i + 1).last() == regions@[i as int]@);
        }
        if regions[i].len() >= min {
            out.push(crate::primitives::copy_vec(&regions[i]));
            proof {
                assert(regions_view(out@) =~= o.push(regions@[i as int]@));
            }
        }
        i = i + 1;
    }
    proof {
        assert(all.take(i as int) =~= all);
    }
    out
}

} // verus!
