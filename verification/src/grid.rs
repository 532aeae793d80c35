//! The grid of tiles and the pure functions over it: run detection, swap
//! validation, swap commitment, and board generation.
//!
//! A grid is a `Vec` of lines, each line a `Vec` of cells holding
//! `Option<TileType>`. The generator fills every cell, so `None` only marks
//! a reserved affordance for callers that empty cells later. A *run* is a
//! group of three or more equal, non-empty tiles adjacent along one line or
//! across lines at one offset.

use vstd::prelude::*;

verus! {

/// The closed set of tile faces. Equality is by variant.
#[derive(Clone, Copy, Debug, PartialEq, Eq, Hash, Structural)]
pub enum TileType {
    Pentagon,
    Triangle,
    Square,
    Circle,
    Diamond,
    Star,
}

/// Mathematical view of a grid: each line of `Vec` cells as a `Seq`.
pub open spec fn gview(g: Seq<Vec<Option<TileType>>>) -> Seq<Seq<Option<TileType>>> {
    g.map(|i: int, line: Vec<Option<TileType>>| line@)
}

/// Length shared by every line of a well-formed grid.
pub open spec fn line_len(g: Seq<Seq<Option<TileType>>>) -> nat {
    if g.len() > 0 {
        g[0].len()
    } else {
        0
    }
}

/// The grid is rectangular: every line has the same length.
pub open spec fn grid_wf(g: Seq<Seq<Option<TileType>>>) -> bool {
    forall|i: int| 0 <= i < g.len() ==> (#[trigger] g[i]).len() == line_len(g)
}

/// Three equal, non-empty cells within line `i`, starting at offset `s`.
pub open spec fn run3_along(g: Seq<Seq<Option<TileType>>>, i: int, s: int) -> bool {
    &&& 0 <= i < g.len()
    &&& 0 <= s
    &&& s + 2 < g[i].len()
    &&& g[i][s] is Some
    &&& g[i][s + 1] == g[i][s]
    &&& g[i][s + 2] == g[i][s]
}

/// Three equal, non-empty cells at offset `j` of three consecutive lines
/// starting at line `s`.
pub open spec fn run3_across(g: Seq<Seq<Option<TileType>>>, s: int, j: int) -> bool {
    &&& 0 <= s
    &&& s + 2 < g.len()
    &&& 0 <= j < g[s].len()
    &&& j < g[s + 1].len()
    &&& j < g[s + 2].len()
    &&& g[s][j] is Some
    &&& g[s + 1][j] == g[s][j]
    &&& g[s + 2][j] == g[s][j]
}

/// Some run of three equal tiles exists somewhere in the grid. Any longer
/// run contains a run of three, so this captures "the grid has a run".
pub open spec fn has_run(g: Seq<Seq<Option<TileType>>>) -> bool {
    ||| exists|i: int, s: int| run3_along(g, i, s)
    ||| exists|s: int, j: int| run3_across(g, s, j)
}

/// Equality of two cells, usable from executable code.
fn cells_equal(a: Option<TileType>, b: Option<TileType>) -> (r: bool)
    ensures
        r == (a == b),
{
    match (a, b) {
        (Some(x), Some(y)) => x == y,
        (None, None) => true,
        _ => false,
    }
}

/// Detect whether the grid holds any run, scanning along lines and then
/// across lines and stopping at the first run found. Checking the two
/// preceding cells at each position finds a run of three exactly when some
/// maximal run of length three or more exists.
pub fn has_shape(grid: &Vec<Vec<Option<TileType>>>) -> (r: bool)
    requires
        grid@.len() > 0,
        grid_wf(gview(grid@)),
    ensures
        r == has_run(gview(grid@)),
{
    let ghost g = gview(grid@);
    let n = grid.len();
    let mut i: usize = 0;
    while i < n
        invariant
            g == gview(grid@),
            n == grid@.len(),
            i <= n,
            forall|i2: int, s: int| i2 < i ==> !run3_along(g, i2, s),
        decreases n - i,
    {
        let m = grid[i].len();
        assert(g[i as int] == grid@[i as int]@);
        let mut j: usize = 2;
        while j < m
            invariant
                g == gview(grid@),
                n == grid@.len(),
                i < n,
                2 <= j,
                m == g[i as int].len(),
                forall|i2: int, s: int| i2 < i ==> !run3_along(g, i2, s),
                forall|s: int| s + 2 < j ==> !run3_along(g, i as int, s),
            decreases m - j,
        {
            let c = grid[i][j];
            if c.is_some() && cells_equal(grid[i][j - 1], c) && cells_equal(grid[i][j - 2], c) {
                assert(run3_along(g, i as int, j - 2));
                return true;
            }
            assert(!run3_along(g, i as int, j - 2));
            j += 1;
        }
        i += 1;
    }
    let m = grid[0].len();
    assert(m == line_len(g));
    let mut i: usize = 2;
    while i < n
        invariant
            g == gview(grid@),
            n == grid@.len(),
            n > 0,
            2 <= i,
            m == line_len(g),
            grid_wf(g),
            forall|s: int, j: int| s + 2 < i ==> !run3_across(g, s, j),
            forall|i2: int, s: int| !run3_along(g, i2, s),
        decreases n - i,
    {
        let mut j: usize = 0;
        while j < m
            invariant
                g == gview(grid@),
                n == grid@.len(),
                n > 0,
                2 <= i < n,
                m == line_len(g),
                grid_wf(g),
                forall|s: int, j2: int| s + 2 < i ==> !run3_across(g, s, j2),
                forall|s: int, j2: int| s == i - 2 && j2 < j ==> !run3_across(g, s, j2),
                forall|i2: int, s: int| !run3_along(g, i2, s),
            decreases m - j,
        {
            assert(g[i as int].len() == m && g[i - 1].len() == m && g[i - 2].len() == m);
            let c = grid[i][j];
            if c.is_some() && cells_equal(grid[i - 1][j], c) && cells_equal(grid[i - 2][j], c) {
                assert(run3_across(g, i - 2, j as int));
                return true;
            }
            assert(!run3_across(g, i - 2, j as int));
            j += 1;
        }
        i += 1;
    }
    assert(forall|s: int, j: int| !run3_across(g, s, j));
    false
}

/// `sh` lists, left to right, the cells of a maximal run of equal non-empty
/// tiles inside one line of `g`.
pub open spec fn is_along_run(g: Seq<Seq<Option<TileType>>>, sh: Seq<(usize, usize)>) -> bool {
    let i = sh[0].0 as int;
    let s = sh[0].1 as int;
    &&& sh.len() >= 3
    &&& i < g.len()
    &&& s + sh.len() <= g[i].len()
    &&& g[i][s] is Some
    &&& forall|k: int|
        0 <= k < sh.len() ==> (#[trigger] sh[k]) == (sh[0].0, (sh[0].1 + k) as usize) && g[i][s + k]
            == g[i][s]
    &&& (s == 0 || g[i][s - 1] != g[i][s])
    &&& (s + sh.len() == g[i].len() || g[i][s + sh.len()] != g[i][s])
}

/// `sh` lists, line by line, the cells of a maximal run of equal non-empty
/// tiles at one offset across consecutive lines of `g`.
pub open spec fn is_across_run(g: Seq<Seq<Option<TileType>>>, sh: Seq<(usize, usize)>) -> bool {
    let s = sh[0].0 as int;
    let j = sh[0].1 as int;
    &&& sh.len() >= 3
    &&& s + sh.len() <= g.len()
    &&& j < g[s].len()
    &&& g[s][j] is Some
    &&& forall|k: int|
        0 <= k < sh.len() ==> (#[trigger] sh[k]) == ((sh[0].0 + k) as usize, sh[0].1) && j < g[s
            + k].len() && g[s + k][j] == g[s][j]
    &&& (s == 0 || (j < g[s - 1].len() && g[s - 1][j] != g[s][j]))
    &&& (s + sh.len() == g.len() || (j < g[s + sh.len()].len() && g[s + sh.len()][j] != g[s][j]))
}

/// Among runs along lines, `s1` is scanned before `s2`: it lies on an
/// earlier line, or on the same line and ends at or before where `s2`
/// starts.
pub open spec fn along_before(s1: Seq<(usize, usize)>, s2: Seq<(usize, usize)>) -> bool {
    ||| s1[0].0 < s2[0].0
    ||| (s1[0].0 == s2[0].0 && s1[0].1 + s1.len() <= s2[0].1)
}

/// Among runs across lines, `s1` is scanned before `s2`: it lies at an
/// earlier offset, or at the same offset and ends at or before the line
/// where `s2` starts.
pub open spec fn across_before(s1: Seq<(usize, usize)>, s2: Seq<(usize, usize)>) -> bool {
    ||| s1[0].1 < s2[0].1
    ||| (s1[0].1 == s2[0].1 && s1[0].0 + s1.len() <= s2[0].0)
}

/// The run of three equal cells starting at `(i, s)` within line `i` lies
/// inside one of the reported runs along lines.
pub open spec fn covers_along(
    g: Seq<Seq<Option<TileType>>>,
    shapes: Seq<Vec<(usize, usize)>>,
    i: int,
    s: int,
) -> bool {
    exists|k: int|
        0 <= k < shapes.len() && is_along_run(g, (#[trigger] shapes[k])@) && (shapes[k]@[0].0
            as int) == i && shapes[k]@[0].1 <= s && s + 3 <= shapes[k]@[0].1 + shapes[k]@.len()
}

/// The run of three equal cells at offset `j` starting on line `s` lies
/// inside one of the reported runs across lines.
pub open spec fn covers_across(
    g: Seq<Seq<Option<TileType>>>,
    shapes: Seq<Vec<(usize, usize)>>,
    s: int,
    j: int,
) -> bool {
    exists|k: int|
        0 <= k < shapes.len() && is_across_run(g, (#[trigger] shapes[k])@) && (shapes[k]@[0].1
            as int) == j && shapes[k]@[0].0 <= s && s + 3 <= shapes[k]@[0].0 + shapes[k]@.len()
}

/// Coverage survives appending further shapes: whatever a prefix of the
/// report covers, the whole report covers.
proof fn lemma_covered_runs_persist(
    g: Seq<Seq<Option<TileType>>>,
    s1: Seq<Vec<(usize, usize)>>,
    s2: Seq<Vec<(usize, usize)>>,
)
    requires
        s1.len() <= s2.len(),
        forall|k: int| 0 <= k < s1.len() ==> #[trigger] s2[k] == s1[k],
    ensures
        forall|i: int, s: int| covers_along(g, s1, i, s) ==> covers_along(g, s2, i, s),
        forall|s: int, j: int| covers_across(g, s1, s, j) ==> covers_across(g, s2, s, j),
{
    assert forall|i: int, s: int| covers_along(g, s1, i, s) implies covers_along(g, s2, i, s) by {
        let k = choose|k: int|
            0 <= k < s1.len() && is_along_run(g, (#[trigger] s1[k])@) && (s1[k]@[0].0 as int) == i
                && s1[k]@[0].1 <= s && s + 3 <= s1[k]@[0].1 + s1[k]@.len();
        assert(s2[k] == s1[k]);
        assert(0 <= k < s2.len() && is_along_run(g, s2[k]@) && (s2[k]@[0].0 as int) == i
            && s2[k]@[0].1 <= s && s + 3 <= s2[k]@[0].1 + s2[k]@.len());
    }
    assert forall|s: int, j: int| covers_across(g, s1, s, j) implies covers_across(g, s2, s, j) by {
        let k = choose|k: int|
            0 <= k < s1.len() && is_across_run(g, (#[trigger] s1[k])@) && (s1[k]@[0].1 as int) == j
                && s1[k]@[0].0 <= s && s + 3 <= s1[k]@[0].0 + s1[k]@.len();
        assert(s2[k] == s1[k]);
        assert(0 <= k < s2.len() && is_across_run(g, s2[k]@) && (s2[k]@[0].1 as int) == j
            && s2[k]@[0].0 <= s && s + 3 <= s2[k]@[0].0 + s2[k]@.len());
    }
}

/// No sequence of cells is at once a run along a line and a run across
/// lines: its second cell would have to sit on the starting line and on
/// the next one.
pub proof fn lemma_run_orientation_exclusive(g: Seq<Seq<Option<TileType>>>, sh: Seq<(usize, usize)>)
    requires
        grid_wf(g),
        g.len() <= usize::MAX,
        line_len(g) <= usize::MAX,
        is_along_run(g, sh),
    ensures
        !is_across_run(g, sh),
{
    if is_across_run(g, sh) {
        assert(g[sh[0].0 as int].len() == line_len(g));
        assert(sh[1] == (sh[0].0, (sh[0].1 + 1) as usize));
        assert(sh[1] == ((sh[0].0 + 1) as usize, sh[0].1));
        assert(sh[0].1 + 1 <= usize::MAX);
        assert(sh[0].0 + 1 <= usize::MAX);
    }
}

/// Two runs of the same orientation, one scanned before the other, share
/// no cell: either they lie on different lines (offsets), or their cell
/// ranges do not meet.
pub proof fn lemma_ordered_runs_share_no_cell(
    g: Seq<Seq<Option<TileType>>>,
    s1: Seq<(usize, usize)>,
    s2: Seq<(usize, usize)>,
)
    requires
        grid_wf(g),
        g.len() <= usize::MAX,
        line_len(g) <= usize::MAX,
        (is_along_run(g, s1) && is_along_run(g, s2) && along_before(s1, s2)) || (is_across_run(
            g,
            s1,
        ) && is_across_run(g, s2) && across_before(s1, s2)),
    ensures
        forall|m1: int, m2: int|
            0 <= m1 < s1.len() && 0 <= m2 < s2.len() ==> #[trigger] s1[m1] != #[trigger] s2[m2],
{
    if is_along_run(g, s1) && is_along_run(g, s2) && along_before(s1, s2) {
        assert(g[s1[0].0 as int].len() == line_len(g));
        assert(g[s2[0].0 as int].len() == line_len(g));
        assert forall|m1: int, m2: int|
            0 <= m1 < s1.len() && 0 <= m2 < s2.len() implies #[trigger] s1[m1] != #[trigger] s2[m2] by {
            assert(s1[m1] == (s1[0].0, (s1[0].1 + m1) as usize));
            assert(s2[m2] == (s2[0].0, (s2[0].1 + m2) as usize));
            assert(s1[0].1 + m1 <= usize::MAX);
            assert(s2[0].1 + m2 <= usize::MAX);
        }
    } else {
        assert forall|m1: int, m2: int|
            0 <= m1 < s1.len() && 0 <= m2 < s2.len() implies #[trigger] s1[m1] != #[trigger] s2[m2] by {
            assert(s1[m1] == ((s1[0].0 + m1) as usize, s1[0].1));
            assert(s2[m2] == ((s2[0].0 + m2) as usize, s2[0].1));
            assert(s1[0].0 + m1 <= usize::MAX);
            assert(s2[0].0 + m2 <= usize::MAX);
        }
    }
}

/// A run along a line witnesses a run of three.
pub proof fn lemma_along_run_has_run(g: Seq<Seq<Option<TileType>>>, sh: Seq<(usize, usize)>)
    requires
        is_along_run(g, sh),
    ensures
        has_run(g),
{
    assert(sh[1] == (sh[0].0, (sh[0].1 + 1) as usize));
    assert(sh[2] == (sh[0].0, (sh[0].1 + 2) as usize));
    assert(run3_along(g, sh[0].0 as int, sh[0].1 as int));
}

/// A run across lines witnesses a run of three.
pub proof fn lemma_across_run_has_run(g: Seq<Seq<Option<TileType>>>, sh: Seq<(usize, usize)>)
    requires
        is_across_run(g, sh),
    ensures
        has_run(g),
{
    assert(sh[1] == ((sh[0].0 + 1) as usize, sh[0].1));
    assert(sh[2] == ((sh[0].0 + 2) as usize, sh[0].1));
    assert(run3_across(g, sh[0].0 as int, sh[0].1 as int));
}

/// Collect every maximal run of the grid: first the runs along each line,
/// then the runs across lines at each offset. A run along a line and one
/// across lines may share a cell; two runs of the same orientation never
/// do. The result is empty exactly when the grid holds no run at all.
pub fn find_shapes(grid: &Vec<Vec<Option<TileType>>>) -> (shapes: Vec<Vec<(usize, usize)>>)
    requires
        grid@.len() > 0,
        grid_wf(gview(grid@)),
    ensures
        shapes@.len() == 0 <==> !has_run(gview(grid@)),
        forall|k: int|
            0 <= k < shapes@.len() ==> is_along_run(gview(grid@), (#[trigger] shapes@[k])@)
                || is_across_run(gview(grid@), shapes@[k]@),
        forall|i: int, s: int|
            run3_along(gview(grid@), i, s) ==> covers_along(gview(grid@), shapes@, i, s),
        forall|s: int, j: int|
            run3_across(gview(grid@), s, j) ==> covers_across(gview(grid@), shapes@, s, j),
        forall|k1: int, k2: int|
            #![trigger shapes@[k1], shapes@[k2]]
            0 <= k1 < k2 < shapes@.len() && is_along_run(gview(grid@), shapes@[k1]@)
                && is_along_run(gview(grid@), shapes@[k2]@) ==> along_before(
                shapes@[k1]@,
                shapes@[k2]@,
            ),
        forall|k1: int, k2: int|
            #![trigger shapes@[k1], shapes@[k2]]
            0 <= k1 < k2 < shapes@.len() && is_across_run(gview(grid@), shapes@[k1]@)
                && is_across_run(gview(grid@), shapes@[k2]@) ==> across_before(
                shapes@[k1]@,
                shapes@[k2]@,
            ),
{
    let ghost g = gview(grid@);
    let mut shapes: Vec<Vec<(usize, usize)>> = Vec::new();
    let n = grid.len();
    let mut i: usize = 0;
    while i < n
        invariant
            g == gview(grid@),
            n == grid@.len(),
            i <= n,
            forall|k: int| 0 <= k < shapes@.len() ==> is_along_run(g, (#[trigger] shapes@[k])@),
            forall|k: int| 0 <= k < shapes@.len() ==> ((#[trigger] shapes@[k])@[0].0 as int) < i,
            forall|i2: int, s: int|
                i2 < i && run3_along(g, i2, s) ==> covers_along(g, shapes@, i2, s),
            forall|k1: int, k2: int|
                #![trigger shapes@[k1], shapes@[k2]]
                0 <= k1 < k2 < shapes@.len() ==> along_before(shapes@[k1]@, shapes@[k2]@),
        decreases n - i,
    {
        let m = grid[i].len();
        assert(g[i as int] == grid@[i as int]@);
        let mut column: usize = 0;
        while column < m
            invariant
                g == gview(grid@),
                n == grid@.len(),
                i < n,
                column <= m,
                m == g[i as int].len(),
                column == m || column == 0 || !(g[i as int][column as int] is Some) || g[i as int][column
                    - 1] != g[i as int][column as int],
                forall|k: int| 0 <= k < shapes@.len() ==> is_along_run(g, (#[trigger] shapes@[k])@),
                forall|k: int|
                    0 <= k < shapes@.len() ==> ((#[trigger] shapes@[k])@[0].0 as int) < i || (
                    shapes@[k]@[0].0 == i && shapes@[k]@[0].1 + shapes@[k]@.len() <= column),
                forall|i2: int, s: int|
                    (i2 < i || (i2 == i && s < column)) && run3_along(g, i2, s) ==> covers_along(
                        g,
                        shapes@,
                        i2,
                        s,
                    ),
                forall|k1: int, k2: int|
                    #![trigger shapes@[k1], shapes@[k2]]
                    0 <= k1 < k2 < shapes@.len() ==> along_before(shapes@[k1]@, shapes@[k2]@),
            decreases m - column,
        {
            let ghost shapes0 = shapes@;
            let t = grid[i][column];
            if t.is_some() {
                let mut next_column = column + 1;
                let mut extending = next_column < m;
                if extending {
                    extending = cells_equal(grid[i][next_column], t);
                }
                while extending
                    invariant
                        g == gview(grid@),
                        n == grid@.len(),
                        i < n,
                        m == g[i as int].len(),
                        column < next_column <= m,
                        t == g[i as int][column as int],
                        t is Some,
                        forall|k: int|
                            column <= k < next_column ==> g[i as int][k] == g[i as int][column as int],
                        extending ==> next_column < m && g[i as int][next_column as int] == t,
                        !extending ==> next_column == m || g[i as int][next_column as int] != t,
                    decreases m - next_column,
                {
                    next_column += 1;
                    extending = next_column < m;
                    if extending {
                        extending = cells_equal(grid[i][next_column], t);
                    }
                }
                assert(next_column == m || g[i as int][next_column as int] != t);
                if next_column - column >= 3 {
                    let mut shape: Vec<(usize, usize)> = Vec::new();
                    let mut k = column;
                    while k < next_column
                        invariant
                            column <= k <= next_column,
                            shape@.len() == k - column,
                            forall|q: int|
                                0 <= q < shape@.len() ==> (#[trigger] shape@[q]) == (
                                    i,
                                    (column + q) as usize,
                                ),
                        decreases next_column - k,
                    {
                        shape.push((i, k));
                        k += 1;
                    }
                    proof {
                        assert(shape@[0] == (i, column));
                        assert(is_along_run(g, shape@));
                        assert forall|k2: int| 0 <= k2 < shapes@.len() implies along_before(
                            (#[trigger] shapes@[k2])@,
                            shape@,
                        ) by {}
                    }
                    shapes.push(shape);
                    proof {
                        lemma_covered_runs_persist(g, shapes0, shapes@);
                        let ghost last = shapes@.len() - 1;
                        assert(shapes@[last]@ == shape@);
                        assert forall|i2: int, s: int|
                            (i2 < i || (i2 == i && s < next_column)) && run3_along(g, i2, s) implies covers_along(
                            g,
                            shapes@,
                            i2,
                            s,
                        ) by {
                            if i2 == i && column <= s {
                                if s + 2 < next_column {
                                    assert(0 <= last < shapes@.len() && is_along_run(
                                        g,
                                        shapes@[last]@,
                                    ) && (shapes@[last]@[0].0 as int) == i2 && shapes@[last]@[0].1
                                        <= s && s + 3 <= shapes@[last]@[0].1
                                        + shapes@[last]@.len());
                                } else if s + 1 == next_column {
                                    assert(g[i as int][s] == g[i as int][column as int]);
                                } else {
                                    assert(s + 2 == next_column);
                                    assert(g[i as int][s] == g[i as int][column as int]);
                                }
                            } else {
                                assert(covers_along(g, shapes0, i2, s));
                            }
                        }
                    }
                } else {
                    proof {
                        assert forall|i2: int, s: int|
                            (i2 < i || (i2 == i && s < next_column)) && run3_along(g, i2, s) implies covers_along(
                            g,
                            shapes@,
                            i2,
                            s,
                        ) by {
                            if i2 == i && column <= s {
                                if s + 1 < next_column && s + 2 < next_column {
                                    assert(next_column - column >= 3);
                                } else if s + 1 == next_column {
                                    assert(g[i as int][s] == g[i as int][column as int]);
                                } else {
                                    assert(s + 2 == next_column);
                                    assert(g[i as int][s] == g[i as int][column as int]);
                                }
                            } else {
                                assert(covers_along(g, shapes0, i2, s));
                            }
                        }
                    }
                }
                column = next_column;
            } else {
                proof {
                    assert(!run3_along(g, i as int, column as int));
                }
                column += 1;
            }
        }
        i += 1;
    }
    let ghost n_along = shapes@.len();
    let m = grid[0].len();
    assert(m == line_len(g));
    let mut j: usize = 0;
    while j < m
        invariant
            g == gview(grid@),
            n == grid@.len(),
            n > 0,
            j <= m,
            m == line_len(g),
            grid_wf(g),
            n_along <= shapes@.len(),
            forall|k: int| 0 <= k < n_along ==> is_along_run(g, (#[trigger] shapes@[k])@),
            forall|k: int|
                n_along <= k < shapes@.len() ==> is_across_run(g, (#[trigger] shapes@[k])@),
            forall|k: int|
                n_along <= k < shapes@.len() ==> ((#[trigger] shapes@[k])@[0].1 as int) < j,
            forall|i2: int, s: int| run3_along(g, i2, s) ==> covers_along(g, shapes@, i2, s),
            forall|s: int, j2: int|
                j2 < j && run3_across(g, s, j2) ==> covers_across(g, shapes@, s, j2),
            forall|k1: int, k2: int|
                #![trigger shapes@[k1], shapes@[k2]]
                0 <= k1 < k2 < n_along ==> along_before(shapes@[k1]@, shapes@[k2]@),
            forall|k1: int, k2: int|
                #![trigger shapes@[k1], shapes@[k2]]
                n_along <= k1 < k2 < shapes@.len() ==> across_before(shapes@[k1]@, shapes@[k2]@),
        decreases m - j,
    {
        let mut row: usize = 0;
        while row < n
            invariant
                g == gview(grid@),
                n == grid@.len(),
                n > 0,
                j < m,
                row <= n,
                m == line_len(g),
                grid_wf(g),
                n_along <= shapes@.len(),
                row == n || row == 0 || !(g[row as int][j as int] is Some) || g[row - 1][j as int]
                    != g[row as int][j as int],
                forall|k: int| 0 <= k < n_along ==> is_along_run(g, (#[trigger] shapes@[k])@),
                forall|k: int|
                    n_along <= k < shapes@.len() ==> is_across_run(g, (#[trigger] shapes@[k])@),
                forall|k: int|
                    n_along <= k < shapes@.len() ==> ((#[trigger] shapes@[k])@[0].1 as int) < j || (
                    shapes@[k]@[0].1 == j && shapes@[k]@[0].0 + shapes@[k]@.len() <= row),
                forall|i2: int, s: int| run3_along(g, i2, s) ==> covers_along(g, shapes@, i2, s),
                forall|s: int, j2: int|
                    j2 < j && run3_across(g, s, j2) ==> covers_across(g, shapes@, s, j2),
                forall|s: int, j2: int|
                    j2 == j && s < row && run3_across(g, s, j2) ==> covers_across(g, shapes@, s, j2),
                forall|k1: int, k2: int|
                    #![trigger shapes@[k1], shapes@[k2]]
                    0 <= k1 < k2 < n_along ==> along_before(shapes@[k1]@, shapes@[k2]@),
                forall|k1: int, k2: int|
                    #![trigger shapes@[k1], shapes@[k2]]
                    n_along <= k1 < k2 < shapes@.len() ==> across_before(
                        shapes@[k1]@,
                        shapes@[k2]@,
                    ),
            decreases n - row,
        {
            let ghost shapes0 = shapes@;
            assert(g[row as int].len() == m);
            let t = grid[row][j];
            if t.is_some() {
                let mut next_row = row + 1;
                let mut extending = next_row < n;
                if extending {
                    assert(g[next_row as int].len() == m);
                    extending = cells_equal(grid[next_row][j], t);
                }
                while extending
                    invariant
                        g == gview(grid@),
                        n == grid@.len(),
                        j < m,
                        m == line_len(g),
                        grid_wf(g),
                        row < next_row <= n,
                        t == g[row as int][j as int],
                        t is Some,
                        forall|k: int| row <= k < next_row ==> g[k][j as int] == g[row as int][j as int],
                        extending ==> next_row < n && g[next_row as int][j as int] == t,
                        !extending ==> next_row == n || g[next_row as int][j as int] != t,
                    decreases n - next_row,
                {
                    next_row += 1;
                    extending = next_row < n;
                    if extending {
                        assert(g[next_row as int].len() == m);
                        extending = cells_equal(grid[next_row][j], t);
                    }
                }
                assert(next_row == n || g[next_row as int][j as int] != t);
                if next_row - row >= 3 {
                    let mut shape: Vec<(usize, usize)> = Vec::new();
                    let mut k = row;
                    while k < next_row
                        invariant
                            row <= k <= next_row,
                            shape@.len() == k - row,
                            forall|q: int|
                                0 <= q < shape@.len() ==> (#[trigger] shape@[q]) == (
                                    (row + q) as usize,
                                    j,
                                ),
                        decreases next_row - k,
                    {
                        shape.push((k, j));
                        k += 1;
                    }
                    proof {
                        assert(shape@[0] == (row, j));
                        assert forall|q: int| 0 <= q < shape@.len() implies (#[trigger] shape@[q]) == (
                            (shape@[0].0 + q) as usize,
                            shape@[0].1,
                        ) && (j as int) < g[row + q].len() && g[row + q][j as int] == g[row as int][j as int] by {
                            assert(g[row + q].len() == line_len(g));
                        }
                        assert(is_across_run(g, shape@));
                        assert forall|k2: int| n_along <= k2 < shapes@.len() implies across_before(
                            (#[trigger] shapes@[k2])@,
                            shape@,
                        ) by {}
                    }
                    shapes.push(shape);
                    proof {
                        lemma_covered_runs_persist(g, shapes0, shapes@);
                        let ghost last = shapes@.len() - 1;
                        assert(shapes@[last]@ == shape@);
                        assert forall|s: int, j2: int|
                            (j2 < j || (j2 == j && s < next_row)) && run3_across(g, s, j2) implies covers_across(
                            g,
                            shapes@,
                            s,
                            j2,
                        ) by {
                            if j2 == j && row <= s {
                                if s + 2 < next_row {
                                    assert(0 <= last < shapes@.len() && is_across_run(
                                        g,
                                        shapes@[last]@,
                                    ) && (shapes@[last]@[0].1 as int) == j2 && shapes@[last]@[0].0
                                        <= s && s + 3 <= shapes@[last]@[0].0
                                        + shapes@[last]@.len());
                                } else if s + 1 == next_row {
                                    assert(g[s][j as int] == g[row as int][j as int]);
                                } else {
                                    assert(s + 2 == next_row);
                                    assert(g[s][j as int] == g[row as int][j as int]);
                                }
                            } else {
                                assert(covers_across(g, shapes0, s, j2));
                            }
                        }
                    }
                } else {
                    proof {
                        assert forall|s: int, j2: int|
                            (j2 < j || (j2 == j && s < next_row)) && run3_across(g, s, j2) implies covers_across(
                            g,
                            shapes@,
                            s,
                            j2,
                        ) by {
                            if j2 == j && row <= s {
                                if s + 1 < next_row && s + 2 < next_row {
                                    assert(next_row - row >= 3);
                                } else if s + 1 == next_row {
                                    assert(g[s][j as int] == g[row as int][j as int]);
                                } else {
                                    assert(s + 2 == next_row);
                                    assert(g[s][j as int] == g[row as int][j as int]);
                                }
                            } else {
                                assert(covers_across(g, shapes0, s, j2));
                            }
                        }
                    }
                }
                row = next_row;
            } else {
                proof {
                    assert(!run3_across(g, row as int, j as int));
                }
                row += 1;
            }
        }
        j += 1;
    }
    proof {
        if shapes@.len() > 0 {
            let sh = shapes@[0]@;
            if is_along_run(g, sh) {
                lemma_along_run_has_run(g, sh);
            } else {
                lemma_across_run_has_run(g, sh);
            }
        } else {
            assert forall|i2: int, s: int| !run3_along(g, i2, s) by {
                if run3_along(g, i2, s) {
                    assert(covers_along(g, shapes@, i2, s));
                }
            }
            assert forall|s: int, j2: int| !run3_across(g, s, j2) by {
                if run3_across(g, s, j2) {
                    assert(covers_across(g, shapes@, s, j2));
                }
            }
        }
        assert(g.len() <= usize::MAX && line_len(g) <= usize::MAX);
        assert forall|k1: int, k2: int|
            #![trigger shapes@[k1], shapes@[k2]]
            0 <= k1 < k2 < shapes@.len() && is_along_run(g, shapes@[k1]@) && is_along_run(
                g,
                shapes@[k2]@,
            ) implies along_before(shapes@[k1]@, shapes@[k2]@) by {
            if k2 >= n_along {
                lemma_run_orientation_exclusive(g, shapes@[k2]@);
            }
        }
        assert forall|k1: int, k2: int|
            #![trigger shapes@[k1], shapes@[k2]]
            0 <= k1 < k2 < shapes@.len() && is_across_run(g, shapes@[k1]@) && is_across_run(
                g,
                shapes@[k2]@,
            ) implies across_before(shapes@[k1]@, shapes@[k2]@) by {
            if k1 < n_along {
                lemma_run_orientation_exclusive(g, shapes@[k1]@);
            }
        }
    }
    shapes
}

/// The position lies inside the grid.
pub open spec fn in_bounds(g: Seq<Seq<Option<TileType>>>, p: (usize, usize)) -> bool {
    p.0 < g.len() && p.1 < g[p.0 as int].len()
}

/// The grid with the cells at `a` and `b` exchanged.
pub open spec fn swap_view(
    g: Seq<Seq<Option<TileType>>>,
    a: (usize, usize),
    b: (usize, usize),
) -> Seq<Seq<Option<TileType>>> {
    let va = g[a.0 as int][a.1 as int];
    let vb = g[b.0 as int][b.1 as int];
    let g1 = g.update(a.0 as int, g[a.0 as int].update(a.1 as int, vb));
    g1.update(b.0 as int, g1[b.0 as int].update(b.1 as int, va))
}

/// Write one cell of the grid.
fn set_cell(grid: &mut Vec<Vec<Option<TileType>>>, p: (usize, usize), v: Option<TileType>)
    requires
        in_bounds(gview(old(grid)@), p),
    ensures
        gview(final(grid)@) == gview(old(grid)@).update(
            p.0 as int,
            gview(old(grid)@)[p.0 as int].update(p.1 as int, v),
        ),
{
    let ghost go = gview(old(grid)@);
    let i = p.0;
    grid[i].set(p.1, v);
    proof {
        assert(gview(grid@) =~~= go.update(p.0 as int, go[p.0 as int].update(p.1 as int, v)));
    }
}

/// Exchanging two in-bounds cells keeps the grid rectangular and keeps
/// every line length, and both cells of the pair stay in bounds.
pub proof fn lemma_swap_view_shape(g: Seq<Seq<Option<TileType>>>, a: (usize, usize), b: (usize, usize))
    requires
        in_bounds(g, a),
        in_bounds(g, b),
    ensures
        swap_view(g, a, b).len() == g.len(),
        forall|i: int| 0 <= i < g.len() ==> (#[trigger] swap_view(g, a, b)[i]).len() == g[i].len(),
        grid_wf(g) ==> grid_wf(swap_view(g, a, b)),
        grid_wf(g) ==> line_len(swap_view(g, a, b)) == line_len(g),
{
    let s = swap_view(g, a, b);
    assert forall|i: int| 0 <= i < g.len() implies (#[trigger] s[i]).len() == g[i].len() by {}
    if grid_wf(g) {
        assert(s[0].len() == g[0].len());
        assert forall|i: int| 0 <= i < s.len() implies (#[trigger] s[i]).len() == line_len(s) by {
            assert(g[i].len() == line_len(g));
        }
    }
}

/// Decide whether exchanging the two distinct in-bounds cells would create
/// a run, leaving the grid exactly as it was: the cells are swapped, the
/// grid is scanned, and the cells are restored.
pub fn can_swap(
    grid: &mut Vec<Vec<Option<TileType>>>,
    tile1: (usize, usize),
    tile2: (usize, usize),
) -> (r: bool)
    requires
        grid_wf(gview(old(grid)@)),
        in_bounds(gview(old(grid)@), tile1),
        in_bounds(gview(old(grid)@), tile2),
        tile1 != tile2,
    ensures
        gview(final(grid)@) == gview(old(grid)@),
        r == has_run(swap_view(gview(old(grid)@), tile1, tile2)),
{
    let ghost go = gview(old(grid)@);
    let tile1_type = grid[tile1.0][tile1.1];
    let tile2_type = grid[tile2.0][tile2.1];
    set_cell(grid, tile1, tile2_type);
    set_cell(grid, tile2, tile1_type);
    proof {
        assert(gview(grid@) =~~= swap_view(go, tile1, tile2));
        lemma_swap_view_shape(go, tile1, tile2);
    }
    let result = has_shape(grid);
    set_cell(grid, tile1, tile1_type);
    set_cell(grid, tile2, tile2_type);
    proof {
        assert(gview(grid@) =~~= go);
    }
    result
}

/// Exchange the two cells; if the exchange creates a run, keep it and
/// report success, otherwise restore the grid exactly and report failure.
/// This is the only operation that changes a grid after generation.
pub fn swap_tiles(
    grid: &mut Vec<Vec<Option<TileType>>>,
    tile1: (usize, usize),
    tile2: (usize, usize),
) -> (r: bool)
    requires
        grid_wf(gview(old(grid)@)),
        in_bounds(gview(old(grid)@), tile1),
        in_bounds(gview(old(grid)@), tile2),
        tile1 != tile2,
    ensures
        r == has_run(swap_view(gview(old(grid)@), tile1, tile2)),
        r ==> gview(final(grid)@) == swap_view(gview(old(grid)@), tile1, tile2),
        !r ==> gview(final(grid)@) == gview(old(grid)@),
{
    let ghost go = gview(old(grid)@);
    let tile1_type = grid[tile1.0][tile1.1];
    let tile2_type = grid[tile2.0][tile2.1];
    set_cell(grid, tile1, tile2_type);
    set_cell(grid, tile2, tile1_type);
    proof {
        assert(gview(grid@) =~~= swap_view(go, tile1, tile2));
        lemma_swap_view_shape(go, tile1, tile2);
    }
    if has_shape(grid) {
        true
    } else {
        set_cell(grid, tile1, tile1_type);
        set_cell(grid, tile2, tile2_type);
        proof {
            assert(gview(grid@) =~~= go);
        }
        false
    }
}

/// Swapping the cell at `(i, j)` with its right-hand neighbour `(i, j + 1)`
/// would create a run.
pub open spec fn right_move(g: Seq<Seq<Option<TileType>>>, i: usize, j: usize) -> bool {
    &&& (i as int) < g.len()
    &&& j + 1 < g[i as int].len()
    &&& has_run(swap_view(g, (i, j), (i, (j + 1) as usize)))
}

/// Swapping the cell at `(i, j)` with its neighbour `(i + 1, j)` on the
/// next line would create a run.
pub open spec fn up_move(g: Seq<Seq<Option<TileType>>>, i: usize, j: usize) -> bool {
    &&& i + 1 < g.len()
    &&& (j as int) < g[i as int].len()
    &&& has_run(swap_view(g, (i, j), ((i + 1) as usize, j)))
}

/// Some adjacent pair of cells exists whose swap would create a run. Every
/// adjacent pair is either a right-hand pair or a next-line pair.
pub open spec fn has_possible_move(g: Seq<Seq<Option<TileType>>>) -> bool {
    exists|i: usize, j: usize| #![auto] right_move(g, i, j) || up_move(g, i, j)
}

/// Two positions are adjacent: they differ by exactly one in exactly one
/// axis.
pub open spec fn adjacent(a: (usize, usize), b: (usize, usize)) -> bool {
    ||| (a.0 == b.0 && (a.1 + 1 == b.1 || b.1 + 1 == a.1))
    ||| (a.1 == b.1 && (a.0 + 1 == b.0 || b.0 + 1 == a.0))
}

/// Exchanging two cells does not care which is named first.
pub proof fn lemma_swap_view_symmetric(
    g: Seq<Seq<Option<TileType>>>,
    a: (usize, usize),
    b: (usize, usize),
)
    requires
        in_bounds(g, a),
        in_bounds(g, b),
    ensures
        swap_view(g, a, b) == swap_view(g, b, a),
{
    assert(swap_view(g, a, b) =~~= swap_view(g, b, a));
}

/// The grid has a possible move exactly when some adjacent pair of
/// in-bounds cells exists whose swap would create a run: scanning only
/// right-hand and next-line pairs loses nothing, because every adjacent
/// pair is one of those in one of its two orders, and a swap does not
/// care about the order of the pair.
pub proof fn lemma_possible_move_iff_adjacent_swap(g: Seq<Seq<Option<TileType>>>)
    requires
        grid_wf(g),
        g.len() <= usize::MAX,
        line_len(g) <= usize::MAX,
    ensures
        has_possible_move(g) <==> exists|a: (usize, usize), b: (usize, usize)|
            #![auto]
            in_bounds(g, a) && in_bounds(g, b) && adjacent(a, b) && has_run(swap_view(g, a, b)),
{
    if has_possible_move(g) {
        let (i, j) = choose|i: usize, j: usize| #![auto] right_move(g, i, j) || up_move(g, i, j);
        if right_move(g, i, j) {
            let a = (i, j);
            assert(g[i as int].len() == line_len(g));
            assert(j + 1 <= usize::MAX);
            let b = (i, (j + 1) as usize);
            assert(in_bounds(g, a) && in_bounds(g, b) && adjacent(a, b) && has_run(
                swap_view(g, a, b),
            ));
        } else {
            let a = (i, j);
            assert(i + 1 <= usize::MAX);
            let b = ((i + 1) as usize, j);
            assert(g[i + 1].len() == g[i as int].len());
            assert(in_bounds(g, a) && in_bounds(g, b) && adjacent(a, b) && has_run(
                swap_view(g, a, b),
            ));
        }
    }
    if exists|a: (usize, usize), b: (usize, usize)|
        #![auto]
        in_bounds(g, a) && in_bounds(g, b) && adjacent(a, b) && has_run(swap_view(g, a, b)) {
        let (a, b) = choose|a: (usize, usize), b: (usize, usize)|
            #![auto]
            in_bounds(g, a) && in_bounds(g, b) && adjacent(a, b) && has_run(swap_view(g, a, b));
        lemma_swap_view_symmetric(g, a, b);
        if a.0 == b.0 && a.1 + 1 == b.1 {
            assert(right_move(g, a.0, a.1));
        } else if a.0 == b.0 && b.1 + 1 == a.1 {
            assert(right_move(g, b.0, b.1));
        } else if a.1 == b.1 && a.0 + 1 == b.0 {
            assert(up_move(g, a.0, a.1));
        } else {
            assert(g[b.0 as int].len() == g[a.0 as int].len());
            assert(up_move(g, b.0, b.1));
        }
        assert(has_possible_move(g));
    }
}

/// Decide whether the grid has at least one legal move: every cell is tried
/// against its right-hand and next-line neighbour, and the scan stops at
/// the first pair whose swap would create a run. The grid is left exactly
/// as it was.
pub fn has_possible_swaps(grid: &mut Vec<Vec<Option<TileType>>>) -> (r: bool)
    requires
        old(grid)@.len() > 0,
        grid_wf(gview(old(grid)@)),
    ensures
        gview(final(grid)@) == gview(old(grid)@),
        r == has_possible_move(gview(old(grid)@)),
{
    let ghost g = gview(old(grid)@);
    let n = grid.len();
    let mut i: usize = 0;
    while i < n
        invariant
            g == gview(old(grid)@),
            gview(grid@) == g,
            n == grid@.len(),
            i <= n,
            grid_wf(g),
            forall|i2: usize, j2: usize| #![auto] i2 < i ==> !right_move(g, i2, j2) && !up_move(g, i2, j2),
        decreases n - i,
    {
        let m = grid[i].len();
        let mut j: usize = 0;
        while j < m
            invariant
                g == gview(old(grid)@),
                gview(grid@) == g,
                n == grid@.len(),
                i < n,
                j <= m,
                m == g[i as int].len(),
                grid_wf(g),
                forall|i2: usize, j2: usize| #![auto] i2 < i ==> !right_move(g, i2, j2) && !up_move(g, i2, j2),
                forall|j2: usize| #![auto] j2 < j ==> !right_move(g, i, j2) && !up_move(g, i, j2),
            decreases m - j,
        {
            if j + 1 < m {
                if can_swap(grid, (i, j), (i, j + 1)) {
                    assert(right_move(g, i, j));
                    return true;
                }
            }
            if i + 1 < n {
                assert(g[i + 1].len() == m);
                if can_swap(grid, (i, j), (i + 1, j)) {
                    assert(up_move(g, i, j));
                    return true;
                }
            }
            assert(!right_move(g, i, j) && !up_move(g, i, j));
            j += 1;
        }
        i += 1;
    }
    false
}

/// The tile face a drawn index stands for.
pub open spec fn tile_of_index(ix: usize) -> TileType {
    if ix == 0 {
        TileType::Pentagon
    } else if ix == 1 {
        TileType::Triangle
    } else if ix == 2 {
        TileType::Square
    } else if ix == 3 {
        TileType::Circle
    } else if ix == 4 {
        TileType::Diamond
    } else {
        TileType::Star
    }
}

/// The tile face a drawn index stands for.
pub fn tile_from_index(ix: usize) -> (r: TileType)
    ensures
        r == tile_of_index(ix),
{
    match ix {
        0 => TileType::Pentagon,
        1 => TileType::Triangle,
        2 => TileType::Square,
        3 => TileType::Circle,
        4 => TileType::Diamond,
        _ => TileType::Star,
    }
}

/// Relies on `rand::Rng::gen_range` over the thread-local generator of
/// `rand::thread_rng`: sampling the non-empty range `0..6` returns a value
/// below 6 and does not panic.
#[verifier::external_body]
fn rand_index() -> (r: usize)
    ensures
        r < 6,
{
    rand::Rng::gen_range(&mut rand::thread_rng(), 0..6)
}

/// Draw one tile face at random, each of the six equally likely.
pub fn rand_tile() -> TileType {
    tile_from_index(rand_index())
}

/// Updating one in-bounds cell keeps the grid's length, every line length,
/// rectangularity and the common line length.
pub proof fn lemma_update_cell_shape(g: Seq<Seq<Option<TileType>>>, p: (usize, usize), v: Option<TileType>)
    requires
        in_bounds(g, p),
    ensures
        g.update(p.0 as int, g[p.0 as int].update(p.1 as int, v)).len() == g.len(),
        forall|i: int|
            0 <= i < g.len() ==> (#[trigger] g.update(
                p.0 as int,
                g[p.0 as int].update(p.1 as int, v),
            )[i]).len() == g[i].len(),
        grid_wf(g) ==> grid_wf(g.update(p.0 as int, g[p.0 as int].update(p.1 as int, v))),
        grid_wf(g) ==> line_len(g.update(p.0 as int, g[p.0 as int].update(p.1 as int, v)))
            == line_len(g),
{
    let g2 = g.update(p.0 as int, g[p.0 as int].update(p.1 as int, v));
    assert forall|i: int| 0 <= i < g.len() implies (#[trigger] g2[i]).len() == g[i].len() by {}
    if grid_wf(g) {
        assert(g2[0].len() == g[0].len());
        assert forall|i: int| 0 <= i < g2.len() implies (#[trigger] g2[i]).len() == line_len(g2) by {
            assert(g[i].len() == line_len(g));
        }
    }
}

/// How many boards are drawn before generation reports failure.
pub const MAX_BOARD_ATTEMPTS: usize = 64;

/// How many re-randomisation passes one board gets to become run-free.
pub const MAX_CLEAR_PASSES: usize = 256;

/// Build a playable board of `columns` lines of `rows` cells each: fill
/// every cell with a random tile, redraw the cells of every reported run
/// until no run remains (each pass rescans, since clearing one run can
/// create another), and keep the board only if at least one swap of two
/// adjacent cells would create a run. Each search is bounded, and a board
/// that the bounds exhaust is reported as `None` rather than retried
/// forever: with a playable configuration the search converges quickly,
/// while a grid too small for any legal move would otherwise loop without
/// end.
pub fn create_grid(rows: usize, columns: usize) -> (r: Option<Vec<Vec<Option<TileType>>>>)
    requires
        rows >= 1,
        columns >= 1,
    ensures
        r matches Some(grid) ==> {
            &&& grid@.len() == columns
            &&& grid_wf(gview(grid@))
            &&& line_len(gview(grid@)) == rows
            &&& !has_run(gview(grid@))
            &&& has_possible_move(gview(grid@))
        },
{
    let mut attempts: usize = 0;
    while attempts < MAX_BOARD_ATTEMPTS
        invariant
            rows >= 1,
            columns >= 1,
        decreases MAX_BOARD_ATTEMPTS - attempts,
    {
        let mut grid: Vec<Vec<Option<TileType>>> = Vec::new();
        let mut c: usize = 0;
        while c < columns
            invariant
                grid@.len() == c,
                c <= columns,
                forall|x: int| 0 <= x < c ==> (#[trigger] grid@[x])@.len() == rows,
            decreases columns - c,
        {
            let mut line: Vec<Option<TileType>> = Vec::new();
            let mut r: usize = 0;
            while r < rows
                invariant
                    line@.len() == r,
                    r <= rows,
                decreases rows - r,
            {
                line.push(Some(rand_tile()));
                r += 1;
            }
            grid.push(line);
            c += 1;
        }
        proof {
            assert(forall|x: int|
                0 <= x < columns ==> (#[trigger] gview(grid@)[x]).len() == rows);
            assert(grid_wf(gview(grid@)));
        }
        let mut passes: usize = 0;
        let mut clean = false;
        while passes < MAX_CLEAR_PASSES && !clean
            invariant
                rows >= 1,
                columns >= 1,
                grid@.len() == columns,
                grid_wf(gview(grid@)),
                line_len(gview(grid@)) == rows,
                clean ==> !has_run(gview(grid@)),
            decreases MAX_CLEAR_PASSES - passes, (if clean { 0int } else { 1int }),
        {
            let shapes = find_shapes(&grid);
            if shapes.len() == 0 {
                clean = true;
            } else {
                let ghost scan_g = gview(grid@);
                let mut si: usize = 0;
                while si < shapes.len()
                    invariant
                        grid@.len() == columns,
                        grid_wf(gview(grid@)),
                        line_len(gview(grid@)) == rows,
                        scan_g.len() == columns,
                        grid_wf(scan_g),
                        line_len(scan_g) == rows,
                        forall|k: int|
                            0 <= k < shapes@.len() ==> is_along_run(scan_g, (#[trigger] shapes@[k])@)
                                || is_across_run(scan_g, shapes@[k]@),
                    decreases shapes@.len() - si,
                {
                    let shape = &shapes[si];
                    let mut ci: usize = 0;
                    while ci < shape.len()
                        invariant
                            si < shapes@.len(),
                            shape == shapes@[si as int],
                            grid@.len() == columns,
                            grid_wf(gview(grid@)),
                            line_len(gview(grid@)) == rows,
                            scan_g.len() == columns,
                            grid_wf(scan_g),
                            line_len(scan_g) == rows,
                            is_along_run(scan_g, shape@) || is_across_run(scan_g, shape@),
                        decreases shape@.len() - ci,
                    {
                        let p = shape[ci];
                        proof {
                            if is_along_run(scan_g, shape@) {
                                assert(shape@[ci as int] == (
                                    shape@[0].0,
                                    (shape@[0].1 + ci) as usize,
                                ));
                                assert(scan_g[shape@[0].0 as int].len() == rows);
                            } else {
                                assert(shape@[ci as int] == (
                                    (shape@[0].0 + ci) as usize,
                                    shape@[0].1,
                                ));
                                assert((shape@[0].1 as int) < scan_g[shape@[0].0 + ci].len());
                            }
                            assert(in_bounds(gview(grid@), p)) by {
                                assert(gview(grid@)[p.0 as int].len() == rows);
                            }
                        }
                        let v = Some(rand_tile());
                        proof {
                            lemma_update_cell_shape(gview(grid@), p, v);
                        }
                        set_cell(&mut grid, p, v);
                        ci += 1;
                    }
                    si += 1;
                }
                passes += 1;
            }
        }
        if clean {
            if has_possible_swaps(&mut grid) {
                return Some(grid);
            }
        }
        attempts += 1;
    }
    None
}

} // verus!
