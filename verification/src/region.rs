use vstd::prelude::*;
use vstd::set_lib::{lemma_int_range, set_int_range};
use crate::canvas::{Canvas, TileState};
use crate::grid::{lemma_offset_coords, lemma_offset_in_range, Grid};

verus! {

/// The flags of a mask as rows of booleans.
pub open spec fn mask_view(mask: Vec<Vec<bool>>) -> Seq<Seq<bool>> {
    Seq::new(mask@.len(), |y: int| mask@[y]@)
}

/// Two positions are neighbours when they lie one step apart along one axis.
pub open spec fn adjacent(ax: int, ay: int, bx: int, by: int) -> bool {
    ||| (ay == by && (ax + 1 == bx || bx + 1 == ax))
    ||| (ax == bx && (ay + 1 == by || by + 1 == ay))
}

/// A walk through `g`: a non-empty sequence of positions of the grid, each
/// next to the one before it, all holding the value of the first.
pub open spec fn is_walk(g: Grid, path: Seq<(int, int)>) -> bool {
    &&& path.len() > 0
    &&& forall|k: int|
        0 <= k < path.len() ==> g.contains((#[trigger] path[k]).0, path[k].1) && g.at(
            path[k].0,
            path[k].1,
        ) == g.at(path[0].0, path[0].1)
    &&& forall|k: int|
        0 <= k < path.len() - 1 ==> adjacent(
            (#[trigger] path[k]).0,
            path[k].1,
            path[k + 1].0,
            path[k + 1].1,
        )
}

/// Whether `(x, y)` can be reached from `(sx, sy)` by steps between
/// neighbouring cells that all hold the same value as `(sx, sy)`.
pub open spec fn connected(g: Grid, sx: int, sy: int, x: int, y: int) -> bool {
    exists|path: Seq<(int, int)>|
        is_walk(g, path) && #[trigger] path[0] == (sx, sy) && path.last() == (x, y)
}

/// The region of the seed `(sx, sy)`: one row of flags for each row of the
/// grid, a flag being set exactly where the cell is connected to the seed.
pub open spec fn region(g: Grid, sx: int, sy: int) -> Seq<Seq<bool>> {
    Seq::new(g.height, |y: int| Seq::new(g.width, |x: int| connected(g, sx, sy, x, y)))
}

/// Whether the stack of positions still to be visited holds `(x, y)`.
spec fn pending(stack: Seq<(usize, usize)>, x: int, y: int) -> bool {
    exists|k: int| 0 <= k < stack.len() && (#[trigger] stack[k]).0 == x && stack[k].1 == y
}

/// A position needs no further attention from its neighbours: it lies
/// outside the grid, holds another value than the seed, is marked, or waits
/// on the stack.
spec fn accounted(
    g: Grid,
    target: Option<TileState>,
    mask: Seq<Seq<bool>>,
    stack: Seq<(usize, usize)>,
    x: int,
    y: int,
) -> bool {
    !g.contains(x, y) || g.at(x, y) != target || mask[y][x] || pending(stack, x, y)
}

/// All four neighbours of `(x, y)` are accounted for.
spec fn settled(
    g: Grid,
    target: Option<TileState>,
    mask: Seq<Seq<bool>>,
    stack: Seq<(usize, usize)>,
    x: int,
    y: int,
) -> bool {
    &&& accounted(g, target, mask, stack, x - 1, y)
    &&& accounted(g, target, mask, stack, x + 1, y)
    &&& accounted(g, target, mask, stack, x, y - 1)
    &&& accounted(g, target, mask, stack, x, y + 1)
}

/// What holds of the mask and the stack throughout a fill from `(sx, sy)`:
/// only connected cells are marked or stacked, the seed is accounted for,
/// and every marked cell other than `(fx, fy)` is settled.
spec fn fill_state(
    g: Grid,
    sx: int,
    sy: int,
    mask: Seq<Seq<bool>>,
    stack: Seq<(usize, usize)>,
    fx: int,
    fy: int,
) -> bool {
    &&& g.fits_mask(mask)
    &&& g.contains(sx, sy)
    &&& forall|x: int, y: int|
        g.contains(x, y) && #[trigger] mask[y][x] ==> connected(g, sx, sy, x, y)
    &&& forall|k: int|
        0 <= k < stack.len() ==> g.contains((#[trigger] stack[k]).0 as int, stack[k].1 as int)
            && connected(g, sx, sy, stack[k].0 as int, stack[k].1 as int)
    &&& mask[sy][sx] || pending(stack, sx, sy)
    &&& forall|x: int, y: int|
        g.contains(x, y) && #[trigger] mask[y][x] && !(x == fx && y == fy) ==> settled(
            g,
            g.at(sx, sy),
            mask,
            stack,
            x,
            y,
        )
}

/// The seed is connected to itself.
proof fn lemma_connected_seed(g: Grid, sx: int, sy: int)
    requires
        g.contains(sx, sy),
    ensures
        connected(g, sx, sy, sx, sy),
{
    let path = seq![(sx, sy)];
    assert(is_walk(g, path));
    assert(path[0] == (sx, sy) && path.last() == (sx, sy));
}

/// A neighbour of a connected cell that holds the seed's value is connected.
proof fn lemma_connected_step(g: Grid, sx: int, sy: int, x: int, y: int, nx: int, ny: int)
    requires
        connected(g, sx, sy, x, y),
        adjacent(x, y, nx, ny),
        g.contains(nx, ny),
        g.at(nx, ny) == g.at(sx, sy),
    ensures
        connected(g, sx, sy, nx, ny),
{
    let path = choose|path: Seq<(int, int)>|
        is_walk(g, path) && #[trigger] path[0] == (sx, sy) && path.last() == (x, y);
    let longer = path.push((nx, ny));
    assert forall|k: int| 0 <= k < longer.len() implies g.contains(
        (#[trigger] longer[k]).0,
        longer[k].1,
    ) && g.at(longer[k].0, longer[k].1) == g.at(longer[0].0, longer[0].1) by {
        if k < path.len() {
            assert(longer[k] == path[k]);
        }
    }
    assert forall|k: int| 0 <= k < longer.len() - 1 implies adjacent(
        (#[trigger] longer[k]).0,
        longer[k].1,
        longer[k + 1].0,
        longer[k + 1].1,
    ) by {
        assert(longer[k] == path[k]);
        if k < path.len() - 1 {
            assert(longer[k + 1] == path[k + 1]);
        }
    }
    assert(is_walk(g, longer));
    assert(longer[0] == (sx, sy) && longer.last() == (nx, ny));
}

/// `after` is `before` with the flag at `(x, y)` set.
spec fn marks(before: Seq<Seq<bool>>, after: Seq<Seq<bool>>, x: int, y: int) -> bool {
    &&& after.len() == before.len()
    &&& 0 <= y < before.len()
    &&& 0 <= x < before[y].len()
    &&& after[y] == before[y].update(x, true)
    &&& forall|j: int| 0 <= j < before.len() && j != y ==> #[trigger] after[j] == before[j]
}

/// With nothing marked and the seed alone on the stack, a fill can start.
proof fn lemma_fill_start(g: Grid, sx: int, sy: int, mask: Seq<Seq<bool>>, stack: Seq<(usize, usize)>)
    requires
        g.fits_mask(mask),
        g.contains(sx, sy),
        forall|x: int, y: int| g.contains(x, y) ==> !#[trigger] mask[y][x],
        stack.len() == 1,
        stack[0].0 == sx,
        stack[0].1 == sy,
    ensures
        fill_state(g, sx, sy, mask, stack, -1, -1),
{
    lemma_connected_seed(g, sx, sy);
    assert(pending(stack, sx, sy));
}

/// Taking the top of the stack and marking it keeps the state of the fill,
/// but for the cell just marked, whose neighbours are still to be looked at.
proof fn lemma_fill_pop(
    g: Grid,
    sx: int,
    sy: int,
    mask: Seq<Seq<bool>>,
    stack: Seq<(usize, usize)>,
    after: Seq<Seq<bool>>,
)
    requires
        fill_state(g, sx, sy, mask, stack, -1, -1),
        stack.len() > 0,
        marks(mask, after, stack.last().0 as int, stack.last().1 as int),
    ensures
        fill_state(g, sx, sy, after, stack.drop_last(), stack.last().0 as int, stack.last().1 as int),
{
    let fx = stack.last().0 as int;
    let fy = stack.last().1 as int;
    let rest = stack.drop_last();
    let target = g.at(sx, sy);
    assert(g.contains(fx, fy) && connected(g, sx, sy, fx, fy)) by {
        assert(g.contains(stack[stack.len() - 1].0 as int, stack[stack.len() - 1].1 as int));
    }
    assert forall|x: int, y: int| g.contains(x, y) && mask[y][x] implies #[trigger] after[y][x] by {
        if y != fy {
            assert(after[y] == mask[y]);
        }
    }
    assert forall|x: int, y: int| g.contains(x, y) && #[trigger] after[y][x] implies connected(
        g,
        sx,
        sy,
        x,
        y,
    ) by {
        if y != fy {
            assert(after[y] == mask[y]);
        }
        if !(x == fx && y == fy) {
            assert(mask[y][x]);
        }
    }
    assert forall|x: int, y: int| pending(stack, x, y) && g.contains(x, y) implies pending(
        rest,
        x,
        y,
    ) || after[y][x] by {
        let k = choose|k: int| 0 <= k < stack.len() && (#[trigger] stack[k]).0 == x && stack[k].1 == y;
        if k < rest.len() {
            assert(rest[k] == stack[k]);
        }
    }
    assert forall|k: int| 0 <= k < rest.len() implies g.contains(
        (#[trigger] rest[k]).0 as int,
        rest[k].1 as int,
    ) && connected(g, sx, sy, rest[k].0 as int, rest[k].1 as int) by {
        assert(rest[k] == stack[k]);
    }
    assert forall|x: int, y: int|
        g.contains(x, y) && #[trigger] after[y][x] && !(x == fx && y == fy) implies settled(
        g,
        target,
        after,
        rest,
        x,
        y,
    ) by {
        if y != fy {
            assert(after[y] == mask[y]);
        }
        assert(mask[y][x]);
        assert(settled(g, target, mask, stack, x, y));
        lemma_accounted_pop(g, target, mask, stack, after, x - 1, y);
        lemma_accounted_pop(g, target, mask, stack, after, x + 1, y);
        lemma_accounted_pop(g, target, mask, stack, after, x, y - 1);
        lemma_accounted_pop(g, target, mask, stack, after, x, y + 1);
    }
}

/// A position that was accounted for stays so when the top of the stack is
/// taken off and marked.
proof fn lemma_accounted_pop(
    g: Grid,
    target: Option<TileState>,
    mask: Seq<Seq<bool>>,
    stack: Seq<(usize, usize)>,
    after: Seq<Seq<bool>>,
    x: int,
    y: int,
)
    requires
        g.fits_mask(mask),
        stack.len() > 0,
        marks(mask, after, stack.last().0 as int, stack.last().1 as int),
        accounted(g, target, mask, stack, x, y),
    ensures
        accounted(g, target, after, stack.drop_last(), x, y),
{
    let fx = stack.last().0 as int;
    let fy = stack.last().1 as int;
    let rest = stack.drop_last();
    if g.contains(x, y) && g.at(x, y) == target {
        if y != fy {
            assert(after[y] == mask[y]);
        }
        if mask[y][x] {
            assert(after[y][x]);
        } else {
            let k = choose|k: int| 0 <= k < stack.len() && (#[trigger] stack[k]).0 == x && stack[k].1 == y;
            if k < rest.len() {
                assert(rest[k] == stack[k]);
                assert(pending(rest, x, y));
            } else {
                assert(after[y][x]);
            }
        }
    }
}

/// A position that is accounted for stays so when the stack grows.
proof fn lemma_accounted_push(
    g: Grid,
    target: Option<TileState>,
    mask: Seq<Seq<bool>>,
    stack: Seq<(usize, usize)>,
    top: (usize, usize),
    x: int,
    y: int,
)
    requires
        accounted(g, target, mask, stack, x, y),
    ensures
        accounted(g, target, mask, stack.push(top), x, y),
{
    if pending(stack, x, y) {
        let k = choose|k: int| 0 <= k < stack.len() && (#[trigger] stack[k]).0 == x && stack[k].1 == y;
        assert(stack.push(top)[k] == stack[k]);
    }
}

/// The position on top of the stack is accounted for.
proof fn lemma_accounted_top(
    g: Grid,
    target: Option<TileState>,
    mask: Seq<Seq<bool>>,
    stack: Seq<(usize, usize)>,
)
    requires
        stack.len() > 0,
    ensures
        accounted(g, target, mask, stack, stack.last().0 as int, stack.last().1 as int),
{
    assert(stack[stack.len() - 1] == stack.last());
}

/// Stacking a neighbour of the cell just marked that holds the seed's value
/// keeps the state of the fill.
proof fn lemma_fill_push(
    g: Grid,
    sx: int,
    sy: int,
    mask: Seq<Seq<bool>>,
    stack: Seq<(usize, usize)>,
    fx: int,
    fy: int,
    top: (usize, usize),
)
    requires
        fill_state(g, sx, sy, mask, stack, fx, fy),
        g.contains(fx, fy),
        mask[fy][fx],
        adjacent(fx, fy, top.0 as int, top.1 as int),
        g.contains(top.0 as int, top.1 as int),
        g.at(top.0 as int, top.1 as int) == g.at(sx, sy),
    ensures
        fill_state(g, sx, sy, mask, stack.push(top), fx, fy),
{
    let grown = stack.push(top);
    let target = g.at(sx, sy);
    lemma_connected_step(g, sx, sy, fx, fy, top.0 as int, top.1 as int);
    assert forall|k: int| 0 <= k < grown.len() implies g.contains(
        (#[trigger] grown[k]).0 as int,
        grown[k].1 as int,
    ) && connected(g, sx, sy, grown[k].0 as int, grown[k].1 as int) by {
        if k < stack.len() {
            assert(grown[k] == stack[k]);
        }
    }
    if pending(stack, sx, sy) {
        let k = choose|k: int| 0 <= k < stack.len() && (#[trigger] stack[k]).0 == sx && stack[k].1 == sy;
        assert(grown[k] == stack[k]);
    }
    assert forall|x: int, y: int|
        g.contains(x, y) && #[trigger] mask[y][x] && !(x == fx && y == fy) implies settled(
        g,
        target,
        mask,
        grown,
        x,
        y,
    ) by {
        assert(settled(g, target, mask, stack, x, y));
        lemma_accounted_push(g, target, mask, stack, top, x - 1, y);
        lemma_accounted_push(g, target, mask, stack, top, x + 1, y);
        lemma_accounted_push(g, target, mask, stack, top, x, y - 1);
        lemma_accounted_push(g, target, mask, stack, top, x, y + 1);
    }
}

/// When the neighbours of the cell just marked are accounted for, every
/// marked cell is settled.
proof fn lemma_fill_settle(
    g: Grid,
    sx: int,
    sy: int,
    mask: Seq<Seq<bool>>,
    stack: Seq<(usize, usize)>,
    fx: int,
    fy: int,
)
    requires
        fill_state(g, sx, sy, mask, stack, fx, fy),
        settled(g, g.at(sx, sy), mask, stack, fx, fy),
    ensures
        fill_state(g, sx, sy, mask, stack, -1, -1),
{
}

/// Once nothing is left on the stack, every position of a walk from the seed
/// is marked.
proof fn lemma_walk_marked(g: Grid, sx: int, sy: int, mask: Seq<Seq<bool>>, path: Seq<(int, int)>, k: int)
    requires
        fill_state(g, sx, sy, mask, Seq::empty(), -1, -1),
        is_walk(g, path),
        path[0] == (sx, sy),
        0 <= k < path.len(),
    ensures
        mask[path[k].1][path[k].0],
    decreases k,
{
    let stack = Seq::<(usize, usize)>::empty();
    if k == 0 {
        assert(!pending(stack, sx, sy));
    } else {
        lemma_walk_marked(g, sx, sy, mask, path, k - 1);
        let (px, py) = path[k - 1];
        let (x, y) = path[k];
        assert(g.contains(px, py));
        assert(g.contains(x, y));
        assert(adjacent(px, py, x, y));
        assert(mask[py][px]);
        assert(settled(g, g.at(sx, sy), mask, stack, px, py));
        assert(!pending(stack, x, y));
        assert(accounted(g, g.at(sx, sy), mask, stack, x, y));
    }
}

/// Once nothing is left on the stack, the mask is the region of the seed.
proof fn lemma_fill_complete(g: Grid, sx: int, sy: int, mask: Seq<Seq<bool>>)
    requires
        fill_state(g, sx, sy, mask, Seq::empty(), -1, -1),
    ensures
        mask == region(g, sx, sy),
{
    let r = region(g, sx, sy);
    assert forall|y: int| 0 <= y < mask.len() implies #[trigger] mask[y] == r[y] by {
        assert forall|x: int| 0 <= x < mask[y].len() implies #[trigger] mask[y][x] == r[y][x] by {
            assert(g.contains(x, y));
            if connected(g, sx, sy, x, y) {
                let path = choose|path: Seq<(int, int)>|
                    is_walk(g, path) && #[trigger] path[0] == (sx, sy) && path.last() == (x, y);
                lemma_walk_marked(g, sx, sy, mask, path, path.len() - 1);
            }
        }
        assert(mask[y] =~= r[y]);
    }
    assert(mask =~= r);
}

/// A mask of the canvas's shape with no flag set.
fn blank_mask(canvas: &Canvas) -> (mask: Vec<Vec<bool>>)
    ensures
        canvas@.fits_mask(mask_view(mask)),
        forall|x: int, y: int| canvas@.contains(x, y) ==> !#[trigger] mask_view(mask)[y][x],
{
    let mut retval: Vec<Vec<bool>> = Vec::with_capacity(canvas.height);
    for k in 0..canvas.height
        invariant
            retval.len() == k,
            forall|y: int| 0 <= y < k ==> (#[trigger] retval@[y])@.len() == canvas.width,
            forall|x: int, y: int| 0 <= y < k && 0 <= x < canvas.width ==> !#[trigger] retval@[y]@[x],
    {
        let mut row: Vec<bool> = Vec::with_capacity(canvas.width);
        row.resize(canvas.width, false);
        retval.push(row);
    }
    assert forall|y: int| 0 <= y < mask_view(retval).len() implies (#[trigger] mask_view(
        retval,
    )[y]).len() == canvas@.width by {
        assert(retval@[y]@.len() == canvas.width);
    }
    retval
}

/// Whether the top of the stack is already marked: such an entry is what a
/// cell leaves behind that was stacked more than once.
spec fn stale_top(mask: Seq<Seq<bool>>, stack: Seq<(usize, usize)>) -> nat {
    if stack.len() > 0 && mask[stack.last().1 as int][stack.last().0 as int] {
        1
    } else {
        0
    }
}

/// The cells that share the value of the cell at `(x, y)` and are joined to
/// it by steps between neighbours over such cells: one row of flags for each
/// row of the canvas.
#[verifier::rlimit(50)]
pub fn compute_contigeous_cell(canvas: &Canvas, x: usize, y: usize) -> (cells: Vec<Vec<bool>>)
    requires
        canvas.wf(),
        x < canvas.width,
        y < canvas.height,
    ensures
        mask_view(cells) == region(canvas@, x as int, y as int),
{
    let mut retval = blank_mask(canvas);
    let target_tile = *canvas.get_cell(x, y);
    assert(canvas.cells.len() == canvas.width * canvas.height);
    let mut unchecked: Vec<(usize, usize)> = Vec::with_capacity(canvas.width * canvas.height);
    unchecked.push((x, y));
    let end_x = canvas.width - 1;
    let end_y = canvas.height - 1;
    let ghost g = canvas@;
    let ghost sx = x as int;
    let ghost sy = y as int;
    let ghost w = canvas.width as int;
    let ghost h = canvas.height as int;
    let ghost mut unmarked: Set<int> = set_int_range(0, w * h);
    proof {
        lemma_fill_start(g, sx, sy, mask_view(retval), unchecked@);
        assert(0 <= w * h) by (nonlinear_arith)
            requires
                0 <= w,
                0 <= h,
        ;
        lemma_int_range(0, w * h);
        assert forall|cx: int, cy: int| g.contains(cx, cy) implies unmarked.contains(
            #[trigger] g.offset(cx, cy),
        ) by {
            lemma_offset_in_range(w, h, cx, cy);
        }
    }
    while !unchecked.is_empty()
        invariant
            canvas.wf(),
            g == canvas@,
            w == canvas.width,
            h == canvas.height,
            end_x + 1 == canvas.width,
            end_y + 1 == canvas.height,
            target_tile == g.at(sx, sy),
            fill_state(g, sx, sy, mask_view(retval), unchecked@, -1, -1),
            unmarked.finite(),
            forall|cx: int, cy: int|
                g.contains(cx, cy) && !mask_view(retval)[cy][cx] ==> unmarked.contains(
                    #[trigger] g.offset(cx, cy),
                ),
        decreases unmarked.len(), stale_top(mask_view(retval), unchecked@), unchecked.len(),
    {
        let ghost mask0 = mask_view(retval);
        let ghost stack0 = unchecked@;
        let ghost unmarked0 = unmarked;
        let (x, y) = unchecked.pop().unwrap();
        let ghost rest = unchecked@;
        assert(rest == stack0.drop_last());
        assert(stack0.last() == (x, y));
        assert(g.contains(x as int, y as int)) by {
            assert(g.contains(stack0[stack0.len() - 1].0 as int, stack0[stack0.len() - 1].1 as int));
        }
        assert(retval@[y as int]@.len() == w) by {
            assert(mask0[y as int].len() == w);
        }
        retval[y][x] = true;
        let ghost mask = mask_view(retval);
        proof {
            assert(marks(mask0, mask, x as int, y as int));
            lemma_fill_pop(g, sx, sy, mask0, stack0, mask);
            assert(g.fits_mask(mask));
            unmarked = unmarked0.remove(g.offset(x as int, y as int));
            assert forall|cx: int, cy: int| g.contains(cx, cy) && !mask[cy][cx] implies unmarked.contains(
                #[trigger] g.offset(cx, cy),
            ) by {
                if cy != y {
                    assert(mask[cy] == mask0[cy]);
                }
                assert(!mask0[cy][cx]);
                lemma_offset_coords(w, cx, cy);
                lemma_offset_coords(w, x as int, y as int);
            }
            assert(mask0[y as int][x as int] ==> stale_top(mask0, stack0) == 1);
            assert(!mask0[y as int][x as int] ==> unmarked0.contains(g.offset(x as int, y as int)));
        }
        assert(retval@[y as int]@.len() == w) by {
            assert(mask[y as int].len() == w);
        }
        if x > 0 && !retval[y][x - 1] && target_tile == *canvas.get_cell(x - 1, y) {
            proof {
                lemma_fill_push(g, sx, sy, mask, unchecked@, x as int, y as int, ((x - 1) as usize, y));
            }
            unchecked.push((x - 1, y));
            proof {
                lemma_accounted_top(g, target_tile, mask, unchecked@);
            }
        }
        let ghost stack1 = unchecked@;
        assert(accounted(g, target_tile, mask, stack1, x - 1, y as int));
        assert(stack1 == rest || stale_top(mask, stack1) == 0);
        if x < end_x && !retval[y][x + 1] && target_tile == *canvas.get_cell(x + 1, y) {
            proof {
                lemma_fill_push(g, sx, sy, mask, unchecked@, x as int, y as int, ((x + 1) as usize, y));
                lemma_accounted_push(g, target_tile, mask, stack1, ((x + 1) as usize, y), x - 1, y as int);
            }
            unchecked.push((x + 1, y));
            proof {
                lemma_accounted_top(g, target_tile, mask, unchecked@);
            }
        }
        let ghost stack2 = unchecked@;
        assert(accounted(g, target_tile, mask, stack2, x - 1, y as int));
        assert(accounted(g, target_tile, mask, stack2, x + 1, y as int));
        assert(stack2 == rest || stale_top(mask, stack2) == 0);
        assert(y > 0 ==> retval@[y - 1]@.len() == w) by {
            if y > 0 {
                assert(mask[y - 1].len() == w);
            }
        }
        if y > 0 && !retval[y - 1][x] && target_tile == *canvas.get_cell(x, y - 1) {
            proof {
                lemma_fill_push(g, sx, sy, mask, unchecked@, x as int, y as int, (x, (y - 1) as usize));
                lemma_accounted_push(g, target_tile, mask, stack2, (x, (y - 1) as usize), x - 1, y as int);
                lemma_accounted_push(g, target_tile, mask, stack2, (x, (y - 1) as usize), x + 1, y as int);
            }
            unchecked.push((x, y - 1));
            proof {
                lemma_accounted_top(g, target_tile, mask, unchecked@);
            }
        }
        let ghost stack3 = unchecked@;
        assert(accounted(g, target_tile, mask, stack3, x - 1, y as int));
        assert(accounted(g, target_tile, mask, stack3, x + 1, y as int));
        assert(accounted(g, target_tile, mask, stack3, x as int, y - 1));
        assert(stack3 == rest || stale_top(mask, stack3) == 0);
        assert(y < end_y ==> retval@[y + 1]@.len() == w) by {
            if y < end_y {
                assert(mask[y + 1].len() == w);
            }
        }
        if y < end_y && !retval[y + 1][x] && target_tile == *canvas.get_cell(x, y + 1) {
            proof {
                lemma_fill_push(g, sx, sy, mask, unchecked@, x as int, y as int, (x, (y + 1) as usize));
                lemma_accounted_push(g, target_tile, mask, stack3, (x, (y + 1) as usize), x - 1, y as int);
                lemma_accounted_push(g, target_tile, mask, stack3, (x, (y + 1) as usize), x + 1, y as int);
                lemma_accounted_push(g, target_tile, mask, stack3, (x, (y + 1) as usize), x as int, y - 1);
            }
            unchecked.push((x, y + 1));
            proof {
                lemma_accounted_top(g, target_tile, mask, unchecked@);
            }
        }
        proof {
            let stack4 = unchecked@;
            assert(accounted(g, target_tile, mask, stack4, x - 1, y as int));
            assert(accounted(g, target_tile, mask, stack4, x + 1, y as int));
            assert(accounted(g, target_tile, mask, stack4, x as int, y - 1));
            assert(accounted(g, target_tile, mask, stack4, x as int, y + 1));
            assert(stack4 == rest || stale_top(mask, stack4) == 0);
            assert(settled(g, target_tile, mask, stack4, x as int, y as int));
            lemma_fill_settle(g, sx, sy, mask, stack4, x as int, y as int);
        }
    }
    proof {
        assert(unchecked@ =~= Seq::empty());
        lemma_fill_complete(g, sx, sy, mask_view(retval));
    }
    retval
}

} // verus!
