//! Occupancy grid, placement rules and A* pathfinding.
//!
//! The grid is a fixed `10 x 10` field of cells that are either free or
//! blocked by a turret. A path is a chain of moves between neighbouring
//! cells: straight moves cost 50, diagonal moves cost 75, and a diagonal
//! move is legal only when both cells adjacent to its corner are free.
//!
//! Two map flavours share the same base grid: [`SimpleMap`] has a fixed,
//! pre-authored maze and path, while [`FreeMap`] allows free placement and
//! recomputes its cached path after every successful placement.
use vstd::prelude::*;

verus! {

/// Width of the occupancy grid in cells.
pub const GRID_WIDTH: usize = 10;

/// Height of the occupancy grid in cells.
pub const GRID_HEIGHT: usize = 10;

/// Coordinates are kept small enough that neighbour arithmetic and the
/// squared-distance heuristic can never overflow.
pub const COORD_LIMIT: i32 = 23000;

/// A grid coordinate. `x` grows to the right, `y` upwards; a cell is on the
/// board when `0 <= x < GRID_WIDTH` and `0 <= y < GRID_HEIGHT`, but paths may
/// be requested from coordinates outside the board.
#[derive(Clone, Copy, PartialEq, Eq, Structural, Hash, Debug)]
pub struct GridCell {
    pub x: i32,
    pub y: i32,
}

/// True when `(x, y)` addresses a cell of the board.
pub open spec fn in_bounds(x: int, y: int) -> bool {
    0 <= x < GRID_WIDTH && 0 <= y < GRID_HEIGHT
}

/// Index of cell `(x, y)` in the flattened occupancy vector.
pub open spec fn cell_index(x: int, y: int) -> int {
    x * (GRID_HEIGHT as int) + y
}

/// True when `(x, y)` is on the board and free in the occupancy vector `g`
/// (neither a wall of a pre-authored maze nor a placed turret).
pub open spec fn free_at(g: Seq<u8>, x: int, y: int) -> bool {
    in_bounds(x, y) && g[cell_index(x, y)] == 0
}

/// The occupancy vector `g` with the cell at `pos` marked blocked, as an
/// actually committed placement would leave it.
pub open spec fn block_cell(g: Seq<u8>, pos: GridCell) -> Seq<u8> {
    g.update(cell_index(pos.x as int, pos.y as int), 255u8)
}

/// Shared state of both map flavours: the flattened occupancy grid
/// (row `x` starts at index `x * GRID_HEIGHT`), the fixed endpoints, and the
/// cached path.
pub struct BaseMap {
    pub cells: Vec<u8>,
    pub start: GridCell,
    pub end: GridCell,
    pub path: Vec<GridCell>,
}

impl BaseMap {
    /// The occupancy vector holds exactly one byte per cell and the
    /// endpoints lie within coordinate limits.
    pub open spec fn wf(&self) -> bool {
        &&& self.cells@.len() == GRID_WIDTH * GRID_HEIGHT
        &&& coord_ok(self.start)
        &&& coord_ok(self.end)
    }

    /// An empty board: no obstacles, start in the lower-left corner, end in
    /// the upper-right corner, no cached path.
    pub fn new() -> (r: BaseMap)
        ensures
            r.wf(),
            r.cells@ == Seq::<u8>::new((GRID_WIDTH * GRID_HEIGHT) as nat, |i: int| 0u8),
            r.start == (GridCell { x: 0, y: 0 }),
            r.end == (GridCell { x: 9, y: 9 }),
            r.path@ == Seq::<GridCell>::empty(),
    {
        let mut cells: Vec<u8> = Vec::new();
        let mut i: usize = 0;
        while i < GRID_WIDTH * GRID_HEIGHT
            invariant
                i <= GRID_WIDTH * GRID_HEIGHT,
                cells@ =~= Seq::<u8>::new(i as nat, |j: int| 0u8),
            decreases GRID_WIDTH * GRID_HEIGHT - i,
        {
            cells.push(0);
            i = i + 1;
        }
        assert(cells@ =~= Seq::<u8>::new((GRID_WIDTH * GRID_HEIGHT) as nat, |i: int| 0u8));
        BaseMap {
            cells,
            start: GridCell { x: 0, y: 0 },
            end: GridCell { x: 9, y: 9 },
            path: Vec::new(),
        }
    }

    /// True when `pos` is on the board and not occupied.
    pub fn is_empty(&self, pos: &GridCell) -> (r: bool)
        requires
            self.wf(),
        ensures
            r == free_at(self.cells@, pos.x as int, pos.y as int),
    {
        pos.x >= 0 && pos.y >= 0 && pos.x < GRID_WIDTH as i32 && pos.y < GRID_HEIGHT as i32
            && self.cells[(pos.x as usize) * GRID_HEIGHT + (pos.y as usize)] == 0
    }

    /// All legal moves away from `pos` with their costs, straight neighbours
    /// first; the fixed order keeps the search deterministic. A diagonal
    /// move is offered only when both cells orthogonally adjacent to it are
    /// free as well, so paths cannot cut through a blocked corner.
    pub fn successors(&self, pos: &GridCell) -> (r: Vec<(GridCell, u32)>)
        requires
            self.wf(),
            coord_ok(*pos),
        ensures
            r@ == spec_successors(self.cells@, *pos),
    {
        let ghost g = self.cells@;
        let ghost a = *pos;
        let mut v: Vec<(GridCell, u32)> = Vec::new();
        let right = GridCell { x: pos.x + 1, y: pos.y };
        let left = GridCell { x: pos.x - 1, y: pos.y };
        let up = GridCell { x: pos.x, y: pos.y + 1 };
        let down = GridCell { x: pos.x, y: pos.y - 1 };
        let ne = GridCell { x: pos.x + 1, y: pos.y + 1 };
        let nw = GridCell { x: pos.x - 1, y: pos.y + 1 };
        let se = GridCell { x: pos.x + 1, y: pos.y - 1 };
        let sw = GridCell { x: pos.x - 1, y: pos.y - 1 };
        let e_right = self.is_empty(&right);
        let e_left = self.is_empty(&left);
        let e_up = self.is_empty(&up);
        let e_down = self.is_empty(&down);
        if e_right {
            v.push((right, 50));
        }
        assert(v@ =~= seq_if(straight_edge(g, a, right), (right, 50u32)));
        if e_left {
            v.push((left, 50));
        }
        assert(v@ =~= seq_if(straight_edge(g, a, right), (right, 50u32)) + seq_if(
            straight_edge(g, a, left),
            (left, 50u32),
        ));
        if e_up {
            v.push((up, 50));
        }
        if e_down {
            v.push((down, 50));
        }
        assert(v@ =~= seq_if(straight_edge(g, a, right), (right, 50u32)) + seq_if(
            straight_edge(g, a, left),
            (left, 50u32),
        ) + seq_if(straight_edge(g, a, up), (up, 50u32)) + seq_if(
            straight_edge(g, a, down),
            (down, 50u32),
        ));
        if e_right && e_up && self.is_empty(&ne) {
            v.push((ne, 75));
        }
        if e_left && e_up && self.is_empty(&nw) {
            v.push((nw, 75));
        }
        if e_right && e_down && self.is_empty(&se) {
            v.push((se, 75));
        }
        if e_left && e_down && self.is_empty(&sw) {
            v.push((sw, 75));
        }
        assert(v@ =~= spec_successors(g, a));
        v
    }

    /// The moves of [`BaseMap::successors`], except that no move leaves the
    /// hypothetically blocked cell `except`. This is the successor function
    /// the search runs on.
    pub fn successors_filtered(&self, pos: &GridCell, except: &Option<GridCell>) -> (r: Vec<
        (GridCell, u32),
    >)
        requires
            self.wf(),
            coord_ok(*pos),
        ensures
            r@ == spec_successors_except(self.cells@, *pos, *except),
    {
        match except {
            Some(e) => {
                if *e == *pos {
                    Vec::new()
                } else {
                    self.successors(pos)
                }
            },
            None => self.successors(pos),
        }
    }

    /// Marks `pos` blocked if it is free, reporting whether anything
    /// changed; a cell that is off the board or already occupied is left
    /// alone. Endpoints and the cached path are never touched here.
    pub fn place_tower(&mut self, pos: &GridCell) -> (r: bool)
        requires
            old(self).wf(),
        ensures
            final(self).wf(),
            r == free_at(old(self).cells@, pos.x as int, pos.y as int),
            r ==> final(self).cells@ == block_cell(old(self).cells@, *pos),
            !r ==> *final(self) == *old(self),
            final(self).start == old(self).start,
            final(self).end == old(self).end,
            final(self).path == old(self).path,
    {
        if !self.is_empty(pos) {
            return false;
        }
        let idx: usize = (pos.x as usize) * GRID_HEIGHT + (pos.y as usize);
        self.cells.set(idx, 255);
        assert(self.cells@ =~= block_cell(old(self).cells@, *pos));
        true
    }

    /// Clears the cell at `pos`, whether or not a turret stood there.
    pub fn remove_tower(&mut self, pos: &GridCell)
        requires
            old(self).wf(),
            in_bounds(pos.x as int, pos.y as int),
        ensures
            final(self).wf(),
            final(self).cells@ == old(self).cells@.update(
                cell_index(pos.x as int, pos.y as int),
                0u8,
            ),
            final(self).start == old(self).start,
            final(self).end == old(self).end,
            final(self).path == old(self).path,
    {
        let idx: usize = (pos.x as usize) * GRID_HEIGHT + (pos.y as usize);
        self.cells.set(idx, 0);
    }

    /// Squared Euclidean distance between two cells, the A* heuristic.
    pub fn distance(start: &GridCell, end: &GridCell) -> (r: u32)
        requires
            coord_ok(*start),
            coord_ok(*end),
        ensures
            r == spec_distance(*start, *end),
    {
        let dx: i32 = if start.x >= end.x {
            start.x - end.x
        } else {
            end.x - start.x
        };
        let dy: i32 = if start.y >= end.y {
            start.y - end.y
        } else {
            end.y - start.y
        };
        let dxu: u64 = dx as u64;
        let dyu: u64 = dy as u64;
        assert(dxu * dxu <= 2116000000 && dyu * dyu <= 2116000000) by (nonlinear_arith)
            requires
                dxu <= 46000,
                dyu <= 46000,
        {}
        let sq: u64 = dxu * dxu + dyu * dyu;
        sq as u32
    }
}

/// True when both coordinates of `c` are within [`COORD_LIMIT`].
pub open spec fn coord_ok(c: GridCell) -> bool {
    -COORD_LIMIT <= c.x <= COORD_LIMIT && -COORD_LIMIT <= c.y <= COORD_LIMIT
}

/// Cost of one move: 75 for a diagonal move, 50 for a straight one.
pub open spec fn edge_cost(a: GridCell, b: GridCell) -> u32 {
    if a.x != b.x && a.y != b.y {
        75u32
    } else {
        50u32
    }
}

/// A legal straight move on grid `g`: `b` is the upper, lower, left or right
/// neighbour of `a`, and `b` is free. The source cell is never inspected.
pub open spec fn straight_edge(g: Seq<u8>, a: GridCell, b: GridCell) -> bool {
    &&& free_at(g, b.x as int, b.y as int)
    &&& {
        ||| (b.x == a.x + 1 && b.y == a.y)
        ||| (b.x == a.x - 1 && b.y == a.y)
        ||| (b.x == a.x && b.y == a.y + 1)
        ||| (b.x == a.x && b.y == a.y - 1)
    }
}

/// A legal diagonal move on grid `g`: `b` is a diagonal neighbour of `a`,
/// `b` is free, and so are the two cells orthogonally adjacent to the move,
/// so that a path can never cut through a blocked corner.
pub open spec fn diag_edge(g: Seq<u8>, a: GridCell, b: GridCell) -> bool {
    &&& (b.x == a.x + 1 || b.x == a.x - 1)
    &&& (b.y == a.y + 1 || b.y == a.y - 1)
    &&& free_at(g, b.x as int, a.y as int)
    &&& free_at(g, a.x as int, b.y as int)
    &&& free_at(g, b.x as int, b.y as int)
}

/// A legal move from `a` to `b` on grid `g`. When a hypothetically blocked
/// cell `ex` is given, no move may leave that cell, which is how the search
/// probes a placement before committing it: entering `ex` is still possible
/// but a path can then go no further, so `ex` cannot be crossed.
pub open spec fn edge_ok(g: Seq<u8>, a: GridCell, b: GridCell, ex: Option<GridCell>) -> bool {
    &&& straight_edge(g, a, b) || diag_edge(g, a, b)
    &&& (ex matches Some(e) ==> a != e)
}

/// `s` when `cond` holds, the empty sequence otherwise; used to describe
/// sequences built from conditional pushes.
pub open spec fn seq_if<T>(cond: bool, t: T) -> Seq<T> {
    if cond {
        seq![t]
    } else {
        Seq::empty()
    }
}

/// The exact move list offered to the search from cell `a` on grid `g`:
/// the four straight neighbours, then the four diagonal ones, each present
/// exactly when the move is legal, in a fixed order.
pub open spec fn spec_successors(g: Seq<u8>, a: GridCell) -> Seq<(GridCell, u32)> {
    let right = GridCell { x: (a.x + 1) as i32, y: a.y };
    let left = GridCell { x: (a.x - 1) as i32, y: a.y };
    let up = GridCell { x: a.x, y: (a.y + 1) as i32 };
    let down = GridCell { x: a.x, y: (a.y - 1) as i32 };
    let ne = GridCell { x: (a.x + 1) as i32, y: (a.y + 1) as i32 };
    let nw = GridCell { x: (a.x - 1) as i32, y: (a.y + 1) as i32 };
    let se = GridCell { x: (a.x + 1) as i32, y: (a.y - 1) as i32 };
    let sw = GridCell { x: (a.x - 1) as i32, y: (a.y - 1) as i32 };
    seq_if(straight_edge(g, a, right), (right, 50u32)) + seq_if(
        straight_edge(g, a, left),
        (left, 50u32),
    ) + seq_if(straight_edge(g, a, up), (up, 50u32)) + seq_if(
        straight_edge(g, a, down),
        (down, 50u32),
    ) + seq_if(diag_edge(g, a, ne), (ne, 75u32)) + seq_if(diag_edge(g, a, nw), (nw, 75u32))
        + seq_if(diag_edge(g, a, se), (se, 75u32)) + seq_if(diag_edge(g, a, sw), (sw, 75u32))
}

/// The move list of [`spec_successors`], emptied when the source cell is
/// the hypothetically blocked one.
pub open spec fn spec_successors_except(g: Seq<u8>, a: GridCell, ex: Option<GridCell>) -> Seq<
    (GridCell, u32),
> {
    if ex matches Some(e) && a == e {
        Seq::empty()
    } else {
        spec_successors(g, a)
    }
}

/// The move list of [`spec_successors_except`] holds `(b, c)` exactly when
/// `a` to `b` is a legal move that does not leave the blocked cell, and `c`
/// is that move's cost.
pub proof fn lemma_successors_except_membership(
    g: Seq<u8>,
    a: GridCell,
    b: GridCell,
    c: u32,
    ex: Option<GridCell>,
)
    ensures
        spec_successors_except(g, a, ex).contains((b, c)) <==> (edge_ok(g, a, b, ex) && c
            == edge_cost(a, b)),
{
    lemma_successors_membership(g, a, b, c);
}

/// Concatenation holds an element exactly when one of its parts does.
pub proof fn lemma_concat_contains<T>(s1: Seq<T>, s2: Seq<T>, t: T)
    ensures
        (s1 + s2).contains(t) <==> s1.contains(t) || s2.contains(t),
{
    if (s1 + s2).contains(t) {
        let i = choose|i: int| 0 <= i < (s1 + s2).len() && (s1 + s2)[i] == t;
        if i < s1.len() {
            assert(s1[i] == t);
        } else {
            assert(s2[i - s1.len()] == t);
        }
    }
    if s1.contains(t) {
        let i = choose|i: int| 0 <= i < s1.len() && s1[i] == t;
        assert((s1 + s2)[i] == t);
    }
    if s2.contains(t) {
        let i = choose|i: int| 0 <= i < s2.len() && s2[i] == t;
        assert((s1 + s2)[s1.len() + i] == t);
    }
}

/// A conditional singleton holds `t` exactly when the condition holds and
/// `t` is its element.
pub proof fn lemma_seq_if_contains<T>(cond: bool, x: T, t: T)
    ensures
        seq_if(cond, x).contains(t) <==> (cond && t == x),
{
    if cond && t == x {
        assert(seq_if(cond, x)[0] == t);
    }
}

/// The move list of [`spec_successors`] holds `(b, c)` exactly when moving
/// from `a` to `b` is legal and `c` is that move's cost.
pub proof fn lemma_successors_membership(g: Seq<u8>, a: GridCell, b: GridCell, c: u32)
    ensures
        spec_successors(g, a).contains((b, c)) <==> ((straight_edge(g, a, b) || diag_edge(g, a, b))
            && c == edge_cost(a, b)),
{
    let right = GridCell { x: (a.x + 1) as i32, y: a.y };
    let left = GridCell { x: (a.x - 1) as i32, y: a.y };
    let up = GridCell { x: a.x, y: (a.y + 1) as i32 };
    let down = GridCell { x: a.x, y: (a.y - 1) as i32 };
    let ne = GridCell { x: (a.x + 1) as i32, y: (a.y + 1) as i32 };
    let nw = GridCell { x: (a.x - 1) as i32, y: (a.y + 1) as i32 };
    let se = GridCell { x: (a.x + 1) as i32, y: (a.y - 1) as i32 };
    let sw = GridCell { x: (a.x - 1) as i32, y: (a.y - 1) as i32 };
    let s1 = seq_if(straight_edge(g, a, right), (right, 50u32));
    let s2 = seq_if(straight_edge(g, a, left), (left, 50u32));
    let s3 = seq_if(straight_edge(g, a, up), (up, 50u32));
    let s4 = seq_if(straight_edge(g, a, down), (down, 50u32));
    let s5 = seq_if(diag_edge(g, a, ne), (ne, 75u32));
    let s6 = seq_if(diag_edge(g, a, nw), (nw, 75u32));
    let s7 = seq_if(diag_edge(g, a, se), (se, 75u32));
    let s8 = seq_if(diag_edge(g, a, sw), (sw, 75u32));
    let t = (b, c);
    lemma_concat_contains(s1 + s2 + s3 + s4 + s5 + s6 + s7, s8, t);
    lemma_concat_contains(s1 + s2 + s3 + s4 + s5 + s6, s7, t);
    lemma_concat_contains(s1 + s2 + s3 + s4 + s5, s6, t);
    lemma_concat_contains(s1 + s2 + s3 + s4, s5, t);
    lemma_concat_contains(s1 + s2 + s3, s4, t);
    lemma_concat_contains(s1 + s2, s3, t);
    lemma_concat_contains(s1, s2, t);
    lemma_seq_if_contains(straight_edge(g, a, right), (right, 50u32), t);
    lemma_seq_if_contains(straight_edge(g, a, left), (left, 50u32), t);
    lemma_seq_if_contains(straight_edge(g, a, up), (up, 50u32), t);
    lemma_seq_if_contains(straight_edge(g, a, down), (down, 50u32), t);
    lemma_seq_if_contains(diag_edge(g, a, ne), (ne, 75u32), t);
    lemma_seq_if_contains(diag_edge(g, a, nw), (nw, 75u32), t);
    lemma_seq_if_contains(diag_edge(g, a, se), (se, 75u32), t);
    lemma_seq_if_contains(diag_edge(g, a, sw), (sw, 75u32), t);
    assert(straight_edge(g, a, b) ==> b == right || b == left || b == up || b == down);
    assert(diag_edge(g, a, b) ==> b == ne || b == nw || b == se || b == sw);
}

/// `p` is a chain of legal moves on grid `g` that leads from `from` to
/// `goal`. The first cell itself is not required to be free, matching the
/// search, which never inspects the cell it starts from.
pub open spec fn path_ok(
    g: Seq<u8>,
    p: Seq<GridCell>,
    from: GridCell,
    goal: GridCell,
    ex: Option<GridCell>,
) -> bool {
    &&& p.len() >= 1
    &&& p[0] == from
    &&& p[p.len() - 1] == goal
    &&& forall|i: int| 0 <= i < p.len() - 1 ==> #[trigger] edge_ok(g, p[i], p[i + 1], ex)
}

/// Total cost of the moves of `p`.
pub open spec fn path_cost(p: Seq<GridCell>) -> int
    decreases p.len(),
{
    if p.len() <= 1 {
        0
    } else {
        edge_cost(p[0], p[1]) + path_cost(p.skip(1))
    }
}

/// Some chain of legal moves leads from `from` to `goal` on grid `g`.
pub open spec fn reachable(
    g: Seq<u8>,
    from: GridCell,
    goal: GridCell,
    ex: Option<GridCell>,
) -> bool {
    exists|p: Seq<GridCell>| path_ok(g, p, from, goal, ex)
}

/// A placement at `pos` passes the validity check of the free-placement
/// map: the cell is free, is neither endpoint, and the endpoints stay
/// connected when no move may leave `pos` any more.
pub open spec fn place_allowed(g: Seq<u8>, start: GridCell, end: GridCell, pos: GridCell) -> bool {
    &&& free_at(g, pos.x as int, pos.y as int)
    &&& pos != end
    &&& pos != start
    &&& reachable(g, start, end, Some(pos))
}

/// The cached path of `b` is consistent with its occupancy: it is a legal
/// chain from start to end when one exists, and empty otherwise.
pub open spec fn path_consistent(b: BaseMap) -> bool {
    if reachable(b.cells@, b.start, b.end, None) {
        path_ok(b.cells@, b.path@, b.start, b.end, None)
    } else {
        b.path@ == Seq::<GridCell>::empty()
    }
}

/// The outcome of the A* search on grid `g` from `from` towards `goal`
/// with the probe cell `ex`: which path the search settles on is its own
/// business, but it is a function of these arguments alone, so the search
/// is deterministic for a fixed occupancy grid.
pub uninterp spec fn search_result(
    g: Seq<u8>,
    from: GridCell,
    goal: GridCell,
    ex: Option<GridCell>,
) -> Option<(Seq<GridCell>, u32)>;

/// The cached path a recomputation on grid `g` leaves behind: the route
/// the search settles on, or the empty path when no route exists.
pub open spec fn spec_recomputed_path(g: Seq<u8>, start: GridCell, goal: GridCell) -> Seq<
    GridCell,
> {
    match search_result(g, start, goal, None) {
        Some(pc) => pc.0,
        None => Seq::empty(),
    }
}

/// Relies on `pathfinding::prelude::astar`, searching from `from` for
/// `map.end` over the moves of [`BaseMap::successors_filtered`]. The crate
/// returns `Some((p, c))` where `p` starts at `from`, ends at the first node
/// found that satisfies the success predicate, follows edges handed out by
/// the successor closure, and has total edge cost `c`; it returns `None`
/// exactly when no chain of such edges reaches the goal. Nothing is assumed
/// about which path is returned: the squared-distance heuristic is not known
/// to be admissible for the 50/75 costs, so the path need not be shortest.
/// The search is deterministic — its heap and its hash map are unseeded and
/// iterate in a fixed order — so its outcome depends on the grid, the
/// endpoints and the probe alone, which [`search_result`] names.
#[verifier::external_body]
fn astar_search(map: &BaseMap, from: &GridCell, except: Option<GridCell>) -> (r: Option<
    (Vec<GridCell>, u32),
>)
    requires
        map.wf(),
        coord_ok(*from),
    ensures
        match r {
            Some(pc) => path_ok(map.cells@, pc.0@, *from, map.end, except) && pc.1 == path_cost(
                pc.0@,
            ) && search_result(map.cells@, *from, map.end, except) == Some((pc.0@, pc.1)),
            None => !reachable(map.cells@, *from, map.end, except) && search_result(
                map.cells@,
                *from,
                map.end,
                except,
            ) is None,
        },
{
    pathfinding::prelude::astar(
        from,
        |p| map.successors_filtered(p, &except),
        |p| BaseMap::distance(p, &map.end),
        |p| *p == map.end,
    )
}

/// Distinct cells of the board have distinct indices in the occupancy
/// vector.
pub proof fn lemma_cell_index_injective(a: GridCell, b: GridCell)
    requires
        in_bounds(a.x as int, a.y as int),
        in_bounds(b.x as int, b.y as int),
        a != b,
    ensures
        cell_index(a.x as int, a.y as int) != cell_index(b.x as int, b.y as int),
{
    if a.x == b.x {
        assert(a.y != b.y);
    } else {
        assert(cell_index(a.x as int, a.y as int) != cell_index(b.x as int, b.y as int)) by (nonlinear_arith)
            requires
                0 <= a.x < 10 && 0 <= a.y < 10 && 0 <= b.x < 10 && 0 <= b.y < 10,
                a.x != b.x,
        {}
    }
}

/// A cell other than the newly blocked one keeps its freedom when `pos` is
/// blocked.
pub proof fn lemma_free_after_block(g: Seq<u8>, pos: GridCell, x: int, y: int)
    requires
        g.len() == GRID_WIDTH * GRID_HEIGHT,
        in_bounds(pos.x as int, pos.y as int),
        free_at(g, x, y),
        !(x == pos.x as int && y == pos.y as int),
    ensures
        free_at(block_cell(g, pos), x, y),
{
    lemma_cell_index_injective(GridCell { x: x as i32, y: y as i32 }, pos);
}

/// A path may be extended at its front by one legal move.
pub proof fn lemma_path_prepend(
    g: Seq<u8>,
    a: GridCell,
    q: Seq<GridCell>,
    goal: GridCell,
)
    requires
        q.len() >= 1,
        path_ok(g, q, q[0], goal, None),
        edge_ok(g, a, q[0], None),
    ensures
        path_ok(g, seq![a] + q, a, goal, None),
{
    let full = seq![a] + q;
    assert(full[0] == a);
    assert(full[full.len() - 1] == q[q.len() - 1]);
    assert forall|i: int| 0 <= i < full.len() - 1 implies #[trigger] edge_ok(
        g,
        full[i],
        full[i + 1],
        None,
    ) by {
        if i == 0 {
            assert(full[0] == a && full[1] == q[0]);
        } else {
            let j = i - 1;
            assert(full[i] == q[j] && full[i + 1] == q[j + 1]);
            assert(edge_ok(g, q[j], q[j + 1], None));
        }
    }
}

/// Any chain of moves that survives the hypothetical check — no move leaves
/// `pos`, and neither endpoint is `pos` — can be rebuilt on the grid where
/// `pos` is actually blocked: a diagonal move whose corner was `pos` is
/// replaced by two straight moves around the other, still free corner.
proof fn lemma_path_avoids_block(
    g: Seq<u8>,
    p: Seq<GridCell>,
    from: GridCell,
    goal: GridCell,
    pos: GridCell,
)
    requires
        g.len() == GRID_WIDTH * GRID_HEIGHT,
        in_bounds(pos.x as int, pos.y as int),
        path_ok(g, p, from, goal, Some(pos)),
        from != pos,
        goal != pos,
    ensures
        reachable(block_cell(g, pos), from, goal, None),
    decreases p.len(),
{
    let gb = block_cell(g, pos);
    if p.len() == 1 {
        assert(path_ok(gb, p, from, goal, None));
    } else {
        let a = p[0];
        let b = p[1];
        let rest = p.skip(1);
        assert(rest.len() == p.len() - 1);
        assert(rest[0] == b);
        assert(rest[rest.len() - 1] == p[p.len() - 1]);
        assert forall|i: int| 0 <= i < rest.len() - 1 implies #[trigger] edge_ok(
            g,
            rest[i],
            rest[i + 1],
            Some(pos),
        ) by {
            assert(rest[i] == p[i + 1] && rest[i + 1] == p[i + 2]);
            assert(edge_ok(g, p[i + 1], p[i + 2], Some(pos)));
        }
        assert(edge_ok(g, p[0], p[1], Some(pos)));
        // The second cell is never the probed cell: either it is the goal,
        // or a move leaves it, which the probe forbids.
        if b == pos {
            assert(rest.len() >= 2);
            assert(edge_ok(g, rest[0], rest[1], Some(pos)));
            assert(false);
        }
        assert(path_ok(g, rest, b, goal, Some(pos)));
        lemma_path_avoids_block(g, rest, b, goal, pos);
        let q = choose|q: Seq<GridCell>| path_ok(gb, q, b, goal, None);
        assert(q[0] == b);
        if straight_edge(g, a, b) {
            lemma_free_after_block(g, pos, b.x as int, b.y as int);
            assert(straight_edge(gb, a, b));
            lemma_path_prepend(gb, a, q, goal);
            assert(path_ok(gb, seq![a] + q, a, goal, None));
        } else {
            assert(diag_edge(g, a, b));
            let c1 = GridCell { x: b.x, y: a.y };
            let c2 = GridCell { x: a.x, y: b.y };
            lemma_free_after_block(g, pos, b.x as int, b.y as int);
            if c1 != pos && c2 != pos {
                lemma_free_after_block(g, pos, c1.x as int, c1.y as int);
                lemma_free_after_block(g, pos, c2.x as int, c2.y as int);
                assert(diag_edge(gb, a, b));
                lemma_path_prepend(gb, a, q, goal);
                assert(path_ok(gb, seq![a] + q, a, goal, None));
            } else {
                // One corner is the probed cell; go around the other one,
                // which is free and distinct from it.
                let c = if c1 == pos {
                    c2
                } else {
                    c1
                };
                assert(c != pos);
                lemma_free_after_block(g, pos, c.x as int, c.y as int);
                assert(straight_edge(gb, c, b));
                lemma_path_prepend(gb, c, q, goal);
                let q2 = seq![c] + q;
                assert(q2[0] == c);
                assert(straight_edge(gb, a, c));
                lemma_path_prepend(gb, a, q2, goal);
                assert(path_ok(gb, seq![a] + q2, a, goal, None));
            }
        }
    }
}

/// Placement validity really protects the route: any placement that the
/// free-placement map allows leaves the start connected to the end even
/// once the chosen cell is actually blocked.
pub proof fn lemma_allowed_placement_keeps_connectivity(
    g: Seq<u8>,
    start: GridCell,
    end: GridCell,
    pos: GridCell,
)
    requires
        g.len() == GRID_WIDTH * GRID_HEIGHT,
        place_allowed(g, start, end, pos),
    ensures
        reachable(block_cell(g, pos), start, end, None),
{
    let p = choose|p: Seq<GridCell>| path_ok(g, p, start, end, Some(pos));
    lemma_path_avoids_block(g, p, start, end, pos);
}

/// Placing a turret that would disconnect the start from the end is always
/// rejected: if no route exists once `pos` is blocked, the validity check
/// fails, so [`FreeMap::is_turret_possible`] answers `false`,
/// [`FreeMap::place_tower`] refuses and mutates nothing, and the placement
/// handler leaves the map and the player's gold untouched.
pub proof fn lemma_disconnecting_placement_rejected(
    g: Seq<u8>,
    start: GridCell,
    end: GridCell,
    pos: GridCell,
)
    requires
        g.len() == GRID_WIDTH * GRID_HEIGHT,
        !reachable(block_cell(g, pos), start, end, None),
    ensures
        !place_allowed(g, start, end, pos),
{
    if place_allowed(g, start, end, pos) {
        lemma_allowed_placement_keeps_connectivity(g, start, end, pos);
    }
}

/// A cell that is free once `pos` is blocked was free before, and is not
/// `pos` itself.
proof fn lemma_free_in_block(g: Seq<u8>, pos: GridCell, x: int, y: int)
    requires
        g.len() == GRID_WIDTH * GRID_HEIGHT,
        in_bounds(pos.x as int, pos.y as int),
        free_at(block_cell(g, pos), x, y),
    ensures
        free_at(g, x, y),
        !(x == pos.x as int && y == pos.y as int),
{
    if x == pos.x as int && y == pos.y as int {
        assert(block_cell(g, pos)[cell_index(x, y)] == 255u8);
    } else {
        lemma_cell_index_injective(GridCell { x: x as i32, y: y as i32 }, pos);
    }
}

/// A route on the grid with `pos` actually blocked also survives the
/// hypothetical probe: its moves never touch `pos`, so each one is legal
/// on the unblocked grid and none leaves `pos`.
proof fn lemma_blocked_path_survives_probe(
    g: Seq<u8>,
    p: Seq<GridCell>,
    from: GridCell,
    goal: GridCell,
    pos: GridCell,
)
    requires
        g.len() == GRID_WIDTH * GRID_HEIGHT,
        in_bounds(pos.x as int, pos.y as int),
        path_ok(block_cell(g, pos), p, from, goal, None),
        from != pos,
    ensures
        path_ok(g, p, from, goal, Some(pos)),
{
    let gb = block_cell(g, pos);
    assert forall|i: int| 0 <= i < p.len() - 1 implies #[trigger] edge_ok(
        g,
        p[i],
        p[i + 1],
        Some(pos),
    ) by {
        assert(edge_ok(gb, p[i], p[i + 1], None));
        let a = p[i];
        let b = p[i + 1];
        lemma_free_in_block(g, pos, b.x as int, b.y as int);
        if !straight_edge(gb, a, b) {
            assert(diag_edge(gb, a, b));
            lemma_free_in_block(g, pos, b.x as int, a.y as int);
            lemma_free_in_block(g, pos, a.x as int, b.y as int);
            assert(diag_edge(g, a, b));
        }
        if i > 0 {
            let j = i - 1;
            assert(edge_ok(gb, p[j], p[j + 1], None));
            assert(free_at(gb, a.x as int, a.y as int));
            lemma_free_in_block(g, pos, a.x as int, a.y as int);
            assert(a != pos);
        }
    }
}

/// The validity probe is exact: a free, non-endpoint cell passes the check
/// precisely when the endpoints remain connected once the cell is actually
/// blocked. Together with the soundness direction this shows the probe
/// neither lets a severing placement through nor refuses a harmless one.
pub proof fn lemma_placement_check_exact(
    g: Seq<u8>,
    start: GridCell,
    end: GridCell,
    pos: GridCell,
)
    requires
        g.len() == GRID_WIDTH * GRID_HEIGHT,
        free_at(g, pos.x as int, pos.y as int),
        pos != start,
        pos != end,
    ensures
        place_allowed(g, start, end, pos) <==> reachable(block_cell(g, pos), start, end, None),
{
    if place_allowed(g, start, end, pos) {
        lemma_allowed_placement_keeps_connectivity(g, start, end, pos);
    }
    if reachable(block_cell(g, pos), start, end, None) {
        let p = choose|p: Seq<GridCell>| path_ok(block_cell(g, pos), p, start, end, None);
        lemma_blocked_path_survives_probe(g, p, start, end, pos);
        assert(path_ok(g, p, start, end, Some(pos)));
    }
}

/// Squared Euclidean distance, the heuristic that guides the A* search.
pub open spec fn spec_distance(a: GridCell, b: GridCell) -> int {
    let dx = if a.x >= b.x { a.x - b.x } else { b.x - a.x };
    let dy = if a.y >= b.y { a.y - b.y } else { b.y - a.y };
    dx * dx + dy * dy
}

/// The capability interface the game systems program against: occupancy
/// queries and placement on some grid with fixed endpoints and a cached
/// path. The flavours differ in what [`GridMap::placement_valid`] demands —
/// the pre-authored maze only asks for a free cell, the free-placement map
/// also protects the route — and in whether placement refreshes the path.
pub trait GridMap: Sized {
    /// The occupancy grid.
    spec fn grid(&self) -> Seq<u8>;

    /// The cell creeps spawn on.
    spec fn start_spec(&self) -> GridCell;

    /// The cell creeps walk to.
    spec fn end_spec(&self) -> GridCell;

    /// The cached path.
    spec fn path_view(&self) -> Seq<GridCell>;

    /// Validity of the grid representation.
    spec fn inv(&self) -> bool;

    /// This flavour's placement rule.
    spec fn placement_valid(&self, pos: GridCell) -> bool;

    /// Places a turret exactly when this flavour's placement rule allows
    /// it, blocking the cell; endpoints never move, and a rejected
    /// placement changes nothing.
    fn place_tower(&mut self, pos: &GridCell) -> (r: bool)
        requires
            old(self).inv(),
        ensures
            final(self).inv(),
            r == old(self).placement_valid(*pos),
            r ==> final(self).grid() == block_cell(old(self).grid(), *pos),
            !r ==> final(self).grid() == old(self).grid() && final(self).path_view() == old(
                self,
            ).path_view(),
            final(self).start_spec() == old(self).start_spec(),
            final(self).end_spec() == old(self).end_spec(),
    ;

    /// Clears the cell at `pos`, leaving the cached path alone.
    fn remove_tower(&mut self, pos: &GridCell)
        requires
            old(self).inv(),
            in_bounds(pos.x as int, pos.y as int),
        ensures
            final(self).inv(),
            final(self).grid() == old(self).grid().update(
                cell_index(pos.x as int, pos.y as int),
                0u8,
            ),
            final(self).start_spec() == old(self).start_spec(),
            final(self).end_spec() == old(self).end_spec(),
            final(self).path_view() == old(self).path_view(),
    ;

    /// The placement rule, answered without mutating anything.
    fn is_turret_possible(&self, pos: &GridCell) -> (r: bool)
        requires
            self.inv(),
        ensures
            r == self.placement_valid(*pos),
    ;

    /// The cached path from start to end; empty means no route.
    fn get_path(&self) -> (r: &Vec<GridCell>)
        ensures
            r@ == self.path_view(),
    ;

    /// The start cell.
    fn get_start(&self) -> (r: GridCell)
        ensures
            r == self.start_spec(),
    ;

    /// The end cell.
    fn get_end(&self) -> (r: GridCell)
        ensures
            r == self.end_spec(),
    ;
}

/// The extra capability of maps that can search at runtime: an on-demand
/// route from any cell to the end, used to reroute creeps.
pub trait DynamicMap: GridMap {
    /// A legal route from `start` to the end cell with its cost, or `None`
    /// exactly when no route exists.
    fn compute_path(&self, start: &GridCell) -> (r: Option<(Vec<GridCell>, u32)>)
        requires
            self.inv(),
            coord_ok(*start),
        ensures
            match r {
                Some(pc) => path_ok(self.grid(), pc.0@, *start, self.end_spec(), None) && pc.1
                    == path_cost(pc.0@),
                None => !reachable(self.grid(), *start, self.end_spec(), None),
            },
    ;
}

/// The free-placement map: turrets may be placed on any free cell that
/// keeps the endpoints connected, and the cached path is recomputed after
/// every successful placement.
pub struct FreeMap {
    pub base: BaseMap,
}

impl GridMap for FreeMap {
    open spec fn grid(&self) -> Seq<u8> {
        self.base.cells@
    }

    open spec fn start_spec(&self) -> GridCell {
        self.base.start
    }

    open spec fn end_spec(&self) -> GridCell {
        self.base.end
    }

    open spec fn path_view(&self) -> Seq<GridCell> {
        self.base.path@
    }

    open spec fn inv(&self) -> bool {
        self.wf()
    }

    /// Free placement demands a free non-endpoint cell that keeps the
    /// endpoints connected.
    open spec fn placement_valid(&self, pos: GridCell) -> bool {
        place_allowed(self.base.cells@, self.base.start, self.base.end, pos)
    }

    fn place_tower(&mut self, pos: &GridCell) -> (r: bool) {
        FreeMap::place_tower(self, pos)
    }

    fn remove_tower(&mut self, pos: &GridCell) {
        FreeMap::remove_tower(self, pos)
    }

    fn is_turret_possible(&self, pos: &GridCell) -> (r: bool) {
        FreeMap::is_turret_possible(self, pos)
    }

    fn get_path(&self) -> (r: &Vec<GridCell>) {
        FreeMap::get_path(self)
    }

    fn get_start(&self) -> (r: GridCell) {
        FreeMap::get_start(self)
    }

    fn get_end(&self) -> (r: GridCell) {
        FreeMap::get_end(self)
    }
}

impl DynamicMap for FreeMap {
    fn compute_path(&self, start: &GridCell) -> (r: Option<(Vec<GridCell>, u32)>) {
        FreeMap::compute_path(self, start)
    }
}

impl FreeMap {
    /// Validity of the underlying grid.
    pub open spec fn wf(&self) -> bool {
        self.base.wf()
    }

    /// Places a turret at `pos` when the placement is valid — the cell is
    /// free, not an endpoint, and blocking it keeps the endpoints
    /// connected — and then recomputes the cached path. The validity is
    /// tested before anything is committed: a rejected placement (an
    /// occupied or off-board cell, an endpoint, or a cell whose blocking
    /// would sever the route) returns `false` and changes nothing, so
    /// placing on the same cell a second time always fails. On success the
    /// endpoints are still connected on the new grid and the fresh cache
    /// holds the route the search settles on for that grid.
    pub fn place_tower(&mut self, pos: &GridCell) -> (r: bool)
        requires
            old(self).wf(),
        ensures
            final(self).wf(),
            r == place_allowed(
                old(self).base.cells@,
                old(self).base.start,
                old(self).base.end,
                *pos,
            ),
            !r ==> *final(self) == *old(self),
            r ==> final(self).base.cells@ == block_cell(old(self).base.cells@, *pos),
            r ==> path_consistent(final(self).base),
            r ==> reachable(
                final(self).base.cells@,
                final(self).base.start,
                final(self).base.end,
                None,
            ),
            r ==> final(self).base.path@ == spec_recomputed_path(
                block_cell(old(self).base.cells@, *pos),
                old(self).base.start,
                old(self).base.end,
            ),
            final(self).base.start == old(self).base.start,
            final(self).base.end == old(self).base.end,
    {
        if self.is_turret_possible(pos) {
            let ghost g = self.base.cells@;
            self.base.place_tower(pos);
            self.recompute_path();
            proof {
                lemma_allowed_placement_keeps_connectivity(g, self.base.start, self.base.end, *pos);
            }
            true
        } else {
            false
        }
    }

    /// Clears the cell at `pos` without touching the cached path; whether
    /// and when to recompute is the caller's decision.
    pub fn remove_tower(&mut self, pos: &GridCell)
        requires
            old(self).wf(),
            in_bounds(pos.x as int, pos.y as int),
        ensures
            final(self).wf(),
            final(self).base.cells@ == old(self).base.cells@.update(
                cell_index(pos.x as int, pos.y as int),
                0u8,
            ),
            final(self).base.start == old(self).base.start,
            final(self).base.end == old(self).base.end,
            final(self).base.path == old(self).base.path,
    {
        self.base.remove_tower(pos);
    }

    /// The placement validity check, without mutation: `pos` must be a free
    /// non-endpoint cell whose hypothetical blocking leaves the endpoints
    /// connected.
    pub fn is_turret_possible(&self, pos: &GridCell) -> (r: bool)
        requires
            self.wf(),
        ensures
            r == place_allowed(self.base.cells@, self.base.start, self.base.end, *pos),
    {
        if self.base.is_empty(pos) && *pos != self.base.end && *pos != self.base.start {
            let probe = astar_search(&self.base, &self.base.start, Some(*pos));
            match probe {
                Some(pc) => {
                    assert(path_ok(
                        self.base.cells@,
                        pc.0@,
                        self.base.start,
                        self.base.end,
                        Some(*pos),
                    ));
                    true
                },
                None => false,
            }
        } else {
            false
        }
    }

    /// The cached path, from start to end inclusive; empty when no route
    /// exists.
    pub fn get_path(&self) -> (r: &Vec<GridCell>)
        ensures
            r == &self.base.path,
    {
        &self.base.path
    }

    /// The start cell, where creeps spawn.
    pub fn get_start(&self) -> (r: GridCell)
        ensures
            r == self.base.start,
    {
        self.base.start
    }

    /// The end cell, the creeps' goal.
    pub fn get_end(&self) -> (r: GridCell)
        ensures
            r == self.base.end,
    {
        self.base.end
    }

    /// An on-demand search from `start` to the map's end cell over the
    /// current occupancy, used to reroute creeps after the map changed.
    /// `Some` holds a legal path with its cost; `None` means no route. The
    /// result is pinned to [`search_result`], so the search is
    /// deterministic: identical grids and endpoints give identical answers.
    pub fn compute_path(&self, start: &GridCell) -> (r: Option<(Vec<GridCell>, u32)>)
        requires
            self.wf(),
            coord_ok(*start),
        ensures
            match r {
                Some(pc) => path_ok(self.base.cells@, pc.0@, *start, self.base.end, None) && pc.1
                    == path_cost(pc.0@) && search_result(
                    self.base.cells@,
                    *start,
                    self.base.end,
                    None,
                ) == Some((pc.0@, pc.1)),
                None => !reachable(self.base.cells@, *start, self.base.end, None) && search_result(
                    self.base.cells@,
                    *start,
                    self.base.end,
                    None,
                ) is None,
            },
    {
        astar_search(&self.base, start, None)
    }

    /// Replaces the cached path by a fresh search from start to end; when
    /// no route exists the cache becomes empty, and callers treat an empty
    /// path as "no route" rather than failing. The new cache equals
    /// [`spec_recomputed_path`] of the occupancy, so identical occupancy
    /// always yields the identical cached path.
    pub fn recompute_path(&mut self)
        requires
            old(self).wf(),
        ensures
            final(self).wf(),
            final(self).base.cells@ == old(self).base.cells@,
            final(self).base.start == old(self).base.start,
            final(self).base.end == old(self).base.end,
            path_consistent(final(self).base),
            final(self).base.path@ == spec_recomputed_path(
                old(self).base.cells@,
                old(self).base.start,
                old(self).base.end,
            ),
    {
        let start = self.base.start;
        let found = astar_search(&self.base, &start, None);
        match found {
            Some(pc) => {
                assert(path_ok(self.base.cells@, pc.0@, self.base.start, self.base.end, None));
                self.base.path = pc.0;
            },
            None => {
                self.base.path = Vec::new();
            },
        }
    }

    /// The moves away from `pos`, or none at all when `pos` is the
    /// hypothetically blocked cell `except`.
    pub fn successors_except(&self, pos: &GridCell, except: &GridCell) -> (r: Vec<(GridCell, u32)>)
        requires
            self.wf(),
            coord_ok(*pos),
        ensures
            r@ == spec_successors_except(self.base.cells@, *pos, Some(*except)),
    {
        self.base.successors_filtered(pos, &Some(*except))
    }
}

impl Default for FreeMap {
    /// An empty board with start `(0, 0)`, end `(9, 9)` and the diagonal
    /// as the pre-seeded path.
    fn default() -> (r: FreeMap)
        ensures
            r.wf(),
            r.base.cells@ == Seq::<u8>::new((GRID_WIDTH * GRID_HEIGHT) as nat, |i: int| 0u8),
            r.base.start == (GridCell { x: 0, y: 0 }),
            r.base.end == (GridCell { x: 9, y: 9 }),
            r.base.path@ == Seq::new(10, |i: int| GridCell { x: i as i32, y: i as i32 }),
    {
        let mut base = BaseMap::new();
        let mut path: Vec<GridCell> = Vec::new();
        let mut i: i32 = 0;
        while i < 10
            invariant
                0 <= i <= 10,
                path@ =~= Seq::new(i as nat, |j: int| GridCell { x: j as i32, y: j as i32 }),
            decreases 10 - i,
        {
            path.push(GridCell { x: i, y: i });
            i = i + 1;
        }
        assert(path@ =~= Seq::new(10, |i: int| GridCell { x: i as i32, y: i as i32 }));
        base.path = path;
        FreeMap { base }
    }
}

/// The static-maze map: the walls, endpoints and path are pre-authored;
/// placement only checks that the target cell is free and never triggers a
/// search, and the cached path never changes.
pub struct SimpleMap {
    pub base: BaseMap,
}

impl SimpleMap {
    /// Validity of the underlying grid.
    pub open spec fn wf(&self) -> bool {
        self.base.wf()
    }

    /// Marks `pos` blocked when it is free; no connectivity check and no
    /// path recomputation, since the maze path is fixed.
    pub fn place_tower(&mut self, pos: &GridCell) -> (r: bool)
        requires
            old(self).wf(),
        ensures
            final(self).wf(),
            r == free_at(old(self).base.cells@, pos.x as int, pos.y as int),
            r ==> final(self).base.cells@ == block_cell(old(self).base.cells@, *pos),
            !r ==> *final(self) == *old(self),
            final(self).base.start == old(self).base.start,
            final(self).base.end == old(self).base.end,
            final(self).base.path == old(self).base.path,
    {
        self.base.place_tower(pos)
    }

    /// Placement is possible on any free cell of the maze.
    pub fn is_turret_possible(&self, pos: &GridCell) -> (r: bool)
        requires
            self.wf(),
        ensures
            r == free_at(self.base.cells@, pos.x as int, pos.y as int),
    {
        self.base.is_empty(pos)
    }

    /// Clears the cell at `pos`.
    pub fn remove_tower(&mut self, pos: &GridCell)
        requires
            old(self).wf(),
            in_bounds(pos.x as int, pos.y as int),
        ensures
            final(self).wf(),
            final(self).base.cells@ == old(self).base.cells@.update(
                cell_index(pos.x as int, pos.y as int),
                0u8,
            ),
            final(self).base.start == old(self).base.start,
            final(self).base.end == old(self).base.end,
            final(self).base.path == old(self).base.path,
    {
        self.base.remove_tower(pos);
    }

    /// The fixed, pre-authored path of the maze.
    pub fn get_path(&self) -> (r: &Vec<GridCell>)
        ensures
            r == &self.base.path,
    {
        &self.base.path
    }

    /// The start cell of the maze.
    pub fn get_start(&self) -> (r: GridCell)
        ensures
            r == self.base.start,
    {
        self.base.start
    }

    /// The end cell of the maze.
    pub fn get_end(&self) -> (r: GridCell)
        ensures
            r == self.base.end,
    {
        self.base.end
    }
}

impl GridMap for SimpleMap {
    open spec fn grid(&self) -> Seq<u8> {
        self.base.cells@
    }

    open spec fn start_spec(&self) -> GridCell {
        self.base.start
    }

    open spec fn end_spec(&self) -> GridCell {
        self.base.end
    }

    open spec fn path_view(&self) -> Seq<GridCell> {
        self.base.path@
    }

    open spec fn inv(&self) -> bool {
        self.wf()
    }

    /// The maze accepts a turret on any free cell; its path is fixed, so
    /// no connectivity check is needed.
    open spec fn placement_valid(&self, pos: GridCell) -> bool {
        free_at(self.base.cells@, pos.x as int, pos.y as int)
    }

    fn place_tower(&mut self, pos: &GridCell) -> (r: bool) {
        SimpleMap::place_tower(self, pos)
    }

    fn remove_tower(&mut self, pos: &GridCell) {
        SimpleMap::remove_tower(self, pos)
    }

    fn is_turret_possible(&self, pos: &GridCell) -> (r: bool) {
        SimpleMap::is_turret_possible(self, pos)
    }

    fn get_path(&self) -> (r: &Vec<GridCell>) {
        SimpleMap::get_path(self)
    }

    fn get_start(&self) -> (r: GridCell) {
        SimpleMap::get_start(self)
    }

    fn get_end(&self) -> (r: GridCell) {
        SimpleMap::get_end(self)
    }
}

/// The wall layout of the pre-authored maze, row by row.
pub open spec fn simple_maze_cells() -> Seq<u8> {
    seq![
        0u8, 1, 0, 0, 0, 0, 0, 0, 0, 0,
        0, 1, 0, 1, 1, 1, 1, 1, 1, 0,
        0, 1, 0, 1, 0, 0, 0, 0, 1, 0,
        0, 1, 0, 1, 1, 1, 1, 0, 1, 0,
        0, 1, 0, 0, 0, 0, 1, 0, 1, 0,
        0, 1, 0, 0, 0, 0, 1, 0, 1, 0,
        0, 1, 0, 1, 1, 1, 1, 0, 1, 0,
        0, 1, 0, 0, 0, 0, 0, 0, 1, 0,
        0, 1, 1, 1, 1, 1, 1, 1, 1, 0,
        0, 0, 0, 0, 0, 0, 0, 0, 0, 0,
    ]
}

/// The corner cells of the pre-authored maze path, start to end.
pub open spec fn simple_maze_path() -> Seq<GridCell> {
    seq![
        GridCell { x: 0, y: 1 },
        GridCell { x: 8, y: 1 },
        GridCell { x: 8, y: 8 },
        GridCell { x: 1, y: 8 },
        GridCell { x: 1, y: 3 },
        GridCell { x: 3, y: 3 },
        GridCell { x: 3, y: 6 },
        GridCell { x: 6, y: 6 },
        GridCell { x: 6, y: 3 },
    ]
}

impl Default for SimpleMap {
    /// The pre-authored maze with its fixed path.
    fn default() -> (r: SimpleMap)
        ensures
            r.wf(),
            r.base.cells@ == simple_maze_cells(),
            r.base.start == (GridCell { x: 0, y: 1 }),
            r.base.end == (GridCell { x: 6, y: 3 }),
            r.base.path@ == simple_maze_path(),
    {
        let cells: Vec<u8> = vec![
            0u8, 1, 0, 0, 0, 0, 0, 0, 0, 0,
            0, 1, 0, 1, 1, 1, 1, 1, 1, 0,
            0, 1, 0, 1, 0, 0, 0, 0, 1, 0,
            0, 1, 0, 1, 1, 1, 1, 0, 1, 0,
            0, 1, 0, 0, 0, 0, 1, 0, 1, 0,
            0, 1, 0, 0, 0, 0, 1, 0, 1, 0,
            0, 1, 0, 1, 1, 1, 1, 0, 1, 0,
            0, 1, 0, 0, 0, 0, 0, 0, 1, 0,
            0, 1, 1, 1, 1, 1, 1, 1, 1, 0,
            0, 0, 0, 0, 0, 0, 0, 0, 0, 0,
        ];
        let path: Vec<GridCell> = vec![
            GridCell { x: 0, y: 1 },
            GridCell { x: 8, y: 1 },
            GridCell { x: 8, y: 8 },
            GridCell { x: 1, y: 8 },
            GridCell { x: 1, y: 3 },
            GridCell { x: 3, y: 3 },
            GridCell { x: 3, y: 6 },
            GridCell { x: 6, y: 6 },
            GridCell { x: 6, y: 3 },
        ];
        assert(cells@ =~= simple_maze_cells());
        assert(path@ =~= simple_maze_path());
        SimpleMap {
            base: BaseMap { cells, start: GridCell { x: 0, y: 1 }, end: GridCell { x: 6, y: 3 }, path },
        }
    }
}

impl Default for BaseMap {
    /// An empty board with the default endpoints and no cached path.
    fn default() -> (r: BaseMap)
        ensures
            r.wf(),
            r.cells@ == Seq::<u8>::new((GRID_WIDTH * GRID_HEIGHT) as nat, |i: int| 0u8),
            r.start == (GridCell { x: 0, y: 0 }),
            r.end == (GridCell { x: 9, y: 9 }),
            r.path@ == Seq::<GridCell>::empty(),
    {
        BaseMap::new()
    }
}

} // verus!
