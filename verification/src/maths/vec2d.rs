use vstd::prelude::*;

verus! {

/// A point could not be written because it lies outside the grid.
#[derive(Debug, Clone, Copy, PartialEq, Eq, Structural)]
pub struct IndexOutOfBoundsError;

/// Why a rectangle of cells could not be filled.
#[derive(Debug, Clone, Copy, PartialEq, Eq, Structural)]
pub enum FillError {
    /// The rectangle has no cell.
    EmptyRect,
    /// A cell of the rectangle lies outside the grid.
    OutOfBounds,
}

/// An axis-aligned rectangle of grid cells: its top-left cell and its size.
#[derive(Debug, Clone, Copy, PartialEq, Eq, Structural)]
pub struct GridRect {
    pub x: u64,
    pub y: u64,
    pub w: u64,
    pub h: u64,
}

impl GridRect {
    pub fn new(x: u64, y: u64, w: u64, h: u64) -> (r: GridRect)
        ensures
            r == (GridRect { x, y, w, h }),
    {
        GridRect { x, y, w, h }
    }
}

/// Offset of the cell `(x, y)` in a row-major grid `width` cells wide.
pub open spec fn cell_offset(width: int, pt: (u64, u64)) -> int {
    pt.1 * width + pt.0
}

/// Last coordinate covered by a span of `len` cells that starts at `from`;
/// an empty span starting at 0 ends at 0, as a cast to an unsigned integer
/// saturates there.
pub open spec fn span_end(from: u64, len: u64) -> int {
    if from + len >= 1 {
        from + len - 1
    } else {
        0
    }
}

/// The first cell, the last cell and the next cell of a fresh iteration
/// over `rect`.
pub open spec fn walk(rect: GridRect) -> ((u64, u64), (u64, u64), (u64, u64)) {
    ((rect.x, rect.y), (span_end(rect.x, rect.w) as u64, span_end(rect.y, rect.h) as u64), (rect.x, rect.y))
}

/// The points that an iteration visits from `(cx, cy)` on, walking each
/// row from left to right up to `ex`, then going on at column `sx` of the
/// next row, until it is past row `ey`.
pub open spec fn trail(sx: int, ex: int, ey: int, cx: int, cy: int) -> Seq<(int, int)>
    decreases
            (if cy <= ey { ey - cy + 1 } else { 0 }),
            (if cx < ex { ex - cx } else { 0 }),
{
    if cy > ey {
        Seq::empty()
    } else if cx < ex {
        seq![(cx, cy)] + trail(sx, ex, ey, cx + 1, cy)
    } else {
        seq![(cx, cy)] + trail(sx, ex, ey, sx, cy + 1)
    }
}

proof fn lemma_trail_bounds(sx: int, ex: int, ey: int, cx: int, cy: int)
    requires
        sx <= cx <= ex,
    ensures
        forall|k: int|
            0 <= k < trail(sx, ex, ey, cx, cy).len() ==> {
                let p = #[trigger] trail(sx, ex, ey, cx, cy)[k];
                &&& sx <= p.0 <= ex
                &&& cy <= p.1 <= ey
            },
    decreases
            (if cy <= ey { ey - cy + 1 } else { 0 }),
            (if cx < ex { ex - cx } else { 0 }),
{
    if cy > ey {
    } else if cx < ex {
        lemma_trail_bounds(sx, ex, ey, cx + 1, cy);
        let rest = trail(sx, ex, ey, cx + 1, cy);
        assert forall|k: int| 1 <= k < trail(sx, ex, ey, cx, cy).len() implies #[trigger] trail(sx, ex, ey, cx, cy)[k]
            == rest[k - 1] by {}
    } else {
        lemma_trail_bounds(sx, ex, ey, sx, cy + 1);
        let rest = trail(sx, ex, ey, sx, cy + 1);
        assert forall|k: int| 1 <= k < trail(sx, ex, ey, cx, cy).len() implies #[trigger] trail(sx, ex, ey, cx, cy)[k]
            == rest[k - 1] by {}
    }
}

proof fn lemma_trail_len(sx: int, ex: int, ey: int, cx: int, cy: int)
    requires
        sx <= cx <= ex,
        cy <= ey + 1,
    ensures
        trail(sx, ex, ey, cx, cy).len() == if cy <= ey {
            (ex - cx + 1) + (ey - cy) * (ex - sx + 1)
        } else {
            0
        },
    decreases
            (if cy <= ey { ey - cy + 1 } else { 0 }),
            (if cx < ex { ex - cx } else { 0 }),
{
    if cy > ey {
    } else if cx < ex {
        lemma_trail_len(sx, ex, ey, cx + 1, cy);
    } else {
        lemma_trail_len(sx, ex, ey, sx, cy + 1);
        if cy + 1 <= ey {
            assert((ey - cy) * (ex - sx + 1) == (ex - sx + 1) + (ey - (cy + 1)) * (ex - sx + 1))
                by (nonlinear_arith);
        } else {
            assert((ey - cy) * (ex - sx + 1) == 0) by (nonlinear_arith)
                requires
                    cy == ey,
            ;
        }
    }
}

/// The cells of `rect`, in the order in which an iteration visits them.
pub open spec fn rect_points(rect: GridRect) -> Seq<(int, int)> {
    let w = walk(rect);
    trail(w.0.0 as int, w.1.0 as int, w.1.1 as int, w.2.0 as int, w.2.1 as int)
}

/// Where the first point of `pts` outside a grid of `width` by `height`
/// cells stands; the length of `pts` if there is none.
pub open spec fn first_outside(pts: Seq<(int, int)>, width: int, height: int) -> int
    decreases pts.len(),
{
    if pts.len() == 0 {
        0
    } else if !(0 <= pts[0].0 < width && 0 <= pts[0].1 < height) {
        0
    } else {
        1 + first_outside(pts.drop_first(), width, height)
    }
}

/// The point `q` is among the first `n` points of `pts`.
pub open spec fn among(pts: Seq<(int, int)>, n: int, q: (u64, u64)) -> bool {
    exists|j: int| 0 <= j < n && #[trigger] pts[j] == (q.0 as int, q.1 as int)
}

proof fn lemma_first_outside(pts: Seq<(int, int)>, width: int, height: int)
    ensures
        0 <= first_outside(pts, width, height) <= pts.len(),
        forall|j: int|
            0 <= j < first_outside(pts, width, height) ==> {
                let p = #[trigger] pts[j];
                0 <= p.0 < width && 0 <= p.1 < height
            },
        first_outside(pts, width, height) < pts.len() ==> {
            let p = pts[first_outside(pts, width, height)];
            !(0 <= p.0 < width && 0 <= p.1 < height)
        },
    decreases pts.len(),
{
    if pts.len() > 0 && 0 <= pts[0].0 < width && 0 <= pts[0].1 < height {
        lemma_first_outside(pts.drop_first(), width, height);
        assert forall|j: int| 1 <= j < pts.len() implies #[trigger] pts[j] == pts.drop_first()[j - 1] by {}
    }
}

/// Walks the cells of a rectangle row by row. It holds the first cell, the
/// last cell and the cell it gives next.
#[derive(Debug, Clone, Copy, PartialEq, Eq, Structural)]
pub struct Vec2DIterator {
    start_x: u64,
    start_y: u64,
    end_x: u64,
    end_y: u64,
    current_x: u64,
    current_y: u64,
}

impl View for Vec2DIterator {
    /// The first cell, the last cell and the next cell.
    type V = ((u64, u64), (u64, u64), (u64, u64));

    closed spec fn view(&self) -> Self::V {
        ((self.start_x, self.start_y), (self.end_x, self.end_y), (self.current_x, self.current_y))
    }
}

impl Vec2DIterator {
    /// The last row is not the last `u64`, so that going past it is possible.
    pub open spec fn wf(&self) -> bool {
        self@.1.1 < u64::MAX
    }

    /// The points still to come, in order.
    pub open spec fn pending(&self) -> Seq<(int, int)> {
        trail(self@.0.0 as int, self@.1.0 as int, self@.1.1 as int, self@.2.0 as int, self@.2.1 as int)
    }

    /// An iteration over the cells from `topleft` to `botright`.
    pub fn new(topleft: (u64, u64), botright: (u64, u64)) -> (r: Vec2DIterator)
        requires
            botright.1 < u64::MAX,
        ensures
            r@ == (topleft, botright, topleft),
            r.wf(),
    {
        Vec2DIterator {
            start_x: topleft.0,
            start_y: topleft.1,
            end_x: botright.0,
            end_y: botright.1,
            current_x: topleft.0,
            current_y: topleft.1,
        }
    }

    /// The next cell, if any is left.
    pub fn next(&mut self) -> (r: Option<(u64, u64)>)
        requires
            old(self).wf(),
        ensures
            final(self).wf(),
            final(self)@.0 == old(self)@.0,
            final(self)@.1 == old(self)@.1,
            old(self).pending().len() == 0 ==> r is None && final(self).pending().len() == 0,
            old(self).pending().len() > 0 ==> (r matches Some(p) && (p.0 as int, p.1 as int)
                == old(self).pending()[0] && final(self).pending() == old(self).pending().drop_first()),
    {
        if self.current_y > self.end_y {
            return None;
        }
        let current = (self.current_x, self.current_y);
        if self.current_x < self.end_x {
            self.current_x = self.current_x + 1;
        } else {
            self.current_x = self.start_x;
            self.current_y = self.current_y + 1;
        }
        proof {
            let old_pending = old(self).pending();
            assert(old_pending == seq![(current.0 as int, current.1 as int)] + self.pending());
            assert(old_pending.drop_first() =~= self.pending());
        }
        Some(current)
    }
}

/// A grid of `width * height` cells stored row after row.
#[derive(Debug)]
pub struct Vec2D<T> {
    elems: Vec<T>,
    width: u64,
    height: u64,
}

proof fn lemma_offset_inside(w: int, h: int, x: int, y: int)
    by (nonlinear_arith)
    requires
        0 <= x < w,
        0 <= y < h,
    ensures
        0 <= y * w + x < w * h,
{
    assert(y * w + x < (y + 1) * w);
    assert((y + 1) * w <= h * w);
}

proof fn lemma_offset_injective(w: int, x1: int, y1: int, x2: int, y2: int)
    by (nonlinear_arith)
    requires
        0 <= x1 < w,
        0 <= x2 < w,
        0 <= y1,
        0 <= y2,
        y1 * w + x1 == y2 * w + x2,
    ensures
        x1 == x2 && y1 == y2,
{
    if y1 < y2 {
        assert(y1 * w + x1 < (y1 + 1) * w);
        assert((y1 + 1) * w <= y2 * w);
    } else if y2 < y1 {
        assert(y2 * w + x2 < (y2 + 1) * w);
        assert((y2 + 1) * w <= y1 * w);
    }
}

impl<T> Vec2D<T> {
    /// The cells, row after row.
    pub closed spec fn cells(&self) -> Seq<T> {
        self.elems@
    }

    pub closed spec fn width(&self) -> nat {
        self.width as nat
    }

    pub closed spec fn height(&self) -> nat {
        self.height as nat
    }

    /// There is one cell for each point of the grid, and a `usize` counts
    /// them.
    pub open spec fn wf(&self) -> bool {
        &&& self.cells().len() == self.width() * self.height()
        &&& self.cells().len() <= usize::MAX
    }

    /// The point `pt` lies inside the grid.
    pub open spec fn holds(&self, pt: (u64, u64)) -> bool {
        pt.0 < self.width() && pt.1 < self.height()
    }

    /// The cell at `pt`.
    pub open spec fn at(&self, pt: (u64, u64)) -> T {
        self.cells()[cell_offset(self.width() as int, pt)]
    }

    /// A grid of `size.0` columns and `size.1` rows, each cell a clone of
    /// `elem`.
    pub fn new_from_element(elem: T, size: (u64, u64)) -> (r: Vec2D<T>)
        where
            T: Clone,
        requires
            size.0 * size.1 <= usize::MAX,
        ensures
            r.wf(),
            r.width() == size.0,
            r.height() == size.1,
            forall|i: int| 0 <= i < r.cells().len() ==> cloned(elem, #[trigger] r.cells()[i]),
    {
        let n: u64 = size.0 * size.1;
        let elems = vec![elem; n as usize];
        Vec2D { elems, width: size.0, height: size.1 }
    }

    /// The grid with no cell.
    pub fn new_empty() -> (r: Vec2D<T>)
        ensures
            r.wf(),
            r.width() == 0,
            r.height() == 0,
            r.cells().len() == 0,
    {
        Vec2D { elems: Vec::new(), width: 0, height: 0 }
    }

    /// The grid of `size.0` columns and `size.1` rows whose cells are
    /// `base`, row after row; `None` if `base` does not have that many cells.
    pub fn new_from_vec(base: Vec<T>, size: (u64, u64)) -> (r: Option<Vec2D<T>>)
        ensures
            r is Some <==> size.0 * size.1 == base@.len(),
            r matches Some(v) ==> v.wf() && v.cells() == base@ && v.width() == size.0
                && v.height() == size.1,
    {
        let len = base.len();
        match size.0.checked_mul(size.1) {
            Some(n) => {
                if n == len as u64 {
                    Some(Vec2D { elems: base, width: size.0, height: size.1 })
                } else {
                    None
                }
            },
            None => None,
        }
    }

    /// The cells, row after row.
    pub fn elems(&self) -> (r: &Vec<T>)
        ensures
            r@ == self.cells(),
    {
        &self.elems
    }

    /// The number of columns and of rows.
    pub fn size(&self) -> (r: (u64, u64))
        ensures
            r.0 == self.width(),
            r.1 == self.height(),
    {
        (self.width, self.height)
    }

    /// Where the cell at `pt` is stored.
    pub fn index_from_point(&self, pt: (u64, u64)) -> (r: u64)
        requires
            cell_offset(self.width() as int, pt) <= u64::MAX,
        ensures
            r == cell_offset(self.width() as int, pt),
    {
        pt.1 * self.width + pt.0
    }

    /// Whether `pt` lies inside the grid.
    pub fn contains_point(&self, pt: (u64, u64)) -> (r: bool)
        ensures
            r == self.holds(pt),
    {
        pt.0 < self.width && pt.1 < self.height
    }

    /// The cell at `pt`, if `pt` lies inside the grid.
    pub fn get(&self, pt: (u64, u64)) -> (r: Option<&T>)
        requires
            self.wf(),
        ensures
            self.holds(pt) ==> r == Some(&self.at(pt)),
            !self.holds(pt) ==> r is None,
    {
        if self.contains_point(pt) {
            proof {
                lemma_offset_inside(self.width() as int, self.height() as int, pt.0 as int, pt.1 as int);
                assert(cell_offset(self.width() as int, pt) < self.elems@.len());
            }
            let index = self.index_from_point(pt);
            Some(&self.elems[index as usize])
        } else {
            None
        }
    }

    /// A way to change the cell at `pt` in place, if `pt` lies inside the
    /// grid.
    pub fn get_mut(&mut self, pt: (u64, u64)) -> (r: Option<&mut T>)
        requires
            old(self).wf(),
        ensures
            old(self).holds(pt) ==> (r matches Some(c) && *c == old(self).at(pt)
                && final(self).width() == old(self).width()
                && final(self).height() == old(self).height()
                && final(self).cells() == old(self).cells().update(
                cell_offset(old(self).width() as int, pt),
                *final(c),
            )),
            !old(self).holds(pt) ==> r is None && *final(self) == *old(self),
    {
        if self.contains_point(pt) {
            proof {
                lemma_offset_inside(self.width() as int, self.height() as int, pt.0 as int, pt.1 as int);
                assert(cell_offset(self.width() as int, pt) < self.elems@.len());
            }
            let index = self.index_from_point(pt);
            Some(&mut self.elems[index as usize])
        } else {
            None
        }
    }

    /// Writes `elem` at `pt` and gives back the cell it replaced; fails,
    /// changing nothing, if `pt` lies outside the grid.
    pub fn set(&mut self, pt: (u64, u64), elem: T) -> (r: Result<T, IndexOutOfBoundsError>)
        requires
            old(self).wf(),
        ensures
            final(self).wf(),
            final(self).width() == old(self).width(),
            final(self).height() == old(self).height(),
            old(self).holds(pt) ==> r == Ok::<T, IndexOutOfBoundsError>(old(self).at(pt))
                && final(self).at(pt) == elem
                && final(self).cells() == old(self).cells().update(
                cell_offset(old(self).width() as int, pt),
                elem,
            ),
            old(self).holds(pt) ==> forall|q: (u64, u64)|
                #![trigger final(self).at(q)]
                final(self).holds(q) && q != pt ==> final(self).at(q) == old(self).at(q),
            !old(self).holds(pt) ==> r == Err::<T, IndexOutOfBoundsError>(IndexOutOfBoundsError)
                && final(self).cells() == old(self).cells(),
    {
        if self.contains_point(pt) {
            proof {
                lemma_offset_inside(self.width() as int, self.height() as int, pt.0 as int, pt.1 as int);
                assert(cell_offset(self.width() as int, pt) < self.elems@.len());
            }
            let index = self.index_from_point(pt);
            let mut replaced = elem;
            self.elems.set_and_swap(index as usize, &mut replaced);
            proof {
                let w = self.width() as int;
                assert forall|q: (u64, u64)|
                    #![trigger self.at(q)]
                    self.holds(q) && q != pt implies self.at(q) == old(self).at(q) by {
                    if cell_offset(w, q) == cell_offset(w, pt) {
                        lemma_offset_injective(w, q.0 as int, q.1 as int, pt.0 as int, pt.1 as int);
                        assert(q == pt);
                    }
                    lemma_offset_inside(w, self.height() as int, q.0 as int, q.1 as int);
                    assert(self.cells()[cell_offset(w, q)] == old(self).cells()[cell_offset(w, q)]);
                }
            }
            Ok(replaced)
        } else {
            Err(IndexOutOfBoundsError)
        }
    }

    /// Writes a clone of `elem` in each cell of `rect`, in iteration order.
    /// A rectangle with no cell is refused. A cell outside the grid stops
    /// the filling with an error, the cells before it being written, unless
    /// `ignore_errors` is set, in which case it is skipped.
    pub fn set_rect_from_elem(&mut self, rect: GridRect, elem: T, ignore_errors: bool) -> (r: Result<(), FillError>)
        where
            T: Clone,
        requires
            old(self).wf(),
            rect.x + rect.w <= u64::MAX,
            rect.y + rect.h < u64::MAX,
        ensures
            final(self).wf(),
            final(self).width() == old(self).width(),
            final(self).height() == old(self).height(),
            rect.w == 0 || rect.h == 0 ==> r == Err::<(), FillError>(FillError::EmptyRect)
                && final(self).cells() == old(self).cells(),
            rect.w >= 1 && rect.h >= 1 ==> {
                let pts = rect_points(rect);
                let n = if ignore_errors {
                    pts.len() as int
                } else {
                    first_outside(pts, old(self).width() as int, old(self).height() as int)
                };
                &&& (r is Ok <==> n == pts.len())
                &&& r is Err ==> r == Err::<(), FillError>(FillError::OutOfBounds)
                &&& forall|q: (u64, u64)|
                    #![trigger final(self).at(q)]
                    final(self).holds(q) ==> if among(pts, n, q) {
                        cloned(elem, final(self).at(q))
                    } else {
                        final(self).at(q) == old(self).at(q)
                    }
            },
    {
        if rect.w == 0 || rect.h == 0 {
            return Err(FillError::EmptyRect);
        }
        let mut it = self.rect_iter(rect);
        let ghost pts = it.pending();
        let ghost n = if ignore_errors {
            pts.len() as int
        } else {
            first_outside(pts, self.width() as int, self.height() as int)
        };
        let ghost mut k: int = 0;
        proof {
            lemma_first_outside(pts, self.width() as int, self.height() as int);
            assert(pts == rect_points(rect));
            assert(pts.subrange(0, pts.len() as int) =~= pts);
        }
        loop
            invariant
                self.wf(),
                self.width() == old(self).width(),
                self.height() == old(self).height(),
                it.wf(),
                rect.w >= 1 && rect.h >= 1,
                pts == rect_points(rect),
                n == (if ignore_errors {
                    pts.len() as int
                } else {
                    first_outside(pts, old(self).width() as int, old(self).height() as int)
                }),
                0 <= n <= pts.len(),
                forall|j: int|
                    0 <= j < first_outside(pts, old(self).width() as int, old(self).height() as int) ==> {
                        let p = #[trigger] pts[j];
                        0 <= p.0 < old(self).width() && 0 <= p.1 < old(self).height()
                    },
                first_outside(pts, old(self).width() as int, old(self).height() as int) < pts.len() ==> {
                    let p = pts[first_outside(pts, old(self).width() as int, old(self).height() as int)];
                    !(0 <= p.0 < old(self).width() && 0 <= p.1 < old(self).height())
                },
                0 <= k <= n,
                it.pending() == pts.subrange(k, pts.len() as int),
                forall|q: (u64, u64)|
                    #![trigger self.at(q)]
                    self.holds(q) ==> if among(pts, k, q) {
                        cloned(elem, self.at(q))
                    } else {
                        self.at(q) == old(self).at(q)
                    },
            decreases it.pending().len(),
        {
            let step = it.next();
            match step {
                None => {
                    return Ok(());
                },
                Some(pt) => {
                    let value = elem.clone();
                    let ghost before = *self;
                    proof {
                        assert(pts[k] == (pt.0 as int, pt.1 as int));
                    }
                    let written = self.set(pt, value);
                    if written.is_err() && !ignore_errors {
                        proof {
                            assert(!before.holds(pt));
                            assert(k == n);
                            assert forall|q: (u64, u64)| #![trigger self.at(q)] self.holds(q) implies self.at(q)
                                == before.at(q) by {}
                        }
                        return Err(FillError::OutOfBounds);
                    }
                    proof {
                        assert forall|q: (u64, u64)|
                            #![trigger self.at(q)]
                            self.holds(q) implies if among(pts, k + 1, q) {
                                cloned(elem, self.at(q))
                            } else {
                                self.at(q) == old(self).at(q)
                            } by {
                            assert(before.holds(q));
                            if q == pt {
                                assert(among(pts, k + 1, q));
                                assert(self.at(q) == value);
                                assert(cloned(elem, value));
                            } else {
                                if written.is_ok() {
                                    assert(self.at(q) == before.at(q));
                                } else {
                                    assert(self.cells() == before.cells());
                                }
                                if among(pts, k + 1, q) {
                                    let j = choose|j: int| 0 <= j < k + 1 && #[trigger] pts[j] == (q.0 as int, q.1 as int);
                                    assert(j != k);
                                    assert(among(pts, k, q));
                                    assert(cloned(elem, before.at(q)));
                                    assert(cloned(elem, self.at(q)));
                                } else {
                                    assert(!among(pts, k, q));
                                    assert(before.at(q) == old(self).at(q));
                                    assert(self.at(q) == old(self).at(q));
                                }
                            }
                        }
                        k = k + 1;
                        assert(it.pending() =~= pts.subrange(k, pts.len() as int));
                    }
                },
            }
        }
    }

    /// An iteration over every cell of the grid.
    pub fn iter(&self) -> (r: Vec2DIterator)
        requires
            self.height() < u64::MAX,
        ensures
            r.wf(),
            r@ == walk(GridRect { x: 0, y: 0, w: self.width() as u64, h: self.height() as u64 }),
    {
        self.rect_iter(GridRect { x: 0, y: 0, w: self.width, h: self.height })
    }

    /// An iteration over the cells of `rect`, whether they lie inside the
    /// grid or not.
    pub fn rect_iter(&self, rect: GridRect) -> (r: Vec2DIterator)
        requires
            rect.x + rect.w <= u64::MAX,
            rect.y + rect.h < u64::MAX,
        ensures
            r.wf(),
            r@ == walk(rect),
    {
        let ex: u64 = if rect.x + rect.w >= 1 { rect.x + rect.w - 1 } else { 0 };
        let ey: u64 = if rect.y + rect.h >= 1 { rect.y + rect.h - 1 } else { 0 };
        Vec2DIterator::new((rect.x, rect.y), (ex, ey))
    }

    /// The part of `rect` that lies inside the grid.
    pub open spec fn clamp(&self, rect: GridRect) -> GridRect {
        let x = if rect.x < self.width() { rect.x } else { self.width() as u64 };
        let y = if rect.y < self.height() { rect.y } else { self.height() as u64 };
        let w = if rect.w < self.width() - x { rect.w } else { (self.width() - x) as u64 };
        let h = if rect.h < self.height() - y { rect.h } else { (self.height() - y) as u64 };
        GridRect { x, y, w, h }
    }

    /// An iteration over the cells of `rect` cut down to the grid.
    pub fn rect_iter_clamped(&self, rect: GridRect) -> (r: Vec2DIterator)
        requires
            self.height() < u64::MAX,
        ensures
            r.wf(),
            r@ == walk(self.clamp(rect)),
    {
        let x = if rect.x < self.width { rect.x } else { self.width };
        let y = if rect.y < self.height { rect.y } else { self.height };
        let w = if rect.w < self.width - x { rect.w } else { self.width - x };
        let h = if rect.h < self.height - y { rect.h } else { self.height - y };
        self.rect_iter(GridRect { x, y, w, h })
    }
}

/// Iterating over a grid that has cells visits `width * height` points,
/// each of them inside the grid.
pub proof fn lemma_iter_stays_inside<T>(v: &Vec2D<T>, it: Vec2DIterator)
    requires
        v.wf(),
        v.width() >= 1,
        v.height() >= 1,
        it@ == walk(GridRect { x: 0, y: 0, w: v.width() as u64, h: v.height() as u64 }),
    ensures
        it.pending().len() == v.width() * v.height(),
        forall|k: int|
            0 <= k < it.pending().len() ==> {
                let p = #[trigger] it.pending()[k];
                &&& 0 <= p.0 < v.width()
                &&& 0 <= p.1 < v.height()
            },
{
    let w = v.width() as int;
    let h = v.height() as int;
    lemma_trail_bounds(0, w - 1, h - 1, 0, 0);
    lemma_trail_len(0, w - 1, h - 1, 0, 0);
    assert(w + (h - 1) * w == w * h) by (nonlinear_arith);
}

/// Once cut down to the grid, a rectangle whose corner lies inside the grid
/// and which has cells is iterated over without leaving the grid.
pub proof fn lemma_clamped_iter_stays_inside<T>(v: &Vec2D<T>, rect: GridRect, it: Vec2DIterator)
    requires
        v.wf(),
        v.holds((rect.x, rect.y)),
        rect.w >= 1,
        rect.h >= 1,
        it@ == walk(v.clamp(rect)),
    ensures
        it.pending().len() >= 1,
        forall|k: int|
            0 <= k < it.pending().len() ==> {
                let p = #[trigger] it.pending()[k];
                &&& rect.x <= p.0 < v.width()
                &&& rect.y <= p.1 < v.height()
            },
{
    let c = v.clamp(rect);
    lemma_trail_bounds(c.x as int, c.x + c.w - 1, c.y + c.h - 1, c.x as int, c.y as int);
    lemma_trail_len(c.x as int, c.x + c.w - 1, c.y + c.h - 1, c.x as int, c.y as int);
}

} // verus!
