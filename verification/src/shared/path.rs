use vstd::prelude::*;

verus! {

/// A route over the grid: the cells to pass, in order, and the index of the
/// last cell that the server has resolved.
#[derive(Debug, Clone)]
pub struct Path {
    pub tile_ids: Vec<u32>,
    pub valid_until: u32,
}

/// The mathematical content of a [`Path`].
pub ghost struct PathModel {
    pub tiles: Seq<u32>,
    pub cursor: u32,
}

impl View for Path {
    type V = PathModel;

    open spec fn view(&self) -> PathModel {
        PathModel { tiles: self.tile_ids@, cursor: self.valid_until }
    }
}

/// The distance between two numbers.
pub open spec fn span(a: int, b: int) -> int {
    if a >= b {
        a - b
    } else {
        b - a
    }
}

/// Cells `a` and `b` share an edge on a grid `width` wide: one step apart in
/// a row or in a column, not both.
pub open spec fn adjacent(a: int, b: int, width: int) -> bool {
    ||| span(a % width, b % width) == 1 && a / width == b / width
    ||| a % width == b % width && span(a / width, b / width) == 1
}

/// A route that can be walked on a grid of `width` by `height`: it has a
/// cell, every cell lies on the grid, and each cell shares an edge with the
/// next.
pub open spec fn valid_route(tiles: Seq<u32>, width: int, height: int) -> bool {
    &&& tiles.len() > 0
    &&& forall|k: int| 0 <= k < tiles.len() ==> (#[trigger] tiles[k]) < width * height
    &&& forall|k: int|
        0 <= k < tiles.len() - 1 ==> adjacent(#[trigger] tiles[k] as int, tiles[k + 1] as int, width)
}

/// Computes [`span`].
pub fn span_of(a: usize, b: usize) -> (s: usize)
    ensures
        s == span(a as int, b as int),
{
    if a >= b {
        a - b
    } else {
        b - a
    }
}

impl Path {
    /// A path over `tile_ids` of which nothing is resolved yet.
    pub fn new(tile_ids: Vec<u32>) -> (path: Path)
        ensures
            path@ == (PathModel { tiles: tile_ids@, cursor: 0 }),
    {
        Path { tile_ids, valid_until: 0 }
    }

    /// Drops the first `n` cells of the route, or all of them where it has
    /// fewer.
    pub fn remove_front(&mut self, n: usize)
        ensures
            final(self)@.cursor == old(self)@.cursor,
            n <= old(self)@.tiles.len() ==> final(self)@.tiles == old(self)@.tiles.skip(n as int),
            n > old(self)@.tiles.len() ==> final(self)@.tiles == Seq::<u32>::empty(),
    {
        let len = self.tile_ids.len();
        let cut = if n < len {
            n
        } else {
            len
        };
        let rest = self.tile_ids.split_off(cut);
        self.tile_ids = rest;
        proof {
            assert(old(self)@.tiles.skip(len as int) =~= Seq::<u32>::empty());
            assert(old(self)@.tiles.subrange(cut as int, len as int) =~= old(self)@.tiles.skip(
                cut as int,
            ));
        }
    }

    /// Whether the route is a [`valid_route`] on a grid of `width` by
    /// `height`.
    pub fn is_valid(&self, width: usize, height: usize) -> (ok: bool)
        ensures
            ok == valid_route(self@.tiles, width as int, height as int),
    {
        let len = self.tile_ids.len();
        if len == 0 {
            return false;
        }
        assert(width * height <= 0xFFFF_FFFF_FFFF_FFFF * 0xFFFF_FFFF_FFFF_FFFF) by (nonlinear_arith)
            requires
                width <= 0xFFFF_FFFF_FFFF_FFFF,
                height <= 0xFFFF_FFFF_FFFF_FFFF,
        ;
        let max_id: u128 = (width as u128) * (height as u128);
        let mut i: usize = 0;
        while i < len
            invariant
                i <= len,
                len == self.tile_ids.len(),
                max_id == width * height,
                forall|k: int| 0 <= k < i ==> (#[trigger] self.tile_ids@[k]) < width * height,
            decreases len - i,
        {
            if self.tile_ids[i] as u128 >= max_id {
                return false;
            }
            i += 1;
        }
        assert(width > 0) by (nonlinear_arith)
            requires
                self.tile_ids@[0] < width * height,
        ;
        let mut k: usize = 0;
        while k + 1 < len
            invariant
                k < len,
                len == self.tile_ids.len(),
                width > 0,
                forall|m: int|
                    0 <= m < k ==> adjacent(
                        #[trigger] self.tile_ids@[m] as int,
                        self.tile_ids@[m + 1] as int,
                        width as int,
                    ),
            decreases len - k,
        {
            let current = self.tile_ids[k] as usize;
            let next = self.tile_ids[k + 1] as usize;
            let x_diff = span_of(next % width, current % width);
            let y_diff = span_of(next / width, current / width);
            if !((x_diff == 1 && y_diff == 0) || (x_diff == 0 && y_diff == 1)) {
                assert(!adjacent(
                    self.tile_ids@[k as int] as int,
                    self.tile_ids@[k + 1] as int,
                    width as int,
                ));
                return false;
            }
            k += 1;
        }
        true
    }
}

} // verus!
