//! Terrain generation: how many cells of each kind a map gets and where they
//! are put.

use vstd::prelude::*;
use vstd::arithmetic::div_mod::lemma_fundamental_div_mod_converse;
use crate::server::chance::{random_below, random_in};
use crate::server::grid::{
    cell_consistent, count_terrain, grid_consistent, lemma_count_bounded, lemma_count_update,
    lemma_count_zero, Cell, Grid,
};
use crate::shared::terrain::Terrain;

verus! {

/// Densities and the clustering factor are fractions written in parts per
/// million: `DENSITY_SCALE` stands for 1.0.
pub const DENSITY_SCALE: u32 = 1_000_000;

/// The fewest troops a new city holds.
pub const CITY_TROOPS_MIN: u32 = 30;

/// The most troops a new city holds.
pub const CITY_TROOPS_MAX: u32 = 50;

/// How a map is filled with terrain.
#[derive(Debug, Clone, Copy, PartialEq, Eq, Structural)]
pub struct TerrainConfig {
    /// Share of the map that is mountains, in parts per million.
    pub mountain_density: u32,
    /// Share of the map that is swamps, in parts per million.
    pub swamp_density: u32,
    /// Share of the map that is deserts, in parts per million.
    pub desert_density: u32,
    /// Share of the map that is cities, in parts per million.
    pub city_density: u32,
    /// How often a cell is put next to one of its kind, in parts per million.
    pub clustering_factor: u32,
    /// Width of the game map.
    pub map_width: usize,
    /// Height of the game map.
    pub map_height: usize,
}

impl Default for TerrainConfig {
    fn default() -> (config: TerrainConfig)
        ensures
            config == default_terrain_config(),
    {
        TerrainConfig {
            mountain_density: 120_000,
            swamp_density: 80_000,
            desert_density: 150_000,
            city_density: 40_000,
            clustering_factor: 700_000,
            map_width: 20,
            map_height: 20,
        }
    }
}

/// 12% mountains, 8% swamps, 15% deserts, 4% cities, strongly clustered, on
/// a map of 20 by 20.
pub open spec fn default_terrain_config() -> TerrainConfig {
    TerrainConfig {
        mountain_density: 120_000,
        swamp_density: 80_000,
        desert_density: 150_000,
        city_density: 40_000,
        clustering_factor: 700_000,
        map_width: 20,
        map_height: 20,
    }
}

/// The number of cells a density asks for on a map of `total` cells:
/// `total * density`, rounded to the nearest whole, and never more than the
/// map holds.
pub open spec fn placement_target(total: nat, density: u32) -> nat {
    let rounded = (total * density + 500_000) / 1_000_000;
    if rounded > total {
        total
    } else {
        rounded as nat
    }
}

/// What gets placed when `target` cells are asked for and `free` are left.
pub open spec fn placed_count(target: nat, free: nat) -> nat {
    if target <= free {
        target
    } else {
        free
    }
}

/// A cell as generation leaves it: nobody's, never a capital, with troops
/// only in cities.
pub open spec fn seeded_cell(cell: Cell) -> bool {
    &&& cell.owner_id is None
    &&& cell.terrain != Terrain::Capital
    &&& cell.terrain == Terrain::City ==> CITY_TROOPS_MIN <= cell.troops <= CITY_TROOPS_MAX
    &&& cell.terrain != Terrain::City ==> cell.troops == 0
}

/// The number of mountains on a generated map of `total` cells.
pub open spec fn mountains_on(total: nat, config: TerrainConfig) -> nat {
    placed_count(placement_target(total, config.mountain_density), total)
}

/// The number of deserts on a generated map of `total` cells.
pub open spec fn deserts_on(total: nat, config: TerrainConfig) -> nat {
    placed_count(
        placement_target(total, config.desert_density),
        (total - mountains_on(total, config)) as nat,
    )
}

/// The number of swamps on a generated map of `total` cells.
pub open spec fn swamps_on(total: nat, config: TerrainConfig) -> nat {
    placed_count(
        placement_target(total, config.swamp_density),
        (total - mountains_on(total, config) - deserts_on(total, config)) as nat,
    )
}

/// The number of cities on a generated map of `total` cells.
pub open spec fn cities_on(total: nat, config: TerrainConfig) -> nat {
    placed_count(
        placement_target(total, config.city_density),
        (total - mountains_on(total, config) - deserts_on(total, config) - swamps_on(
            total,
            config,
        )) as nat,
    )
}

/// What every generated map has in common: its size, the state of each
/// cell, and how many cells of each terrain it holds. Terrain is placed in
/// the order mountains, deserts, swamps, cities, each kind on what the
/// kinds before it left free.
pub open spec fn generated(cells: Seq<Cell>, width: usize, height: usize, config: TerrainConfig)
    -> bool {
    let total = cells.len();
    &&& total == width * height
    &&& forall|i: int| 0 <= i < total ==> seeded_cell(#[trigger] cells[i])
    &&& count_terrain(cells, Terrain::Mountain) == mountains_on(total, config)
    &&& count_terrain(cells, Terrain::Desert) == deserts_on(total, config)
    &&& count_terrain(cells, Terrain::Swamp) == swamps_on(total, config)
    &&& count_terrain(cells, Terrain::City) == cities_on(total, config)
}

/// On a generated map no cell belongs to anybody, so a cell without troops
/// belongs to nobody.
pub proof fn lemma_generated_is_consistent(
    cells: Seq<Cell>,
    width: usize,
    height: usize,
    config: TerrainConfig,
)
    requires
        generated(cells, width, height, config),
    ensures
        grid_consistent(cells),
        count_terrain(cells, Terrain::Capital) == 0,
{
    assert forall|i: int| 0 <= i < cells.len() implies (#[trigger] cells[i]).terrain
        != Terrain::Capital by {
        assert(seeded_cell(cells[i]));
    }
    lemma_count_zero(cells, Terrain::Capital);
    assert forall|i: int| 0 <= i < cells.len() implies cell_consistent(#[trigger] cells[i]) by {
        assert(seeded_cell(cells[i]));
    }
}

/// Computes [`placement_target`].
pub fn target_count(total: usize, density: u32) -> (target: usize)
    ensures
        target == placement_target(total as nat, density),
{
    assert(total * density <= 0xFFFF_FFFF_FFFF_FFFF * 0xFFFF_FFFF) by (nonlinear_arith)
        requires
            total <= 0xFFFF_FFFF_FFFF_FFFF,
            density <= 0xFFFF_FFFF,
    ;
    let scaled: u128 = (total as u128) * (density as u128) + 500_000;
    let rounded: u128 = scaled / 1_000_000;
    if rounded > total as u128 {
        total
    } else {
        rounded as usize
    }
}

/// Cell `j` touches cell `i` by a side or a corner on a grid `width` wide.
pub open spec fn touches(i: int, j: int, width: int) -> bool {
    &&& i != j
    &&& -1 <= (j % width) - (i % width) <= 1
    &&& -1 <= (j / width) - (i / width) <= 1
}

/// The index of the cell in column `x` of row `y` on a grid `width` wide.
pub open spec fn cell_at(x: int, y: int, width: int) -> int {
    y * width + x
}

/// The cells of the grid that touch cell `idx`: each of them once, and no
/// other cell, row by row and so with rising index.
fn neighbors_of(idx: usize, width: usize, height: usize) -> (around: Vec<usize>)
    requires
        width * height <= usize::MAX,
        idx < width * height,
    ensures
        forall|k: int|
            0 <= k < around.len() ==> (#[trigger] around[k]) < width * height && touches(
                idx as int,
                around[k] as int,
                width as int,
            ),
        forall|j: usize|
            j < width * height && touches(idx as int, j as int, width as int)
                ==> #[trigger] around@.contains(j),
        forall|k: int, m: int| 0 <= k < m < around.len() ==> around[k] < around[m],
{
    assert(width > 0) by (nonlinear_arith)
        requires
            idx < width * height,
    ;
    let x = idx % width;
    let y = idx / width;
    assert(y < height) by (nonlinear_arith)
        requires
            y == idx / width,
            idx < width * height,
            width > 0,
    ;
    let ghost w = width as int;
    let y_lo = if y > 0 {
        y - 1
    } else {
        y
    };
    let y_hi = if height - y > 1 {
        y + 1
    } else {
        y
    };
    let x_lo = if x > 0 {
        x - 1
    } else {
        x
    };
    let x_hi = if width - x > 1 {
        x + 1
    } else {
        x
    };
    let mut around: Vec<usize> = Vec::new();
    let mut ny = y_lo;
    while ny <= y_hi
        invariant
            y_lo <= ny <= y_hi + 1,
            y_hi < height,
            x_lo <= x_hi < width,
            y_lo + 1 >= y,
            y_hi <= y + 1,
            x_lo + 1 >= x,
            x_hi <= x + 1,
            x == idx % width,
            y == idx / width,
            w == width,
            width * height <= usize::MAX,
            idx < width * height,
            forall|k: int|
                0 <= k < around.len() ==> (#[trigger] around[k]) < width * height && touches(
                    idx as int,
                    around[k] as int,
                    width as int,
                ),
            forall|yy: int, xx: int|
                y_lo <= yy < ny && x_lo <= xx <= x_hi && !(xx == x && yy == y)
                    ==> around@.contains(#[trigger] cell_at(xx, yy, w) as usize),
            forall|k: int, m: int| 0 <= k < m < around.len() ==> around[k] < around[m],
            forall|k: int| 0 <= k < around.len() ==> (#[trigger] around[k]) < cell_at(
                x_lo as int,
                ny as int,
                w,
            ),
        decreases y_hi + 1 - ny,
    {
        let mut nx = x_lo;
        while nx <= x_hi
            invariant
                x_lo <= nx <= x_hi + 1,
                y_lo <= ny <= y_hi,
                y_hi < height,
                x_lo <= x_hi < width,
                y_lo + 1 >= y,
                y_hi <= y + 1,
                x_lo + 1 >= x,
                x_hi <= x + 1,
                x == idx % width,
                y == idx / width,
                w == width,
                width * height <= usize::MAX,
                idx < width * height,
                forall|k: int|
                    0 <= k < around.len() ==> (#[trigger] around[k]) < width * height && touches(
                        idx as int,
                        around[k] as int,
                        width as int,
                    ),
                forall|yy: int, xx: int|
                    y_lo <= yy < ny && x_lo <= xx <= x_hi && !(xx == x && yy == y)
                        ==> around@.contains(#[trigger] cell_at(xx, yy, w) as usize),
                forall|xx: int|
                    x_lo <= xx < nx && !(xx == x && ny == y) ==> around@.contains(
                        #[trigger] cell_at(xx, ny as int, w) as usize,
                    ),
                forall|k: int, m: int| 0 <= k < m < around.len() ==> around[k] < around[m],
                forall|k: int| 0 <= k < around.len() ==> (#[trigger] around[k]) < cell_at(
                    nx as int,
                    ny as int,
                    w,
                ),
            decreases x_hi + 1 - nx,
        {
            let ghost before = around@;
            if nx != x || ny != y {
                proof {
                    lemma_cell_index(nx as int, ny as int, width as int, height as int);
                }
                let pos = ny * width + nx;
                around.push(pos);
                proof {
                    assert(around@[before.len() as int] == pos);
                    assert(pos == cell_at(nx as int, ny as int, w));
                }
            }
            proof {
                assert forall|v: usize| before.contains(v) implies around@.contains(v) by {
                    let k = choose|k: int| 0 <= k < before.len() && before[k] == v;
                    assert(around@[k] == v);
                }
                assert(cell_at(nx as int, ny as int, w) + 1 == cell_at(nx + 1, ny as int, w));
            }
            nx += 1;
        }
        proof {
            assert(cell_at(x_hi + 1, ny as int, w) <= cell_at(x_lo as int, ny + 1, w))
                by (nonlinear_arith)
                requires
                    x_hi < w,
                    x_lo >= 0,
            ;
        }
        ny += 1;
    }
    proof {
        assert forall|j: usize|
            j < width * height && touches(idx as int, j as int, w) implies #[trigger] around@.contains(
            j,
        ) by {
            let xx = j as int % w;
            let yy = j as int / w;
            vstd::arithmetic::div_mod::lemma_fundamental_div_mod(j as int, w);
            vstd::arithmetic::div_mod::lemma_fundamental_div_mod(idx as int, w);
            assert(cell_at(xx, yy, w) == j) by (nonlinear_arith)
                requires
                    j == w * yy + xx,
            ;
            assert(cell_at(x as int, y as int, w) == idx) by (nonlinear_arith)
                requires
                    idx == w * (y as int) + (x as int),
            ;
            assert(yy < height) by (nonlinear_arith)
                requires
                    yy == (j as int) / w,
                    0 <= j < w * height,
                    w > 0,
            ;
            assert(0 <= xx < w);
            assert(0 <= yy);
            assert(!(xx == x && yy == y));
            assert(y_lo <= yy <= y_hi && x_lo <= xx <= x_hi);
            assert(around@.contains(cell_at(xx, yy, w) as usize));
        }
    }
    around
}

/// Whether terrain generation places cells of this kind.
pub open spec fn placeable(terrain: Terrain) -> bool {
    terrain == Terrain::Mountain || terrain == Terrain::Desert || terrain == Terrain::Swamp
        || terrain == Terrain::City
}

/// Turns the blank cell at `pos` into one of kind `terrain`; a city gets its
/// garrison.
fn settle(cells: &mut Vec<Cell>, pos: usize, terrain: Terrain)
    requires
        pos < old(cells).len(),
        placeable(terrain),
        old(cells)[pos as int].terrain == Terrain::Default,
        forall|i: int| 0 <= i < old(cells).len() ==> seeded_cell(#[trigger] old(cells)[i]),
    ensures
        final(cells).len() == old(cells).len(),
        final(cells)[pos as int].terrain == terrain,
        seeded_cell(final(cells)[pos as int]),
        final(cells)@ == old(cells)@.update(pos as int, final(cells)[pos as int]),
        forall|i: int| 0 <= i < final(cells).len() ==> seeded_cell(#[trigger] final(cells)[i]),
        forall|t: Terrain|
            count_terrain(final(cells)@, t) == count_terrain(old(cells)@, t) - (if t
                == Terrain::Default {
                1int
            } else {
                0int
            }) + (if t == terrain {
                1int
            } else {
                0int
            }),
{
    let troops: u32 = if terrain == Terrain::City {
        random_in(CITY_TROOPS_MIN as u64, CITY_TROOPS_MAX as u64) as u32
    } else {
        0
    };
    let cell = Cell { terrain, troops, owner_id: None };
    let ghost before = cells@;
    cells[pos] = cell;
    proof {
        assert(cells@ == before.update(pos as int, cell));
        assert forall|t: Terrain|
            count_terrain(cells@, t) == count_terrain(before, t) - (if t == Terrain::Default {
                1int
            } else {
                0int
            }) + (if t == terrain {
                1int
            } else {
                0int
            }) by {
            lemma_count_update(before, pos as int, cell, t);
        }
    }
}

/// Puts `target` cells of kind `terrain` on blank cells, or as many as there
/// are blank cells. Positions are drawn at random, with the share
/// `clustering` of the draws taken next to a cell of this kind that was put
/// before; when the draws allowed for are used up, the blank cells that come
/// first fill what is missing.
fn place_terrain(
    cells: &mut Vec<Cell>,
    width: usize,
    height: usize,
    terrain: Terrain,
    target: usize,
    clustering: u32,
)
    requires
        old(cells).len() == width * height,
        placeable(terrain),
        forall|i: int| 0 <= i < old(cells).len() ==> seeded_cell(#[trigger] old(cells)[i]),
    ensures
        final(cells).len() == old(cells).len(),
        forall|i: int| 0 <= i < final(cells).len() ==> seeded_cell(#[trigger] final(cells)[i]),
        forall|t: Terrain|
            count_terrain(final(cells)@, t) == count_terrain(old(cells)@, t) - (if t
                == Terrain::Default {
                placed_count(target as nat, count_terrain(old(cells)@, Terrain::Default)) as int
            } else {
                0int
            }) + (if t == terrain {
                placed_count(target as nat, count_terrain(old(cells)@, Terrain::Default)) as int
            } else {
                0int
            }),
{
    let total = cells.len();
    let ghost before = cells@;
    let ghost free = count_terrain(before, Terrain::Default);
    let budget: usize = if total <= usize::MAX / 8 {
        total * 8
    } else {
        usize::MAX
    };
    let mut placed: usize = 0;
    let mut attempts: usize = 0;
    let mut put_at: Vec<usize> = Vec::new();
    proof {
        lemma_count_bounded(before, Terrain::Default);
    }
    while placed < target && attempts < budget
        invariant
            cells.len() == total,
            total == width * height,
            before.len() == total,
            placeable(terrain),
            free == count_terrain(before, Terrain::Default),
            free <= total,
            placed <= target,
            placed <= free,
            attempts <= budget,
            total == 0 ==> budget == 0,
            put_at.len() == placed,
            forall|k: int| 0 <= k < put_at.len() ==> (#[trigger] put_at[k]) < total,
            forall|i: int| 0 <= i < cells.len() ==> seeded_cell(#[trigger] cells[i]),
            forall|t: Terrain|
                count_terrain(cells@, t) == count_terrain(before, t) - (if t == Terrain::Default {
                    placed as int
                } else {
                    0int
                }) + (if t == terrain {
                    placed as int
                } else {
                    0int
                }),
        decreases budget - attempts,
    {
        attempts += 1;
        let mut pos = random_below(total);
        if placed > 0 && random_in(0, (DENSITY_SCALE - 1) as u64) < clustering as u64 {
            let base = put_at[random_below(put_at.len())];
            let around = neighbors_of(base, width, height);
            if around.len() > 0 {
                pos = around[random_below(around.len())];
            }
        }
        if cells[pos].terrain == Terrain::Default {
            proof {
                lemma_count_zero(cells@, Terrain::Default);
            }
            settle(cells, pos, terrain);
            put_at.push(pos);
            placed += 1;
        }
    }
    let mut i: usize = 0;
    while i < total && placed < target
        invariant
            cells.len() == total,
            before.len() == total,
            placeable(terrain),
            free == count_terrain(before, Terrain::Default),
            i <= total,
            placed <= target,
            placed <= free,
            forall|k: int| 0 <= k < i ==> (#[trigger] cells[k]).terrain != Terrain::Default,
            forall|k: int| 0 <= k < cells.len() ==> seeded_cell(#[trigger] cells[k]),
            forall|t: Terrain|
                count_terrain(cells@, t) == count_terrain(before, t) - (if t == Terrain::Default {
                    placed as int
                } else {
                    0int
                }) + (if t == terrain {
                    placed as int
                } else {
                    0int
                }),
        decreases total - i,
    {
        if cells[i].terrain == Terrain::Default {
            proof {
                lemma_count_zero(cells@, Terrain::Default);
            }
            settle(cells, i, terrain);
            placed += 1;
        }
        i += 1;
    }
    proof {
        if placed < target {
            lemma_count_zero(cells@, Terrain::Default);
        }
    }
}

/// Makes the cells of a new map: all blank at first, then mountains,
/// deserts, swamps and cities, in that order, in the numbers that
/// [`generated`] gives. Where a cell goes is drawn at random, next to a
/// cell of its kind as often as the clustering factor says; a kind that
/// has not found its places after eight draws for each cell of the map
/// takes the blank cells that come first.
pub fn generate_map_tiles(width: usize, height: usize, config: &TerrainConfig) -> (cells: Vec<
    Cell,
>)
    requires
        width * height <= usize::MAX,
    ensures
        generated(cells@, width, height, *config),
{
    let total: usize = width * height;
    let mut cells: Vec<Cell> = Vec::new();
    let mut i: usize = 0;
    while i < total
        invariant
            i <= total,
            cells.len() == i,
            forall|k: int| 0 <= k < i ==> seeded_cell(#[trigger] cells[k]),
            forall|k: int| 0 <= k < i ==> (#[trigger] cells[k]).terrain == Terrain::Default,
        decreases total - i,
    {
        cells.push(Cell::default());
        i += 1;
    }
    proof {
        lemma_count_blank(cells@);
    }
    place_terrain(
        &mut cells,
        width,
        height,
        Terrain::Mountain,
        target_count(total, config.mountain_density),
        config.clustering_factor,
    );
    place_terrain(
        &mut cells,
        width,
        height,
        Terrain::Desert,
        target_count(total, config.desert_density),
        config.clustering_factor,
    );
    place_terrain(
        &mut cells,
        width,
        height,
        Terrain::Swamp,
        target_count(total, config.swamp_density),
        config.clustering_factor,
    );
    place_terrain(
        &mut cells,
        width,
        height,
        Terrain::City,
        target_count(total, config.city_density),
        config.clustering_factor,
    );
    cells
}

/// Makes a new map of the given size: a blank grid filled with terrain as
/// [`generate_map_tiles`] does it.
pub fn generate_map(width: usize, height: usize, config: TerrainConfig) -> (map: Grid)
    requires
        width * height <= usize::MAX,
    ensures
        map.spec_width() == width,
        map.spec_height() == height,
        generated(map@, width, height, config),
{
    let tiles = generate_map_tiles(width, height, &config);
    match Grid::from_cells(width, height, tiles) {
        Some(map) => map,
        None => Grid::new(width, height),
    }
}

/// A map of nothing but blank ground counts every cell as blank and none
/// as anything else.
proof fn lemma_count_blank(cells: Seq<Cell>)
    requires
        forall|k: int| 0 <= k < cells.len() ==> (#[trigger] cells[k]).terrain == Terrain::Default,
    ensures
        count_terrain(cells, Terrain::Default) == cells.len(),
        forall|t: Terrain| t != Terrain::Default ==> count_terrain(cells, t) == 0,
    decreases cells.len(),
{
    if cells.len() > 0 {
        let front = cells.drop_last();
        assert forall|k: int| 0 <= k < front.len() implies (#[trigger] front[k]).terrain
            == Terrain::Default by {
            assert(front[k] == cells[k]);
        }
        lemma_count_blank(front);
        assert(cells.last() == cells[cells.len() - 1]);
        assert forall|t: Terrain| t != Terrain::Default implies count_terrain(cells, t) == 0 by {
            assert(count_terrain(front, t) == 0);
        }
    }
}

/// The cell in column `x` of row `y` has index `y * width + x`, which lies
/// on the grid and gives the column and the row back.
pub proof fn lemma_cell_index(x: int, y: int, width: int, height: int)
    requires
        0 <= x < width,
        0 <= y < height,
    ensures
        0 <= y * width <= y * width + x < width * height,
        (y * width + x) % width == x,
        (y * width + x) / width == y,
{
    assert(0 <= y * width <= y * width + x < width * height) by (nonlinear_arith)
        requires
            0 <= x < width,
            0 <= y < height,
    ;
    lemma_fundamental_div_mod_converse(y * width + x, width, y, x);
}

} // verus!
