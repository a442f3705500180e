//! Fog of war: which cells a player is shown, and how much of each.

use vstd::prelude::*;
use vstd::arithmetic::div_mod::lemma_fundamental_div_mod;
use std::collections::HashMap;
use crate::server::config::Config;
use crate::server::generator::lemma_cell_index;
use crate::server::grid::{cell_view, Cell, Grid};
use crate::shared::map_view::{Cell as SharedCell, MapView, MapViewModel};
use crate::shared::path::{span, span_of};
use crate::shared::player::PlayerId;
use crate::shared::terrain::Terrain;

verus! {

broadcast use vstd::std_specs::hash::group_hash_axioms;

/// How far a cell lets its owner see: cities and capitals see farther than
/// other cells.
pub open spec fn sight_radius(cell: Cell, config: Config) -> int {
    if cell.terrain == Terrain::City || cell.terrain == Terrain::Capital {
        config.city_visibility_radius as int
    } else {
        config.tile_visibility_radius as int
    }
}

/// The Manhattan distance between cells `i` and `j` on a grid `width` wide.
pub open spec fn distance(i: int, j: int, width: int) -> int {
    span(i % width, j % width) + span(i / width, j / width)
}

/// Cell `j` belongs to `player` and cell `i` lies within its sight.
pub open spec fn watches(
    cells: Seq<Cell>,
    width: int,
    config: Config,
    player: PlayerId,
    j: int,
    i: int,
) -> bool {
    &&& 0 <= j < cells.len()
    &&& cells[j].owner_id == Some(player)
    &&& distance(i, j, width) <= sight_radius(cells[j], config)
}

/// Some cell of `player` has cell `i` within its sight.
pub open spec fn in_vision(
    cells: Seq<Cell>,
    width: int,
    config: Config,
    player: PlayerId,
    i: int,
) -> bool {
    exists|j: int| watches(cells, width, config, player, j, i)
}

/// The terrain of this cell is shown even out of vision: a mountain or a
/// swamp whose fog of war is switched off.
pub open spec fn terrain_shown(cell: Cell, config: Config) -> bool {
    ||| cell.terrain == Terrain::Mountain && !config.fow_mountains
    ||| cell.terrain == Terrain::Swamp && !config.fow_swamps
}

/// What `player` is shown of cell `i`. A spectator is shown every cell in
/// full.
pub open spec fn shown_cell(
    cells: Seq<Cell>,
    width: int,
    config: Config,
    player: PlayerId,
    spectator: bool,
    i: int,
) -> Option<SharedCell> {
    if spectator {
        cell_view(cells[i], true, true)
    } else {
        cell_view(
            cells[i],
            in_vision(cells, width, config, player, i),
            terrain_shown(cells[i], config),
        )
    }
}

/// The cells that `player` is shown, by index.
pub open spec fn visible_cells(
    cells: Seq<Cell>,
    width: int,
    config: Config,
    player: PlayerId,
    spectator: bool,
) -> Map<usize, SharedCell> {
    Map::new(
        |i: usize| i < cells.len() && shown_cell(cells, width, config, player, spectator, i as int) is Some,
        |i: usize| shown_cell(cells, width, config, player, spectator, i as int)->0,
    )
}

/// A spectator is shown every cell of the grid, with its troops and its
/// owner and without fog.
pub proof fn lemma_spectator_sees_all(
    cells: Seq<Cell>,
    width: int,
    config: Config,
    player: PlayerId,
)
    ensures
        forall|i: usize|
            i < cells.len() ==> #[trigger] visible_cells(
                cells,
                width,
                config,
                player,
                true,
            ).contains_key(i) && visible_cells(cells, width, config, player, true)[i] == (
            SharedCell {
                terrain: cells[i as int].terrain,
                troops: cells[i as int].troops,
                owner_id: cells[i as int].owner_id,
                fog_of_war: false,
            }),
{
}

/// The cell in column `x` of row `y` watches cell `i`.
spec fn watches_from(
    cells: Seq<Cell>,
    width: int,
    config: Config,
    player: PlayerId,
    x: int,
    y: int,
    i: int,
) -> bool {
    watches(cells, width, config, player, y * width + x, i)
}

impl Grid {
    /// Whether some cell of `player` has cell `i` within its sight.
    fn sees(&self, config: &Config, player: PlayerId, i: usize) -> (seen: bool)
        requires
            i < self@.len(),
        ensures
            seen == in_vision(self@, self.spec_width() as int, *config, player, i as int),
    {
        let cells = self.cells();
        let w = self.width();
        let h = self.height();
        let ghost wi = w as int;
        let n = cells.len();
        assert(w > 0) by (nonlinear_arith)
            requires
                i < w * h,
        ;
        let cx = i % w;
        let cy = i / w;
        assert(cy < h) by (nonlinear_arith)
            requires
                cy == i / w,
                i < w * h,
                w > 0,
        ;
        let reach = if config.city_visibility_radius >= config.tile_visibility_radius {
            config.city_visibility_radius
        } else {
            config.tile_visibility_radius
        };
        let x0 = if cx >= reach {
            cx - reach
        } else {
            0
        };
        let x1 = if reach < w - cx {
            cx + reach + 1
        } else {
            w
        };
        let y0 = if cy >= reach {
            cy - reach
        } else {
            0
        };
        let y1 = if reach < h - cy {
            cy + reach + 1
        } else {
            h
        };
        let mut y = y0;
        while y < y1
            invariant
                y0 <= y <= y1 <= h,
                x0 <= x1 <= w,
                w > 0,
                wi == w,
                cells@ == self@,
                cells@.len() == w * h,
                n == w * h,
                w == self.spec_width(),
                i < cells@.len(),
                cx == i % w,
                cy == i / w,
                forall|yy: int, xx: int|
                    y0 <= yy < y && x0 <= xx < x1 ==> !#[trigger] watches_from(
                        cells@,
                        wi,
                        *config,
                        player,
                        xx,
                        yy,
                        i as int,
                    ),
            decreases y1 - y,
        {
            let mut x = x0;
            while x < x1
                invariant
                    y0 <= y < y1 <= h,
                    x0 <= x <= x1 <= w,
                    w > 0,
                    wi == w,
                    cells@ == self@,
                    cells@.len() == w * h,
                    n == w * h,
                    w == self.spec_width(),
                    i < cells@.len(),
                    cx == i % w,
                    cy == i / w,
                    forall|yy: int, xx: int|
                        y0 <= yy < y && x0 <= xx < x1 ==> !#[trigger] watches_from(
                            cells@,
                            wi,
                            *config,
                            player,
                            xx,
                            yy,
                            i as int,
                        ),
                    forall|xx: int|
                        x0 <= xx < x ==> !#[trigger] watches_from(
                            cells@,
                            wi,
                            *config,
                            player,
                            xx,
                            y as int,
                            i as int,
                        ),
                decreases x1 - x,
            {
                proof {
                    lemma_cell_index(x as int, y as int, w as int, h as int);
                }
                let j = y * w + x;
                let cell = cells[j];
                if cell.owner_id == Some(player) {
                    let radius = if cell.terrain == Terrain::City || cell.terrain
                        == Terrain::Capital {
                        config.city_visibility_radius
                    } else {
                        config.tile_visibility_radius
                    };
                    let dx = span_of(cx, x);
                    let dy = span_of(cy, y);
                    if dx <= radius && dy <= radius - dx {
                        assert(watches(cells@, wi, *config, player, j as int, i as int));
                        return true;
                    }
                }
                assert(!watches_from(cells@, wi, *config, player, x as int, y as int, i as int));
                x += 1;
            }
            y += 1;
        }
        proof {
            assert forall|j: int| !watches(cells@, wi, *config, player, j, i as int) by {
                if 0 <= j < cells@.len() {
                    let xx = j % wi;
                    let yy = j / wi;
                    lemma_fundamental_div_mod(j, wi);
                    assert(j == yy * wi + xx) by (nonlinear_arith)
                        requires
                            j == wi * (j / wi) + j % wi,
                            xx == j % wi,
                            yy == j / wi,
                    ;
                    assert(0 <= yy < h) by (nonlinear_arith)
                        requires
                            yy == j / wi,
                            0 <= j < wi * h,
                            wi > 0,
                    ;
                    if y0 <= yy < y1 && x0 <= xx < x1 {
                        assert(!watches_from(cells@, wi, *config, player, xx, yy, i as int));
                    }
                }
            }
        }
        false
    }

    /// The view of the grid for `player`. A spectator (a player who is out
    /// of the game) is shown every cell in full. Anyone else is shown in
    /// full the cells within sight of a cell of theirs, and of the other
    /// cells only those whose terrain is always shown, without troops or
    /// owner and flagged as fogged.
    pub fn to_map_view(&self, player: PlayerId, spectator: bool, config: &Config) -> (view:
        MapView)
        ensures
            view@ == (MapViewModel {
                width: self.spec_width(),
                height: self.spec_height(),
                cells: visible_cells(self@, self.spec_width() as int, *config, player, spectator),
            }),
    {
        let cells = self.cells();
        let n = cells.len();
        let ghost wi = self.spec_width() as int;
        let mut shown: HashMap<usize, SharedCell> = HashMap::new();
        let mut i: usize = 0;
        while i < n
            invariant
                i <= n,
                n == cells@.len(),
                cells@ == self@,
                wi == self.spec_width(),
                shown@ == Map::new(
                    |k: usize|
                        k < i && shown_cell(self@, wi, *config, player, spectator, k as int) is Some,
                    |k: usize| shown_cell(self@, wi, *config, player, spectator, k as int)->0,
                ),
            decreases n - i,
        {
            let cell = cells[i];
            let view = if spectator {
                cell.to_view(true, true)
            } else {
                let terrain_visible = match cell.terrain {
                    Terrain::Mountain => !config.fow_mountains,
                    Terrain::Swamp => !config.fow_swamps,
                    _ => false,
                };
                cell.to_view(self.sees(config, player, i), terrain_visible)
            };
            if let Some(seen) = view {
                shown.insert(i, seen);
            }
            i += 1;
            assert(shown@ =~= Map::new(
                |k: usize|
                    k < i && shown_cell(self@, wi, *config, player, spectator, k as int) is Some,
                |k: usize| shown_cell(self@, wi, *config, player, spectator, k as int)->0,
            ));
        }
        assert(shown@ =~= visible_cells(self@, wi, *config, player, spectator));
        MapView { width: self.width(), height: self.height(), cells: shown }
    }
}

} // verus!
