//! The canonical grid: terrain, troops and ownership of every cell, and the
//! rules that change them.

use vstd::prelude::*;
use crate::server::chance::random_below;
use crate::shared::map_view::Cell as SharedCell;
use crate::shared::player::PlayerId;
use crate::shared::terrain::Terrain;

verus! {

/// One cell of the grid.
#[derive(Debug, Clone, Copy, PartialEq, Eq, Structural)]
pub struct Cell {
    pub terrain: Terrain,
    pub troops: u32,
    pub owner_id: Option<PlayerId>,
}

impl Default for Cell {
    fn default() -> (cell: Cell)
        ensures
            cell == blank_cell(),
    {
        Cell { terrain: Terrain::Default, troops: 0, owner_id: None }
    }
}

/// The cell every grid starts from: plain ground, no troops, nobody's.
pub open spec fn blank_cell() -> Cell {
    Cell { terrain: Terrain::Default, troops: 0, owner_id: None }
}

/// How a cell is shown: in full when in vision, by terrain alone when only
/// its terrain may be seen, and not at all otherwise.
pub open spec fn cell_view(cell: Cell, in_vision: bool, terrain_visible: bool) -> Option<
    SharedCell,
> {
    if in_vision {
        Some(
            SharedCell {
                terrain: cell.terrain,
                troops: cell.troops,
                owner_id: cell.owner_id,
                fog_of_war: false,
            },
        )
    } else if terrain_visible {
        Some(SharedCell { terrain: cell.terrain, troops: 0, owner_id: None, fog_of_war: true })
    } else {
        None
    }
}

impl Cell {
    pub fn to_view(&self, in_vision: bool, terrain_visible: bool) -> (view: Option<SharedCell>)
        ensures
            view == cell_view(*self, in_vision, terrain_visible),
    {
        if !in_vision && !terrain_visible {
            return None;
        }
        Some(
            SharedCell {
                terrain: self.terrain,
                troops: if in_vision {
                    self.troops
                } else {
                    0
                },
                owner_id: if in_vision {
                    self.owner_id
                } else {
                    None
                },
                fog_of_war: !in_vision && terrain_visible,
            },
        )
    }
}

/// A troop count after `extra` troops join it; the count stops at the
/// largest value a cell can hold.
pub open spec fn reinforced(troops: u32, extra: int) -> u32 {
    if troops + extra > u32::MAX {
        u32::MAX
    } else {
        (troops + extra) as u32
    }
}

/// Whether a move from cell `a` onto cell `d` does anything at all: both
/// cells exist and differ, the source can spare troops, and the target is
/// not a mountain.
pub open spec fn battle_applies(cells: Seq<Cell>, a: int, d: int) -> bool {
    &&& 0 <= a < cells.len()
    &&& 0 <= d < cells.len()
    &&& a != d
    &&& cells[a].troops > 1
    &&& cells[d].terrain != Terrain::Mountain
}

/// The troops that leave cell `a`: all but one.
pub open spec fn moving_troops(cells: Seq<Cell>, a: int) -> int {
    cells[a].troops - 1
}

/// The move joins two cells of one player.
pub open spec fn battle_merges(cells: Seq<Cell>, a: int, d: int) -> bool {
    &&& battle_applies(cells, a, d)
    &&& cells[a].owner_id is Some
    &&& cells[a].owner_id == cells[d].owner_id
}

/// The move is a fight that the attacker wins.
pub open spec fn battle_captures(cells: Seq<Cell>, a: int, d: int) -> bool {
    &&& battle_applies(cells, a, d)
    &&& !battle_merges(cells, a, d)
    &&& moving_troops(cells, a) > cells[d].troops
}

/// The move takes a capital from its owner.
pub open spec fn capital_falls(cells: Seq<Cell>, a: int, d: int) -> bool {
    &&& battle_captures(cells, a, d)
    &&& cells[d].terrain == Terrain::Capital
    &&& cells[d].owner_id is Some
}

/// Cell `i` after a move from `a` onto `d`.
pub open spec fn battle_cell(cells: Seq<Cell>, a: int, d: int, i: int) -> Cell {
    let old_cell = cells[i];
    if !battle_applies(cells, a, d) {
        old_cell
    } else if i == a {
        Cell { troops: 1, ..old_cell }
    } else if battle_merges(cells, a, d) {
        if i == d {
            Cell { troops: reinforced(old_cell.troops, moving_troops(cells, a)), ..old_cell }
        } else {
            old_cell
        }
    } else if battle_captures(cells, a, d) {
        if i == d {
            Cell {
                terrain: if capital_falls(cells, a, d) {
                    Terrain::City
                } else {
                    old_cell.terrain
                },
                troops: (moving_troops(cells, a) - old_cell.troops) as u32,
                owner_id: cells[a].owner_id,
            }
        } else if capital_falls(cells, a, d) && old_cell.owner_id == cells[d].owner_id {
            Cell { owner_id: cells[a].owner_id, ..old_cell }
        } else {
            old_cell
        }
    } else if i == d {
        let left = (old_cell.troops - moving_troops(cells, a)) as u32;
        Cell {
            troops: left,
            owner_id: if left == 0 {
                None
            } else {
                old_cell.owner_id
            },
            ..old_cell
        }
    } else {
        old_cell
    }
}

/// The whole grid after a move from `a` onto `d`.
pub open spec fn battle_cells(cells: Seq<Cell>, a: int, d: int) -> Seq<Cell> {
    Seq::new(cells.len(), |i: int| battle_cell(cells, a, d, i))
}

/// How many cells of the grid have terrain `terrain`.
pub open spec fn count_terrain(cells: Seq<Cell>, terrain: Terrain) -> nat
    decreases cells.len(),
{
    if cells.len() == 0 {
        0
    } else {
        count_terrain(cells.drop_last(), terrain) + if cells.last().terrain == terrain {
            1nat
        } else {
            0nat
        }
    }
}

/// How many capitals stand on the grid.
pub open spec fn count_capitals(cells: Seq<Cell>) -> nat {
    count_terrain(cells, Terrain::Capital)
}

/// No more cells have a terrain than there are cells.
pub proof fn lemma_count_bounded(cells: Seq<Cell>, terrain: Terrain)
    ensures
        count_terrain(cells, terrain) <= cells.len(),
    decreases cells.len(),
{
    if cells.len() > 0 {
        lemma_count_bounded(cells.drop_last(), terrain);
    }
}

/// Replacing one cell moves the count of a terrain by what left and what
/// came.
pub proof fn lemma_count_update(cells: Seq<Cell>, i: int, cell: Cell, terrain: Terrain)
    requires
        0 <= i < cells.len(),
    ensures
        count_terrain(cells.update(i, cell), terrain) == count_terrain(cells, terrain) - (if cells[i].terrain
            == terrain {
            1int
        } else {
            0int
        }) + (if cell.terrain == terrain {
            1int
        } else {
            0int
        }),
    decreases cells.len(),
{
    let updated = cells.update(i, cell);
    if i == cells.len() - 1 {
        assert(updated.drop_last() == cells.drop_last());
    } else {
        assert(updated.drop_last() == cells.drop_last().update(i, cell));
        lemma_count_update(cells.drop_last(), i, cell, terrain);
    }
}

/// Where no cell has the terrain, its count is zero, and the other way
/// round.
pub proof fn lemma_count_zero(cells: Seq<Cell>, terrain: Terrain)
    ensures
        count_terrain(cells, terrain) == 0 <==> forall|i: int|
            0 <= i < cells.len() ==> (#[trigger] cells[i]).terrain != terrain,
    decreases cells.len(),
{
    if cells.len() > 0 {
        lemma_count_zero(cells.drop_last(), terrain);
        let front = cells.drop_last();
        if count_terrain(cells, terrain) == 0 {
            assert forall|i: int| 0 <= i < cells.len() implies (#[trigger] cells[i]).terrain
                != terrain by {
                if i < cells.len() - 1 {
                    assert(front[i] == cells[i]);
                }
            }
        }
        if forall|i: int| 0 <= i < cells.len() ==> (#[trigger] cells[i]).terrain != terrain {
            assert forall|i: int| 0 <= i < front.len() implies (#[trigger] front[i]).terrain
                != terrain by {
                assert(front[i] == cells[i]);
            }
            assert(cells.last() == cells[cells.len() - 1]);
        }
    }
}

/// The player whom a move from `a` onto `d` eliminates, if any.
pub open spec fn battle_defeated(cells: Seq<Cell>, a: int, d: int) -> Option<PlayerId> {
    if capital_falls(cells, a, d) {
        cells[d].owner_id
    } else {
        None
    }
}

/// Whether a move from `a` onto `d` ends the game: a capital falls and
/// exactly one is left standing.
pub open spec fn battle_ends_game(cells: Seq<Cell>, a: int, d: int) -> bool {
    capital_falls(cells, a, d) && count_capitals(battle_cells(cells, a, d)) == 1
}

/// A cell once its owner has left the game: nobody's, and a capital is a
/// city from then on.
pub open spec fn released_cell(cell: Cell, player: PlayerId) -> Cell {
    if cell.owner_id == Some(player) {
        Cell {
            terrain: if cell.terrain == Terrain::Capital {
                Terrain::City
            } else {
                cell.terrain
            },
            troops: cell.troops,
            owner_id: None,
        }
    } else {
        cell
    }
}

/// A cell after a round of city growth: an owned capital or city gains a
/// troop, a swamp with troops loses one, and a cell without troops is
/// nobody's.
pub open spec fn grown_cell(cell: Cell) -> Cell {
    if (cell.terrain == Terrain::Capital || cell.terrain == Terrain::City)
        && cell.owner_id is Some {
        Cell { troops: reinforced(cell.troops, 1), ..cell }
    } else if cell.terrain == Terrain::Swamp && cell.troops > 0 {
        Cell {
            troops: (cell.troops - 1) as u32,
            owner_id: if cell.troops == 1 {
                None
            } else {
                cell.owner_id
            },
            ..cell
        }
    } else if cell.troops == 0 {
        Cell { owner_id: None, ..cell }
    } else {
        cell
    }
}

/// A cell after a round of tile growth: an owned cell that is neither a
/// capital nor a city gains a troop.
pub open spec fn tended_cell(cell: Cell) -> Cell {
    if cell.owner_id is Some && cell.terrain != Terrain::Capital && cell.terrain
        != Terrain::City {
        Cell { troops: reinforced(cell.troops, 1), ..cell }
    } else {
        cell
    }
}

/// The cell a player starts from.
pub open spec fn capital_cell(player: PlayerId) -> Cell {
    Cell { terrain: Terrain::Capital, troops: 1, owner_id: Some(player) }
}

/// The rule that a cell without troops belongs to nobody.
pub open spec fn cell_consistent(cell: Cell) -> bool {
    cell.troops == 0 ==> cell.owner_id is None
}

/// A move from a cell with fewer than two troops changes nothing.
pub proof fn lemma_battle_needs_troops(cells: Seq<Cell>, a: int, d: int)
    requires
        0 <= a < cells.len(),
        cells[a].troops <= 1,
    ensures
        battle_cells(cells, a, d) == cells,
{
    assert(battle_cells(cells, a, d) =~= cells);
}

/// A move between two different cells of the grid, from a cell with more
/// than one troop onto anything but a mountain, leaves exactly one troop
/// behind.
pub proof fn lemma_battle_leaves_one(cells: Seq<Cell>, a: int, d: int)
    requires
        0 <= a < cells.len(),
        0 <= d < cells.len(),
        a != d,
        cells[a].troops > 1,
        cells[d].terrain != Terrain::Mountain,
    ensures
        battle_cells(cells, a, d)[a].troops == 1,
        battle_cells(cells, a, d)[a].owner_id == cells[a].owner_id,
        battle_cells(cells, a, d)[a].terrain == cells[a].terrain,
{
}

/// A move onto a mountain changes no cell.
pub proof fn lemma_mountain_blocks(cells: Seq<Cell>, a: int, d: int)
    requires
        0 <= d < cells.len(),
        cells[d].terrain == Terrain::Mountain,
    ensures
        battle_cells(cells, a, d) == cells,
        battle_defeated(cells, a, d) is None,
        !battle_ends_game(cells, a, d),
{
    assert(battle_cells(cells, a, d) =~= cells);
}

/// When a capital falls, every cell of its owner goes to the attacker, and
/// no other cell changes hands.
pub proof fn lemma_capital_capture_transfers(cells: Seq<Cell>, a: int, d: int)
    requires
        capital_falls(cells, a, d),
    ensures
        battle_defeated(cells, a, d) == cells[d].owner_id,
        battle_cells(cells, a, d)[d].terrain == Terrain::City,
        forall|i: int|
            0 <= i < cells.len() && cells[i].owner_id == cells[d].owner_id ==> (
            #[trigger] battle_cells(cells, a, d)[i]).owner_id == cells[a].owner_id,
        forall|i: int|
            0 <= i < cells.len() && cells[i].owner_id != cells[d].owner_id ==> (
            #[trigger] battle_cells(cells, a, d)[i]).owner_id == cells[i].owner_id,
{
}

/// Two grids with the same terrain cell by cell count the same.
pub proof fn lemma_count_by_terrain(left: Seq<Cell>, right: Seq<Cell>, terrain: Terrain)
    requires
        left.len() == right.len(),
        forall|i: int| 0 <= i < left.len() ==> (#[trigger] left[i]).terrain == right[i].terrain,
    ensures
        count_terrain(left, terrain) == count_terrain(right, terrain),
    decreases left.len(),
{
    if left.len() > 0 {
        let l = left.drop_last();
        let r = right.drop_last();
        assert forall|i: int| 0 <= i < l.len() implies (#[trigger] l[i]).terrain
            == r[i].terrain by {
            assert(l[i] == left[i]);
            assert(r[i] == right[i]);
        }
        lemma_count_by_terrain(l, r, terrain);
        assert(left.last() == left[left.len() - 1]);
    }
}

/// A move takes one capital off the grid when a capital falls, and none
/// otherwise.
pub proof fn lemma_battle_capitals(cells: Seq<Cell>, a: int, d: int)
    ensures
        count_capitals(battle_cells(cells, a, d)) == count_capitals(cells) - (if capital_falls(
            cells,
            a,
            d,
        ) {
            1int
        } else {
            0int
        }),
{
    let after = battle_cells(cells, a, d);
    if capital_falls(cells, a, d) {
        let city = Cell { terrain: Terrain::City, ..cells[d] };
        let marked = cells.update(d, city);
        lemma_count_update(cells, d, city, Terrain::Capital);
        assert forall|i: int| 0 <= i < after.len() implies (#[trigger] after[i]).terrain
            == marked[i].terrain by {}
        lemma_count_by_terrain(after, marked, Terrain::Capital);
    } else {
        assert forall|i: int| 0 <= i < after.len() implies (#[trigger] after[i]).terrain
            == cells[i].terrain by {}
        lemma_count_by_terrain(after, cells, Terrain::Capital);
    }
}

/// Every cell of the grid keeps the rule that a cell without troops
/// belongs to nobody.
pub open spec fn grid_consistent(cells: Seq<Cell>) -> bool {
    forall|i: int| 0 <= i < cells.len() ==> cell_consistent(#[trigger] cells[i])
}

/// Whatever the grid does to its cells, a cell without troops belongs to
/// nobody afterwards if that held before: after a battle, after growth of
/// either kind, after a player has left, and after a capital was placed.
pub proof fn lemma_rules_keep_grid_consistent(
    cells: Seq<Cell>,
    a: int,
    d: int,
    player: PlayerId,
    place: int,
)
    requires
        grid_consistent(cells),
    ensures
        grid_consistent(battle_cells(cells, a, d)),
        grid_consistent(cells.map_values(|cell: Cell| grown_cell(cell))),
        grid_consistent(cells.map_values(|cell: Cell| tended_cell(cell))),
        grid_consistent(cells.map_values(|cell: Cell| released_cell(cell, player))),
        0 <= place < cells.len() ==> grid_consistent(cells.update(place, capital_cell(player))),
{
    let fought = battle_cells(cells, a, d);
    assert forall|i: int| 0 <= i < fought.len() implies cell_consistent(#[trigger] fought[i]) by {
        assert(cell_consistent(cells[i]));
        if battle_applies(cells, a, d) {
            assert(cell_consistent(cells[a]));
            assert(cell_consistent(cells[d]));
        }
    }
    let grown = cells.map_values(|cell: Cell| grown_cell(cell));
    assert forall|i: int| 0 <= i < grown.len() implies cell_consistent(#[trigger] grown[i]) by {
        assert(cell_consistent(cells[i]));
    }
    let tended = cells.map_values(|cell: Cell| tended_cell(cell));
    assert forall|i: int| 0 <= i < tended.len() implies cell_consistent(#[trigger] tended[i]) by {
        assert(cell_consistent(cells[i]));
    }
    let released = cells.map_values(|cell: Cell| released_cell(cell, player));
    assert forall|i: int| 0 <= i < released.len() implies cell_consistent(
        #[trigger] released[i],
    ) by {
        assert(cell_consistent(cells[i]));
    }
    if 0 <= place < cells.len() {
        let settled = cells.update(place, capital_cell(player));
        assert forall|i: int| 0 <= i < settled.len() implies cell_consistent(
            #[trigger] settled[i],
        ) by {
            assert(cell_consistent(cells[i]));
        }
    }
}

/// What a battle means beyond the grid.
#[derive(Debug, Clone, Copy, PartialEq, Eq, Structural)]
pub struct BattleOutcome {
    /// The player whose capital fell.
    pub defeated: Option<PlayerId>,
    /// Whether exactly one capital is left after a capital fell.
    pub game_over: bool,
}

/// The grid of the game. `cells` holds `width * height` cells, row by row.
pub struct Grid {
    width: usize,
    height: usize,
    cells: Vec<Cell>,
}

impl View for Grid {
    type V = Seq<Cell>;

    closed spec fn view(&self) -> Seq<Cell> {
        self.cells@
    }
}

impl Grid {
    #[verifier::type_invariant]
    spec fn well_formed(self) -> bool {
        self.cells.len() == self.width * self.height
    }

    /// The number of columns.
    pub closed spec fn spec_width(&self) -> usize {
        self.width
    }

    /// The number of rows.
    pub closed spec fn spec_height(&self) -> usize {
        self.height
    }

    /// A blank grid of the given size.
    pub fn new(width: usize, height: usize) -> (grid: Grid)
        requires
            width * height <= usize::MAX,
        ensures
            grid.spec_width() == width,
            grid.spec_height() == height,
            grid@ == Seq::new((width * height) as nat, |i: int| blank_cell()),
    {
        let total: usize = width * height;
        let mut cells: Vec<Cell> = Vec::new();
        let mut i: usize = 0;
        while i < total
            invariant
                i <= total,
                cells@ == Seq::new(i as nat, |k: int| blank_cell()),
            decreases total - i,
        {
            cells.push(Cell { terrain: Terrain::Default, troops: 0, owner_id: None });
            i += 1;
        }
        Grid { width, height, cells }
    }

    #[verifier::when_used_as_spec(spec_width)]
    pub fn width(&self) -> (w: usize)
        ensures
            w == self.spec_width(),
            self@.len() == self.spec_width() * self.spec_height(),
    {
        proof {
            use_type_invariant(self);
        }
        self.width
    }

    #[verifier::when_used_as_spec(spec_height)]
    pub fn height(&self) -> (h: usize)
        ensures
            h == self.spec_height(),
            self@.len() == self.spec_width() * self.spec_height(),
    {
        proof {
            use_type_invariant(self);
        }
        self.height
    }

    /// The cells, row by row.
    pub fn cells(&self) -> (cells: &Vec<Cell>)
        ensures
            cells@ == self@,
            self@.len() == self.spec_width() * self.spec_height(),
    {
        proof {
            use_type_invariant(self);
        }
        &self.cells
    }

    /// A grid over the given cells, if there are `width * height` of them.
    pub fn from_cells(width: usize, height: usize, cells: Vec<Cell>) -> (grid: Option<Grid>)
        ensures
            grid is Some <==> cells.len() == width * height,
            grid is Some ==> grid->0@ == cells@ && grid->0.spec_width() == width
                && grid->0.spec_height() == height,
    {
        match width.checked_mul(height) {
            Some(total) => {
                if total == cells.len() {
                    Some(Grid { width, height, cells })
                } else {
                    None
                }
            },
            None => None,
        }
    }

    /// The index of the cell in column `x` of row `y`.
    fn get_cell_id(&self, x: usize, y: usize) -> (id: usize)
        requires
            x < self.spec_width(),
            y < self.spec_height(),
        ensures
            id == y * self.spec_width() + x,
            id < self@.len(),
    {
        proof {
            use_type_invariant(self);
            assert(y * self.width + x < self.width * self.height) by (nonlinear_arith)
                requires
                    x < self.width,
                    y < self.height,
            ;
        }
        y * self.width + x
    }

    /// Overwrites the cell in column `x` of row `y`.
    pub fn set_cell(&mut self, x: usize, y: usize, cell: Cell)
        requires
            x < old(self).spec_width(),
            y < old(self).spec_height(),
        ensures
            final(self).spec_width() == old(self).spec_width(),
            final(self).spec_height() == old(self).spec_height(),
            y * old(self).spec_width() + x < old(self)@.len(),
            final(self)@ == old(self)@.update(y * old(self).spec_width() + x, cell),
    {
        proof {
            use_type_invariant(&*self);
        }
        let id = self.get_cell_id(x, y);
        self.cells[id] = cell;
    }

    /// Makes cell `cell_id` the capital of `player`, with one troop,
    /// whatever stood there. An index off the grid changes nothing.
    pub fn place_capital(&mut self, cell_id: usize, player: PlayerId)
        ensures
            final(self).spec_width() == old(self).spec_width(),
            final(self).spec_height() == old(self).spec_height(),
            cell_id < old(self)@.len() ==> final(self)@ == old(self)@.update(
                cell_id as int,
                capital_cell(player),
            ),
            cell_id >= old(self)@.len() ==> final(self)@ == old(self)@,
    {
        proof {
            use_type_invariant(&*self);
        }
        if cell_id < self.cells.len() {
            self.cells[cell_id] = Cell {
                terrain: Terrain::Capital,
                troops: 1,
                owner_id: Some(player),
            };
        }
    }

    /// Gives `player` a capital on a cell drawn at random and says which
    /// cell it was; a grid without cells has no room for one.
    pub fn add_player_capital(&mut self, player: PlayerId) -> (placed: Option<usize>)
        ensures
            final(self).spec_width() == old(self).spec_width(),
            final(self).spec_height() == old(self).spec_height(),
            placed is Some <==> old(self)@.len() > 0,
            placed is Some ==> placed->0 < old(self)@.len() && final(self)@ == old(self)@.update(
                placed->0 as int,
                capital_cell(player),
            ),
            placed is None ==> final(self)@ == old(self)@,
    {
        proof {
            use_type_invariant(&*self);
        }
        if self.cells.len() == 0 {
            return None;
        }
        assert(self.width > 0 && self.height > 0) by (nonlinear_arith)
            requires
                self.width * self.height > 0,
        ;
        let x = random_below(self.width);
        let y = random_below(self.height);
        let cell_id = self.get_cell_id(x, y);
        self.place_capital(cell_id, player);
        Some(cell_id)
    }

    /// Releases every cell of `player_id`: it belongs to nobody afterwards,
    /// and where it was a capital it is a city.
    pub fn remove_player(&mut self, player_id: PlayerId)
        ensures
            final(self).spec_width() == old(self).spec_width(),
            final(self).spec_height() == old(self).spec_height(),
            final(self)@ == old(self)@.map_values(|cell: Cell| released_cell(cell, player_id)),
    {
        proof {
            use_type_invariant(&*self);
        }
        let ghost before = self.cells@;
        let n = self.cells.len();
        let mut i: usize = 0;
        while i < n
            invariant
                i <= n,
                self.cells.len() == n,
                before.len() == n,
                self.cells.len() == self.width * self.height,
                self.width == old(self).width,
                self.height == old(self).height,
                forall|k: int| 0 <= k < i ==> self.cells@[k] == released_cell(before[k], player_id),
                forall|k: int| i <= k < n ==> self.cells@[k] == before[k],
            decreases n - i,
        {
            let cell = self.cells[i];
            if cell.owner_id == Some(player_id) {
                self.cells[i] = Cell {
                    terrain: if cell.terrain == Terrain::Capital {
                        Terrain::City
                    } else {
                        cell.terrain
                    },
                    troops: cell.troops,
                    owner_id: None,
                };
            }
            i += 1;
        }
        assert(self.cells@ =~= before.map_values(|cell: Cell| released_cell(cell, player_id)));
    }

    /// One round of city growth, cell by cell as [`grown_cell`] says.
    pub fn tick_troops(&mut self)
        ensures
            final(self).spec_width() == old(self).spec_width(),
            final(self).spec_height() == old(self).spec_height(),
            final(self)@ == old(self)@.map_values(|cell: Cell| grown_cell(cell)),
    {
        proof {
            use_type_invariant(&*self);
        }
        let ghost before = self.cells@;
        let n = self.cells.len();
        let mut i: usize = 0;
        while i < n
            invariant
                i <= n,
                self.cells.len() == n,
                before.len() == n,
                self.cells.len() == self.width * self.height,
                self.width == old(self).width,
                self.height == old(self).height,
                forall|k: int| 0 <= k < i ==> self.cells@[k] == grown_cell(before[k]),
                forall|k: int| i <= k < n ==> self.cells@[k] == before[k],
            decreases n - i,
        {
            let cell = self.cells[i];
            let owned = cell.owner_id.is_some();
            if owned && (cell.terrain == Terrain::Capital || cell.terrain == Terrain::City) {
                self.cells[i] = Cell { troops: cell.troops.saturating_add(1), ..cell };
            } else if cell.terrain == Terrain::Swamp && cell.troops > 0 {
                let left: u32 = cell.troops - 1;
                self.cells[i] = Cell {
                    troops: left,
                    owner_id: if left == 0 {
                        None
                    } else {
                        cell.owner_id
                    },
                    ..cell
                };
            } else if cell.troops == 0 {
                self.cells[i] = Cell { owner_id: None, ..cell };
            }
            i += 1;
        }
        assert(self.cells@ =~= before.map_values(|cell: Cell| grown_cell(cell)));
    }

    /// One round of tile growth, cell by cell as [`tended_cell`] says.
    pub fn tick_owned_tiles(&mut self)
        ensures
            final(self).spec_width() == old(self).spec_width(),
            final(self).spec_height() == old(self).spec_height(),
            final(self)@ == old(self)@.map_values(|cell: Cell| tended_cell(cell)),
    {
        proof {
            use_type_invariant(&*self);
        }
        let ghost before = self.cells@;
        let n = self.cells.len();
        let mut i: usize = 0;
        while i < n
            invariant
                i <= n,
                self.cells.len() == n,
                before.len() == n,
                self.cells.len() == self.width * self.height,
                self.width == old(self).width,
                self.height == old(self).height,
                forall|k: int| 0 <= k < i ==> self.cells@[k] == tended_cell(before[k]),
                forall|k: int| i <= k < n ==> self.cells@[k] == before[k],
            decreases n - i,
        {
            let cell = self.cells[i];
            if cell.owner_id.is_some() && cell.terrain != Terrain::Capital && cell.terrain
                != Terrain::City {
                self.cells[i] = Cell { troops: cell.troops.saturating_add(1), ..cell };
            }
            i += 1;
        }
        assert(self.cells@ =~= before.map_values(|cell: Cell| tended_cell(cell)));
    }

    /// Counts the capitals on the grid.
    fn capitals(&self) -> (n: usize)
        ensures
            n == count_capitals(self@),
    {
        let mut n: usize = 0;
        let mut i: usize = 0;
        while i < self.cells.len()
            invariant
                i <= self.cells.len(),
                n <= i,
                n == count_terrain(self.cells@.take(i as int), Terrain::Capital),
            decreases self.cells.len() - i,
        {
            proof {
                assert(self.cells@.take(i + 1).drop_last() == self.cells@.take(i as int));
            }
            if self.cells[i].terrain == Terrain::Capital {
                n += 1;
            }
            i += 1;
        }
        proof {
            assert(self.cells@.take(self.cells.len() as int) == self.cells@);
        }
        n
    }

    /// Resolves a move of troops from cell `attacking_id` onto cell
    /// `defending_id`. A move that cannot happen changes nothing.
    pub fn tile_battle(&mut self, attacking_id: usize, defending_id: usize) -> (outcome:
        BattleOutcome)
        ensures
            final(self).spec_width() == old(self).spec_width(),
            final(self).spec_height() == old(self).spec_height(),
            final(self)@ == battle_cells(old(self)@, attacking_id as int, defending_id as int),
            outcome.defeated == battle_defeated(
                old(self)@,
                attacking_id as int,
                defending_id as int,
            ),
            outcome.game_over == battle_ends_game(
                old(self)@,
                attacking_id as int,
                defending_id as int,
            ),
    {
        proof {
            use_type_invariant(&*self);
        }
        let ghost before = self.cells@;
        let ghost a = attacking_id as int;
        let ghost d = defending_id as int;
        let n = self.cells.len();
        if attacking_id >= n || defending_id >= n || attacking_id == defending_id {
            assert(self.cells@ =~= battle_cells(before, a, d));
            return BattleOutcome { defeated: None, game_over: false };
        }
        let attacker = self.cells[attacking_id];
        let defender = self.cells[defending_id];
        if attacker.troops <= 1 || defender.terrain == Terrain::Mountain {
            assert(self.cells@ =~= battle_cells(before, a, d));
            return BattleOutcome { defeated: None, game_over: false };
        }
        let moving: u32 = attacker.troops - 1;
        self.cells[attacking_id] = Cell { troops: 1, ..attacker };

        let same_owner = match (attacker.owner_id, defender.owner_id) {
            (Some(atk_owner), Some(def_owner)) => atk_owner == def_owner,
            _ => false,
        };
        assert(same_owner == battle_merges(before, a, d));
        if same_owner {
            self.cells[defending_id] = Cell {
                troops: defender.troops.saturating_add(moving),
                ..defender
            };
            assert(self.cells@ =~= battle_cells(before, a, d));
            return BattleOutcome { defeated: None, game_over: false };
        }
        if moving <= defender.troops {
            let left: u32 = defender.troops - moving;
            self.cells[defending_id] = Cell {
                troops: left,
                owner_id: if left == 0 {
                    None
                } else {
                    defender.owner_id
                },
                ..defender
            };
            assert(self.cells@ =~= battle_cells(before, a, d));
            return BattleOutcome { defeated: None, game_over: false };
        }
        assert(battle_captures(before, a, d));
        let falls = defender.terrain == Terrain::Capital && defender.owner_id.is_some();
        assert(falls == capital_falls(before, a, d));
        self.cells[defending_id] = Cell {
            terrain: if falls {
                Terrain::City
            } else {
                defender.terrain
            },
            troops: moving - defender.troops,
            owner_id: attacker.owner_id,
        };
        if !falls {
            assert(self.cells@ =~= battle_cells(before, a, d));
            return BattleOutcome { defeated: None, game_over: false };
        }
        let mut i: usize = 0;
        while i < n
            invariant
                i <= n,
                n == before.len(),
                self.cells.len() == n,
                self.cells.len() == self.width * self.height,
                self.width == old(self).width,
                self.height == old(self).height,
                a == attacking_id,
                d == defending_id,
                0 <= a < n,
                0 <= d < n,
                capital_falls(before, a, d),
                attacker == before[a],
                defender == before[d],
                forall|k: int| 0 <= k < i ==> self.cells@[k] == battle_cell(before, a, d, k),
                forall|k: int|
                    i <= k < n && k != a && k != d ==> self.cells@[k] == before[k],
                self.cells@[a] == battle_cell(before, a, d, a),
                self.cells@[d] == battle_cell(before, a, d, d),
            decreases n - i,
        {
            if i != attacking_id && i != defending_id {
                let cell = self.cells[i];
                if cell.owner_id == defender.owner_id {
                    self.cells[i] = Cell { owner_id: attacker.owner_id, ..cell };
                }
            }
            i += 1;
        }
        assert(self.cells@ =~= battle_cells(before, a, d));
        let remaining = self.capitals();
        BattleOutcome { defeated: defender.owner_id, game_over: remaining == 1 }
    }
}

} // verus!
