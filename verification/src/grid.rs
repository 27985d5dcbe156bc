//! A rectangular grid of optional cells, stored row by row.

use vstd::prelude::*;
use crate::offset::{add_u32, shifted};

verus! {

/// A cell position: column `x`, row `y`.
#[derive(Debug, Clone, Copy, PartialEq, Eq, Structural, Hash)]
pub struct GridCoord {
    pub x: u32,
    pub y: u32,
}

impl GridCoord {
    pub fn new(x: u32, y: u32) -> (coord: Self)
        ensures
            coord == (GridCoord { x, y }),
    {
        GridCoord { x, y }
    }

    /// The position `dx` columns and `dy` rows away, where both moves are
    /// defined.
    pub open spec fn translated(self, dx: i32, dy: i32) -> Option<GridCoord> {
        match (shifted(self.x, dx), shifted(self.y, dy)) {
            (Some(x), Some(y)) => Some(GridCoord { x, y }),
            _ => None,
        }
    }

    pub fn translate(&self, dx: i32, dy: i32) -> (moved: Option<GridCoord>)
        ensures
            moved == self.translated(dx, dy),
    {
        let new_x = match add_u32(self.x, dx) {
            Some(v) => v,
            None => return None,
        };
        let new_y = match add_u32(self.y, dy) {
            Some(v) => v,
            None => return None,
        };
        Some(GridCoord::new(new_x, new_y))
    }
}

impl From<(u32, u32)> for GridCoord {
    fn from(pair: (u32, u32)) -> (coord: Self) {
        GridCoord { x: pair.0, y: pair.1 }
    }
}

impl vstd::std_specs::convert::FromSpecImpl<(u32, u32)> for GridCoord {
    open spec fn obeys_from_spec() -> bool {
        true
    }

    open spec fn from_spec(pair: (u32, u32)) -> GridCoord {
        GridCoord { x: pair.0, y: pair.1 }
    }
}

/// Every position inside a `width` by `height` rectangle has its own
/// index below `width * height`.
pub proof fn lemma_index_in_bounds(width: u32, height: u32, coords: GridCoord)
    requires
        coords.x < width,
        coords.y < height,
    ensures
        0 <= coords.y * width + coords.x < width * height,
{
    assert((coords.y + 1) * width <= height * width) by (nonlinear_arith)
        requires
            coords.y + 1 <= height,
    ;
    assert((coords.y + 1) * width == coords.y * width + width) by (nonlinear_arith);
    assert(0 <= coords.y * width) by (nonlinear_arith);
}

/// Two positions of one row-major layout that share an index are the same
/// position.
pub proof fn lemma_index_injective(width: u32, a: GridCoord, b: GridCoord)
    requires
        a.x < width,
        b.x < width,
        a.y * width + a.x == b.y * width + b.x,
    ensures
        a == b,
{
    if a.y < b.y {
        assert((a.y + 1) * width <= b.y * width) by (nonlinear_arith)
            requires
                a.y + 1 <= b.y,
        ;
        assert((a.y + 1) * width == a.y * width + width) by (nonlinear_arith);
    } else if b.y < a.y {
        assert((b.y + 1) * width <= a.y * width) by (nonlinear_arith)
            requires
                b.y + 1 <= a.y,
        ;
        assert((b.y + 1) * width == b.y * width + width) by (nonlinear_arith);
    }
}

/// How many more steps a coordinate can take in direction `delta` before
/// the move stops being defined.
pub open spec fn axis_left(value: u32, delta: i32) -> int {
    if value > i32::MAX {
        if delta > 0 {
            0x8000_0000
        } else {
            0
        }
    } else if delta > 0 {
        i32::MAX - value
    } else {
        value as int
    }
}

/// An upper bound on the steps a ray from `from` can still take: the
/// steps left along the first axis on which the direction moves.
pub open spec fn travel_left(from: GridCoord, dir_x: i32, dir_y: i32) -> int {
    if dir_x != 0 {
        axis_left(from.x, dir_x)
    } else {
        axis_left(from.y, dir_y)
    }
}

/// Every step of a moving ray uses up some of the travel that is left.
pub proof fn lemma_step_shrinks(from: GridCoord, dir_x: i32, dir_y: i32)
    requires
        dir_x != 0 || dir_y != 0,
    ensures
        0 <= travel_left(from, dir_x, dir_y) <= 0x8000_0000,
        from.translated(dir_x, dir_y) is Some ==> travel_left(
            from.translated(dir_x, dir_y)->0,
            dir_x,
            dir_y,
        ) < travel_left(from, dir_x, dir_y),
{
}

/// What a grid is to its contracts: its size and its cells, row by row.
pub struct GridView<T> {
    pub width: u32,
    pub height: u32,
    pub cells: Seq<Option<T>>,
}

impl<T> GridView<T> {
    /// The grid has exactly one cell per position, and every index fits
    /// in a `u32`.
    pub open spec fn wf(self) -> bool {
        &&& self.width * self.height <= u32::MAX
        &&& self.cells.len() == self.width * self.height
    }

    /// `coords` lies inside the grid.
    pub open spec fn contains(self, coords: GridCoord) -> bool {
        coords.x < self.width && coords.y < self.height
    }

    /// The index of `coords` in the row-major cell list.
    pub open spec fn index_of(self, coords: GridCoord) -> int {
        coords.y * self.width + coords.x
    }

    /// What the cell at `coords` holds.
    pub open spec fn cell(self, coords: GridCoord) -> Option<T>
        recommends
            self.wf(),
            self.contains(coords),
    {
        self.cells[self.index_of(coords)]
    }

    /// `coords` lies inside the grid and its cell holds a value.
    pub open spec fn occupied(self, coords: GridCoord) -> bool {
        self.contains(coords) && self.cell(coords) is Some
    }

    /// This grid with the cell at `coords` replaced by `value`.
    pub open spec fn with_cell(self, coords: GridCoord, value: Option<T>) -> GridView<T> {
        GridView {
            width: self.width,
            height: self.height,
            cells: self.cells.update(self.index_of(coords), value),
        }
    }

    /// What the `slot`-th of the nine surrounding offsets contributes to
    /// the neighbours of `coords`. Slots run row by row from offset
    /// `(-1, -1)` to `(1, 1)`; slot 4 is the cell itself and contributes
    /// nothing, as does a position that falls outside the grid.
    pub open spec fn neighbour_at(self, coords: GridCoord, slot: int) -> Seq<GridCoord> {
        let dx = (slot % 3 - 1) as i32;
        let dy = (slot / 3 - 1) as i32;
        if slot == 4 {
            Seq::empty()
        } else {
            match coords.translated(dx, dy) {
                Some(near) => if self.contains(near) {
                    seq![near]
                } else {
                    Seq::empty()
                },
                None => Seq::empty(),
            }
        }
    }

    /// The neighbours contributed by the first `slots` offsets, in order.
    pub open spec fn neighbours_upto(self, coords: GridCoord, slots: nat) -> Seq<GridCoord>
        decreases slots,
    {
        if slots == 0 {
            Seq::empty()
        } else {
            self.neighbours_upto(coords, (slots - 1) as nat) + self.neighbour_at(
                coords,
                slots - 1,
            )
        }
    }

    /// The positions inside the grid that touch `coords` by a side or a
    /// corner, row by row and left to right within a row.
    pub open spec fn neighbours(self, coords: GridCoord) -> Seq<GridCoord> {
        self.neighbours_upto(coords, 9)
    }

    /// One step of a ray: the position `(dir_x, dir_y)` away from `from`,
    /// if it is an occupied cell of the grid.
    pub open spec fn ray_step(self, from: GridCoord, dir_x: i32, dir_y: i32) -> Option<
        GridCoord,
    > {
        match from.translated(dir_x, dir_y) {
            Some(next) => if self.occupied(next) {
                Some(next)
            } else {
                None
            },
            None => None,
        }
    }

    /// The ray cast from `pos` in a direction that moves: the cell one
    /// step away, if a step can be taken, followed by the ray from there.
    pub open spec fn moving_ray(self, pos: GridCoord, dir_x: i32, dir_y: i32) -> Seq<GridCoord>
        decreases travel_left(pos, dir_x, dir_y),
        when dir_x != 0 || dir_y != 0
    {
        match self.ray_step(pos, dir_x, dir_y) {
            Some(next) => seq![next] + self.moving_ray(next, dir_x, dir_y),
            None => Seq::empty(),
        }
    }

    /// The occupied cells met when walking from `pos` in steps of
    /// `(dir_x, dir_y)`, up to the first step that leaves the grid or
    /// reaches an empty cell. `pos` itself is not part of the ray, and a
    /// ray that does not move is empty.
    pub open spec fn ray(self, pos: GridCoord, dir_x: i32, dir_y: i32) -> Seq<GridCoord> {
        if dir_x == 0 && dir_y == 0 {
            Seq::empty()
        } else {
            self.moving_ray(pos, dir_x, dir_y)
        }
    }

    /// Every neighbour contributed by the first `slots` offsets lies
    /// inside the grid.
    pub proof fn lemma_neighbours_upto_inside(self, coords: GridCoord, slots: nat)
        ensures
            forall|k: int|
                0 <= k < self.neighbours_upto(coords, slots).len() ==> self.contains(
                    #[trigger] self.neighbours_upto(coords, slots)[k],
                ),
        decreases slots,
    {
        if slots > 0 {
            self.lemma_neighbours_upto_inside(coords, (slots - 1) as nat);
            let before = self.neighbours_upto(coords, (slots - 1) as nat);
            let added = self.neighbour_at(coords, slots - 1);
            let whole = self.neighbours_upto(coords, slots);
            assert(whole == before + added);
            assert forall|k: int| 0 <= k < whole.len() implies self.contains(
                #[trigger] whole[k],
            ) by {
                if k < before.len() {
                    assert(whole[k] == before[k]);
                } else {
                    assert(whole[k] == added[k - before.len()]);
                }
            }
        }
    }

    /// Every neighbour of a position lies inside the grid.
    pub proof fn lemma_neighbours_inside(self, coords: GridCoord)
        ensures
            forall|k: int|
                0 <= k < self.neighbours(coords).len() ==> self.contains(
                    #[trigger] self.neighbours(coords)[k],
                ),
    {
        self.lemma_neighbours_upto_inside(coords, 9);
    }

    /// Whatever a slot contributes is among the neighbours gathered up to
    /// any later slot.
    pub proof fn lemma_neighbours_upto_keeps(self, coords: GridCoord, slot: int, slots: nat)
        requires
            0 <= slot < slots,
        ensures
            forall|k: int|
                0 <= k < self.neighbour_at(coords, slot).len() ==> self.neighbours_upto(
                    coords,
                    slots,
                ).contains(#[trigger] self.neighbour_at(coords, slot)[k]),
        decreases slots,
    {
        let before = self.neighbours_upto(coords, (slots - 1) as nat);
        let added = self.neighbour_at(coords, slots - 1);
        let whole = self.neighbours_upto(coords, slots);
        assert(whole == before + added);
        if slot < slots - 1 {
            self.lemma_neighbours_upto_keeps(coords, slot, (slots - 1) as nat);
            let given = self.neighbour_at(coords, slot);
            assert forall|k: int| 0 <= k < given.len() implies whole.contains(
                #[trigger] given[k],
            ) by {
                let near = given[k];
                let at = choose|at: int| 0 <= at < before.len() && before[at] == near;
                assert(whole[at] == near);
            }
        } else {
            assert forall|k: int| 0 <= k < added.len() implies whole.contains(
                #[trigger] added[k],
            ) by {
                assert(whole[before.len() + k] == added[k]);
            }
        }
    }

    /// Every neighbour gathered up to some slot was contributed by one of
    /// the slots before it.
    pub proof fn lemma_neighbours_upto_source(self, coords: GridCoord, slots: nat, near: GridCoord)
        requires
            self.neighbours_upto(coords, slots).contains(near),
        ensures
            exists|slot: int|
                0 <= slot < slots && #[trigger] self.neighbour_at(coords, slot) == seq![near],
        decreases slots,
    {
        if slots > 0 {
            let before = self.neighbours_upto(coords, (slots - 1) as nat);
            let added = self.neighbour_at(coords, slots - 1);
            let whole = self.neighbours_upto(coords, slots);
            assert(whole == before + added);
            let at = choose|at: int| 0 <= at < whole.len() && whole[at] == near;
            if at < before.len() {
                assert(before[at] == near);
                self.lemma_neighbours_upto_source(coords, (slots - 1) as nat, near);
            } else {
                assert(added[at - before.len()] == near);
                assert(added =~= seq![near]);
                assert(self.neighbour_at(coords, slots - 1) == seq![near]);
            }
        }
    }

    /// `near` touches `coords`: it is one column or none, and one row or
    /// none, away from it, and is not `coords` moved by nothing.
    pub open spec fn touches(coords: GridCoord, near: GridCoord) -> bool {
        exists|dx: i32, dy: i32|
            -1 <= dx <= 1 && -1 <= dy <= 1 && (dx != 0 || dy != 0) && #[trigger] coords.translated(
                dx,
                dy,
            ) == Some(near)
    }

    /// The neighbours of a position are exactly the positions inside the
    /// grid that touch it.
    pub proof fn lemma_neighbours_are_touching(self, coords: GridCoord, near: GridCoord)
        ensures
            self.neighbours(coords).contains(near) <==> self.contains(near) && Self::touches(
                coords,
                near,
            ),
    {
        if self.neighbours(coords).contains(near) {
            self.lemma_neighbours_inside(coords);
            self.lemma_neighbours_upto_source(coords, 9, near);
            let slot = choose|slot: int|
                0 <= slot < 9 && #[trigger] self.neighbour_at(coords, slot) == seq![near];
            let dx = (slot % 3 - 1) as i32;
            let dy = (slot / 3 - 1) as i32;
            assert(self.neighbour_at(coords, slot)[0] == near);
            assert(slot != 4);
            assert(coords.translated(dx, dy) == Some(near));
            assert(dx != 0 || dy != 0);
        }
        if self.contains(near) && Self::touches(coords, near) {
            let (dx, dy) = choose|dx: i32, dy: i32|
                -1 <= dx <= 1 && -1 <= dy <= 1 && (dx != 0 || dy != 0)
                    && #[trigger] coords.translated(dx, dy) == Some(near);
            let slot = (dy + 1) * 3 + (dx + 1);
            assert(slot % 3 - 1 == dx && slot / 3 - 1 == dy);
            assert(slot != 4);
            assert(self.neighbour_at(coords, slot) == seq![near]);
            self.lemma_neighbours_upto_keeps(coords, slot, 9);
            assert(self.neighbour_at(coords, slot)[0] == near);
        }
    }

    /// The cells of a ray follow one another: each is one step from the
    /// cell before it, the first one step from `pos`, and from the last
    /// no further step can be taken.
    pub proof fn lemma_ray_steps(self, pos: GridCoord, dir_x: i32, dir_y: i32)
        requires
            dir_x != 0 || dir_y != 0,
        ensures
            forall|k: int|
                0 <= k < self.ray(pos, dir_x, dir_y).len() ==> self.ray_step(
                    if k == 0 {
                        pos
                    } else {
                        self.ray(pos, dir_x, dir_y)[k - 1]
                    },
                    dir_x,
                    dir_y,
                ) == Some(#[trigger] self.ray(pos, dir_x, dir_y)[k]),
            self.ray_step(
                if self.ray(pos, dir_x, dir_y).len() == 0 {
                    pos
                } else {
                    self.ray(pos, dir_x, dir_y).last()
                },
                dir_x,
                dir_y,
            ) is None,
        decreases travel_left(pos, dir_x, dir_y),
    {
        lemma_step_shrinks(pos, dir_x, dir_y);
        match self.ray_step(pos, dir_x, dir_y) {
            Some(next) => {
                self.lemma_ray_steps(next, dir_x, dir_y);
                let rest = self.ray(next, dir_x, dir_y);
                let whole = self.ray(pos, dir_x, dir_y);
                assert(whole == seq![next] + rest);
                assert forall|k: int| 0 <= k < whole.len() implies self.ray_step(
                    if k == 0 {
                        pos
                    } else {
                        whole[k - 1]
                    },
                    dir_x,
                    dir_y,
                ) == Some(#[trigger] whole[k]) by {
                    if k > 0 {
                        assert(whole[k] == rest[k - 1]);
                        if k > 1 {
                            assert(whole[k - 1] == rest[k - 2]);
                        }
                    }
                }
                if rest.len() > 0 {
                    assert(whole.last() == rest.last());
                }
            },
            None => {},
        }
    }

    /// Where no coordinate reaches 2^31, the `k`-th cell of a ray lies
    /// `k + 1` whole steps from where the ray was cast.
    pub proof fn lemma_ray_positions(self, pos: GridCoord, dir_x: i32, dir_y: i32, k: int)
        requires
            self.width <= 0x8000_0000,
            self.height <= 0x8000_0000,
            pos.x <= i32::MAX,
            pos.y <= i32::MAX,
            dir_x != 0 || dir_y != 0,
            0 <= k < self.ray(pos, dir_x, dir_y).len(),
        ensures
            self.ray(pos, dir_x, dir_y)[k].x == pos.x + (k + 1) * dir_x,
            self.ray(pos, dir_x, dir_y)[k].y == pos.y + (k + 1) * dir_y,
        decreases k,
    {
        let cells = self.ray(pos, dir_x, dir_y);
        self.lemma_ray_steps(pos, dir_x, dir_y);
        self.lemma_ray_occupied(pos, dir_x, dir_y);
        if k == 0 {
            assert(self.ray_step(pos, dir_x, dir_y) == Some(cells[0]));
        } else {
            self.lemma_ray_positions(pos, dir_x, dir_y, k - 1);
            assert(self.occupied(cells[k - 1]));
            assert(self.ray_step(cells[k - 1], dir_x, dir_y) == Some(cells[k]));
            assert((k + 1) * dir_x == k * dir_x + dir_x) by (nonlinear_arith);
            assert((k + 1) * dir_y == k * dir_y + dir_y) by (nonlinear_arith);
        }
    }

    /// Replacing the cell at a position inside the grid changes that cell
    /// and no other, and keeps the grid well formed.
    pub proof fn lemma_with_cell(self, coords: GridCoord, value: Option<T>)
        requires
            self.wf(),
            self.contains(coords),
        ensures
            self.with_cell(coords, value).wf(),
            self.with_cell(coords, value).cell(coords) == value,
            forall|other: GridCoord|
                self.contains(other) && other != coords ==> self.with_cell(coords, value).cell(
                    other,
                ) == self.cell(other),
            self.with_cell(coords, value).with_cell(coords, self.cell(coords)) == self,
    {
        lemma_index_in_bounds(self.width, self.height, coords);
        let changed = self.with_cell(coords, value);
        assert forall|other: GridCoord|
            self.contains(other) && other != coords implies changed.cell(other) == self.cell(
            other,
        ) by {
            lemma_index_in_bounds(self.width, self.height, other);
            if self.index_of(other) == self.index_of(coords) {
                lemma_index_injective(self.width, other, coords);
            }
        }
        assert(self.with_cell(coords, value).with_cell(coords, self.cell(coords)).cells
            =~= self.cells);
    }

    /// Every cell of a ray is an occupied cell of the grid.
    pub proof fn lemma_ray_occupied(self, pos: GridCoord, dir_x: i32, dir_y: i32)
        ensures
            forall|k: int|
                0 <= k < self.ray(pos, dir_x, dir_y).len() ==> self.occupied(
                    #[trigger] self.ray(pos, dir_x, dir_y)[k],
                ),
        decreases travel_left(pos, dir_x, dir_y),
    {
        if dir_x != 0 || dir_y != 0 {
            lemma_step_shrinks(pos, dir_x, dir_y);
            match self.ray_step(pos, dir_x, dir_y) {
                Some(next) => {
                    self.lemma_ray_occupied(next, dir_x, dir_y);
                    let rest = self.ray(next, dir_x, dir_y);
                    let whole = self.ray(pos, dir_x, dir_y);
                    assert(whole == seq![next] + rest);
                    assert forall|k: int| 0 <= k < whole.len() implies self.occupied(
                        #[trigger] whole[k],
                    ) by {
                        if k > 0 {
                            assert(whole[k] == rest[k - 1]);
                        }
                    }
                },
                None => {},
            }
        }
    }
}

/// A grid of `width` columns and `height` rows whose cells each hold a
/// value or nothing. Cells are stored row by row: position `(x, y)` is at
/// index `y * width + x` of `list`.
#[derive(Debug, Clone)]
pub struct Grid<T> {
    pub width: u32,
    pub height: u32,
    pub list: Vec<Option<T>>,
}

impl<T> View for Grid<T> {
    type V = GridView<T>;

    open spec fn view(&self) -> GridView<T> {
        GridView { width: self.width, height: self.height, cells: self.list@ }
    }
}

impl<T> Grid<T> {
    /// A grid of the given size with every cell empty.
    pub fn new(width: u32, height: u32) -> (grid: Self)
        requires
            width * height <= u32::MAX,
        ensures
            grid@.wf(),
            grid@ == (GridView {
                width,
                height,
                cells: Seq::new((width * height) as nat, |i: int| None::<T>),
            }),
    {
        let mut list: Vec<Option<T>> = Vec::new();
        let total: u32 = width * height;
        let mut filled: u32 = 0;
        while filled < total
            invariant
                filled <= total,
                list.len() == filled,
                forall|i: int| 0 <= i < list.len() ==> list@[i] is None,
            decreases total - filled,
        {
            list.push(None);
            filled = filled + 1;
        }
        assert(list@ =~= Seq::new((width * height) as nat, |i: int| None::<T>));
        Grid { width, height, list }
    }

    /// Overwrites the cell at `index` of the row-major list.
    pub fn set(&mut self, index: u32, value: Option<T>)
        requires
            index < old(self)@.cells.len(),
        ensures
            final(self)@ == (GridView {
                cells: old(self)@.cells.update(index as int, value),
                ..old(self)@
            }),
    {
        self.list.set(index as usize, value);
    }

    /// Overwrites the cell at `coord` and leaves every other cell alone.
    pub fn set_at(&mut self, coord: GridCoord, value: Option<T>)
        requires
            old(self)@.wf(),
            old(self)@.contains(coord),
        ensures
            final(self)@ == old(self)@.with_cell(coord, value),
            final(self)@.wf(),
            final(self)@.cell(coord) == value,
            forall|other: GridCoord|
                old(self)@.contains(other) && other != coord ==> final(self)@.cell(other) == old(
                    self,
                )@.cell(other),
    {
        proof {
            lemma_index_in_bounds(self.width, self.height, coord);
            self@.lemma_with_cell(coord, value);
        }
        let index = self.coords_to_index(coord);
        self.list.set(index as usize, value);
    }

    /// The value at `index` of the row-major list, if the cell holds one.
    pub fn get(&self, index: u32) -> (value: Option<&T>)
        requires
            index < self@.cells.len(),
        ensures
            value is Some <==> self@.cells[index as int] is Some,
            value is Some ==> *value->0 == self@.cells[index as int]->0,
    {
        self.list[index as usize].as_ref()
    }

    /// The value at `coord`, if the cell holds one.
    pub fn get_at(&self, coord: GridCoord) -> (value: Option<&T>)
        requires
            self@.wf(),
            self@.contains(coord),
        ensures
            value is Some <==> self@.cell(coord) is Some,
            value is Some ==> *value->0 == self@.cell(coord)->0,
    {
        proof {
            lemma_index_in_bounds(self.width, self.height, coord);
        }
        let index = self.coords_to_index(coord);
        self.list[index as usize].as_ref()
    }

    /// Whether `coords` lies inside the grid.
    pub fn is_valid_coords(&self, coords: GridCoord) -> (inside: bool)
        ensures
            inside == self@.contains(coords),
    {
        coords.x < self.width && coords.y < self.height
    }

    /// The positions inside the grid that touch `coords`.
    pub fn get_neighbours(&self, coords: GridCoord) -> (result: Vec<GridCoord>)
        ensures
            result@ == self@.neighbours(coords),
    {
        let mut result: Vec<GridCoord> = Vec::new();
        let mut dy: i32 = -1;
        while dy <= 1
            invariant
                -1 <= dy <= 2,
                result@ == self@.neighbours_upto(coords, ((dy + 1) * 3) as nat),
            decreases 2 - dy,
        {
            let mut dx: i32 = -1;
            while dx <= 1
                invariant
                    -1 <= dy <= 1,
                    -1 <= dx <= 2,
                    result@ == self@.neighbours_upto(coords, ((dy + 1) * 3 + dx + 1) as nat),
                decreases 2 - dx,
            {
                let ghost slot: int = (dy + 1) * 3 + dx + 1;
                assert(slot % 3 - 1 == dx && slot / 3 - 1 == dy);
                assert(self@.neighbours_upto(coords, (slot + 1) as nat) == self@.neighbours_upto(
                    coords,
                    slot as nat,
                ) + self@.neighbour_at(coords, slot));
                if dx != 0 || dy != 0 {
                    match coords.translate(dx, dy) {
                        Some(near) => {
                            if near.x < self.width && near.y < self.height {
                                result.push(near);
                                assert(result@ == self@.neighbours_upto(coords, slot as nat) + seq![
                                    near,
                                ]);
                            }
                        },
                        None => {},
                    }
                }
                assert(result@ == self@.neighbours_upto(coords, (slot + 1) as nat));
                dx = dx + 1;
            }
            dy = dy + 1;
        }
        result
    }

    /// Walks from `pos` in steps of `(dir_x, dir_y)` and collects the
    /// occupied cells met, stopping before the first step that leaves the
    /// grid or reaches an empty cell. `pos` itself is not collected.
    ///
    /// A walk that does not move would never end on an occupied cell, so a
    /// zero direction is accepted only where `pos` is not occupied.
    pub fn raytrace(&self, pos: GridCoord, dir_x: i32, dir_y: i32) -> (cells: Vec<GridCoord>)
        requires
            self@.wf(),
            dir_x != 0 || dir_y != 0 || !self@.occupied(pos),
        ensures
            cells@ == self@.ray(pos, dir_x, dir_y),
            cells.len() <= 0x8000_0000,
    {
        let mut current = pos;
        let mut result: Vec<GridCoord> = Vec::new();
        if dir_x == 0 && dir_y == 0 {
            return result;
        }
        loop
            invariant_except_break
                self@.ray(pos, dir_x, dir_y) == result@ + self@.moving_ray(current, dir_x, dir_y),
            invariant
                self@.wf(),
                dir_x != 0 || dir_y != 0,
                result.len() + travel_left(current, dir_x, dir_y) <= 0x8000_0000,
            ensures
                result@ == self@.ray(pos, dir_x, dir_y),
                result.len() <= 0x8000_0000,
            decreases travel_left(current, dir_x, dir_y),
        {
            proof {
                lemma_step_shrinks(current, dir_x, dir_y);
            }
            let next = match current.translate(dir_x, dir_y) {
                Some(next) => next,
                None => {
                    break ;
                },
            };
            if !self.is_valid_coords(next) {
                break ;
            }
            if self.get_at(next).is_none() {
                break ;
            }
            proof {
                let rest = self@.moving_ray(next, dir_x, dir_y);
                assert(result@.push(next) + rest =~= result@ + (seq![next] + rest));
            }
            result.push(next);
            current = next;
        }
        result
    }

    /// The row-major index of `coords`.
    pub fn coords_to_index(&self, coords: GridCoord) -> (index: u32)
        requires
            coords.y * self.width + coords.x <= u32::MAX,
        ensures
            index == self@.index_of(coords),
    {
        assert(0 <= coords.y * self.width <= coords.y * self.width + coords.x) by (nonlinear_arith);
        coords.y * self.width + coords.x
    }
}

} // verus!
