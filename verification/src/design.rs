//! A ship layout: a grid of placed components, kept valid against the
//! placement rules of a component catalogue.

use vstd::prelude::*;
use crate::grid::{lemma_index_in_bounds, Grid, GridCoord, GridView};
use crate::repository::{ComponentDef, ComponentId, ShipDesignRepository};

verus! {

/// Why a cell of a layout breaks the placement rules.
#[derive(Debug, Clone, Copy, PartialEq, Eq, Structural)]
pub enum ComponentErrorKind {
    /// The position lies outside the layout.
    InvalidCoords,
    /// The component must reach column 0 through cells of its own kind.
    RequireBackBorder,
    /// The component must reach the last column through cells of its own
    /// kind.
    RequireFrontBorder,
    /// The component touches another kind and neither may connect rooms.
    BorderOthers,
    /// The component sits on the outer edge and may not.
    BorderExternal,
}

/// A rule violation and the cell where it was found.
#[derive(Debug, Clone, Copy, PartialEq, Eq, Structural)]
pub struct ComponentError {
    pub coords: GridCoord,
    pub kind: ComponentErrorKind,
}

/// A signed position or offset on a layout.
#[derive(Debug, Clone, Copy, PartialEq, Eq, Structural)]
pub struct P2 {
    pub x: i32,
    pub y: i32,
}

impl P2 {
    pub fn new(x: i32, y: i32) -> (point: Self)
        ensures
            point == (P2 { x, y }),
    {
        P2 { x, y }
    }
}

/// The size of a layout.
#[derive(Debug, Clone, Copy, PartialEq, Eq, Structural)]
pub struct Size {
    pub width: u32,
    pub height: u32,
}

impl Size {
    pub fn new(width: u32, height: u32) -> (size: Self)
        ensures
            size == (Size { width, height }),
    {
        Size { width, height }
    }
}

/// A component placed in a cell.
#[derive(Debug, Clone, Copy, PartialEq, Eq, Structural)]
pub struct ComponentAt {
    pub coords: GridCoord,
    pub component_id: ComponentId,
}

/// The cells of a layout, as the contracts see them.
pub type LayoutView = GridView<ComponentAt>;

/// Every component placed in `grid` is an entry of `defs`.
pub open spec fn ids_known(grid: LayoutView, defs: Seq<ComponentDef>) -> bool {
    forall|i: int|
        0 <= i < grid.cells.len() && grid.cells[i] is Some ==> (
        #[trigger] grid.cells[i])->0.component_id < defs.len()
}

/// The cell at `coords` holds a component of kind `id`.
pub open spec fn holds_kind(grid: LayoutView, coords: GridCoord, id: ComponentId) -> bool {
    grid.cell(coords) is Some && grid.cell(coords)->0.component_id == id
}

/// How many cells of the ray cast from `coords` hold a component of kind
/// `id`.
pub open spec fn reach(
    grid: LayoutView,
    coords: GridCoord,
    dir_x: i32,
    dir_y: i32,
    id: ComponentId,
) -> nat {
    grid.ray(coords, dir_x, dir_y).filter(|cell: GridCoord| holds_kind(grid, cell, id)).len()
}

/// The cell at `near` holds a component of another kind than `id`, one
/// that does not connect rooms.
pub open spec fn clashes(
    grid: LayoutView,
    defs: Seq<ComponentDef>,
    near: GridCoord,
    id: ComponentId,
) -> bool {
    &&& grid.cell(near) is Some
    &&& grid.cell(near)->0.component_id != id
    &&& !defs[grid.cell(near)->0.component_id as int].properties.connect_rooms
}

/// Some neighbour of `coords` clashes with a component of kind `id`.
pub open spec fn has_clash(
    grid: LayoutView,
    defs: Seq<ComponentDef>,
    coords: GridCoord,
    id: ComponentId,
) -> bool {
    exists|k: int|
        0 <= k < grid.neighbours(coords).len() && clashes(
            grid,
            defs,
            #[trigger] grid.neighbours(coords)[k],
            id,
        )
}

/// `coords` lies on a part of the outer edge that a component kind may
/// occupy only if it connects to the outside: the first and last rows,
/// the first column unless the kind must reach the back, and the last
/// column unless it must reach the front.
pub open spec fn on_closed_edge(grid: LayoutView, def: ComponentDef, coords: GridCoord) -> bool {
    ||| coords.y == 0
    ||| coords.y == grid.height - 1
    ||| (coords.x == 0 && !def.properties.require_border_back)
    ||| (coords.x == grid.width - 1 && !def.properties.require_border_front)
}

/// The rule that the cell at `coords` breaks, if any. Rules are tried in
/// a fixed order and the first broken one is reported: position inside
/// the layout, outer edge, run to the back, run to the front, clashing
/// neighbours. An empty cell breaks no rule.
pub open spec fn cell_violation(
    grid: LayoutView,
    defs: Seq<ComponentDef>,
    coords: GridCoord,
) -> Option<ComponentErrorKind> {
    if !grid.contains(coords) {
        Some(ComponentErrorKind::InvalidCoords)
    } else {
        match grid.cell(coords) {
            None => None,
            Some(placed) => {
                let id = placed.component_id;
                let def = defs[id as int];
                if !def.properties.connect_outside && on_closed_edge(grid, def, coords) {
                    Some(ComponentErrorKind::BorderExternal)
                } else if def.properties.require_border_back && reach(grid, coords, -1i32, 0, id)
                    != coords.x {
                    Some(ComponentErrorKind::RequireBackBorder)
                } else if def.properties.require_border_front && reach(grid, coords, 1, 0, id)
                    != grid.width - coords.x - 1 {
                    Some(ComponentErrorKind::RequireFrontBorder)
                } else if !def.properties.connect_rooms && has_clash(grid, defs, coords, id) {
                    Some(ComponentErrorKind::BorderOthers)
                } else {
                    None
                }
            },
        }
    }
}

/// `a` comes before `b` when cells are read row by row.
pub open spec fn reads_before(a: GridCoord, b: GridCoord) -> bool {
    a.y < b.y || (a.y == b.y && a.x < b.x)
}

/// No cell of `grid` breaks a placement rule.
pub open spec fn is_sound(grid: LayoutView, defs: Seq<ComponentDef>) -> bool {
    forall|coords: GridCoord|
        grid.contains(coords) ==> #[trigger] cell_violation(grid, defs, coords) is None
}

/// `error` reports the first cell of `grid`, reading row by row, that
/// breaks a placement rule, with the rule it breaks.
pub open spec fn is_first_violation(
    grid: LayoutView,
    defs: Seq<ComponentDef>,
    error: ComponentError,
) -> bool {
    &&& grid.contains(error.coords)
    &&& cell_violation(grid, defs, error.coords) == Some(error.kind)
    &&& forall|coords: GridCoord|
        grid.contains(coords) && reads_before(coords, error.coords) ==> #[trigger] cell_violation(
            grid,
            defs,
            coords,
        ) is None
}

/// What a cell holds after component `component_id` (or nothing) is set
/// at `coords`.
pub open spec fn placed_value(coords: GridCoord, component_id: Option<ComponentId>) -> Option<
    ComponentAt,
> {
    match component_id {
        Some(id) => Some(ComponentAt { coords, component_id: id }),
        None => None,
    }
}

/// A layout with no component placed breaks no rule, whatever the
/// catalogue.
pub proof fn lemma_empty_layout_is_sound(grid: LayoutView, defs: Seq<ComponentDef>)
    requires
        grid.wf(),
        forall|i: int| 0 <= i < grid.cells.len() ==> grid.cells[i] is None,
    ensures
        ids_known(grid, defs),
        is_sound(grid, defs),
{
    assert forall|coords: GridCoord| grid.contains(coords) implies #[trigger] cell_violation(
        grid,
        defs,
        coords,
    ) is None by {
        lemma_index_in_bounds(grid.width, grid.height, coords);
    }
}

/// A filter keeps a whole sequence exactly when every element passes.
pub proof fn lemma_filter_keeps_all<A>(items: Seq<A>, pred: spec_fn(A) -> bool)
    ensures
        items.filter(pred).len() <= items.len(),
        items.filter(pred).len() == items.len() <==> forall|i: int|
            0 <= i < items.len() ==> pred(#[trigger] items[i]),
    decreases items.len(),
{
    items.lemma_filter_len(pred);
    if items.len() > 0 {
        let rest = items.drop_last();
        lemma_filter_keeps_all(rest, pred);
        assert(items =~= rest.push(items.last()));
        rest.lemma_filter_len_push(pred, items.last());
        if forall|i: int| 0 <= i < items.len() ==> pred(#[trigger] items[i]) {
            assert forall|i: int| 0 <= i < rest.len() implies pred(#[trigger] rest[i]) by {
                assert(rest[i] == items[i]);
            }
            assert(pred(items[items.len() - 1]));
        }
        if items.filter(pred).len() == items.len() {
            assert forall|i: int| 0 <= i < items.len() implies pred(#[trigger] items[i]) by {
                if i < rest.len() {
                    assert(rest[i] == items[i]);
                }
            }
        }
    }
}

/// The cell `steps` columns from `coords` along its row, towards the
/// front for a positive `side` and towards the back for a negative one.
pub open spec fn along_row(coords: GridCoord, side: i32, steps: int) -> GridCoord {
    GridCoord {
        x: (if side > 0 {
            coords.x + steps
        } else {
            coords.x - steps
        }) as u32,
        y: coords.y,
    }
}

/// How many cells lie between `coords` and the edge of the layout on the
/// given side of its row.
pub open spec fn cells_to_edge(grid: LayoutView, coords: GridCoord, side: i32) -> int {
    if side > 0 {
        grid.width - coords.x - 1
    } else {
        coords.x as int
    }
}

/// The ray cast along a row holds the cells next to where it starts, one
/// after another, and ends at the edge of the layout at the latest.
pub proof fn lemma_row_ray_cells(grid: LayoutView, coords: GridCoord, side: i32)
    requires
        grid.wf(),
        grid.contains(coords),
        grid.width <= 0x8000_0000,
        grid.height <= 0x8000_0000,
        side == 1 || side == -1,
    ensures
        grid.ray(coords, side, 0).len() <= cells_to_edge(grid, coords, side),
        forall|k: int|
            0 <= k < grid.ray(coords, side, 0).len() ==> #[trigger] grid.ray(coords, side, 0)[k]
                == along_row(coords, side, k + 1),
{
    let cells = grid.ray(coords, side, 0);
    grid.lemma_ray_occupied(coords, side, 0);
    assert forall|k: int| 0 <= k < cells.len() implies #[trigger] cells[k] == along_row(
        coords,
        side,
        k + 1,
    ) by {
        grid.lemma_ray_positions(coords, side, 0, k);
        assert((k + 1) * 0 == 0);
        if side == 1 {
            assert((k + 1) * 1 == k + 1);
        } else {
            assert((k + 1) * (-1) == -(k + 1));
        }
    }
    if cells.len() > 0 {
        let k = cells.len() - 1;
        grid.lemma_ray_positions(coords, side, 0, k);
        if side == 1 {
            assert((k + 1) * 1 == k + 1);
        } else {
            assert((k + 1) * (-1) == -(k + 1));
        }
        assert(grid.occupied(cells[k]));
    }
}

/// What the two run rules ask for: the run of kind `id` from a cell
/// reaches the edge of the layout exactly when every cell between that
/// cell and the edge holds a component of kind `id`.
pub proof fn lemma_run_reaches_edge(grid: LayoutView, coords: GridCoord, side: i32, id: ComponentId)
    requires
        grid.wf(),
        grid.contains(coords),
        grid.width <= 0x8000_0000,
        grid.height <= 0x8000_0000,
        side == 1 || side == -1,
    ensures
        reach(grid, coords, side, 0, id) <= cells_to_edge(grid, coords, side),
        reach(grid, coords, side, 0, id) == cells_to_edge(grid, coords, side) <==> forall|
            steps: int,
        |
            1 <= steps <= cells_to_edge(grid, coords, side) ==> holds_kind(
                grid,
                #[trigger] along_row(coords, side, steps),
                id,
            ),
{
    let cells = grid.ray(coords, side, 0);
    let span = cells_to_edge(grid, coords, side);
    let same_kind = |cell: GridCoord| holds_kind(grid, cell, id);
    lemma_row_ray_cells(grid, coords, side);
    lemma_filter_keeps_all(cells, same_kind);
    let all_hold = forall|steps: int|
        1 <= steps <= span ==> holds_kind(grid, #[trigger] along_row(coords, side, steps), id);
    if reach(grid, coords, side, 0, id) == span {
        assert(cells.len() == span);
        assert forall|steps: int| 1 <= steps <= span implies holds_kind(
            grid,
            #[trigger] along_row(coords, side, steps),
            id,
        ) by {
            assert(cells[steps - 1] == along_row(coords, side, steps));
            assert(same_kind(cells[steps - 1]));
        }
    }
    if all_hold {
        if cells.len() < span {
            lemma_row_ray_stops_at_gap(grid, coords, side);
            assert(holds_kind(grid, along_row(coords, side, cells.len() as int + 1), id));
        }
        assert forall|k: int| 0 <= k < cells.len() implies same_kind(#[trigger] cells[k]) by {
            assert(cells[k] == along_row(coords, side, k + 1));
            assert(holds_kind(grid, along_row(coords, side, k + 1), id));
        }
    }
}

/// Short of the edge, one step along a row leads to the next cell of the
/// row, which lies inside the layout.
pub proof fn lemma_row_step(grid: LayoutView, coords: GridCoord, side: i32, steps: int)
    requires
        grid.contains(coords),
        grid.width <= 0x8000_0000,
        grid.height <= 0x8000_0000,
        side == 1 || side == -1,
        0 <= steps < cells_to_edge(grid, coords, side),
    ensures
        along_row(coords, side, steps).translated(side, 0) == Some(
            along_row(coords, side, steps + 1),
        ),
        grid.contains(along_row(coords, side, steps + 1)),
{
}

/// Where a ray cast along a row stops short of the edge, the cell after
/// its last holds nothing.
pub proof fn lemma_row_ray_stops_at_gap(grid: LayoutView, coords: GridCoord, side: i32)
    requires
        grid.wf(),
        grid.contains(coords),
        grid.width <= 0x8000_0000,
        grid.height <= 0x8000_0000,
        side == 1 || side == -1,
        grid.ray(coords, side, 0).len() < cells_to_edge(grid, coords, side),
    ensures
        !grid.occupied(along_row(coords, side, grid.ray(coords, side, 0).len() as int + 1)),
{
    let cells = grid.ray(coords, side, 0);
    let reached = cells.len() as int;
    let last = if reached == 0 {
        coords
    } else {
        cells.last()
    };
    assert(last == along_row(coords, side, reached)) by {
        lemma_row_ray_cells(grid, coords, side);
        if reached > 0 {
            assert(cells[reached - 1] == along_row(coords, side, reached));
        }
    }
    assert(grid.ray_step(last, side, 0) is None) by {
        grid.lemma_ray_steps(coords, side, 0);
    }
    lemma_row_step(grid, coords, side, reached);
}

/// In a layout that breaks no rule, a component that must reach the back
/// has its own kind in every cell between it and column 0, and one that
/// must reach the front has its own kind in every cell between it and
/// the last column.
pub proof fn lemma_sound_runs_are_unbroken(
    grid: LayoutView,
    defs: Seq<ComponentDef>,
    coords: GridCoord,
    steps: int,
)
    requires
        grid.wf(),
        grid.width <= 0x8000_0000,
        grid.height <= 0x8000_0000,
        is_sound(grid, defs),
        grid.occupied(coords),
    ensures
        defs[grid.cell(coords)->0.component_id as int].properties.require_border_back && 1
            <= steps <= coords.x ==> holds_kind(
            grid,
            along_row(coords, -1i32, steps),
            grid.cell(coords)->0.component_id,
        ),
        defs[grid.cell(coords)->0.component_id as int].properties.require_border_front && 1
            <= steps <= grid.width - coords.x - 1 ==> holds_kind(
            grid,
            along_row(coords, 1, steps),
            grid.cell(coords)->0.component_id,
        ),
{
    let id = grid.cell(coords)->0.component_id;
    assert(cell_violation(grid, defs, coords) is None);
    lemma_run_reaches_edge(grid, coords, -1i32, id);
    lemma_run_reaches_edge(grid, coords, 1, id);
}

/// In a layout that breaks no rule, a component that does not connect to
/// the outside never sits in the first or the last row.
pub proof fn lemma_sound_rows_are_sheltered(
    grid: LayoutView,
    defs: Seq<ComponentDef>,
    coords: GridCoord,
)
    requires
        is_sound(grid, defs),
        grid.occupied(coords),
        !defs[grid.cell(coords)->0.component_id as int].properties.connect_outside,
    ensures
        0 < coords.y < grid.height - 1,
{
    assert(cell_violation(grid, defs, coords) is None);
}

/// A ship layout.
#[derive(Debug, Clone)]
pub struct ShipDesign {
    pub grid: Grid<ComponentAt>,
}

impl ShipDesign {
    /// An empty layout of the given size.
    pub fn new(width: u32, height: u32) -> (design: Self)
        requires
            width * height <= u32::MAX,
        ensures
            design.grid@.wf(),
            design.grid@ == (GridView {
                width,
                height,
                cells: Seq::new((width * height) as nat, |i: int| None::<ComponentAt>),
            }),
            forall|defs: Seq<ComponentDef>| #[trigger] ids_known(design.grid@, defs),
            forall|defs: Seq<ComponentDef>| #[trigger] is_sound(design.grid@, defs),
    {
        let design = ShipDesign { grid: Grid::new(width, height) };
        proof {
            assert forall|defs: Seq<ComponentDef>| #[trigger] ids_known(design.grid@, defs) by {
                lemma_empty_layout_is_sound(design.grid@, defs);
            }
            assert forall|defs: Seq<ComponentDef>| #[trigger] is_sound(design.grid@, defs) by {
                lemma_empty_layout_is_sound(design.grid@, defs);
            }
        }
        design
    }

    /// Whether `coords` lies inside the layout.
    pub fn is_valid_coords(&self, coords: GridCoord) -> (inside: bool)
        ensures
            inside == self.grid@.contains(coords),
    {
        self.grid.is_valid_coords(coords)
    }

    pub fn get_width(&self) -> (width: u32)
        ensures
            width == self.grid@.width,
    {
        self.grid.width
    }

    pub fn get_height(&self) -> (height: u32)
        ensures
            height == self.grid@.height,
    {
        self.grid.height
    }

    /// Sets the component at `coords`, or clears the cell when
    /// `component_id` is `None`, provided the layout that results breaks
    /// no placement rule. Otherwise the layout is left as it was and the
    /// first violation of the rejected layout is returned.
    pub fn set_component(
        &mut self,
        repo: &ShipDesignRepository,
        coords: GridCoord,
        component_id: Option<ComponentId>,
    ) -> (outcome: Result<(), ComponentError>)
        requires
            old(self).grid@.wf(),
            old(self).grid@.contains(coords),
            ids_known(old(self).grid@, repo@),
            component_id is Some ==> component_id->0 < repo@.len(),
        ensures
            final(self).grid@.wf(),
            ids_known(final(self).grid@, repo@),
            match outcome {
                Ok(()) => {
                    &&& final(self).grid@ == old(self).grid@.with_cell(
                        coords,
                        placed_value(coords, component_id),
                    )
                    &&& is_sound(final(self).grid@, repo@)
                },
                Err(error) => {
                    &&& final(self).grid@ == old(self).grid@
                    &&& is_first_violation(
                        old(self).grid@.with_cell(coords, placed_value(coords, component_id)),
                        repo@,
                        error,
                    )
                },
            },
    {
        let value = match component_id {
            Some(id) => Some(ComponentAt { coords, component_id: id }),
            None => None,
        };
        let previous = match self.grid.get_at(coords) {
            Some(placed) => Some(*placed),
            None => None,
        };
        proof {
            self.grid@.lemma_with_cell(coords, value);
            lemma_index_in_bounds(self.grid.width, self.grid.height, coords);
        }
        self.grid.set_at(coords, value);
        match ShipDesign::is_valid(&self.grid, repo) {
            Ok(()) => Ok(()),
            Err(error) => {
                self.grid.set_at(coords, previous);
                Err(error)
            },
        }
    }

    /// The cells of the layout, row by row.
    pub fn list_components(&self) -> (cells: Vec<Option<&ComponentAt>>)
        requires
            self.grid@.wf(),
        ensures
            cells@.len() == self.grid@.cells.len(),
            forall|i: int|
                0 <= i < cells@.len() ==> (#[trigger] cells@[i] is Some
                    <==> self.grid@.cells[i] is Some),
            forall|i: int|
                0 <= i < cells@.len() && cells@[i] is Some ==> *(#[trigger] cells@[i])->0
                    == self.grid@.cells[i]->0,
    {
        let mut result: Vec<Option<&ComponentAt>> = Vec::new();
        let max = self.grid.width * self.grid.height;
        let mut i: u32 = 0;
        while i < max
            invariant
                i <= max,
                max == self.grid@.cells.len(),
                result@.len() == i,
                forall|j: int|
                    0 <= j < i ==> (#[trigger] result@[j] is Some <==> self.grid@.cells[j] is Some),
                forall|j: int|
                    0 <= j < i && result@[j] is Some ==> *(#[trigger] result@[j])->0
                        == self.grid@.cells[j]->0,
            decreases max - i,
        {
            result.push(self.grid.get(i));
            i = i + 1;
        }
        result
    }

    /// Checks every cell of `grid` against the placement rules, row by
    /// row, and reports the first violation.
    pub fn is_valid(grid: &Grid<ComponentAt>, repo: &ShipDesignRepository) -> (outcome: Result<
        (),
        ComponentError,
    >)
        requires
            grid@.wf(),
            ids_known(grid@, repo@),
        ensures
            match outcome {
                Ok(()) => is_sound(grid@, repo@),
                Err(error) => is_first_violation(grid@, repo@, error),
            },
    {
        let mut j: u32 = 0;
        while j < grid.height
            invariant
                j <= grid.height,
                grid@.wf(),
                ids_known(grid@, repo@),
                forall|coords: GridCoord|
                    grid@.contains(coords) && coords.y < j ==> #[trigger] cell_violation(
                        grid@,
                        repo@,
                        coords,
                    ) is None,
            decreases grid.height - j,
        {
            let mut i: u32 = 0;
            while i < grid.width
                invariant
                    j < grid.height,
                    i <= grid.width,
                    grid@.wf(),
                    ids_known(grid@, repo@),
                    forall|coords: GridCoord|
                        grid@.contains(coords) && (coords.y < j || (coords.y == j && coords.x < i))
                            ==> #[trigger] cell_violation(grid@, repo@, coords) is None,
                decreases grid.width - i,
            {
                let coords = GridCoord::new(i, j);
                match ShipDesign::is_valid_cell(grid, repo, coords) {
                    Ok(()) => {},
                    Err(error) => {
                        return Err(error);
                    },
                }
                i = i + 1;
            }
            j = j + 1;
        }
        Ok(())
    }

    /// Checks the cell at `coords` against the placement rules and
    /// reports the first rule it breaks.
    pub fn is_valid_cell(
        grid: &Grid<ComponentAt>,
        repo: &ShipDesignRepository,
        coords: GridCoord,
    ) -> (outcome: Result<(), ComponentError>)
        requires
            grid@.wf(),
            ids_known(grid@, repo@),
        ensures
            match outcome {
                Ok(()) => cell_violation(grid@, repo@, coords) is None,
                Err(error) => error.coords == coords && cell_violation(grid@, repo@, coords)
                    == Some(error.kind),
            },
    {
        if !grid.is_valid_coords(coords) {
            return Err(ComponentError { coords, kind: ComponentErrorKind::InvalidCoords });
        }
        let component_id = match grid.get_at(coords) {
            Some(placed) => placed.component_id,
            None => {
                return Ok(());
            },
        };
        proof {
            lemma_index_in_bounds(grid.width, grid.height, coords);
        }
        let comp_def = repo.get_component(component_id);

        if !comp_def.properties.connect_outside {
            if coords.y == 0 || coords.y == grid.height - 1 {
                return Err(ComponentError { coords, kind: ComponentErrorKind::BorderExternal });
            }
            if coords.x == 0 && !comp_def.properties.require_border_back {
                return Err(ComponentError { coords, kind: ComponentErrorKind::BorderExternal });
            }
            if coords.x == grid.width - 1 && !comp_def.properties.require_border_front {
                return Err(ComponentError { coords, kind: ComponentErrorKind::BorderExternal });
            }
        }
        if comp_def.properties.require_border_back {
            let amount = ShipDesign::raytrace_by_component(grid, coords, -1, 0, component_id);
            if amount != coords.x {
                return Err(ComponentError { coords, kind: ComponentErrorKind::RequireBackBorder });
            }
        }
        if comp_def.properties.require_border_front {
            let amount = ShipDesign::raytrace_by_component(grid, coords, 1, 0, component_id);
            let expected = grid.width - coords.x - 1;
            if amount != expected {
                return Err(
                    ComponentError { coords, kind: ComponentErrorKind::RequireFrontBorder },
                );
            }
        }
        if !comp_def.properties.connect_rooms {
            let neighbours = grid.get_neighbours(coords);
            proof {
                grid@.lemma_neighbours_inside(coords);
            }
            assert(cell_violation(grid@, repo@, coords) == (if has_clash(
                grid@,
                repo@,
                coords,
                component_id,
            ) {
                Some(ComponentErrorKind::BorderOthers)
            } else {
                None
            }));
            let mut k: usize = 0;
            while k < neighbours.len()
                invariant
                    k <= neighbours.len(),
                    cell_violation(grid@, repo@, coords) == (if has_clash(
                        grid@,
                        repo@,
                        coords,
                        component_id,
                    ) {
                        Some(ComponentErrorKind::BorderOthers)
                    } else {
                        None
                    }),
                    grid@.wf(),
                    ids_known(grid@, repo@),
                    neighbours@ == grid@.neighbours(coords),
                    forall|j: int|
                        0 <= j < neighbours.len() ==> grid@.contains(#[trigger] neighbours@[j]),
                    forall|j: int|
                        0 <= j < k ==> !clashes(
                            grid@,
                            repo@,
                            #[trigger] grid@.neighbours(coords)[j],
                            component_id,
                        ),
                decreases neighbours.len() - k,
            {
                let near = neighbours[k];
                proof {
                    lemma_index_in_bounds(grid.width, grid.height, near);
                }
                match grid.get_at(near) {
                    Some(other) => {
                        if other.component_id != component_id {
                            if !repo.get_component(other.component_id).properties.connect_rooms {
                                assert(clashes(
                                    grid@,
                                    repo@,
                                    grid@.neighbours(coords)[k as int],
                                    component_id,
                                ));
                                return Err(
                                    ComponentError {
                                        coords,
                                        kind: ComponentErrorKind::BorderOthers,
                                    },
                                );
                            }
                        }
                    },
                    None => {},
                }
                k = k + 1;
            }
        }
        Ok(())
    }

    /// Counts the cells of the ray cast from `coords` that hold a
    /// component of kind `component_id`.
    pub fn raytrace_by_component(
        grid: &Grid<ComponentAt>,
        coords: GridCoord,
        dir_x: i32,
        dir_y: i32,
        component_id: ComponentId,
    ) -> (amount: u32)
        requires
            grid@.wf(),
            dir_x != 0 || dir_y != 0 || !grid@.occupied(coords),
        ensures
            amount == reach(grid@, coords, dir_x, dir_y, component_id),
    {
        let ray = grid.raytrace(coords, dir_x, dir_y);
        let ghost same_kind = |cell: GridCoord| holds_kind(grid@, cell, component_id);
        let mut amount: u32 = 0;
        let mut k: usize = 0;
        proof {
            grid@.lemma_ray_occupied(coords, dir_x, dir_y);
        }
        while k < ray.len()
            invariant
                k <= ray.len(),
                ray.len() <= 0x8000_0000,
                grid@.wf(),
                forall|j: int| 0 <= j < ray.len() ==> grid@.occupied(#[trigger] ray@[j]),
                same_kind == |cell: GridCoord| holds_kind(grid@, cell, component_id),
                amount == ray@.take(k as int).filter(same_kind).len(),
                amount <= k,
            decreases ray.len() - k,
        {
            let cell = ray[k];
            proof {
                assert(ray@.take(k + 1) =~= ray@.take(k as int).push(cell));
                ray@.take(k as int).lemma_filter_len_push(same_kind, cell);
            }
            match grid.get_at(cell) {
                Some(placed) => {
                    if placed.component_id == component_id {
                        amount = amount + 1;
                    }
                },
                None => {},
            }
            k = k + 1;
        }
        assert(ray@.take(k as int) =~= ray@);
        amount
    }
}

} // verus!
