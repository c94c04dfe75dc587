//! Widgets on the dashboard grid, and where they can be placed.

use std::collections::HashMap;
use vstd::prelude::*;
use vstd::std_specs::iter::IteratorSpec;
use vstd::string::*;

pub mod size;
pub mod weather;

pub use size::WidgetSize;

verus! {

broadcast use vstd::std_specs::hash::group_hash_axioms;

/// The number of rows of the grid.
pub const ROWS: usize = 4;

/// The number of columns of the grid. Cells are numbered row by row.
pub const COLS: usize = 7;

/// The kinds of widget.
#[derive(Debug, Clone, Copy, PartialEq, Eq, Structural)]
pub enum Widget {
    Time,
    Weather,
    UpcomingEvents,
}

impl Widget {
    /// Whether the widget comes in the given size.
    pub open spec fn comes_in(self, size: WidgetSize) -> bool {
        match self {
            Widget::Time => true,
            Widget::Weather => size != WidgetSize::Large,
            Widget::UpcomingEvents => size != WidgetSize::Small,
        }
    }

    /// The name of the widget, as it is shown.
    pub open spec fn label(self) -> Seq<char> {
        match self {
            Widget::Time => "Time (debug widget)"@,
            Widget::Weather => "Weather"@,
            Widget::UpcomingEvents => "Upcoming Events"@,
        }
    }

    /// The name of the widget, as it is shown.
    pub fn to_string(&self) -> (r: String)
        ensures
            r@ == self.label(),
    {
        String::from_str(
            match self {
                Self::Time => "Time (debug widget)",
                Self::Weather => "Weather",
                Self::UpcomingEvents => "Upcoming Events",
            },
        )
    }

    /// The sizes the widget comes in: for small, medium and large, in this
    /// order, whether it does.
    pub fn sizes(&self) -> (r: [bool; 3])
        ensures
            r[0] == self.comes_in(WidgetSize::Small),
            r[1] == self.comes_in(WidgetSize::Medium),
            r[2] == self.comes_in(WidgetSize::Large),
    {
        match self {
            Self::Time => [true, true, true],
            Self::Weather => [true, true, false],
            Self::UpcomingEvents => [false, true, true],
        }
    }
}

/// A widget on its way to a cell, or in one.
#[derive(Debug, Clone, Copy, PartialEq, Eq, Structural)]
pub struct WidgetDataTransfer {
    pub widget: Widget,
    pub size: WidgetSize,
    pub source_index: Option<usize>,
}

/// Whether a widget of the given size whose first cell is `root` covers
/// `cell`: whether `cell` lies in one of the rows and one of the columns that
/// the widget spans. Without `with_root_cell` the first cell does not count.
pub open spec fn covers(root: usize, size: WidgetSize, with_root_cell: bool, cell: usize) -> bool {
    let offset = cell - root;
    &&& offset >= 0
    &&& offset / (COLS as int) < size.row_span()
    &&& offset % (COLS as int) < size.col_span()
    &&& with_root_cell || offset != 0
}

/// Whether a widget of the given size with its first cell in `i` stays clear of
/// the border: whether its last column is not the one behind the last of the
/// grid, and its last row not the one below the last.
pub open spec fn within_border(i: usize, size: WidgetSize) -> bool {
    i % COLS + size.col_span() - 1 != COLS && i / COLS + size.row_span() - 1 != ROWS
}

/// Whether some widget on the grid covers the cell.
pub open spec fn occupied(
    grid: Map<usize, WidgetDataTransfer>,
    cell: usize,
    with_root_cell: bool,
) -> bool {
    exists|root: usize|
        grid.contains_key(root) && covers(root, (#[trigger] grid[root]).size, with_root_cell, cell)
}

/// Whether a widget of the given size with its first cell in `i` would cover a
/// cell that is taken. Where the widget comes from cell `src`, the cells it
/// covers there do not count as taken.
pub open spec fn collides(
    grid: Map<usize, WidgetDataTransfer>,
    i: usize,
    size: WidgetSize,
    src: Option<usize>,
) -> bool {
    exists|cell: usize|
        covers(i, size, true, cell) && #[trigger] occupied(grid, cell, true) && !(src matches Some(
            from,
        ) && covers(from, size, true, cell))
}

/// Whether a widget of the given size can be put with its first cell in `i`.
pub open spec fn within_bounds(
    grid: Map<usize, WidgetDataTransfer>,
    i: usize,
    size: WidgetSize,
    src: Option<usize>,
) -> bool {
    !collides(grid, i, size, src) && within_border(i, size)
}

/// The grid after an attempt to move the widget in cell `src` to cell `dst`.
/// The widget is taken out if there is room for it at `dst`, its own cells not
/// counted, and put in at `dst` if there is room in what is left.
pub open spec fn moved(grid: Map<usize, WidgetDataTransfer>, dst: usize, src: usize) -> Map<
    usize,
    WidgetDataTransfer,
> {
    if grid.contains_key(src) && within_bounds(grid, dst, grid[src].size, Some(src)) {
        let without = grid.remove(src);
        if within_bounds(without, dst, grid[src].size, None) {
            without.insert(dst, grid[src])
        } else {
            without
        }
    } else {
        grid
    }
}

/// Whether a widget of the given size whose first cell is `root` covers `cell`.
pub fn covers_cell(root: usize, size: WidgetSize, with_root_cell: bool, cell: usize) -> (r: bool)
    ensures
        r == covers(root, size, with_root_cell, cell),
{
    if cell < root {
        return false;
    }
    let offset = cell - root;
    offset / COLS < size.row_span() && offset % COLS < size.col_span() && (with_root_cell || offset
        != 0)
}

/// The widgets on the grid, each under the number of its first cell.
#[derive(Debug)]
pub struct WidgetManagerState {
    cell_to_widget_data: HashMap<usize, WidgetDataTransfer>,
}

impl View for WidgetManagerState {
    type V = Map<usize, WidgetDataTransfer>;

    closed spec fn view(&self) -> Map<usize, WidgetDataTransfer> {
        self.cell_to_widget_data@
    }
}

impl Default for WidgetManagerState {
    fn default() -> (r: WidgetManagerState)
        ensures
            r@ == Map::<usize, WidgetDataTransfer>::empty(),
    {
        WidgetManagerState { cell_to_widget_data: HashMap::new() }
    }
}

impl WidgetManagerState {
    /// The state with the given widgets.
    pub fn new(cell_to_widget_data: HashMap<usize, WidgetDataTransfer>) -> (r: WidgetManagerState)
        ensures
            r@ == cell_to_widget_data@,
    {
        WidgetManagerState { cell_to_widget_data }
    }

    /// The widgets, each under the number of its first cell.
    pub fn cells(&self) -> (r: &HashMap<usize, WidgetDataTransfer>)
        ensures
            r@ == self@,
    {
        &self.cell_to_widget_data
    }

    /// The widget whose first cell is `i`, if there is one.
    pub fn widget_at(&self, i: usize) -> (r: Option<WidgetDataTransfer>)
        ensures
            r == (if self@.contains_key(i) {
                Some(self@[i])
            } else {
                None
            }),
    {
        match self.cell_to_widget_data.get(&i) {
            Some(data) => Some(*data),
            None => None,
        }
    }

    /// Puts a widget with its first cell in `i`, if it can be put there. Nothing
    /// is ever replaced, so nothing is returned.
    pub fn add_widget(&mut self, i: usize, data: WidgetDataTransfer) -> (r: Option<
        WidgetDataTransfer,
    >)
        ensures
            r is None,
            final(self)@ == (if within_bounds(old(self)@, i, data.size, None) {
                old(self)@.insert(i, data)
            } else {
                old(self)@
            }),
    {
        if self.is_within_bounds(i, data.size, None) {
            proof {
                if self@.contains_key(i) {
                    assert(covers(i, self@[i].size, true, i));
                    assert(occupied(self@, i, true));
                    assert(covers(i, data.size, true, i));
                }
            }
            self.cell_to_widget_data.insert(i, data)
        } else {
            None
        }
    }

    /// Takes out the widget whose first cell is `i` and returns it.
    pub fn remove_widget(&mut self, i: &usize) -> (r: Option<WidgetDataTransfer>)
        ensures
            r == (if old(self)@.contains_key(*i) {
                Some(old(self)@[*i])
            } else {
                None
            }),
            final(self)@ == old(self)@.remove(*i),
    {
        self.cell_to_widget_data.remove(i)
    }

    /// Moves the widget whose first cell is `src` so that its first cell is `dst`,
    /// if there is such a widget and it can be put there.
    pub fn move_widget(&mut self, dst: usize, src: &usize)
        ensures
            final(self)@ == moved(old(self)@, dst, *src),
    {
        let size = match self.cell_to_widget_data.get(src) {
            Some(data) => data.size,
            None => {
                return ;
            },
        };
        if self.is_within_bounds(dst, size, Some(*src)) {
            match self.remove_widget(src) {
                Some(data) => {
                    self.add_widget(dst, data);
                },
                None => {},
            }
        }
    }

    /// The cells that the widgets cover, in no particular order.
    pub fn occupied_cells(&self, with_root_cell: bool) -> (r: Vec<usize>)
        ensures
            forall|cell: usize| r@.contains(cell) <==> occupied(self@, cell, with_root_cell),
    {
        let mut cells: Vec<usize> = Vec::new();
        let ghost walk = self.cell_to_widget_data.iter().remaining();
        for entry in it: self.cell_to_widget_data.iter()
            invariant
                it.seq() == walk,
                forall|cell: usize|
                    cells@.contains(cell) <==> exists|n: int|
                        0 <= n < it.index() && covers(
                            *(#[trigger] walk[n]).0,
                            walk[n].1.size,
                            with_root_cell,
                            cell,
                        ),
        {
            let (root, data) = entry;
            let ghost before = cells@;
            let ghost at = it.index();
            let mut covered = Self::calculate_occupying_indices(*root, data.size, with_root_cell);
            let ghost added = covered@;
            cells.append(&mut covered);
            proof {
                assert forall|cell: usize| cells@.contains(cell) <==> exists|n: int|
                    0 <= n < at + 1 && covers(
                        *(#[trigger] walk[n]).0,
                        walk[n].1.size,
                        with_root_cell,
                        cell,
                    ) by {
                    if cells@.contains(cell) {
                        let k = choose|k: int| 0 <= k < cells@.len() && cells@[k] == cell;
                        if k < before.len() {
                            assert(before[k] == cell);
                            assert(before.contains(cell));
                        } else {
                            assert(added[k - before.len()] == cell);
                            assert(added.contains(cell));
                            assert(covers(*walk[at].0, walk[at].1.size, with_root_cell, cell));
                        }
                    }
                    if exists|n: int|
                        0 <= n < at + 1 && covers(
                            *(#[trigger] walk[n]).0,
                            walk[n].1.size,
                            with_root_cell,
                            cell,
                        ) {
                        let n = choose|n: int|
                            0 <= n < at + 1 && covers(
                                *(#[trigger] walk[n]).0,
                                walk[n].1.size,
                                with_root_cell,
                                cell,
                            );
                        if n < at {
                            assert(before.contains(cell));
                            let k = choose|k: int| 0 <= k < before.len() && before[k] == cell;
                            assert(cells@[k] == cell);
                        } else {
                            assert(added.contains(cell));
                            let k = choose|k: int| 0 <= k < added.len() && added[k] == cell;
                            assert(cells@[before.len() + k] == cell);
                        }
                    }
                }
            }
        }
        proof {
            assert forall|cell: usize| cells@.contains(cell) <==> occupied(
                self@,
                cell,
                with_root_cell,
            ) by {
                if cells@.contains(cell) {
                    let n = choose|n: int|
                        0 <= n < walk.len() && covers(
                            *(#[trigger] walk[n]).0,
                            walk[n].1.size,
                            with_root_cell,
                            cell,
                        );
                    assert(self@.contains_key(*walk[n].0));
                    assert(self@[*walk[n].0] == *walk[n].1);
                }
                if occupied(self@, cell, with_root_cell) {
                    let root = choose|root: usize|
                        self@.contains_key(root) && covers(
                            root,
                            (#[trigger] self@[root]).size,
                            with_root_cell,
                            cell,
                        );
                    assert(walk.contains((&root, &self@[root])));
                    let n = choose|n: int| 0 <= n < walk.len() && walk[n] == (&root, &self@[root]);
                    assert(covers(*walk[n].0, walk[n].1.size, with_root_cell, cell));
                }
            }
        }
        cells
    }

    /// The cells that a widget of the given size covers if its first cell is
    /// `k`, row by row.
    fn calculate_occupying_indices(k: usize, size: WidgetSize, with_root_cell: bool) -> (r: Vec<
        usize,
    >)
        ensures
            forall|cell: usize| r@.contains(cell) <==> covers(k, size, with_root_cell, cell),
    {
        let mut cells: Vec<usize> = Vec::new();
        let mut i: usize = 0;
        while i < size.row_span()
            invariant
                i <= size.row_span() <= 2,
                forall|cell: usize|
                    cells@.contains(cell) <==> covers(k, size, with_root_cell, cell) && (cell - k)
                        / (COLS as int) < i,
            decreases size.row_span() - i,
        {
            let mut j: usize = 0;
            while j < size.col_span()
                invariant
                    i < size.row_span() <= 2,
                    j <= size.col_span() <= 2,
                    forall|cell: usize|
                        cells@.contains(cell) <==> covers(k, size, with_root_cell, cell) && ((cell
                            - k) / (COLS as int) < i || ((cell - k) / (COLS as int) == i && (cell
                            - k) % (COLS as int) < j)),
                decreases size.col_span() - j,
            {
                let ghost before = cells@;
                let offset = i * COLS + j;
                assert(offset / COLS == i && offset % COLS == j);
                if with_root_cell || i + j != 0 {
                    match k.checked_add(offset) {
                        Some(cell) => {
                            cells.push(cell);
                            assert(cells@ == before.push(cell));
                        },
                        None => {},
                    }
                }
                proof {
                    assert forall|c: usize|
                        cells@.contains(c) <==> covers(k, size, with_root_cell, c) && ((c - k) / (
                        COLS as int) < i || ((c - k) / (COLS as int) == i && (c - k) % (COLS as int)
                            < j + 1)) by {
                        let here = (c - k) / (COLS as int) == i && (c - k) % (COLS as int) == j;
                        if c - k >= 0 && here {
                            assert(c - k == offset);
                        }
                        if cells@ != before {
                            let cell = (k + offset) as usize;
                            assert(cells@ == before.push(cell));
                            if before.contains(c) {
                                let n = choose|n: int| 0 <= n < before.len() && before[n] == c;
                                assert(cells@[n] == c);
                            }
                            if c == cell {
                                assert(cells@[cells@.len() - 1] == c);
                            }
                            if cells@.contains(c) {
                                let n = choose|n: int| 0 <= n < cells@.len() && cells@[n] == c;
                                if n < before.len() {
                                    assert(before[n] == c);
                                }
                            }
                        }
                    }
                }
                j += 1;
            }
            i += 1;
        }
        cells
    }

    /// Whether some widget covers the cell.
    fn is_occupied(&self, cell: usize, with_root_cell: bool) -> (r: bool)
        ensures
            r == occupied(self@, cell, with_root_cell),
    {
        let mut found = false;
        let ghost walk = self.cell_to_widget_data.iter().remaining();
        for entry in it: self.cell_to_widget_data.iter()
            invariant
                it.seq() == walk,
                found == exists|n: int|
                    0 <= n < it.index() && covers(
                        *(#[trigger] walk[n]).0,
                        walk[n].1.size,
                        with_root_cell,
                        cell,
                    ),
        {
            let (root, data) = entry;
            if covers_cell(*root, data.size, with_root_cell, cell) {
                found = true;
            }
        }
        proof {
            if found {
                let n = choose|n: int|
                    0 <= n < walk.len() && covers(
                        *(#[trigger] walk[n]).0,
                        walk[n].1.size,
                        with_root_cell,
                        cell,
                    );
                assert(self@.contains_key(*walk[n].0));
                assert(self@[*walk[n].0] == *walk[n].1);
            }
            if occupied(self@, cell, with_root_cell) {
                let root = choose|root: usize|
                    self@.contains_key(root) && covers(
                        root,
                        (#[trigger] self@[root]).size,
                        with_root_cell,
                        cell,
                    );
                assert(walk.contains((&root, &self@[root])));
                let n = choose|n: int| 0 <= n < walk.len() && walk[n] == (&root, &self@[root]);
                assert(covers(*walk[n].0, walk[n].1.size, with_root_cell, cell));
            }
        }
        found
    }

    fn is_within_bounds(&self, dst: usize, size: WidgetSize, src: Option<usize>) -> (r: bool)
        ensures
            r == within_bounds(self@, dst, size, src),
    {
        !self.is_colliding(dst, size, src) && Self::is_within_border(dst, size)
    }

    fn is_colliding(&self, i: usize, size: WidgetSize, src: Option<usize>) -> (r: bool)
        ensures
            r == collides(self@, i, size, src),
    {
        let to_be_occupied = Self::calculate_occupying_indices(i, size, true);
        let mut n: usize = 0;
        while n < to_be_occupied.len()
            invariant
                n <= to_be_occupied@.len(),
                forall|cell: usize|
                    to_be_occupied@.contains(cell) <==> covers(i, size, true, cell),
                forall|m: int|
                    0 <= m < n ==> !(occupied(self@, #[trigger] to_be_occupied@[m], true) && !(src matches Some(
                        from,
                    ) && covers(from, size, true, to_be_occupied@[m]))),
            decreases to_be_occupied@.len() - n,
        {
            let cell = to_be_occupied[n];
            let freed = match src {
                Some(from) => covers_cell(from, size, true, cell),
                None => false,
            };
            if self.is_occupied(cell, true) && !freed {
                assert(to_be_occupied@.contains(cell));
                return true;
            }
            n += 1;
        }
        proof {
            if collides(self@, i, size, src) {
                let cell = choose|cell: usize|
                    covers(i, size, true, cell) && #[trigger] occupied(self@, cell, true) && !(src matches Some(
                        from,
                    ) && covers(from, size, true, cell));
                assert(to_be_occupied@.contains(cell));
                let m = choose|m: int| 0 <= m < to_be_occupied@.len() && to_be_occupied@[m] == cell;
                assert(!(occupied(self@, to_be_occupied@[m], true) && !(src matches Some(from)
                    && covers(from, size, true, to_be_occupied@[m]))));
            }
        }
        false
    }

    fn is_within_border(i: usize, size: WidgetSize) -> (r: bool)
        ensures
            r == within_border(i, size),
    {
        let isnt_within_right_border = i % COLS + size.col_span() - 1 == COLS;
        let isnt_within_bottom_border = i / COLS + size.row_span() - 1 == ROWS;
        !(isnt_within_right_border || isnt_within_bottom_border)
    }
}

/// Whether no cell of the grid is covered by two widgets.
pub open spec fn apart(grid: Map<usize, WidgetDataTransfer>) -> bool {
    forall|a: usize, b: usize, cell: usize|
        grid.contains_key(a) && grid.contains_key(b) && a != b && #[trigger] covers(
            a,
            grid[a].size,
            true,
            cell,
        ) ==> !#[trigger] covers(b, grid[b].size, true, cell)
}

/// A widget that is put on the grid covers no cell that another one covers:
/// widgets that were apart stay apart.
pub proof fn law_added_widget_stays_apart(
    grid: Map<usize, WidgetDataTransfer>,
    i: usize,
    data: WidgetDataTransfer,
)
    requires
        apart(grid),
        within_bounds(grid, i, data.size, None),
    ensures
        apart(grid.insert(i, data)),
{
    let after = grid.insert(i, data);
    assert forall|a: usize, b: usize, cell: usize|
        after.contains_key(a) && after.contains_key(b) && a != b && #[trigger] covers(
            a,
            after[a].size,
            true,
            cell,
        ) implies !#[trigger] covers(b, after[b].size, true, cell) by {
        if covers(b, after[b].size, true, cell) {
            if a == i {
                assert(grid.contains_key(b) && covers(b, grid[b].size, true, cell));
                assert(occupied(grid, cell, true));
            } else if b == i {
                assert(grid.contains_key(a) && covers(a, grid[a].size, true, cell));
                assert(occupied(grid, cell, true));
            } else {
                assert(covers(a, grid[a].size, true, cell));
                assert(!covers(b, grid[b].size, true, cell));
            }
        }
    }
}

/// A move never loses a widget: on a grid whose widgets are apart, a widget
/// for which there is room at its new place, its own cells not counted, is
/// there afterwards, and the widgets are still apart.
pub proof fn law_moved_widget_is_kept(grid: Map<usize, WidgetDataTransfer>, dst: usize, src: usize)
    requires
        apart(grid),
        grid.contains_key(src),
        within_bounds(grid, dst, grid[src].size, Some(src)),
    ensures
        moved(grid, dst, src) == grid.remove(src).insert(dst, grid[src]),
        apart(moved(grid, dst, src)),
{
    let size = grid[src].size;
    let without = grid.remove(src);
    assert(!collides(without, dst, size, None)) by {
        if collides(without, dst, size, None) {
            let cell = choose|cell: usize|
                covers(dst, size, true, cell) && #[trigger] occupied(without, cell, true);
            let root = choose|root: usize|
                without.contains_key(root) && covers(
                    root,
                    (#[trigger] without[root]).size,
                    true,
                    cell,
                );
            assert(grid.contains_key(root) && covers(root, grid[root].size, true, cell));
            assert(occupied(grid, cell, true));
            if covers(src, size, true, cell) {
                assert(covers(src, grid[src].size, true, cell));
                assert(!covers(root, grid[root].size, true, cell));
            }
        }
    }
    assert(apart(without)) by {
        assert forall|a: usize, b: usize, cell: usize|
            without.contains_key(a) && without.contains_key(b) && a != b && #[trigger] covers(
                a,
                without[a].size,
                true,
                cell,
            ) implies !#[trigger] covers(b, without[b].size, true, cell) by {
            assert(covers(a, grid[a].size, true, cell));
            assert(!covers(b, grid[b].size, true, cell));
        }
    }
    law_added_widget_stays_apart(without, dst, grid[src]);
}

} // verus!
