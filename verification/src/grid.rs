//! The grid layout engine.
//!
//! A [`Grid`] owns a matrix of child descriptors. Its layout pass runs a
//! two-phase relaxation — main-axis track sizing first, then cross-axis
//! track sizing — to determine one extent per column and per row, lays
//! every child out against its finalized cell, and positions the cells
//! without overlap.
//!
//! Rows may have different lengths; the number of columns is the longest
//! row's length, and absent cells simply produce no rectangle.

use crate::geometry::Axis;
use crate::geometry::Horizontal;
use crate::geometry::Length;
use crate::geometry::Limits;
use crate::geometry::Padding;
use crate::geometry::Rect;
use crate::geometry::Size;
use crate::geometry::Vertical;
use crate::geometry::spec_clamp;
use crate::geometry::spec_h_offset;
use crate::geometry::spec_v_offset;
use crate::track::MAX_TRACKS;
use crate::track::spec_distribute;
use crate::track::sum_sizes;
use vstd::prelude::*;

verus! {

/// A plain description of one child widget: its sizing mode and its
/// intrinsic (content) size on each axis.
///
/// It stands for a widget whose own layout resolves each axis
/// independently from these data: a fill mode takes everything offered,
/// a fixed mode its fixed amount capped by the offer, and a shrinking
/// mode its content size capped by the offer.
#[derive(Clone, Copy, Debug, PartialEq, Eq, Structural)]
pub struct Child {
    /// Sizing mode along the horizontal axis.
    pub width: Length,
    /// Sizing mode along the vertical axis.
    pub height: Length,
    /// The content size the child would take given unbounded room.
    pub intrinsic: Size,
}

/// The extent a child settles on along one axis when offered `cap`
/// pixels there.
pub open spec fn spec_resolve_extent(length: Length, intrinsic: u32, cap: int) -> int
    recommends
        0 <= cap,
{
    match length {
        Length::Fill => cap,
        Length::FillPortion(_) => cap,
        Length::Shrink => if intrinsic as int <= cap {
            intrinsic as int
        } else {
            cap
        },
        Length::Fixed(pixels) => if pixels as int <= cap {
            pixels as int
        } else {
            cap
        },
    }
}

/// Executable twin of [`spec_resolve_extent`].
pub fn resolve_extent(length: Length, intrinsic: u32, cap: u32) -> (extent: u32)
    ensures
        extent as int == spec_resolve_extent(length, intrinsic, cap as int),
{
    match length {
        Length::Fill => cap,
        Length::FillPortion(_) => cap,
        Length::Shrink => if intrinsic <= cap {
            intrinsic
        } else {
            cap
        },
        Length::Fixed(pixels) => if pixels <= cap {
            pixels
        } else {
            cap
        },
    }
}

impl Child {
    /// A child with the given sizing modes and no intrinsic size.
    pub fn new(width: Length, height: Length) -> (child: Child)
        ensures
            child == (Child { width, height, intrinsic: Size { width: 0, height: 0 } }),
    {
        Child { width, height, intrinsic: Size { width: 0, height: 0 } }
    }

    /// A child with the given sizing modes and intrinsic size.
    pub fn with_intrinsic(width: Length, height: Length, intrinsic: Size) -> (child: Child)
        ensures
            child == (Child { width, height, intrinsic }),
    {
        Child { width, height, intrinsic }
    }

    /// The sizing mode along the grid's main (`main_side`) or cross
    /// axis.
    pub open spec fn spec_length_on(self, axis: Axis, main_side: bool) -> Length {
        if (axis is Horizontal) == main_side {
            self.width
        } else {
            self.height
        }
    }

    /// The intrinsic extent along the grid's main or cross axis.
    pub open spec fn spec_intrinsic_on(self, axis: Axis, main_side: bool) -> u32 {
        if (axis is Horizontal) == main_side {
            self.intrinsic.width
        } else {
            self.intrinsic.height
        }
    }

    /// The size this child settles on when offered `max`, resolving each
    /// axis independently.
    pub fn layout_within(&self, max: Size) -> (size: Size)
        ensures
            size.width as int == spec_resolve_extent(
                self.width,
                self.intrinsic.width,
                max.width as int,
            ),
            size.height as int == spec_resolve_extent(
                self.height,
                self.intrinsic.height,
                max.height as int,
            ),
    {
        Size {
            width: resolve_extent(self.width, self.intrinsic.width, max.width),
            height: resolve_extent(self.height, self.intrinsic.height, max.height),
        }
    }
}

// ---------------------------------------------------------------------
// Addressing the cells of one track.
//
// A "track" is a column or a row of the grid, seen from the sizing
// algorithm: when the main axis is sized (`main_side`), track `t` runs
// across the primary index `idx`; when the cross axis is sized, the
// roles swap.
// ---------------------------------------------------------------------

/// The row that member `idx` of track `t` lives in.
pub open spec fn member_row(axis: Axis, main_side: bool, t: int, idx: int) -> int {
    if (axis is Horizontal) == main_side {
        idx
    } else {
        t
    }
}

/// The position within its row of member `idx` of track `t`.
pub open spec fn member_col(axis: Axis, main_side: bool, t: int, idx: int) -> int {
    if (axis is Horizontal) == main_side {
        t
    } else {
        idx
    }
}

/// Whether track `t` has a cell at member position `idx`.
pub open spec fn member_present(
    rows: Seq<Seq<Child>>,
    axis: Axis,
    main_side: bool,
    t: int,
    idx: int,
) -> bool {
    let a = member_row(axis, main_side, t, idx);
    let b = member_col(axis, main_side, t, idx);
    0 <= a < rows.len() && 0 <= b < rows[a].len()
}

/// The cell at member position `idx` of track `t`.
pub open spec fn member_child(
    rows: Seq<Seq<Child>>,
    axis: Axis,
    main_side: bool,
    t: int,
    idx: int,
) -> Child {
    rows[member_row(axis, main_side, t, idx)][member_col(axis, main_side, t, idx)]
}

// ---------------------------------------------------------------------
// Track sizing: intrinsic minimums, fill weights and greedy budgets.
// ---------------------------------------------------------------------

/// The intrinsic minimum of track `t` contributed by its first `idx`
/// members: the largest extent that a member with no fill weight on
/// this side settles on when offered `budget`.
pub open spec fn track_min_upto(
    rows: Seq<Seq<Child>>,
    axis: Axis,
    main_side: bool,
    t: int,
    budget: int,
    idx: int,
) -> int
    decreases idx,
{
    if idx <= 0 {
        0
    } else {
        let prev = track_min_upto(rows, axis, main_side, t, budget, idx - 1);
        if member_present(rows, axis, main_side, t, idx - 1) {
            let child = member_child(rows, axis, main_side, t, idx - 1);
            let length = child.spec_length_on(axis, main_side);
            if length.spec_fill_factor() == 0 {
                let extent = spec_resolve_extent(
                    length,
                    child.spec_intrinsic_on(axis, main_side),
                    budget,
                );
                if extent > prev {
                    extent
                } else {
                    prev
                }
            } else {
                prev
            }
        } else {
            prev
        }
    }
}

/// The fill weight of track `t` over its first `idx` members: the
/// largest weight any member asks for on this side.
pub open spec fn track_factor_upto(
    rows: Seq<Seq<Child>>,
    axis: Axis,
    main_side: bool,
    t: int,
    idx: int,
) -> u16
    decreases idx,
{
    if idx <= 0 {
        0u16
    } else {
        let prev = track_factor_upto(rows, axis, main_side, t, idx - 1);
        if member_present(rows, axis, main_side, t, idx - 1) {
            let factor = member_child(
                rows,
                axis,
                main_side,
                t,
                idx - 1,
            ).spec_length_on(axis, main_side).spec_fill_factor();
            if factor > prev {
                factor
            } else {
                prev
            }
        } else {
            prev
        }
    }
}

/// The budget the greedy first pass offers track `t`: the usable space
/// minus the minimums already granted to earlier tracks.
pub open spec fn track_budget(
    rows: Seq<Seq<Child>>,
    axis: Axis,
    main_side: bool,
    idx_count: int,
    usable: int,
    t: int,
) -> int
    decreases t,
{
    if t <= 0 {
        usable
    } else {
        let budget = track_budget(rows, axis, main_side, idx_count, usable, t - 1);
        budget - track_min_upto(rows, axis, main_side, t - 1, budget, idx_count)
    }
}

/// The intrinsic minimum of track `t`, measured against its greedy
/// budget.
pub open spec fn track_min_at(
    rows: Seq<Seq<Child>>,
    axis: Axis,
    main_side: bool,
    idx_count: int,
    usable: int,
    t: int,
) -> int {
    track_min_upto(
        rows,
        axis,
        main_side,
        t,
        track_budget(rows, axis, main_side, idx_count, usable, t),
        idx_count,
    )
}

/// A resolved extent stays within a non-negative offer.
proof fn lemma_track_min_bounds(
    rows: Seq<Seq<Child>>,
    axis: Axis,
    main_side: bool,
    t: int,
    budget: int,
    idx: int,
)
    requires
        0 <= budget,
    ensures
        0 <= track_min_upto(rows, axis, main_side, t, budget, idx) <= budget,
    decreases idx,
{
    if idx > 0 {
        lemma_track_min_bounds(rows, axis, main_side, t, budget, idx - 1);
    }
}

/// Greedy budgets never go negative and never exceed the usable space.
proof fn lemma_track_budget_bounds(
    rows: Seq<Seq<Child>>,
    axis: Axis,
    main_side: bool,
    idx_count: int,
    usable: int,
    t: int,
)
    requires
        0 <= usable,
        0 <= t,
    ensures
        0 <= track_budget(rows, axis, main_side, idx_count, usable, t) <= usable,
    decreases t,
{
    if t > 0 {
        lemma_track_budget_bounds(rows, axis, main_side, idx_count, usable, t - 1);
        let budget = track_budget(rows, axis, main_side, idx_count, usable, t - 1);
        lemma_track_min_bounds(rows, axis, main_side, t - 1, budget, idx_count);
    }
}

/// The per-track minimums of the first `count` tracks.
pub open spec fn track_mins(
    rows: Seq<Seq<Child>>,
    axis: Axis,
    main_side: bool,
    idx_count: int,
    usable: int,
    count: nat,
) -> Seq<u32> {
    Seq::new(count, |t: int| track_min_at(rows, axis, main_side, idx_count, usable, t) as u32)
}

/// The per-track fill weights of the first `count` tracks.
pub open spec fn track_factors(
    rows: Seq<Seq<Child>>,
    axis: Axis,
    main_side: bool,
    idx_count: int,
    count: nat,
) -> Seq<u16> {
    Seq::new(count, |t: int| track_factor_upto(rows, axis, main_side, t, idx_count))
}

/// The greedy pass hands out exactly what the budget loses.
proof fn lemma_track_mins_sum(
    rows: Seq<Seq<Child>>,
    axis: Axis,
    main_side: bool,
    idx_count: int,
    usable: int,
    count: nat,
    j: int,
)
    requires
        0 <= usable <= u32::MAX as int,
        0 <= j <= count,
    ensures
        crate::track::sum_mins(
            track_mins(rows, axis, main_side, idx_count, usable, count),
            j,
        ) == usable - track_budget(rows, axis, main_side, idx_count, usable, j),
    decreases j,
{
    if j > 0 {
        lemma_track_mins_sum(rows, axis, main_side, idx_count, usable, count, j - 1);
        lemma_track_budget_bounds(rows, axis, main_side, idx_count, usable, j - 1);
        let budget = track_budget(rows, axis, main_side, idx_count, usable, j - 1);
        lemma_track_min_bounds(rows, axis, main_side, j - 1, budget, idx_count);
    }
}

/// The final sizes of the tracks along one side: the intrinsic
/// minimums alone when the grid shrinks there, otherwise the clamped
/// proportional redistribution of the usable space.
pub open spec fn solved_tracks(
    rows: Seq<Seq<Child>>,
    axis: Axis,
    main_side: bool,
    idx_count: int,
    usable: int,
    count: nat,
    shrink: bool,
) -> Seq<int> {
    if shrink {
        Seq::new(count, |t: int| track_min_at(rows, axis, main_side, idx_count, usable, t))
    } else {
        spec_distribute(
            track_mins(rows, axis, main_side, idx_count, usable, count),
            track_factors(rows, axis, main_side, idx_count, count),
            usable,
        )
    }
}

// ---------------------------------------------------------------------
// The grid itself.
// ---------------------------------------------------------------------

/// A two-dimensional grid layout container.
#[derive(Clone, Debug)]
pub struct Grid {
    /// The matrix of children; rows may have different lengths.
    pub rows: Vec<Vec<Child>>,
    /// Sizing mode of the grid's own width.
    pub width: Length,
    /// Sizing mode of the grid's own height.
    pub height: Length,
    /// Inset applied inside the grid's box before laying out children.
    pub padding: Padding,
    /// Placement of a child inside a cell wider than it.
    pub horizontal_align: Horizontal,
    /// Placement of a child inside a cell taller than it.
    pub vertical_align: Vertical,
    /// Fixed gap between adjacent columns.
    pub column_spacing: u32,
    /// Fixed gap between adjacent rows.
    pub row_spacing: u32,
    /// The axis whose track sizes are resolved first.
    pub axis: Axis,
}

/// The number of columns contributed by the first `a` rows: the longest
/// of their lengths.
pub open spec fn num_columns_upto(rows: Seq<Seq<Child>>, a: int) -> int
    decreases a,
{
    if a <= 0 {
        0
    } else {
        let prev = num_columns_upto(rows, a - 1);
        if rows[a - 1].len() > prev {
            rows[a - 1].len() as int
        } else {
            prev
        }
    }
}

impl Grid {
    /// The children as a sequence of rows.
    pub open spec fn rows_seq(self) -> Seq<Seq<Child>> {
        self.rows@.map_values(|row: Vec<Child>| row@)
    }

    /// The grid stays within the track bound that keeps the layout
    /// arithmetic inside `u64`.
    pub open spec fn wf(self) -> bool {
        &&& self.rows@.len() <= MAX_TRACKS
        &&& forall|a: int| 0 <= a < self.rows@.len() ==> (#[trigger] self.rows@[a])@.len()
            <= MAX_TRACKS
    }

    /// Creates a new empty grid.
    pub fn new() -> (grid: Grid)
        ensures
            grid.rows@.len() == 0,
            grid.width == Length::Shrink,
            grid.height == Length::Shrink,
            grid.padding == (Padding { top: 0, right: 0, bottom: 0, left: 0 }),
            grid.horizontal_align == Horizontal::Left,
            grid.vertical_align == Vertical::Center,
            grid.column_spacing == 0,
            grid.row_spacing == 0,
            grid.axis == Axis::Horizontal,
            grid.wf(),
    {
        Grid {
            rows: Vec::new(),
            width: Length::Shrink,
            height: Length::Shrink,
            padding: Padding { top: 0, right: 0, bottom: 0, left: 0 },
            horizontal_align: Horizontal::Left,
            vertical_align: Vertical::Center,
            column_spacing: 0,
            row_spacing: 0,
            axis: Axis::Horizontal,
        }
    }

    /// Sets the spacing between the columns.
    pub fn column_spacing(self, spacing: u32) -> (grid: Grid)
        ensures
            grid == (Grid { column_spacing: spacing, ..self }),
    {
        Grid { column_spacing: spacing, ..self }
    }

    /// Sets the spacing between the rows.
    pub fn row_spacing(self, spacing: u32) -> (grid: Grid)
        ensures
            grid == (Grid { row_spacing: spacing, ..self }),
    {
        Grid { row_spacing: spacing, ..self }
    }

    /// Sets the padding of the grid.
    pub fn padding(self, padding: Padding) -> (grid: Grid)
        ensures
            grid == (Grid { padding, ..self }),
    {
        Grid { padding, ..self }
    }

    /// Sets the width of the grid.
    pub fn width(self, width: Length) -> (grid: Grid)
        ensures
            grid == (Grid { width, ..self }),
    {
        Grid { width, ..self }
    }

    /// Sets the height of the grid.
    pub fn height(self, height: Length) -> (grid: Grid)
        ensures
            grid == (Grid { height, ..self }),
    {
        Grid { height, ..self }
    }

    /// Sets the horizontal alignment of the children within their cells.
    pub fn align_x(self, horizontal: Horizontal) -> (grid: Grid)
        ensures
            grid == (Grid { horizontal_align: horizontal, ..self }),
    {
        Grid { horizontal_align: horizontal, ..self }
    }

    /// Sets the vertical alignment of the children within their cells.
    pub fn align_y(self, vertical: Vertical) -> (grid: Grid)
        ensures
            grid == (Grid { vertical_align: vertical, ..self }),
    {
        Grid { vertical_align: vertical, ..self }
    }

    /// Sets the main axis of the grid: the axis whose track sizes the
    /// layout pass resolves first.
    pub fn main_axis(self, axis: Axis) -> (grid: Grid)
        ensures
            grid == (Grid { axis, ..self }),
    {
        Grid { axis, ..self }
    }

    /// Adds a row to the grid.
    pub fn push_row(self, row: Vec<Child>) -> (grid: Grid)
        requires
            self.rows@.len() < MAX_TRACKS,
            row@.len() <= MAX_TRACKS,
        ensures
            grid.rows@ == self.rows@.push(row),
            grid.width == self.width && grid.height == self.height && grid.padding == self.padding,
            grid.horizontal_align == self.horizontal_align && grid.vertical_align
                == self.vertical_align,
            grid.column_spacing == self.column_spacing && grid.row_spacing == self.row_spacing,
            grid.axis == self.axis,
            self.wf() ==> grid.wf(),
    {
        let mut grid = self;
        grid.push_row_mut(row);
        grid
    }

    /// Same as [`Grid::push_row`] but takes a reference to `self`.
    pub fn push_row_mut(&mut self, row: Vec<Child>)
        requires
            old(self).rows@.len() < MAX_TRACKS,
            row@.len() <= MAX_TRACKS,
        ensures
            final(self).rows@ == old(self).rows@.push(row),
            final(self).width == old(self).width && final(self).height == old(self).height,
            final(self).padding == old(self).padding,
            final(self).horizontal_align == old(self).horizontal_align,
            final(self).vertical_align == old(self).vertical_align,
            final(self).column_spacing == old(self).column_spacing,
            final(self).row_spacing == old(self).row_spacing,
            final(self).axis == old(self).axis,
            old(self).wf() ==> final(self).wf(),
    {
        self.rows.push(row);
    }

    /// Adds multiple rows to the grid.
    pub fn extend(self, rows: Vec<Vec<Child>>) -> (grid: Grid)
        requires
            self.rows@.len() + rows@.len() <= MAX_TRACKS,
            forall|a: int| 0 <= a < rows@.len() ==> (#[trigger] rows@[a])@.len() <= MAX_TRACKS,
        ensures
            grid.rows@ == self.rows@ + rows@,
            grid.width == self.width && grid.height == self.height && grid.padding == self.padding,
            grid.horizontal_align == self.horizontal_align && grid.vertical_align
                == self.vertical_align,
            grid.column_spacing == self.column_spacing && grid.row_spacing == self.row_spacing,
            grid.axis == self.axis,
            self.wf() ==> grid.wf(),
    {
        let mut grid = self;
        grid.extend_mut(rows);
        grid
    }

    /// Same as [`Grid::extend`] but takes a reference to `self`.
    pub fn extend_mut(&mut self, rows: Vec<Vec<Child>>)
        requires
            old(self).rows@.len() + rows@.len() <= MAX_TRACKS,
            forall|a: int| 0 <= a < rows@.len() ==> (#[trigger] rows@[a])@.len() <= MAX_TRACKS,
        ensures
            final(self).rows@ == old(self).rows@ + rows@,
            final(self).width == old(self).width && final(self).height == old(self).height,
            final(self).padding == old(self).padding,
            final(self).horizontal_align == old(self).horizontal_align,
            final(self).vertical_align == old(self).vertical_align,
            final(self).column_spacing == old(self).column_spacing,
            final(self).row_spacing == old(self).row_spacing,
            final(self).axis == old(self).axis,
            old(self).wf() ==> final(self).wf(),
    {
        let mut remaining = rows;
        let ghost all = remaining@;
        while remaining.len() > 0
            invariant
                all.len() + old(self).rows@.len() <= MAX_TRACKS,
                forall|a: int| 0 <= a < all.len() ==> (#[trigger] all[a])@.len() <= MAX_TRACKS,
                self.rows@ + remaining@ == old(self).rows@ + all,
                self.width == old(self).width && self.height == old(self).height,
                self.padding == old(self).padding,
                self.horizontal_align == old(self).horizontal_align,
                self.vertical_align == old(self).vertical_align,
                self.column_spacing == old(self).column_spacing,
                self.row_spacing == old(self).row_spacing,
                self.axis == old(self).axis,
            decreases remaining@.len(),
        {
            let ghost rows_pre = self.rows@;
            let ghost remaining_pre = remaining@;
            let row = remaining.remove(0);
            self.rows.push(row);
            proof {
                assert(self.rows@ + remaining@ =~= rows_pre + remaining_pre);
            }
        }
        proof {
            assert(self.rows@ =~= self.rows@ + remaining@);
            assert(forall|a: int|
                0 <= a < self.rows@.len() && a >= old(self).rows@.len() ==> (
                #[trigger] self.rows@[a])@.len() <= MAX_TRACKS);
        }
    }

    /// The total number of rows.
    pub open spec fn spec_num_rows(self) -> int {
        self.rows@.len() as int
    }

    /// The number of columns: the longest row's length.
    pub open spec fn spec_num_columns(self) -> int {
        num_columns_upto(self.rows_seq(), self.spec_num_rows())
    }

    /// The grid's sizing mode along its main axis.
    pub open spec fn spec_main_length(self) -> Length {
        if self.axis is Horizontal {
            self.width
        } else {
            self.height
        }
    }

    /// The grid's sizing mode along its cross axis.
    pub open spec fn spec_cross_length(self) -> Length {
        if self.axis is Horizontal {
            self.height
        } else {
            self.width
        }
    }

    /// The number of primary tracks (rows when the main axis is
    /// horizontal, columns otherwise).
    pub open spec fn spec_num_prim(self) -> int {
        if self.axis is Horizontal {
            self.spec_num_rows()
        } else {
            self.spec_num_columns()
        }
    }

    /// The number of secondary tracks.
    pub open spec fn spec_num_sec(self) -> int {
        if self.axis is Horizontal {
            self.spec_num_columns()
        } else {
            self.spec_num_rows()
        }
    }

    /// The spacing between adjacent secondary tracks along the main
    /// axis.
    pub open spec fn spec_main_spacing(self) -> int {
        if self.axis is Horizontal {
            self.column_spacing as int
        } else {
            self.row_spacing as int
        }
    }

    /// The spacing between adjacent primary tracks along the cross axis.
    pub open spec fn spec_cross_spacing(self) -> int {
        if self.axis is Horizontal {
            self.row_spacing as int
        } else {
            self.column_spacing as int
        }
    }

    /// Total inter-track spacing along the main axis.
    pub open spec fn spec_main_total_spacing(self) -> int {
        if self.spec_num_sec() > 0 {
            self.spec_main_spacing() * (self.spec_num_sec() - 1)
        } else {
            0
        }
    }

    /// Total inter-track spacing along the cross axis.
    pub open spec fn spec_cross_total_spacing(self) -> int {
        if self.spec_num_prim() > 0 {
            self.spec_cross_spacing() * (self.spec_num_prim() - 1)
        } else {
            0
        }
    }

    /// The room the content may take horizontally: the incoming maximum,
    /// narrowed by a fixed width, minus the horizontal padding.
    pub open spec fn spec_cap_width(self, limits: Limits) -> int {
        let capped = match self.width {
            Length::Fixed(pixels) => spec_clamp(
                pixels,
                limits.min.width,
                limits.max.width,
            ) as int,
            _ => limits.max.width as int,
        };
        if capped - self.padding.spec_horizontal() >= 0 {
            capped - self.padding.spec_horizontal()
        } else {
            0
        }
    }

    /// The room the content may take vertically.
    pub open spec fn spec_cap_height(self, limits: Limits) -> int {
        let capped = match self.height {
            Length::Fixed(pixels) => spec_clamp(
                pixels,
                limits.min.height,
                limits.max.height,
            ) as int,
            _ => limits.max.height as int,
        };
        if capped - self.padding.spec_vertical() >= 0 {
            capped - self.padding.spec_vertical()
        } else {
            0
        }
    }

    /// The room along the main axis.
    pub open spec fn spec_cap_main(self, limits: Limits) -> int {
        if self.axis is Horizontal {
            self.spec_cap_width(limits)
        } else {
            self.spec_cap_height(limits)
        }
    }

    /// The room along the cross axis.
    pub open spec fn spec_cap_cross(self, limits: Limits) -> int {
        if self.axis is Horizontal {
            self.spec_cap_height(limits)
        } else {
            self.spec_cap_width(limits)
        }
    }

    /// Usable main-axis space once the inter-track spacing is set aside;
    /// degenerate budgets clamp to zero.
    pub open spec fn spec_usable_main(self, limits: Limits) -> int {
        let usable = self.spec_cap_main(limits) - self.spec_main_total_spacing();
        if usable >= 0 {
            usable
        } else {
            0
        }
    }

    /// Usable cross-axis space once the inter-track spacing is set
    /// aside.
    pub open spec fn spec_usable_cross(self, limits: Limits) -> int {
        let usable = self.spec_cap_cross(limits) - self.spec_cross_total_spacing();
        if usable >= 0 {
            usable
        } else {
            0
        }
    }

    /// The final main-axis extents, one per secondary track.
    pub open spec fn spec_sec_main(self, limits: Limits) -> Seq<int> {
        solved_tracks(
            self.rows_seq(),
            self.axis,
            true,
            self.spec_num_prim(),
            self.spec_usable_main(limits),
            self.spec_num_sec() as nat,
            self.spec_main_length() is Shrink,
        )
    }

    /// The final cross-axis extents, one per primary track.
    pub open spec fn spec_prim_cross(self, limits: Limits) -> Seq<int> {
        solved_tracks(
            self.rows_seq(),
            self.axis,
            false,
            self.spec_num_sec(),
            self.spec_usable_cross(limits),
            self.spec_num_prim() as nat,
            self.spec_cross_length() is Shrink,
        )
    }

    /// The cross-axis budget that the greedy pass offered primary track
    /// `i`; children without a cross fill weight were measured against
    /// it.
    pub open spec fn spec_cross_budget(self, limits: Limits, i: int) -> int {
        track_budget(
            self.rows_seq(),
            self.axis,
            false,
            self.spec_num_sec(),
            self.spec_usable_cross(limits),
            i,
        )
    }

    /// The resolved width of column `b`.
    pub open spec fn spec_col_width(self, limits: Limits, b: int) -> int {
        if self.axis is Horizontal {
            self.spec_sec_main(limits)[b]
        } else {
            self.spec_prim_cross(limits)[b]
        }
    }

    /// The resolved height of row `a`.
    pub open spec fn spec_row_height(self, limits: Limits, a: int) -> int {
        if self.axis is Horizontal {
            self.spec_prim_cross(limits)[a]
        } else {
            self.spec_sec_main(limits)[a]
        }
    }

    /// The width the child in cell `(a, b)` settles on.
    pub open spec fn spec_cell_width(self, limits: Limits, a: int, b: int) -> int {
        let child = self.rows_seq()[a][b];
        if self.axis is Horizontal {
            spec_resolve_extent(child.width, child.intrinsic.width, self.spec_sec_main(limits)[b])
        } else {
            if child.width.spec_fill_factor() != 0 {
                spec_resolve_extent(
                    child.width,
                    child.intrinsic.width,
                    self.spec_prim_cross(limits)[b],
                )
            } else {
                spec_resolve_extent(
                    child.width,
                    child.intrinsic.width,
                    self.spec_cross_budget(limits, b),
                )
            }
        }
    }

    /// The height the child in cell `(a, b)` settles on.
    pub open spec fn spec_cell_height(self, limits: Limits, a: int, b: int) -> int {
        let child = self.rows_seq()[a][b];
        if self.axis is Horizontal {
            if child.height.spec_fill_factor() != 0 {
                spec_resolve_extent(
                    child.height,
                    child.intrinsic.height,
                    self.spec_prim_cross(limits)[a],
                )
            } else {
                spec_resolve_extent(
                    child.height,
                    child.intrinsic.height,
                    self.spec_cross_budget(limits, a),
                )
            }
        } else {
            spec_resolve_extent(child.height, child.intrinsic.height, self.spec_sec_main(limits)[a])
        }
    }
}

/// The left edge of the `k`-th track in a run of tracks separated by a
/// fixed spacing: the summed extents and gaps before it.
pub open spec fn accum_tracks(tracks: Seq<int>, spacing: int, k: int) -> int
    decreases k,
{
    if k <= 0 {
        0
    } else {
        accum_tracks(tracks, spacing, k - 1) + tracks[k - 1] + spacing
    }
}

impl Grid {
    /// The column extents in visual order.
    pub open spec fn spec_col_widths(self, limits: Limits) -> Seq<int> {
        if self.axis is Horizontal {
            self.spec_sec_main(limits)
        } else {
            self.spec_prim_cross(limits)
        }
    }

    /// The row extents in visual order.
    pub open spec fn spec_row_heights(self, limits: Limits) -> Seq<int> {
        if self.axis is Horizontal {
            self.spec_prim_cross(limits)
        } else {
            self.spec_sec_main(limits)
        }
    }

    /// The left edge of the cell in column `b`.
    pub open spec fn spec_cell_x(self, limits: Limits, b: int) -> int {
        self.padding.left + accum_tracks(self.spec_col_widths(limits), self.column_spacing as int, b)
    }

    /// The top edge of the cell in row `a`.
    pub open spec fn spec_cell_y(self, limits: Limits, a: int) -> int {
        self.padding.top + accum_tracks(self.spec_row_heights(limits), self.row_spacing as int, a)
    }

    /// The left edge of the child's rectangle in cell `(a, b)`, after
    /// alignment within the cell.
    pub open spec fn spec_rect_x(self, limits: Limits, a: int, b: int) -> int {
        self.spec_cell_x(limits, b) + spec_h_offset(
            self.horizontal_align,
            self.spec_cell_width(limits, a, b),
            self.spec_col_width(limits, b),
        )
    }

    /// The top edge of the child's rectangle in cell `(a, b)`, after
    /// alignment within the cell.
    pub open spec fn spec_rect_y(self, limits: Limits, a: int, b: int) -> int {
        self.spec_cell_y(limits, a) + spec_v_offset(
            self.vertical_align,
            self.spec_cell_height(limits, a, b),
            self.spec_row_height(limits, a),
        )
    }

    /// The content's intrinsic main-axis extent: all secondary tracks
    /// plus the gaps between them.
    pub open spec fn spec_intrinsic_main(self, limits: Limits) -> int {
        sum_sizes(self.spec_sec_main(limits), self.spec_num_sec())
            + self.spec_main_total_spacing()
    }

    /// The content's intrinsic cross-axis extent.
    pub open spec fn spec_intrinsic_cross(self, limits: Limits) -> int {
        sum_sizes(self.spec_prim_cross(limits), self.spec_num_prim())
            + self.spec_cross_total_spacing()
    }

    /// The grid's reported width: the intrinsic content width plus
    /// padding, resolved against its width mode and the incoming
    /// limits.
    pub open spec fn spec_total_width(self, limits: Limits) -> int {
        let intrinsic_w = if self.axis is Horizontal {
            self.spec_intrinsic_main(limits)
        } else {
            self.spec_intrinsic_cross(limits)
        };
        spec_resolve_total(
            self.width,
            intrinsic_w + self.padding.spec_horizontal(),
            limits.min.width,
            limits.max.width,
        )
    }

    /// The grid's reported height.
    pub open spec fn spec_total_height(self, limits: Limits) -> int {
        let intrinsic_h = if self.axis is Horizontal {
            self.spec_intrinsic_cross(limits)
        } else {
            self.spec_intrinsic_main(limits)
        };
        spec_resolve_total(
            self.height,
            intrinsic_h + self.padding.spec_vertical(),
            limits.min.height,
            limits.max.height,
        )
    }
}

/// Resolving an intrinsic extent against a sizing mode and limits:
/// fill modes take the whole maximum, a fixed mode its clamped amount,
/// and shrink the clamped intrinsic extent.
pub open spec fn spec_resolve_total(length: Length, intrinsic: int, min: u32, max: u32) -> int {
    match length {
        Length::Fill => max as int,
        Length::FillPortion(_) => max as int,
        Length::Fixed(pixels) => spec_clamp(pixels, min, max) as int,
        Length::Shrink => if intrinsic < min as int {
            min as int
        } else if intrinsic > max as int {
            max as int
        } else {
            intrinsic
        },
    }
}

// ---------------------------------------------------------------------
// Facts the positioning pass and the layout laws rest on.
// ---------------------------------------------------------------------

/// The column count bounds, and is bounded by, the row lengths.
proof fn lemma_num_columns_bounds(rows: Seq<Seq<Child>>, bound: int, a: int)
    requires
        0 <= a <= rows.len(),
        0 <= bound,
        forall|r: int| 0 <= r < rows.len() ==> (#[trigger] rows[r]).len() <= bound,
    ensures
        0 <= num_columns_upto(rows, a) <= bound,
        forall|r: int| 0 <= r < a ==> (#[trigger] rows[r]).len() <= num_columns_upto(rows, a),
    decreases a,
{
    if a > 0 {
        lemma_num_columns_bounds(rows, bound, a - 1);
    }
}

/// A present member without fill weight never exceeds its track's
/// intrinsic minimum.
proof fn lemma_member_min(
    rows: Seq<Seq<Child>>,
    axis: Axis,
    main_side: bool,
    t: int,
    budget: int,
    idx: int,
    idx_count: int,
)
    requires
        0 <= idx < idx_count,
        member_present(rows, axis, main_side, t, idx),
        member_child(rows, axis, main_side, t, idx).spec_length_on(
            axis,
            main_side,
        ).spec_fill_factor() == 0,
    ensures
        ({
            let child = member_child(rows, axis, main_side, t, idx);
            spec_resolve_extent(
                child.spec_length_on(axis, main_side),
                child.spec_intrinsic_on(axis, main_side),
                budget,
            ) <= track_min_upto(rows, axis, main_side, t, budget, idx_count)
        }),
    decreases idx_count,
{
    if idx_count > idx + 1 {
        lemma_member_min(rows, axis, main_side, t, budget, idx, idx_count - 1);
        lemma_track_min_mono(rows, axis, main_side, t, budget, idx_count - 1);
    }
}

/// One more member can only raise a track's intrinsic minimum.
proof fn lemma_track_min_mono(
    rows: Seq<Seq<Child>>,
    axis: Axis,
    main_side: bool,
    t: int,
    budget: int,
    idx: int,
)
    ensures
        track_min_upto(rows, axis, main_side, t, budget, idx) <= track_min_upto(
            rows,
            axis,
            main_side,
            t,
            budget,
            idx + 1,
        ),
{
}

/// Accumulated track offsets stay within a coarse linear bound.
proof fn lemma_accum_bounds(tracks: Seq<int>, spacing: int, k: int)
    requires
        0 <= k <= tracks.len(),
        forall|t: int| 0 <= t < tracks.len() ==> 0 <= #[trigger] tracks[t] <= u32::MAX as int,
        0 <= spacing <= u32::MAX as int,
    ensures
        0 <= accum_tracks(tracks, spacing, k) <= k * (2 * (u32::MAX as int)),
    decreases k,
{
    if k > 0 {
        lemma_accum_bounds(tracks, spacing, k - 1);
    }
}

/// What the track solver guarantees on one side: one extent per track,
/// each at least its intrinsic minimum and never negative.
proof fn lemma_solved_facts(
    rows: Seq<Seq<Child>>,
    axis: Axis,
    main_side: bool,
    idx_count: int,
    usable: int,
    count: int,
    shrink: bool,
)
    requires
        0 <= usable <= u32::MAX as int,
        0 <= count,
    ensures
        ({
            let solved = solved_tracks(rows, axis, main_side, idx_count, usable, count as nat, shrink);
            &&& solved.len() == count
            &&& forall|t: int|
                0 <= t < count ==> track_min_at(rows, axis, main_side, idx_count, usable, t)
                    <= #[trigger] solved[t]
        }),
        forall|t: int|
            0 <= t < count ==> 0 <= #[trigger] track_min_at(rows, axis, main_side, idx_count, usable, t)
                <= usable,
{
    let mins = track_mins(rows, axis, main_side, idx_count, usable, count as nat);
    let factors = track_factors(rows, axis, main_side, idx_count, count as nat);
    lemma_track_mins_sum(rows, axis, main_side, idx_count, usable, count as nat, count);
    lemma_track_budget_bounds(rows, axis, main_side, idx_count, usable, count);
    assert forall|t: int| 0 <= t < count implies 0 <= #[trigger] track_min_at(
        rows,
        axis,
        main_side,
        idx_count,
        usable,
        t,
    ) <= usable by {
        lemma_track_budget_bounds(rows, axis, main_side, idx_count, usable, t);
        lemma_track_min_bounds(
            rows,
            axis,
            main_side,
            t,
            track_budget(rows, axis, main_side, idx_count, usable, t),
            idx_count,
        );
    }
    if !shrink {
        crate::track::lemma_distribute_minimums(mins, factors, usable);
    }
}

impl Grid {
    /// What the track solver guarantees on both axes: one extent per
    /// track, each at least its intrinsic minimum and never negative.
    proof fn lemma_tracks_facts(self, limits: Limits)
        requires
            self.wf(),
        ensures
            self.spec_sec_main(limits).len() == self.spec_num_sec(),
            self.spec_prim_cross(limits).len() == self.spec_num_prim(),
            forall|t: int|
                0 <= t < self.spec_num_sec() ==> track_min_at(
                    self.rows_seq(),
                    self.axis,
                    true,
                    self.spec_num_prim(),
                    self.spec_usable_main(limits),
                    t,
                ) <= #[trigger] self.spec_sec_main(limits)[t],
            forall|t: int|
                0 <= t < self.spec_num_prim() ==> track_min_at(
                    self.rows_seq(),
                    self.axis,
                    false,
                    self.spec_num_sec(),
                    self.spec_usable_cross(limits),
                    t,
                ) <= #[trigger] self.spec_prim_cross(limits)[t],
            forall|t: int|
                0 <= t < self.spec_num_sec() ==> 0 <= #[trigger] self.spec_sec_main(limits)[t],
            forall|t: int|
                0 <= t < self.spec_num_prim() ==> 0 <= #[trigger] self.spec_prim_cross(limits)[t],
    {
        let rows = self.rows_seq();
        let usable_main = self.spec_usable_main(limits);
        let usable_cross = self.spec_usable_cross(limits);
        let nprim = self.spec_num_prim();
        let nsec = self.spec_num_sec();
        lemma_num_columns_bounds(rows, MAX_TRACKS as int, rows.len() as int);
        self.lemma_usable_nonneg(limits);
        lemma_solved_facts(
            rows,
            self.axis,
            true,
            nprim,
            usable_main,
            nsec,
            self.spec_main_length() is Shrink,
        );
        lemma_solved_facts(
            rows,
            self.axis,
            false,
            nsec,
            usable_cross,
            nprim,
            self.spec_cross_length() is Shrink,
        );
        let solved_main = solved_tracks(
            rows,
            self.axis,
            true,
            nprim,
            usable_main,
            nsec as nat,
            self.spec_main_length() is Shrink,
        );
        let solved_cross = solved_tracks(
            rows,
            self.axis,
            false,
            nsec,
            usable_cross,
            nprim as nat,
            self.spec_cross_length() is Shrink,
        );
        assert(self.spec_sec_main(limits) == solved_main);
        assert(self.spec_prim_cross(limits) == solved_cross);
        assert forall|t: int| 0 <= t < nsec implies track_min_at(
            rows,
            self.axis,
            true,
            nprim,
            usable_main,
            t,
        ) <= #[trigger] self.spec_sec_main(limits)[t] by {
            assert(self.spec_sec_main(limits)[t] == solved_main[t]);
        }
        assert forall|t: int| 0 <= t < nprim implies track_min_at(
            rows,
            self.axis,
            false,
            nsec,
            usable_cross,
            t,
        ) <= #[trigger] self.spec_prim_cross(limits)[t] by {
            assert(self.spec_prim_cross(limits)[t] == solved_cross[t]);
        }
    }

    /// The caps the incoming limits put on the content are never
    /// negative.
    proof fn lemma_usable_nonneg(self, limits: Limits)
        ensures
            0 <= self.spec_usable_main(limits) <= u32::MAX as int,
            0 <= self.spec_usable_cross(limits) <= u32::MAX as int,
    {
    }

    /// Every child's resolved rectangle fits inside its cell.
    pub proof fn lemma_cell_fits(self, limits: Limits, a: int, b: int)
        requires
            self.wf(),
            0 <= a < self.rows_seq().len(),
            0 <= b < self.rows_seq()[a].len(),
        ensures
            0 <= self.spec_cell_width(limits, a, b) <= self.spec_col_width(limits, b),
            0 <= self.spec_cell_height(limits, a, b) <= self.spec_row_height(limits, a),
    {
        let rows = self.rows_seq();
        let child = rows[a][b];
        let nprim = self.spec_num_prim();
        let nsec = self.spec_num_sec();
        lemma_num_columns_bounds(rows, MAX_TRACKS as int, rows.len() as int);
        assert(rows[a].len() <= self.spec_num_columns());
        self.lemma_tracks_facts(limits);
        self.lemma_usable_nonneg(limits);
        if self.axis is Horizontal {
            // Width: the main side; the offered cap is the column's own
            // final extent.
            assert(0 <= self.spec_sec_main(limits)[b]);
            // Height: the cross side over primary track `a`.
            if child.height.spec_fill_factor() == 0 {
                lemma_track_budget_bounds(
                    rows,
                    self.axis,
                    false,
                    nsec,
                    self.spec_usable_cross(limits),
                    a,
                );
                lemma_member_min(
                    rows,
                    self.axis,
                    false,
                    a,
                    self.spec_cross_budget(limits, a),
                    b,
                    nsec,
                );
            }
        } else {
            assert(0 <= self.spec_sec_main(limits)[a]);
            if child.width.spec_fill_factor() == 0 {
                lemma_track_budget_bounds(
                    rows,
                    self.axis,
                    false,
                    nsec,
                    self.spec_usable_cross(limits),
                    b,
                );
                lemma_member_min(
                    rows,
                    self.axis,
                    false,
                    b,
                    self.spec_cross_budget(limits, b),
                    a,
                    nsec,
                );
            }
        }
    }
}

impl Child {
    /// Executable twin of [`Child::spec_length_on`].
    fn length_on(&self, axis: Axis, main_side: bool) -> (length: Length)
        ensures
            length == self.spec_length_on(axis, main_side),
    {
        if matches!(axis, Axis::Horizontal) == main_side {
            self.width
        } else {
            self.height
        }
    }

    /// Executable twin of [`Child::spec_intrinsic_on`].
    fn intrinsic_on(&self, axis: Axis, main_side: bool) -> (extent: u32)
        ensures
            extent == self.spec_intrinsic_on(axis, main_side),
    {
        if matches!(axis, Axis::Horizontal) == main_side {
            self.intrinsic.width
        } else {
            self.intrinsic.height
        }
    }
}

impl Grid {
    /// One greedy sizing pass along one side: walks the tracks in
    /// order, measures every member without fill weight against the
    /// remaining budget, and records each track's intrinsic minimum,
    /// fill weight and offered budget.
    fn scan_tracks(&self, main_side: bool, count: usize, idx_count: usize, usable: u32) -> (out: (
        Vec<u32>,
        Vec<u16>,
        Vec<u32>,
    ))
        ensures
            out.0@.len() == count && out.1@.len() == count && out.2@.len() == count,
            forall|t: int|
                0 <= t < count ==> #[trigger] out.0@[t] as int == track_min_at(
                    self.rows_seq(),
                    self.axis,
                    main_side,
                    idx_count as int,
                    usable as int,
                    t,
                ),
            forall|t: int|
                0 <= t < count ==> #[trigger] out.1@[t] == track_factor_upto(
                    self.rows_seq(),
                    self.axis,
                    main_side,
                    t,
                    idx_count as int,
                ),
            forall|t: int|
                0 <= t < count ==> #[trigger] out.2@[t] as int == track_budget(
                    self.rows_seq(),
                    self.axis,
                    main_side,
                    idx_count as int,
                    usable as int,
                    t,
                ),
    {
        let ghost rows_v = self.rows_seq();
        let mut mins: Vec<u32> = Vec::new();
        let mut factors: Vec<u16> = Vec::new();
        let mut budgets: Vec<u32> = Vec::new();
        let mut budget: u32 = usable;
        let on_rows = matches!(self.axis, Axis::Horizontal) == main_side;
        let mut t: usize = 0;
        while t < count
            invariant
                t <= count,
                rows_v == self.rows_seq(),
                on_rows == ((self.axis is Horizontal) == main_side),
                mins@.len() == t && factors@.len() == t && budgets@.len() == t,
                budget as int == track_budget(
                    rows_v,
                    self.axis,
                    main_side,
                    idx_count as int,
                    usable as int,
                    t as int,
                ),
                forall|t2: int|
                    0 <= t2 < t ==> #[trigger] mins@[t2] as int == track_min_at(
                        rows_v,
                        self.axis,
                        main_side,
                        idx_count as int,
                        usable as int,
                        t2,
                    ),
                forall|t2: int|
                    0 <= t2 < t ==> #[trigger] factors@[t2] == track_factor_upto(
                        rows_v,
                        self.axis,
                        main_side,
                        t2,
                        idx_count as int,
                    ),
                forall|t2: int|
                    0 <= t2 < t ==> #[trigger] budgets@[t2] as int == track_budget(
                        rows_v,
                        self.axis,
                        main_side,
                        idx_count as int,
                        usable as int,
                        t2,
                    ),
            decreases count - t,
        {
            budgets.push(budget);
            let mut track_min: u32 = 0;
            let mut track_factor: u16 = 0;
            let mut idx: usize = 0;
            while idx < idx_count
                invariant
                    idx <= idx_count,
                    rows_v == self.rows_seq(),
                    on_rows == ((self.axis is Horizontal) == main_side),
                    track_min as int == track_min_upto(
                        rows_v,
                        self.axis,
                        main_side,
                        t as int,
                        budget as int,
                        idx as int,
                    ),
                    track_factor == track_factor_upto(
                        rows_v,
                        self.axis,
                        main_side,
                        t as int,
                        idx as int,
                    ),
                    track_min <= budget,
                decreases idx_count - idx,
            {
                let a = if on_rows {
                    idx
                } else {
                    t
                };
                let b = if on_rows {
                    t
                } else {
                    idx
                };
                proof {
                    assert(a as int == member_row(self.axis, main_side, t as int, idx as int));
                    assert(b as int == member_col(self.axis, main_side, t as int, idx as int));
                }
                if a < self.rows.len() {
                    let row = &self.rows[a];
                    if b < row.len() {
                        proof {
                            assert(rows_v[a as int] == self.rows@[a as int]@);
                            assert(member_present(
                                rows_v,
                                self.axis,
                                main_side,
                                t as int,
                                idx as int,
                            ));
                        }
                        let child = row[b];
                        let length = child.length_on(self.axis, main_side);
                        let factor = length.fill_factor();
                        if factor > track_factor {
                            track_factor = factor;
                        }
                        if factor == 0 {
                            let extent = resolve_extent(
                                length,
                                child.intrinsic_on(self.axis, main_side),
                                budget,
                            );
                            if extent > track_min {
                                track_min = extent;
                            }
                        }
                    } else {
                        proof {
                            assert(!member_present(
                                rows_v,
                                self.axis,
                                main_side,
                                t as int,
                                idx as int,
                            ));
                        }
                    }
                } else {
                    proof {
                        assert(!member_present(
                            rows_v,
                            self.axis,
                            main_side,
                            t as int,
                            idx as int,
                        ));
                    }
                }
                idx = idx + 1;
            }
            mins.push(track_min);
            factors.push(track_factor);
            budget = budget - track_min;
            t = t + 1;
        }
        (mins, factors, budgets)
    }
}

// ---------------------------------------------------------------------
// The laws of the layout.
// ---------------------------------------------------------------------

/// An aligned offset keeps the inner extent inside the outer one.
proof fn lemma_h_offset_bounds(align: Horizontal, inner: int, outer: int)
    requires
        0 <= inner <= outer,
    ensures
        0 <= spec_h_offset(align, inner, outer),
        spec_h_offset(align, inner, outer) + inner <= outer,
{
    if align is Center {
        vstd::arithmetic::div_mod::lemma_div_pos_is_pos(outer - inner, 2);
        vstd::arithmetic::div_mod::lemma_div_is_ordered_by_denominator(outer - inner, 1, 2);
        vstd::arithmetic::div_mod::lemma_div_basics(outer - inner);
    }
}

/// An aligned offset keeps the inner extent inside the outer one.
proof fn lemma_v_offset_bounds(align: Vertical, inner: int, outer: int)
    requires
        0 <= inner <= outer,
    ensures
        0 <= spec_v_offset(align, inner, outer),
        spec_v_offset(align, inner, outer) + inner <= outer,
{
    if align is Center {
        vstd::arithmetic::div_mod::lemma_div_pos_is_pos(outer - inner, 2);
        vstd::arithmetic::div_mod::lemma_div_is_ordered_by_denominator(outer - inner, 1, 2);
        vstd::arithmetic::div_mod::lemma_div_basics(outer - inner);
    }
}

/// Accumulated offsets relate to the plain track sum.
proof fn lemma_accum_vs_sum(tracks: Seq<int>, spacing: int, k: int)
    ensures
        accum_tracks(tracks, spacing, k) == sum_sizes(tracks, k) + if k > 0 {
            k * spacing
        } else {
            0
        },
    decreases k,
{
    if k > 0 {
        lemma_accum_vs_sum(tracks, spacing, k - 1);
        assert((k - 1) * spacing + spacing == k * spacing) by (nonlinear_arith);
    }
}

/// Accumulated offsets grow with the index.
proof fn lemma_accum_monotone(tracks: Seq<int>, spacing: int, k1: int, k2: int)
    requires
        0 <= k1 <= k2 <= tracks.len(),
        0 <= spacing,
        forall|t: int| 0 <= t < tracks.len() ==> 0 <= #[trigger] tracks[t],
    ensures
        accum_tracks(tracks, spacing, k1) <= accum_tracks(tracks, spacing, k2),
    decreases k2 - k1,
{
    if k1 < k2 {
        lemma_accum_monotone(tracks, spacing, k1, k2 - 1);
    }
}

/// Track sums grow with the index.
proof fn lemma_sum_sizes_monotone(tracks: Seq<int>, k1: int, k2: int)
    requires
        0 <= k1 <= k2 <= tracks.len(),
        forall|t: int| 0 <= t < tracks.len() ==> 0 <= #[trigger] tracks[t],
    ensures
        sum_sizes(tracks, k1) <= sum_sizes(tracks, k2),
    decreases k2 - k1,
{
    if k1 < k2 {
        lemma_sum_sizes_monotone(tracks, k1, k2 - 1);
    }
}

impl Grid {
    /// The extents of every column and row are non-negative, and the
    /// sequences have one entry per column and row.
    proof fn lemma_visual_tracks(self, limits: Limits)
        requires
            self.wf(),
        ensures
            self.spec_col_widths(limits).len() == self.spec_num_columns(),
            self.spec_row_heights(limits).len() == self.spec_num_rows(),
            forall|t: int|
                0 <= t < self.spec_num_columns() ==> 0 <= #[trigger] self.spec_col_widths(
                    limits,
                )[t],
            forall|t: int|
                0 <= t < self.spec_num_rows() ==> 0 <= #[trigger] self.spec_row_heights(limits)[t],
    {
        self.lemma_tracks_facts(limits);
        lemma_num_columns_bounds(self.rows_seq(), MAX_TRACKS as int, self.rows_seq().len() as int);
    }

    /// Track-minimum guarantee: every resolved main-axis track extent is
    /// at least the intrinsic minimum the greedy pass computed for that
    /// track, and likewise on the cross axis.
    pub proof fn lemma_track_minimum_guarantee(self, limits: Limits)
        requires
            self.wf(),
        ensures
            forall|t: int|
                0 <= t < self.spec_num_sec() ==> track_min_at(
                    self.rows_seq(),
                    self.axis,
                    true,
                    self.spec_num_prim(),
                    self.spec_usable_main(limits),
                    t,
                ) <= #[trigger] self.spec_sec_main(limits)[t],
            forall|t: int|
                0 <= t < self.spec_num_prim() ==> track_min_at(
                    self.rows_seq(),
                    self.axis,
                    false,
                    self.spec_num_sec(),
                    self.spec_usable_cross(limits),
                    t,
                ) <= #[trigger] self.spec_prim_cross(limits)[t],
    {
        self.lemma_tracks_facts(limits);
    }

    /// Space conservation: when the inter-track spacing fits in the
    /// available main space, the resolved main-axis tracks and the
    /// spacing together never exceed that space.
    pub proof fn lemma_space_conservation(self, limits: Limits)
        requires
            self.wf(),
            self.spec_main_total_spacing() <= self.spec_cap_main(limits),
        ensures
            sum_sizes(self.spec_sec_main(limits), self.spec_num_sec())
                + self.spec_main_total_spacing() <= self.spec_cap_main(limits),
    {
        let rows = self.rows_seq();
        let usable = self.spec_usable_main(limits);
        let nprim = self.spec_num_prim();
        let nsec = self.spec_num_sec();
        self.lemma_usable_nonneg(limits);
        lemma_num_columns_bounds(rows, MAX_TRACKS as int, rows.len() as int);
        let mins = track_mins(rows, self.axis, true, nprim, usable, nsec as nat);
        let factors = track_factors(rows, self.axis, true, nprim, nsec as nat);
        lemma_track_mins_sum(rows, self.axis, true, nprim, usable, nsec as nat, nsec);
        lemma_track_budget_bounds(rows, self.axis, true, nprim, usable, nsec);
        if self.spec_main_length() is Shrink {
            // The tracks are exactly the minimums, whose sum the greedy
            // budget bounds.
            lemma_shrink_sum(rows, self.axis, true, nprim, usable, nsec as nat, nsec);
        } else {
            crate::track::lemma_distribute_sum(mins, factors, usable);
        }
    }

    /// Exact space use: with every main-axis track carrying a positive
    /// fill weight and no track clamping, the resolved tracks use the
    /// usable main space exactly.
    pub proof fn lemma_space_exact(self, limits: Limits)
        requires
            self.wf(),
            !(self.spec_main_length() is Shrink),
            self.spec_num_sec() > 0,
            forall|t: int|
                0 <= t < self.spec_num_sec() ==> #[trigger] track_factor_upto(
                    self.rows_seq(),
                    self.axis,
                    true,
                    t,
                    self.spec_num_prim(),
                ) > 0,
            forall|t: int|
                0 <= t < self.spec_num_sec() ==> (#[trigger] track_factor_upto(
                    self.rows_seq(),
                    self.axis,
                    true,
                    t,
                    self.spec_num_prim(),
                ) as int) * self.spec_usable_main(limits) >= track_min_at(
                    self.rows_seq(),
                    self.axis,
                    true,
                    self.spec_num_prim(),
                    self.spec_usable_main(limits),
                    t,
                ) * crate::track::sum_factors(
                    track_factors(
                        self.rows_seq(),
                        self.axis,
                        true,
                        self.spec_num_prim(),
                        self.spec_num_sec() as nat,
                    ),
                    self.spec_num_sec(),
                ),
        ensures
            sum_sizes(self.spec_sec_main(limits), self.spec_num_sec()) == self.spec_usable_main(
                limits,
            ),
    {
        let rows = self.rows_seq();
        let usable = self.spec_usable_main(limits);
        let nprim = self.spec_num_prim();
        let nsec = self.spec_num_sec();
        self.lemma_usable_nonneg(limits);
        lemma_num_columns_bounds(rows, MAX_TRACKS as int, rows.len() as int);
        let mins = track_mins(rows, self.axis, true, nprim, usable, nsec as nat);
        let factors = track_factors(rows, self.axis, true, nprim, nsec as nat);
        lemma_track_mins_sum(rows, self.axis, true, nprim, usable, nsec as nat, nsec);
        lemma_track_budget_bounds(rows, self.axis, true, nprim, usable, nsec);
        assert forall|k: int| 0 <= k < nsec implies #[trigger] factors[k] > 0 by {
            assert(factors[k] == track_factor_upto(rows, self.axis, true, k, nprim));
        }
        assert forall|k: int| 0 <= k < nsec implies (#[trigger] factors[k] as int) * usable >= (
        mins[k] as int) * crate::track::sum_factors(factors, factors.len() as int) by {
            lemma_track_budget_bounds(rows, self.axis, true, nprim, usable, k);
            lemma_track_min_bounds(
                rows,
                self.axis,
                true,
                k,
                track_budget(rows, self.axis, true, nprim, usable, k),
                nprim,
            );
            assert(mins[k] as int == track_min_at(rows, self.axis, true, nprim, usable, k));
        }
        crate::track::lemma_distribute_exact(mins, factors, usable);
    }

    /// No overlap: the rectangles of two distinct cells never
    /// intersect; separation holds along the column axis for different
    /// columns and along the row axis for different rows.
    pub proof fn lemma_no_overlap(
        self,
        limits: Limits,
        a1: int,
        b1: int,
        a2: int,
        b2: int,
    )
        requires
            self.wf(),
            0 <= a1 < self.rows_seq().len(),
            0 <= b1 < self.rows_seq()[a1].len(),
            0 <= a2 < self.rows_seq().len(),
            0 <= b2 < self.rows_seq()[a2].len(),
            (a1, b1) != (a2, b2),
        ensures
            ({
                ||| self.spec_rect_x(limits, a1, b1) + self.spec_cell_width(limits, a1, b1)
                    <= self.spec_rect_x(limits, a2, b2)
                ||| self.spec_rect_x(limits, a2, b2) + self.spec_cell_width(limits, a2, b2)
                    <= self.spec_rect_x(limits, a1, b1)
                ||| self.spec_rect_y(limits, a1, b1) + self.spec_cell_height(limits, a1, b1)
                    <= self.spec_rect_y(limits, a2, b2)
                ||| self.spec_rect_y(limits, a2, b2) + self.spec_cell_height(limits, a2, b2)
                    <= self.spec_rect_y(limits, a1, b1)
            }),
    {
        if b1 != b2 {
            if b1 < b2 {
                self.lemma_column_separation(limits, a1, b1, a2, b2);
            } else {
                self.lemma_column_separation(limits, a2, b2, a1, b1);
            }
        } else {
            if a1 < a2 {
                self.lemma_row_separation(limits, a1, b1, a2, b2);
            } else {
                self.lemma_row_separation(limits, a2, b2, a1, b1);
            }
        }
    }

    /// A cell in an earlier column ends before a cell in a later column
    /// begins.
    proof fn lemma_column_separation(self, limits: Limits, a1: int, b1: int, a2: int, b2: int)
        requires
            self.wf(),
            0 <= a1 < self.rows_seq().len(),
            0 <= b1 < self.rows_seq()[a1].len(),
            0 <= a2 < self.rows_seq().len(),
            0 <= b2 < self.rows_seq()[a2].len(),
            b1 < b2,
        ensures
            self.spec_rect_x(limits, a1, b1) + self.spec_cell_width(limits, a1, b1)
                <= self.spec_rect_x(limits, a2, b2),
    {
        let widths = self.spec_col_widths(limits);
        let spacing = self.column_spacing as int;
        self.lemma_visual_tracks(limits);
        lemma_num_columns_bounds(self.rows_seq(), MAX_TRACKS as int, self.rows_seq().len() as int);
        self.lemma_cell_fits(limits, a1, b1);
        self.lemma_cell_fits(limits, a2, b2);
        lemma_h_offset_bounds(
            self.horizontal_align,
            self.spec_cell_width(limits, a1, b1),
            self.spec_col_width(limits, b1),
        );
        lemma_h_offset_bounds(
            self.horizontal_align,
            self.spec_cell_width(limits, a2, b2),
            self.spec_col_width(limits, b2),
        );
        // The next column starts at or after this one's right edge.
        assert(accum_tracks(widths, spacing, b1 + 1) == accum_tracks(widths, spacing, b1)
            + widths[b1] + spacing);
        lemma_accum_monotone(widths, spacing, b1 + 1, b2);
    }

    /// A cell in an earlier row ends before a cell in a later row
    /// begins.
    proof fn lemma_row_separation(self, limits: Limits, a1: int, b1: int, a2: int, b2: int)
        requires
            self.wf(),
            0 <= a1 < self.rows_seq().len(),
            0 <= b1 < self.rows_seq()[a1].len(),
            0 <= a2 < self.rows_seq().len(),
            0 <= b2 < self.rows_seq()[a2].len(),
            a1 < a2,
        ensures
            self.spec_rect_y(limits, a1, b1) + self.spec_cell_height(limits, a1, b1)
                <= self.spec_rect_y(limits, a2, b2),
    {
        let heights = self.spec_row_heights(limits);
        let spacing = self.row_spacing as int;
        self.lemma_visual_tracks(limits);
        self.lemma_cell_fits(limits, a1, b1);
        self.lemma_cell_fits(limits, a2, b2);
        lemma_v_offset_bounds(
            self.vertical_align,
            self.spec_cell_height(limits, a1, b1),
            self.spec_row_height(limits, a1),
        );
        lemma_v_offset_bounds(
            self.vertical_align,
            self.spec_cell_height(limits, a2, b2),
            self.spec_row_height(limits, a2),
        );
        assert(accum_tracks(heights, spacing, a1 + 1) == accum_tracks(heights, spacing, a1)
            + heights[a1] + spacing);
        lemma_accum_monotone(heights, spacing, a1 + 1, a2);
    }

    /// The visual content extent along the columns: every column plus
    /// the gaps between adjacent columns.
    pub open spec fn spec_content_width(self, limits: Limits) -> int {
        sum_sizes(self.spec_col_widths(limits), self.spec_num_columns()) + if self.spec_num_columns() > 0 {
            (self.spec_num_columns() - 1) * self.column_spacing
        } else {
            0
        }
    }

    /// The visual content extent along the rows.
    pub open spec fn spec_content_height(self, limits: Limits) -> int {
        sum_sizes(self.spec_row_heights(limits), self.spec_num_rows()) + if self.spec_num_rows() > 0 {
            (self.spec_num_rows() - 1) * self.row_spacing
        } else {
            0
        }
    }

    /// Containment: every cell's rectangle lies inside the grid's
    /// padded content box.
    pub proof fn lemma_cell_in_content_box(self, limits: Limits, a: int, b: int)
        requires
            self.wf(),
            0 <= a < self.rows_seq().len(),
            0 <= b < self.rows_seq()[a].len(),
        ensures
            self.padding.left <= self.spec_rect_x(limits, a, b),
            self.spec_rect_x(limits, a, b) + self.spec_cell_width(limits, a, b) <= self.padding.left
                + self.spec_content_width(limits),
            self.padding.top <= self.spec_rect_y(limits, a, b),
            self.spec_rect_y(limits, a, b) + self.spec_cell_height(limits, a, b)
                <= self.padding.top + self.spec_content_height(limits),
    {
        let widths = self.spec_col_widths(limits);
        let heights = self.spec_row_heights(limits);
        let ncols = self.spec_num_columns();
        let nrows = self.spec_num_rows();
        self.lemma_visual_tracks(limits);
        lemma_num_columns_bounds(self.rows_seq(), MAX_TRACKS as int, self.rows_seq().len() as int);
        self.lemma_cell_fits(limits, a, b);
        lemma_h_offset_bounds(
            self.horizontal_align,
            self.spec_cell_width(limits, a, b),
            self.spec_col_width(limits, b),
        );
        lemma_v_offset_bounds(
            self.vertical_align,
            self.spec_cell_height(limits, a, b),
            self.spec_row_height(limits, a),
        );
        lemma_accum_monotone(widths, self.column_spacing as int, 0, b);
        lemma_accum_monotone(heights, self.row_spacing as int, 0, a);
        lemma_accum_vs_sum(widths, self.column_spacing as int, b);
        lemma_accum_vs_sum(heights, self.row_spacing as int, a);
        assert(sum_sizes(widths, b + 1) == sum_sizes(widths, b) + widths[b]);
        assert(sum_sizes(heights, a + 1) == sum_sizes(heights, a) + heights[a]);
        lemma_sum_sizes_monotone(widths, b + 1, ncols);
        lemma_sum_sizes_monotone(heights, a + 1, nrows);
        assert(b * (self.column_spacing as int) <= (ncols - 1) * (self.column_spacing as int))
            by (nonlinear_arith)
            requires
                b <= ncols - 1,
                0 <= self.column_spacing as int,
        ;
        assert(a * (self.row_spacing as int) <= (nrows - 1) * (self.row_spacing as int))
            by (nonlinear_arith)
            requires
                a <= nrows - 1,
                0 <= self.row_spacing as int,
        ;
    }
}

/// In a shrinking grid the tracks are exactly the minimums, whose sum
/// the greedy budget bounds.
proof fn lemma_shrink_sum(
    rows: Seq<Seq<Child>>,
    axis: Axis,
    main_side: bool,
    idx_count: int,
    usable: int,
    count: nat,
    j: int,
)
    requires
        0 <= usable <= u32::MAX as int,
        0 <= j <= count,
    ensures
        sum_sizes(
            solved_tracks(rows, axis, main_side, idx_count, usable, count, true),
            j,
        ) == usable - track_budget(rows, axis, main_side, idx_count, usable, j),
    decreases j,
{
    if j > 0 {
        lemma_shrink_sum(rows, axis, main_side, idx_count, usable, count, j - 1);
        lemma_track_budget_bounds(rows, axis, main_side, idx_count, usable, j - 1);
        let budget = track_budget(rows, axis, main_side, idx_count, usable, j - 1);
        lemma_track_min_bounds(rows, axis, main_side, j - 1, budget, idx_count);
    }
}

/// The outcome of a grid layout pass: the grid's own size and one
/// rectangle per cell, in row order.
#[derive(Clone, Debug, PartialEq, Eq)]
pub struct GridLayout {
    /// The grid's resolved width.
    pub width: u32,
    /// The grid's resolved height.
    pub height: u32,
    /// One rectangle per cell, mirroring the shape of the rows.
    pub rects: Vec<Vec<Rect>>,
}

/// Executable twin of [`spec_resolve_total`].
fn resolve_total(length: Length, intrinsic: u64, min: u32, max: u32) -> (extent: u32)
    ensures
        extent as int == spec_resolve_total(length, intrinsic as int, min, max),
{
    match length {
        Length::Fill => max,
        Length::FillPortion(_) => max,
        Length::Fixed(pixels) => crate::geometry::clamp(pixels, min, max),
        Length::Shrink => if intrinsic < min as u64 {
            min
        } else if intrinsic > max as u64 {
            max
        } else {
            intrinsic as u32
        },
    }
}

/// Executable twin of [`spec_h_offset`].
fn h_offset(align: Horizontal, inner: u32, outer: u32) -> (offset: u32)
    requires
        inner <= outer,
    ensures
        offset as int == spec_h_offset(align, inner as int, outer as int),
{
    match align {
        Horizontal::Left => 0,
        Horizontal::Center => (outer - inner) / 2,
        Horizontal::Right => outer - inner,
    }
}

/// Executable twin of [`spec_v_offset`].
fn v_offset(align: Vertical, inner: u32, outer: u32) -> (offset: u32)
    requires
        inner <= outer,
    ensures
        offset as int == spec_v_offset(align, inner as int, outer as int),
{
    match align {
        Vertical::Top => 0,
        Vertical::Center => (outer - inner) / 2,
        Vertical::Bottom => outer - inner,
    }
}

impl Grid {
    /// What [`Grid::layout`] returns, stated cell by cell: the outcome
    /// is fully determined by the grid and the limits.
    pub open spec fn is_layout_of(self, limits: Limits, out: GridLayout) -> bool {
        &&& out.rects@.len() == self.rows@.len()
        &&& forall|a: int|
            0 <= a < out.rects@.len() ==> (#[trigger] out.rects@[a])@.len() == self.rows@[a]@.len()
        &&& forall|a: int, b: int|
            0 <= a < self.rows@.len() && 0 <= b < self.rows@[a]@.len() ==> {
                let rect = #[trigger] out.rects@[a]@[b];
                &&& rect.x as int == self.spec_rect_x(limits, a, b)
                &&& rect.y as int == self.spec_rect_y(limits, a, b)
                &&& rect.width as int == self.spec_cell_width(limits, a, b)
                &&& rect.height as int == self.spec_cell_height(limits, a, b)
            }
        &&& out.width as int == self.spec_total_width(limits)
        &&& out.height as int == self.spec_total_height(limits)
    }

    /// Idempotence: two layout outcomes for the same grid and the same
    /// limits agree in their size and in every rectangle.
    pub proof fn lemma_layout_deterministic(
        self,
        limits: Limits,
        first: GridLayout,
        second: GridLayout,
    )
        requires
            self.is_layout_of(limits, first),
            self.is_layout_of(limits, second),
        ensures
            first.width == second.width,
            first.height == second.height,
            first.rects@.len() == second.rects@.len(),
            forall|a: int|
                0 <= a < first.rects@.len() ==> (#[trigger] first.rects@[a])@.len()
                    == second.rects@[a]@.len(),
            forall|a: int, b: int|
                0 <= a < first.rects@.len() && 0 <= b < first.rects@[a]@.len() ==> #[trigger] first.rects@[a]@[b]
                    == second.rects@[a]@[b],
    {
    }

    /// Computes the grid's layout within the given limits: the final
    /// rectangle of every cell and the grid's own resolved size.
    ///
    /// The outcome is a function of the grid and the limits alone, as
    /// [`Grid::is_layout_of`] states: two calls with identical inputs
    /// yield identical output.
    #[verifier::loop_isolation(false)]
    #[verifier::rlimit(100)]
    pub fn layout(&self, limits: &Limits) -> (layout: GridLayout)
        requires
            self.wf(),
        ensures
            self.is_layout_of(*limits, layout),
    {
        let ghost rows_v = self.rows_seq();
        let ghost lim = *limits;
        let nrows = self.rows.len();

        // The number of columns: the longest row's length.
        let mut ncols: usize = 0;
        let mut scan_a: usize = 0;
        while scan_a < nrows
            invariant
                scan_a <= nrows,
                nrows == rows_v.len(),
                rows_v == self.rows_seq(),
                self.wf(),
                ncols as int == num_columns_upto(rows_v, scan_a as int),
                ncols <= MAX_TRACKS,
            decreases nrows - scan_a,
        {
            let len = self.rows[scan_a].len();
            proof {
                assert(rows_v[scan_a as int] == self.rows@[scan_a as int]@);
            }
            if len > ncols {
                ncols = len;
            }
            scan_a = scan_a + 1;
        }
        proof {
            assert(ncols as int == self.spec_num_columns());
            lemma_num_columns_bounds(rows_v, MAX_TRACKS as int, rows_v.len() as int);
        }

        let horizontal = matches!(self.axis, Axis::Horizontal);
        let (nprim, nsec) = if horizontal {
            (nrows, ncols)
        } else {
            (ncols, nrows)
        };

        // The room the content may take on each axis.
        let capped_w: u32 = match self.width {
            Length::Fixed(pixels) => crate::geometry::clamp(
                pixels,
                limits.min.width,
                limits.max.width,
            ),
            _ => limits.max.width,
        };
        let pad_w: u64 = self.padding.left as u64 + self.padding.right as u64;
        let cap_w: u32 = if (capped_w as u64) > pad_w {
            ((capped_w as u64) - pad_w) as u32
        } else {
            0
        };
        let capped_h: u32 = match self.height {
            Length::Fixed(pixels) => crate::geometry::clamp(
                pixels,
                limits.min.height,
                limits.max.height,
            ),
            _ => limits.max.height,
        };
        let pad_h: u64 = self.padding.top as u64 + self.padding.bottom as u64;
        let cap_h: u32 = if (capped_h as u64) > pad_h {
            ((capped_h as u64) - pad_h) as u32
        } else {
            0
        };
        proof {
            assert(cap_w as int == self.spec_cap_width(lim));
            assert(cap_h as int == self.spec_cap_height(lim));
        }

        let (max_main, max_cross) = if horizontal {
            (cap_w, cap_h)
        } else {
            (cap_h, cap_w)
        };
        let (main_spacing, cross_spacing) = if horizontal {
            (self.column_spacing, self.row_spacing)
        } else {
            (self.row_spacing, self.column_spacing)
        };
        let main_total_spacing: u64 = if nsec > 0 {
            proof {
                crate::track::lemma_mul_le(
                    main_spacing as int,
                    u32::MAX as int,
                    nsec as int - 1,
                    MAX_TRACKS as int,
                );
            }
            (main_spacing as u64) * ((nsec - 1) as u64)
        } else {
            0
        };
        let cross_total_spacing: u64 = if nprim > 0 {
            proof {
                crate::track::lemma_mul_le(
                    cross_spacing as int,
                    u32::MAX as int,
                    nprim as int - 1,
                    MAX_TRACKS as int,
                );
            }
            (cross_spacing as u64) * ((nprim - 1) as u64)
        } else {
            0
        };
        proof {
            assert(main_total_spacing as int == self.spec_main_total_spacing());
            assert(cross_total_spacing as int == self.spec_cross_total_spacing());
        }
        let usable_main: u32 = if (max_main as u64) > main_total_spacing {
            ((max_main as u64) - main_total_spacing) as u32
        } else {
            0
        };
        let usable_cross: u32 = if (max_cross as u64) > cross_total_spacing {
            ((max_cross as u64) - cross_total_spacing) as u32
        } else {
            0
        };
        proof {
            assert(usable_main as int == self.spec_usable_main(lim));
            assert(usable_cross as int == self.spec_usable_cross(lim));
        }

        // Main-axis track sizing.
        let (mins_main, factors_main, _budgets_main) = self.scan_tracks(
            true,
            nsec,
            nprim,
            usable_main,
        );
        let main_len = if horizontal {
            self.width
        } else {
            self.height
        };
        proof {
            lemma_solved_facts(
                rows_v,
                self.axis,
                true,
                nprim as int,
                usable_main as int,
                nsec as int,
                self.spec_main_length() is Shrink,
            );
            assert(mins_main@ =~= track_mins(
                rows_v,
                self.axis,
                true,
                nprim as int,
                usable_main as int,
                nsec as nat,
            ));
            assert(factors_main@ =~= track_factors(
                rows_v,
                self.axis,
                true,
                nprim as int,
                nsec as nat,
            ));
            lemma_track_mins_sum(
                rows_v,
                self.axis,
                true,
                nprim as int,
                usable_main as int,
                nsec as nat,
                nsec as int,
            );
            lemma_track_budget_bounds(
                rows_v,
                self.axis,
                true,
                nprim as int,
                usable_main as int,
                nsec as int,
            );
        }
        let sec_main: Vec<u32> = if matches!(main_len, Length::Shrink) {
            mins_main
        } else {
            crate::track::distribute(&mins_main, &factors_main, usable_main as u64)
        };
        proof {
            assert(sec_main@.len() == nsec);
            assert(forall|t: int|
                0 <= t < nsec ==> #[trigger] sec_main@[t] as int == self.spec_sec_main(lim)[t]);
        }

        // Cross-axis track sizing, recording the budget each primary
        // track was offered.
        let (mins_cross, factors_cross, cross_budgets) = self.scan_tracks(
            false,
            nprim,
            nsec,
            usable_cross,
        );
        let cross_len = if horizontal {
            self.height
        } else {
            self.width
        };
        proof {
            lemma_solved_facts(
                rows_v,
                self.axis,
                false,
                nsec as int,
                usable_cross as int,
                nprim as int,
                self.spec_cross_length() is Shrink,
            );
            assert(mins_cross@ =~= track_mins(
                rows_v,
                self.axis,
                false,
                nsec as int,
                usable_cross as int,
                nprim as nat,
            ));
            assert(factors_cross@ =~= track_factors(
                rows_v,
                self.axis,
                false,
                nsec as int,
                nprim as nat,
            ));
            lemma_track_mins_sum(
                rows_v,
                self.axis,
                false,
                nsec as int,
                usable_cross as int,
                nprim as nat,
                nprim as int,
            );
            lemma_track_budget_bounds(
                rows_v,
                self.axis,
                false,
                nsec as int,
                usable_cross as int,
                nprim as int,
            );
        }
        let prim_cross: Vec<u32> = if matches!(cross_len, Length::Shrink) {
            mins_cross
        } else {
            crate::track::distribute(&mins_cross, &factors_cross, usable_cross as u64)
        };
        proof {
            assert(prim_cross@.len() == nprim);
            assert(forall|t: int|
                0 <= t < nprim ==> #[trigger] prim_cross@[t] as int == self.spec_prim_cross(lim)[t]);
        }

        // The grid's own reported size.
        let mut sum_main: u64 = 0;
        let mut t: usize = 0;
        while t < nsec
            invariant
                t <= nsec,
                sec_main@.len() == nsec,
                forall|t2: int|
                    0 <= t2 < nsec ==> #[trigger] sec_main@[t2] as int == self.spec_sec_main(
                        lim,
                    )[t2],
                sum_main as int == sum_sizes(self.spec_sec_main(lim), t as int),
                sum_main as int <= t as int * (u32::MAX as int),
                nsec <= MAX_TRACKS,
            decreases nsec - t,
        {
            sum_main = sum_main + sec_main[t] as u64;
            t = t + 1;
        }
        let mut sum_cross: u64 = 0;
        let mut t: usize = 0;
        while t < nprim
            invariant
                t <= nprim,
                prim_cross@.len() == nprim,
                forall|t2: int|
                    0 <= t2 < nprim ==> #[trigger] prim_cross@[t2] as int == self.spec_prim_cross(
                        lim,
                    )[t2],
                sum_cross as int == sum_sizes(self.spec_prim_cross(lim), t as int),
                sum_cross as int <= t as int * (u32::MAX as int),
                nprim <= MAX_TRACKS,
            decreases nprim - t,
        {
            sum_cross = sum_cross + prim_cross[t] as u64;
            t = t + 1;
        }
        let intr_main: u64 = sum_main + main_total_spacing;
        let intr_cross: u64 = sum_cross + cross_total_spacing;
        let (intr_w, intr_h) = if horizontal {
            (intr_main, intr_cross)
        } else {
            (intr_cross, intr_main)
        };
        let width = resolve_total(self.width, intr_w + pad_w, limits.min.width, limits.max.width);
        let height = resolve_total(
            self.height,
            intr_h + pad_h,
            limits.min.height,
            limits.max.height,
        );
        proof {
            assert(width as int == self.spec_total_width(lim));
            assert(height as int == self.spec_total_height(lim));
        }

        // Positioning: walk the rows, accumulating a cursor from the
        // padding origin, and align every child inside its cell.
        let rects = self.place_cells(
            Ghost(lim),
            ncols,
            nprim,
            nsec,
            &sec_main,
            &prim_cross,
            &cross_budgets,
        );

        GridLayout { width, height, rects }
    }

    /// The positioning pass: places every cell's rectangle from the
    /// solved track extents, aligning each child inside its cell.
    #[verifier::loop_isolation(false)]
    #[verifier::rlimit(100)]
    fn place_cells(
        &self,
        lim_g: Ghost<Limits>,
        ncols: usize,
        nprim: usize,
        nsec: usize,
        sec_main: &Vec<u32>,
        prim_cross: &Vec<u32>,
        cross_budgets: &Vec<u32>,
    ) -> (rects: Vec<Vec<Rect>>)
        requires
            self.wf(),
            ncols as int == self.spec_num_columns(),
            ncols <= MAX_TRACKS,
            nprim as int == if self.axis is Horizontal {
                self.rows@.len() as int
            } else {
                ncols as int
            },
            nsec as int == if self.axis is Horizontal {
                ncols as int
            } else {
                self.rows@.len() as int
            },
            sec_main@.len() == nsec,
            prim_cross@.len() == nprim,
            cross_budgets@.len() == nprim,
            forall|t2: int|
                0 <= t2 < nsec as int ==> #[trigger] sec_main@[t2] as int == self.spec_sec_main(
                    lim_g@,
                )[t2],
            forall|t2: int|
                0 <= t2 < nprim as int ==> #[trigger] prim_cross@[t2] as int
                    == self.spec_prim_cross(lim_g@)[t2],
            forall|t2: int|
                0 <= t2 < nprim as int ==> #[trigger] cross_budgets@[t2] as int
                    == self.spec_cross_budget(lim_g@, t2),
        ensures
            rects@.len() == self.rows@.len(),
            forall|a: int|
                0 <= a < rects@.len() ==> (#[trigger] rects@[a])@.len() == self.rows@[a]@.len(),
            forall|a: int, b: int|
                0 <= a < self.rows@.len() && 0 <= b < self.rows@[a]@.len() ==> {
                    let rect = #[trigger] rects@[a]@[b];
                    &&& rect.x as int == self.spec_rect_x(lim_g@, a, b)
                    &&& rect.y as int == self.spec_rect_y(lim_g@, a, b)
                    &&& rect.width as int == self.spec_cell_width(lim_g@, a, b)
                    &&& rect.height as int == self.spec_cell_height(lim_g@, a, b)
                },
    {
        let ghost lim = lim_g@;
        let ghost rows_v = self.rows_seq();
        let nrows = self.rows.len();
        let horizontal = matches!(self.axis, Axis::Horizontal);
        let col_widths: &Vec<u32> = if horizontal {
            sec_main
        } else {
            prim_cross
        };
        let row_heights: &Vec<u32> = if horizontal {
            prim_cross
        } else {
            sec_main
        };
        proof {
            self.lemma_tracks_facts(lim);
            assert(col_widths@.len() == ncols);
            assert(row_heights@.len() == nrows);
            assert forall|t2: int| 0 <= t2 < ncols implies #[trigger] self.spec_col_widths(lim)[t2]
                == col_widths@[t2] as int by {
                assert(col_widths@[t2] as int >= 0);
            }
            assert forall|t2: int| 0 <= t2 < nrows implies #[trigger] self.spec_row_heights(
                lim,
            )[t2] == row_heights@[t2] as int by {
                assert(row_heights@[t2] as int >= 0);
            }
            assert(self.spec_col_widths(lim).len() == ncols);
            assert(self.spec_row_heights(lim).len() == nrows);
        }

        let mut rects: Vec<Vec<Rect>> = Vec::new();
        let mut y: u64 = self.padding.top as u64;
        let mut a: usize = 0;
        while a < nrows
            invariant
                a <= nrows,
                y as int == self.spec_cell_y(lim, a as int),
                rects@.len() == a,
                forall|a2: int|
                    0 <= a2 < a ==> (#[trigger] rects@[a2])@.len() == rows_v[a2].len(),
                forall|a2: int, b2: int|
                    0 <= a2 < a && 0 <= b2 < rows_v[a2].len() ==> {
                        let rect = #[trigger] rects@[a2]@[b2];
                        &&& rect.x as int == self.spec_rect_x(lim, a2, b2)
                        &&& rect.y as int == self.spec_rect_y(lim, a2, b2)
                        &&& rect.width as int == self.spec_cell_width(lim, a2, b2)
                        &&& rect.height as int == self.spec_cell_height(lim, a2, b2)
                    },
            decreases nrows - a,
        {
            proof {
                lemma_accum_bounds(self.spec_row_heights(lim), self.row_spacing as int, a as int);
                lemma_accum_bounds(
                    self.spec_row_heights(lim),
                    self.row_spacing as int,
                    a as int + 1,
                );
                lemma_num_columns_bounds(rows_v, MAX_TRACKS as int, rows_v.len() as int);
            }
            let row_len = self.rows[a].len();
            proof {
                assert(rows_v[a as int] == self.rows@[a as int]@);
                assert(row_len <= ncols);
            }
            let mut row_rects: Vec<Rect> = Vec::new();
            let mut x: u64 = self.padding.left as u64;
            let mut b: usize = 0;
            while b < row_len
                invariant
                    b <= row_len,
                    a < nrows,
                    row_len == rows_v[a as int].len(),
                    row_len <= ncols,
                    x as int == self.spec_cell_x(lim, b as int),
                    row_rects@.len() == b,
                    forall|b2: int|
                        0 <= b2 < b ==> {
                            let rect = #[trigger] row_rects@[b2];
                            &&& rect.x as int == self.spec_rect_x(lim, a as int, b2)
                            &&& rect.y as int == self.spec_rect_y(lim, a as int, b2)
                            &&& rect.width as int == self.spec_cell_width(lim, a as int, b2)
                            &&& rect.height as int == self.spec_cell_height(lim, a as int, b2)
                        },
                decreases row_len - b,
            {
                proof {
                    lemma_accum_bounds(
                        self.spec_col_widths(lim),
                        self.column_spacing as int,
                        b as int,
                    );
                    lemma_accum_bounds(
                        self.spec_col_widths(lim),
                        self.column_spacing as int,
                        b as int + 1,
                    );
                    self.lemma_cell_fits(lim, a as int, b as int);
                }
                let child = self.rows[a][b];
                let w: u32 = if horizontal {
                    resolve_extent(child.width, child.intrinsic.width, sec_main[b])
                } else {
                    if child.width.fill_factor() != 0 {
                        resolve_extent(child.width, child.intrinsic.width, prim_cross[b])
                    } else {
                        resolve_extent(child.width, child.intrinsic.width, cross_budgets[b])
                    }
                };
                let h: u32 = if horizontal {
                    if child.height.fill_factor() != 0 {
                        resolve_extent(child.height, child.intrinsic.height, prim_cross[a])
                    } else {
                        resolve_extent(child.height, child.intrinsic.height, cross_budgets[a])
                    }
                } else {
                    resolve_extent(child.height, child.intrinsic.height, sec_main[a])
                };
                proof {
                    assert(w as int == self.spec_cell_width(lim, a as int, b as int));
                    assert(h as int == self.spec_cell_height(lim, a as int, b as int));
                }
                let cw: u32 = col_widths[b];
                let rh: u32 = row_heights[a];
                let rect = Rect {
                    x: x + h_offset(self.horizontal_align, w, cw) as u64,
                    y: y + v_offset(self.vertical_align, h, rh) as u64,
                    width: w,
                    height: h,
                };
                row_rects.push(rect);
                x = x + cw as u64 + self.column_spacing as u64;
                b = b + 1;
            }
            rects.push(row_rects);
            let rh: u32 = row_heights[a];
            y = y + rh as u64 + self.row_spacing as u64;
            a = a + 1;
        }
        rects
    }
}

} // verus!


