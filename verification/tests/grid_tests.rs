use more_iced_aw::geometry::Axis;
use more_iced_aw::geometry::Horizontal;
use more_iced_aw::geometry::Length;
use more_iced_aw::geometry::Limits;
use more_iced_aw::geometry::Padding;
use more_iced_aw::geometry::Rect;
use more_iced_aw::geometry::Size;
use more_iced_aw::geometry::Vertical;
use more_iced_aw::grid::Child;
use more_iced_aw::grid::Grid;
use more_iced_aw::track::distribute;

fn limits(max_width: u32, max_height: u32) -> Limits {
    Limits {
        min: Size { width: 0, height: 0 },
        max: Size { width: max_width, height: max_height },
    }
}

fn fixed(width: u32, height: u32) -> Child {
    Child::new(Length::Fixed(width), Length::Fixed(height))
}

fn shrink(intrinsic_width: u32, intrinsic_height: u32) -> Child {
    Child::with_intrinsic(
        Length::Shrink,
        Length::Shrink,
        Size { width: intrinsic_width, height: intrinsic_height },
    )
}

fn rect(x: u64, y: u64, width: u32, height: u32) -> Rect {
    Rect { x, y, width, height }
}

fn overlap(r1: &Rect, r2: &Rect) -> bool {
    r1.width > 0
        && r1.height > 0
        && r2.width > 0
        && r2.height > 0
        && r1.x + r1.width as u64 > r2.x
        && r2.x + r2.width as u64 > r1.x
        && r1.y + r1.height as u64 > r2.y
        && r2.y + r2.height as u64 > r1.y
}

#[test]
fn clamped_column_takes_its_minimum() {
    // Two columns, both with fill weight 1; column 0 holds a fixed cell
    // of 260 pixels, so with 300 usable pixels its fair share of 150
    // clamps to 260 and column 1 receives the remaining 40.
    let grid = Grid::new()
        .width(Length::Fill)
        .push_row(vec![fixed(260, 20), Child::new(Length::Fill, Length::Fixed(20))])
        .push_row(vec![Child::new(Length::Fill, Length::Fixed(20)), fixed(50, 20)]);
    let out = grid.layout(&limits(300, 1000));
    assert_eq!(out.width, 300);
    assert_eq!(out.height, 40);
    assert_eq!(out.rects.len(), 2);
    assert_eq!(out.rects[0][0], rect(0, 0, 260, 20));
    assert_eq!(out.rects[0][1], rect(260, 0, 40, 20));
    assert_eq!(out.rects[1][0], rect(0, 20, 260, 20));
    assert_eq!(out.rects[1][1], rect(260, 20, 40, 20));
}

#[test]
fn equal_fill_columns_share_space_exactly() {
    let grid = Grid::new()
        .width(Length::Fill)
        .push_row(vec![
            Child::new(Length::Fill, Length::Fixed(10)),
            Child::new(Length::Fill, Length::Fixed(10)),
        ]);
    let out = grid.layout(&limits(300, 100));
    assert_eq!(out.rects[0][0], rect(0, 0, 150, 10));
    assert_eq!(out.rects[0][1], rect(150, 0, 150, 10));
    assert_eq!(out.width, 300);
}

#[test]
fn jagged_rows_lay_out_per_column() {
    // Rows of lengths 3, 2 and 4: the grid has 4 columns; the absent
    // cells produce no rectangle, and the fourth column's width comes
    // from the only row that reaches it.
    let grid = Grid::new()
        .push_row(vec![shrink(10, 11), shrink(20, 11), shrink(30, 11)])
        .push_row(vec![shrink(40, 12), shrink(5, 12)])
        .push_row(vec![shrink(1, 13), shrink(2, 13), shrink(3, 13), shrink(4, 13)]);
    let out = grid.layout(&limits(1000, 1000));
    assert_eq!(out.rects.len(), 3);
    assert_eq!(out.rects[0].len(), 3);
    assert_eq!(out.rects[1].len(), 2);
    assert_eq!(out.rects[2].len(), 4);
    // Column widths are 40, 20, 30 and 4; row heights 11, 12 and 13.
    assert_eq!(out.rects[0][0], rect(0, 0, 10, 11));
    assert_eq!(out.rects[0][1], rect(40, 0, 20, 11));
    assert_eq!(out.rects[0][2], rect(60, 0, 30, 11));
    assert_eq!(out.rects[1][0], rect(0, 11, 40, 12));
    assert_eq!(out.rects[1][1], rect(40, 11, 5, 12));
    assert_eq!(out.rects[2][3], rect(90, 23, 4, 13));
    assert_eq!(out.width, 94);
    assert_eq!(out.height, 36);
}

#[test]
fn no_two_rectangles_overlap() {
    let grid = Grid::new()
        .width(Length::Fill)
        .height(Length::Fill)
        .push_row(vec![fixed(260, 20), Child::new(Length::Fill, Length::Fill)])
        .push_row(vec![shrink(40, 12), fixed(50, 20)])
        .push_row(vec![shrink(1, 13), shrink(2, 13)]);
    let out = grid.layout(&limits(300, 200));
    let mut all: Vec<Rect> = Vec::new();
    for row in &out.rects {
        for r in row {
            all.push(*r);
        }
    }
    for i in 0..all.len() {
        for j in 0..all.len() {
            if i != j {
                assert!(!overlap(&all[i], &all[j]));
            }
        }
    }
}

#[test]
fn layout_is_deterministic() {
    let grid = Grid::new()
        .width(Length::Fill)
        .push_row(vec![fixed(260, 20), Child::new(Length::Fill, Length::Fixed(20))])
        .push_row(vec![shrink(40, 12), fixed(50, 20)]);
    let first = grid.layout(&limits(300, 1000));
    let second = grid.layout(&limits(300, 1000));
    assert_eq!(first, second);
}

#[test]
fn vertical_axis_sizes_heights_first() {
    let grid = Grid::new()
        .main_axis(Axis::Vertical)
        .push_row(vec![fixed(30, 40), fixed(50, 60)]);
    let out = grid.layout(&limits(500, 400));
    // The row is 60 pixels tall; the 40-pixel child is centered in it.
    assert_eq!(out.rects[0][0], rect(0, 10, 30, 40));
    assert_eq!(out.rects[0][1], rect(30, 0, 50, 60));
    assert_eq!(out.width, 80);
    assert_eq!(out.height, 60);
}

#[test]
fn padding_and_spacing_offset_the_cells() {
    let grid = Grid::new()
        .padding(Padding { top: 7, right: 2, bottom: 3, left: 5 })
        .column_spacing(10)
        .row_spacing(4)
        .push_row(vec![fixed(20, 8), fixed(30, 8)])
        .push_row(vec![fixed(20, 9), fixed(30, 9)]);
    let out = grid.layout(&limits(500, 500));
    assert_eq!(out.rects[0][0], rect(5, 7, 20, 8));
    assert_eq!(out.rects[0][1], rect(35, 7, 30, 8));
    assert_eq!(out.rects[1][0], rect(5, 19, 20, 9));
    assert_eq!(out.rects[1][1], rect(35, 19, 30, 9));
    // Content 60 by 21 pixels, expanded by the padding.
    assert_eq!(out.width, 67);
    assert_eq!(out.height, 31);
}

#[test]
fn empty_grid_resolves_to_padding_only() {
    let grid = Grid::new().padding(Padding { top: 1, right: 2, bottom: 3, left: 4 });
    let out = grid.layout(&limits(500, 500));
    assert_eq!(out.rects.len(), 0);
    assert_eq!(out.width, 6);
    assert_eq!(out.height, 4);
}

#[test]
fn alignment_places_children_inside_larger_cells() {
    let grid = Grid::new()
        .align_x(Horizontal::Right)
        .align_y(Vertical::Bottom)
        .push_row(vec![shrink(10, 5), shrink(40, 30)])
        .push_row(vec![shrink(25, 6), shrink(40, 8)]);
    let out = grid.layout(&limits(500, 500));
    // The first column is 25 wide and the first row 30 tall; the 10 by
    // 5 child sits at the bottom right of its cell.
    assert_eq!(out.rects[0][0], rect(15, 25, 10, 5));
    assert_eq!(out.rects[0][1], rect(25, 0, 40, 30));
    assert_eq!(out.rects[1][0], rect(0, 32, 25, 6));
    assert_eq!(out.rects[1][1], rect(25, 30, 40, 8));
}

#[test]
fn extend_appends_rows_like_push_row() {
    let by_extend = Grid::new().extend(vec![
        vec![fixed(20, 8), fixed(30, 8)],
        vec![fixed(20, 9)],
    ]);
    let by_push = Grid::new()
        .push_row(vec![fixed(20, 8), fixed(30, 8)])
        .push_row(vec![fixed(20, 9)]);
    let bounds = limits(500, 500);
    assert_eq!(by_extend.layout(&bounds), by_push.layout(&bounds));
}

#[test]
fn zero_fill_tracks_keep_their_minimums() {
    let tracks = distribute(&vec![10, 20], &vec![0, 0], 100);
    assert_eq!(tracks, vec![10, 20]);
}

#[test]
fn distribution_clamps_and_hands_out_the_rest() {
    let tracks = distribute(&vec![260, 40], &vec![1, 1], 300);
    assert_eq!(tracks, vec![260, 40]);
    let tracks = distribute(&vec![0, 0, 90], &vec![1, 2, 3], 300);
    // Fair shares 50, 100 and 150 with nothing clamping.
    assert_eq!(tracks, vec![50, 100, 150]);
}

#[test]
fn track_minimums_are_always_met() {
    let mins = vec![80, 10, 40];
    let tracks = distribute(&mins, &vec![5, 1, 1], 150);
    assert_eq!(tracks.len(), 3);
    for k in 0..3 {
        assert!(tracks[k] >= mins[k]);
    }
    let total: u64 = tracks.iter().map(|t| *t as u64).sum();
    assert!(total <= 150);
}
