use more_iced_aw::geometry::{clamp, Axis, Length, Padding, Size};
use more_iced_aw::grid::Child;

#[test]
fn axis_packs_main_before_cross() {
    assert_eq!(Axis::Horizontal.pack(1, 2), (1, 2));
    assert_eq!(Axis::Vertical.pack(1, 2), (2, 1));
    let size = Size { width: 30, height: 40 };
    assert_eq!(Axis::Horizontal.main(size), 30);
    assert_eq!(Axis::Horizontal.cross(size), 40);
    assert_eq!(Axis::Vertical.main(size), 40);
    assert_eq!(Axis::Vertical.cross(size), 30);
    assert_eq!(Axis::Vertical.size_pack(size), (40, 30));
}

#[test]
fn fill_factors_follow_the_sizing_mode() {
    assert_eq!(Length::Fill.fill_factor(), 1);
    assert_eq!(Length::FillPortion(7).fill_factor(), 7);
    assert_eq!(Length::Shrink.fill_factor(), 0);
    assert_eq!(Length::Fixed(120).fill_factor(), 0);
}

#[test]
fn clamp_keeps_values_between_the_bounds() {
    assert_eq!(clamp(5, 10, 20), 10);
    assert_eq!(clamp(15, 10, 20), 15);
    assert_eq!(clamp(25, 10, 20), 20);
}

#[test]
fn children_resolve_each_axis_independently() {
    let child = Child::with_intrinsic(
        Length::Shrink,
        Length::Fill,
        Size { width: 70, height: 10 },
    );
    let size = child.layout_within(Size { width: 50, height: 200 });
    assert_eq!(size, Size { width: 50, height: 200 });
    let size = child.layout_within(Size { width: 90, height: 30 });
    assert_eq!(size, Size { width: 70, height: 30 });

    let fixed = Child::new(Length::Fixed(40), Length::Fixed(25));
    let size = fixed.layout_within(Size { width: 100, height: 20 });
    assert_eq!(size, Size { width: 40, height: 20 });
}

#[test]
fn axis_labels_name_the_direction() {
    assert_eq!(Axis::Horizontal.label(), "Horizontal");
    assert_eq!(Axis::Vertical.label(), "Vertical");
}

#[test]
fn zero_padding_has_no_insets() {
    let padding = Padding::zero();
    assert_eq!(padding, Padding { top: 0, right: 0, bottom: 0, left: 0 });
}
