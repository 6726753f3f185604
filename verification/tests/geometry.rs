use fgui::{Rect, TextureId, WidgetSize};

fn rect(x0: u64, y0: u64, x1: u64, y1: u64) -> Rect {
    Rect { min: (x0, y0), max: (x1, y1) }
}

#[test]
fn test_subarea() {
    let area = rect(0, 0, 1920, 1080);
    let subarea = area.subarea(rect(10, 10, 20, 20));
    assert_eq!(subarea, rect(10, 10, 20, 20));

    let area = rect(10, 10, 1920, 1080);
    let subarea = area.subarea(rect(10, 10, 20, 20));
    assert_eq!(subarea, rect(20, 20, 30, 30));
}

#[test]
fn rect_sized_and_extents() {
    let r = Rect::sized(10, 20, 30, 40);
    assert_eq!(r, rect(10, 20, 40, 60));
    assert_eq!(r.width(), 30);
    assert_eq!(r.height(), 40);
}

fn sample() -> WidgetSize {
    WidgetSize {
        min_width: 40,
        width: 50,
        max_width: 60,
        min_height: 15,
        height: 20,
        max_height: 25,
    }
}

#[test]
fn set_width_clamps_into_range() {
    let mut s = sample();
    s.set_width(55);
    assert_eq!(s.width, 55);
    s.set_width(10);
    assert_eq!(s.width, 40);
    s.set_width(1000);
    assert_eq!(s.width, 60);
    assert!(s.min_width <= s.width && s.width <= s.max_width);
}

#[test]
fn set_height_clamps_into_range() {
    let mut s = sample();
    s.set_height(24);
    assert_eq!(s.height, 24);
    s.set_height(0);
    assert_eq!(s.height, 15);
    s.set_height(100);
    assert_eq!(s.height, 25);
    assert!(s.min_height <= s.height && s.height <= s.max_height);
}

#[test]
fn set_size_clamps_both_axes() {
    let mut s = sample();
    s.set_size(0, 1000);
    assert_eq!(s.width, 40);
    assert_eq!(s.height, 25);
    assert!(s.min_width <= s.width && s.width <= s.max_width);
    assert!(s.min_height <= s.height && s.height <= s.max_height);
}

#[test]
fn fit_width_squeezes_through_both_ranges() {
    // The restriction allows at most 45: the width is squeezed to 45,
    // which the widget itself tolerates.
    let mut s = sample();
    let restriction = WidgetSize {
        min_width: 0,
        width: 45,
        max_width: 45,
        min_height: 0,
        height: 100,
        max_height: 100,
    };
    s.fit_width(&restriction);
    assert_eq!(s.width, 45);

    // The restriction allows at most 35, below the widget's own minimum of
    // 40: the widget stops at its own hard limit.
    let mut s = sample();
    let restriction = WidgetSize {
        min_width: 0,
        width: 35,
        max_width: 35,
        min_height: 0,
        height: 100,
        max_height: 100,
    };
    s.fit_width(&restriction);
    assert_eq!(s.width, 40);
}

#[test]
fn fit_height_squeezes_through_both_ranges() {
    let mut s = sample();
    let restriction = WidgetSize {
        min_width: 0,
        width: 100,
        max_width: 100,
        min_height: 0,
        height: 18,
        max_height: 18,
    };
    s.fit_height(&restriction);
    assert_eq!(s.height, 18);

    let mut s = sample();
    let restriction = WidgetSize {
        min_width: 0,
        width: 100,
        max_width: 100,
        min_height: 0,
        height: 10,
        max_height: 10,
    };
    s.fit_height(&restriction);
    assert_eq!(s.height, 15);
}

#[test]
fn texture_id_names_its_slot() {
    let t = TextureId::new(7);
    assert_eq!(t.id(), 7);
    let u = t.clone();
    assert_eq!(u.id(), 7);
}
