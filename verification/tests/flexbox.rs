use fgui::{
    AlignContent, AlignItems, FixedAllocator, FixedWidget, FlexWrap, Flexbox, JustifyContent,
    Rect, RenderError, Widget, WidgetSize,
};

struct TestBackend;

impl fgui::Backend for TestBackend {
    fn run<A: fgui::App<Self>>(_app: A) {}

    fn draw_text(&mut self, _x: u64, _y: u64, _text: &str) {}
}

fn measure<W: Widget<TestBackend>>(w: &mut W, screen: (u64, u64), container: (u64, u64)) -> WidgetSize {
    w.allocate_area(screen, container)
}

fn draw<W: Widget<TestBackend>>(w: &W, area: Rect) -> Result<(), RenderError> {
    let mut backend = TestBackend;
    w.render(area, &mut backend)
}

fn rect(x0: u64, y0: u64, x1: u64, y1: u64) -> Rect {
    Rect { min: (x0, y0), max: (x1, y1) }
}

fn button() -> FixedWidget {
    FixedWidget::new(WidgetSize {
        min_width: 40,
        width: 50,
        max_width: 60,
        min_height: 15,
        height: 20,
        max_height: 25,
    })
}

fn big_button() -> FixedWidget {
    FixedWidget::new(WidgetSize {
        min_width: 40,
        width: 50,
        max_width: 60,
        min_height: 20,
        height: 30,
        max_height: 40,
    })
}

fn allocator(
    min_width: u64,
    width: u64,
    max_width: u64,
    min_height: u64,
    height: u64,
    max_height: u64,
) -> FixedAllocator {
    FixedAllocator::new(WidgetSize { min_width, width, max_width, min_height, height, max_height })
}

#[test]
fn test_flexbox_no_wrap() {
    let mut flexbox: Flexbox<FixedWidget, FixedAllocator> = Flexbox::new();
    flexbox.set_flex_wrap(FlexWrap::NoWrap);
    flexbox.add(button());
    flexbox.add(button());
    flexbox.add(button());

    // Simple behavior
    let size = measure(&mut flexbox, (1000, 1000), (200, 100));
    assert_eq!(
        size,
        WidgetSize {
            min_width: 0,
            width: 150,
            max_width: 200,
            min_height: 0,
            height: 20,
            max_height: 100,
        }
    );
    assert_eq!(
        flexbox.widget_subareas,
        vec![rect(0, 0, 50, 20), rect(50, 0, 100, 20), rect(100, 0, 150, 20)]
    );

    // Resize elements
    let size = measure(&mut flexbox, (1000, 1000), (100, 15));
    assert_eq!(
        size,
        WidgetSize {
            min_width: 0,
            width: 100,
            max_width: 100,
            min_height: 0,
            height: 15,
            max_height: 15,
        }
    );
    assert_eq!(
        flexbox.widget_subareas,
        vec![rect(0, 0, 40, 15), rect(40, 0, 80, 15), rect(80, 0, 120, 15)]
    );

    // Try to overflow the container of the flexbox
    let size = measure(&mut flexbox, (1000, 1000), (10, 10));
    assert_eq!(
        size,
        WidgetSize {
            min_width: 0,
            width: 10,
            max_width: 10,
            min_height: 0,
            height: 10,
            max_height: 10,
        }
    );

    // Test with custom allocator
    flexbox.set_area_allocator(Some(allocator(30, 100, 200, 10, 10, 20)));
    let size = measure(&mut flexbox, (1000, 1000), (200, 100));
    assert_eq!(
        size,
        WidgetSize {
            min_width: 30,
            width: 150,
            max_width: 200,
            min_height: 10,
            height: 20,
            max_height: 20,
        }
    );
    assert_eq!(
        flexbox.widget_subareas,
        vec![rect(0, 0, 50, 20), rect(50, 0, 100, 20), rect(100, 0, 150, 20)]
    );

    // Try to underflow the allocated box
    flexbox.set_area_allocator(Some(allocator(250, 250, 300, 50, 50, 100)));
    let size = measure(&mut flexbox, (1000, 1000), (250, 100));
    assert_eq!(
        size,
        WidgetSize {
            min_width: 250,
            width: 250,
            max_width: 300,
            min_height: 50,
            height: 50,
            max_height: 100,
        }
    );
}

#[test]
fn test_flexbox_size_wrap() {
    let mut flexbox: Flexbox<FixedWidget, FixedAllocator> = Flexbox::new();
    flexbox.set_flex_wrap(FlexWrap::Wrap);
    flexbox.add(button());
    flexbox.add(button());
    flexbox.add(button());

    // Simple behavior
    let size = measure(&mut flexbox, (1000, 1000), (200, 100));
    assert_eq!(
        size,
        WidgetSize {
            min_width: 0,
            width: 150,
            max_width: 200,
            min_height: 0,
            height: 20,
            max_height: 100,
        }
    );
    assert_eq!(
        flexbox.widget_subareas,
        vec![rect(0, 0, 50, 20), rect(50, 0, 100, 20), rect(100, 0, 150, 20)]
    );

    // Test wrapping
    let size = measure(&mut flexbox, (1000, 1000), (100, 100));
    assert_eq!(
        size,
        WidgetSize {
            min_width: 0,
            width: 100,
            max_width: 100,
            min_height: 0,
            height: 40,
            max_height: 100,
        }
    );
    assert_eq!(
        flexbox.widget_subareas,
        vec![rect(0, 0, 50, 20), rect(50, 0, 100, 20), rect(0, 20, 50, 40)]
    );

    // Test wrapping + resizing
    let size = measure(&mut flexbox, (1000, 1000), (45, 100));
    assert_eq!(
        size,
        WidgetSize {
            min_width: 0,
            width: 45,
            max_width: 45,
            min_height: 0,
            height: 60,
            max_height: 100,
        }
    );
    assert_eq!(
        flexbox.widget_subareas,
        vec![rect(0, 0, 45, 20), rect(0, 20, 45, 40), rect(0, 40, 45, 60)]
    );

    // Try to overflow
    let size = measure(&mut flexbox, (1000, 1000), (10, 10));
    assert_eq!(
        size,
        WidgetSize {
            min_width: 0,
            width: 10,
            max_width: 10,
            min_height: 0,
            height: 10,
            max_height: 10,
        }
    );
    assert_eq!(
        flexbox.widget_subareas,
        vec![rect(0, 0, 40, 15), rect(0, 15, 40, 30), rect(0, 30, 40, 45)]
    );

    // Test with custom allocator
    flexbox.set_area_allocator(Some(allocator(30, 45, 55, 10, 10, 100)));
    let size = measure(&mut flexbox, (1000, 1000), (200, 100));
    assert_eq!(
        size,
        WidgetSize {
            min_width: 30,
            width: 50,
            max_width: 55,
            min_height: 10,
            height: 60,
            max_height: 100,
        }
    );
    assert_eq!(
        flexbox.widget_subareas,
        vec![rect(0, 0, 50, 20), rect(0, 20, 50, 40), rect(0, 40, 50, 60)]
    );

    // Try to underflow the allocated box
    flexbox.set_area_allocator(Some(allocator(150, 150, 200, 80, 80, 100)));
    let size = measure(&mut flexbox, (1000, 1000), (200, 100));
    assert_eq!(
        size,
        WidgetSize {
            min_width: 150,
            width: 150,
            max_width: 200,
            min_height: 80,
            height: 80,
            max_height: 100,
        }
    );
}

#[test]
fn flexbox_test_flexbox_no_wrap() {
    let mut flexbox: Flexbox<FixedWidget, FixedAllocator> = Flexbox::new();
    flexbox.set_flex_wrap(FlexWrap::NoWrap);
    flexbox.add(button());
    flexbox.add(button());
    flexbox.add(button());

    let size = measure(&mut flexbox, (1000, 1000), (200, 100));
    assert_eq!(
        size,
        WidgetSize {
            min_width: 0,
            width: 150,
            max_width: 200,
            min_height: 0,
            height: 20,
            max_height: 100,
        }
    );
    assert_eq!(
        flexbox.widget_subareas,
        vec![rect(0, 0, 50, 20), rect(50, 0, 100, 20), rect(100, 0, 150, 20)]
    );

    let size = measure(&mut flexbox, (1000, 1000), (100, 15));
    assert_eq!(
        size,
        WidgetSize {
            min_width: 0,
            width: 100,
            max_width: 100,
            min_height: 0,
            height: 15,
            max_height: 15,
        }
    );
    assert_eq!(
        flexbox.widget_subareas,
        vec![rect(0, 0, 40, 15), rect(40, 0, 80, 15), rect(80, 0, 120, 15)]
    );

    let size = measure(&mut flexbox, (1000, 1000), (10, 10));
    assert_eq!(
        size,
        WidgetSize {
            min_width: 0,
            width: 10,
            max_width: 10,
            min_height: 0,
            height: 10,
            max_height: 10,
        }
    );

    flexbox.set_area_allocator(Some(allocator(30, 100, 200, 10, 10, 20)));
    let size = measure(&mut flexbox, (1000, 1000), (200, 100));
    assert_eq!(
        size,
        WidgetSize {
            min_width: 30,
            width: 150,
            max_width: 200,
            min_height: 10,
            height: 20,
            max_height: 20,
        }
    );

    flexbox.set_area_allocator(Some(allocator(250, 250, 300, 50, 50, 100)));
    let size = measure(&mut flexbox, (1000, 1000), (250, 100));
    assert_eq!(
        size,
        WidgetSize {
            min_width: 250,
            width: 250,
            max_width: 300,
            min_height: 50,
            height: 50,
            max_height: 100,
        }
    );
}

#[test]
fn flexbox_test_flexbox_size_wrap() {
    let mut flexbox: Flexbox<FixedWidget, FixedAllocator> = Flexbox::new();
    flexbox.set_flex_wrap(FlexWrap::Wrap);
    flexbox.add(button());
    flexbox.add(button());
    flexbox.add(button());

    let size = measure(&mut flexbox, (1000, 1000), (200, 100));
    assert_eq!(
        size,
        WidgetSize {
            min_width: 0,
            width: 150,
            max_width: 200,
            min_height: 0,
            height: 20,
            max_height: 100,
        }
    );

    let size = measure(&mut flexbox, (1000, 1000), (100, 100));
    assert_eq!(
        size,
        WidgetSize {
            min_width: 0,
            width: 100,
            max_width: 100,
            min_height: 0,
            height: 40,
            max_height: 100,
        }
    );
    assert_eq!(
        flexbox.widget_subareas,
        vec![rect(0, 0, 50, 20), rect(50, 0, 100, 20), rect(0, 20, 50, 40)]
    );

    let size = measure(&mut flexbox, (1000, 1000), (45, 100));
    assert_eq!(
        size,
        WidgetSize {
            min_width: 0,
            width: 45,
            max_width: 45,
            min_height: 0,
            height: 60,
            max_height: 100,
        }
    );
    assert_eq!(
        flexbox.widget_subareas,
        vec![rect(0, 0, 45, 20), rect(0, 20, 45, 40), rect(0, 40, 45, 60)]
    );

    let size = measure(&mut flexbox, (1000, 1000), (10, 10));
    assert_eq!(
        size,
        WidgetSize {
            min_width: 0,
            width: 10,
            max_width: 10,
            min_height: 0,
            height: 10,
            max_height: 10,
        }
    );
    assert_eq!(
        flexbox.widget_subareas,
        vec![rect(0, 0, 40, 15), rect(0, 15, 40, 30), rect(0, 30, 40, 45)]
    );

    flexbox.set_area_allocator(Some(allocator(30, 45, 55, 10, 10, 100)));
    let size = measure(&mut flexbox, (1000, 1000), (200, 100));
    assert_eq!(
        size,
        WidgetSize {
            min_width: 30,
            width: 50,
            max_width: 55,
            min_height: 10,
            height: 60,
            max_height: 100,
        }
    );

    flexbox.set_area_allocator(Some(allocator(150, 150, 200, 80, 80, 100)));
    let size = measure(&mut flexbox, (1000, 1000), (200, 100));
    assert_eq!(
        size,
        WidgetSize {
            min_width: 150,
            width: 150,
            max_width: 200,
            min_height: 80,
            height: 80,
            max_height: 100,
        }
    );
}

#[test]
fn test_justify_content_no_wrap() {
    let mut flexbox: Flexbox<FixedWidget, FixedAllocator> = Flexbox::new();
    flexbox.set_area_allocator(Some(allocator(0, 1000, 1000, 0, 1000, 1000)));
    flexbox.set_flex_wrap(FlexWrap::NoWrap);
    flexbox.add(button());
    flexbox.add(button());
    flexbox.add(button());

    // Left
    flexbox.set_justify_content(JustifyContent::Left);
    measure(&mut flexbox, (1000, 1000), (1000, 1000));
    assert_eq!(
        flexbox.widget_subareas,
        vec![rect(0, 0, 50, 20), rect(50, 0, 100, 20), rect(100, 0, 150, 20)]
    );

    // Right
    flexbox.set_justify_content(JustifyContent::Right);
    measure(&mut flexbox, (1000, 1000), (1000, 1000));
    assert_eq!(
        flexbox.widget_subareas,
        vec![rect(850, 0, 900, 20), rect(900, 0, 950, 20), rect(950, 0, 1000, 20)]
    );

    // Center
    flexbox.set_justify_content(JustifyContent::Center);
    measure(&mut flexbox, (1000, 1000), (1000, 1000));
    assert_eq!(
        flexbox.widget_subareas,
        vec![rect(425, 0, 475, 20), rect(475, 0, 525, 20), rect(525, 0, 575, 20)]
    );

    // SpaceBetween
    flexbox.set_justify_content(JustifyContent::SpaceBetween);
    measure(&mut flexbox, (1000, 1000), (1000, 1000));
    assert_eq!(
        flexbox.widget_subareas,
        vec![rect(0, 0, 50, 20), rect(475, 0, 525, 20), rect(950, 0, 1000, 20)]
    );

    // SpaceAround: the gap is 850 / 3 = 283 (rounded down), half of it at
    // the edges.
    flexbox.set_justify_content(JustifyContent::SpaceAround);
    measure(&mut flexbox, (1000, 1000), (1000, 1000));
    assert_eq!(
        flexbox.widget_subareas,
        vec![rect(141, 0, 191, 20), rect(474, 0, 524, 20), rect(807, 0, 857, 20)]
    );

    // SpaceEvenly: the gap is 850 / 4 = 212 (rounded down).
    flexbox.set_justify_content(JustifyContent::SpaceEvenly);
    measure(&mut flexbox, (1000, 1000), (1000, 1000));
    assert_eq!(
        flexbox.widget_subareas,
        vec![rect(212, 0, 262, 20), rect(474, 0, 524, 20), rect(736, 0, 786, 20)]
    );
}

#[test]
fn test_justify_content_wrap() {
    let mut flexbox: Flexbox<FixedWidget, FixedAllocator> = Flexbox::new();
    flexbox.set_area_allocator(Some(allocator(0, 120, 120, 0, 1000, 1000)));
    flexbox.set_flex_wrap(FlexWrap::Wrap);
    flexbox.add(button());
    flexbox.add(button());
    flexbox.add(button());

    // Left
    flexbox.set_justify_content(JustifyContent::Left);
    measure(&mut flexbox, (120, 1000), (120, 1000));
    assert_eq!(
        flexbox.widget_subareas,
        vec![rect(0, 0, 50, 20), rect(50, 0, 100, 20), rect(0, 20, 50, 40)]
    );

    // Right
    flexbox.set_justify_content(JustifyContent::Right);
    measure(&mut flexbox, (120, 1000), (120, 1000));
    assert_eq!(
        flexbox.widget_subareas,
        vec![rect(20, 0, 70, 20), rect(70, 0, 120, 20), rect(70, 20, 120, 40)]
    );

    // Center
    flexbox.set_justify_content(JustifyContent::Center);
    measure(&mut flexbox, (120, 1000), (120, 1000));
    assert_eq!(
        flexbox.widget_subareas,
        vec![rect(10, 0, 60, 20), rect(60, 0, 110, 20), rect(35, 20, 85, 40)]
    );

    // SpaceBetween
    flexbox.set_justify_content(JustifyContent::SpaceBetween);
    measure(&mut flexbox, (120, 1000), (120, 1000));
    assert_eq!(
        flexbox.widget_subareas,
        vec![rect(0, 0, 50, 20), rect(70, 0, 120, 20), rect(35, 20, 85, 40)]
    );

    // SpaceAround
    flexbox.set_justify_content(JustifyContent::SpaceAround);
    measure(&mut flexbox, (120, 1000), (120, 1000));
    assert_eq!(
        flexbox.widget_subareas,
        vec![rect(5, 0, 55, 20), rect(65, 0, 115, 20), rect(35, 20, 85, 40)]
    );

    // SpaceEvenly: the first line's gap is 20 / 3 = 6 (rounded down).
    flexbox.set_justify_content(JustifyContent::SpaceEvenly);
    measure(&mut flexbox, (120, 1000), (120, 1000));
    assert_eq!(
        flexbox.widget_subareas,
        vec![rect(6, 0, 56, 20), rect(62, 0, 112, 20), rect(35, 20, 85, 40)]
    );
}

#[test]
fn test_align_content() {
    let mut flexbox: Flexbox<FixedWidget, FixedAllocator> = Flexbox::new();
    flexbox.set_area_allocator(Some(allocator(0, 50, 50, 0, 100, 100)));
    flexbox.set_flex_wrap(FlexWrap::Wrap);
    flexbox.add(button());
    flexbox.add(button());
    flexbox.add(button());

    // Top
    flexbox.set_align_content(AlignContent::Top);
    measure(&mut flexbox, (50, 100), (50, 100));
    assert_eq!(
        flexbox.widget_subareas,
        vec![rect(0, 0, 50, 20), rect(0, 20, 50, 40), rect(0, 40, 50, 60)]
    );

    // Bottom
    flexbox.set_align_content(AlignContent::Bottom);
    measure(&mut flexbox, (50, 100), (50, 100));
    assert_eq!(
        flexbox.widget_subareas,
        vec![rect(0, 40, 50, 60), rect(0, 60, 50, 80), rect(0, 80, 50, 100)]
    );

    // Center
    flexbox.set_align_content(AlignContent::Center);
    measure(&mut flexbox, (50, 100), (50, 100));
    assert_eq!(
        flexbox.widget_subareas,
        vec![rect(0, 20, 50, 40), rect(0, 40, 50, 60), rect(0, 60, 50, 80)]
    );

    // SpaceBetween
    flexbox.set_align_content(AlignContent::SpaceBetween);
    measure(&mut flexbox, (50, 100), (50, 100));
    assert_eq!(
        flexbox.widget_subareas,
        vec![rect(0, 0, 50, 20), rect(0, 40, 50, 60), rect(0, 80, 50, 100)]
    );

    // SpaceAround: the gap is 40 / 3 = 13 (rounded down), half of it at the
    // edges.
    flexbox.set_align_content(AlignContent::SpaceAround);
    measure(&mut flexbox, (50, 100), (50, 100));
    assert_eq!(
        flexbox.widget_subareas,
        vec![rect(0, 6, 50, 26), rect(0, 39, 50, 59), rect(0, 72, 50, 92)]
    );

    // SpaceEvenly
    flexbox.set_align_content(AlignContent::SpaceEvenly);
    measure(&mut flexbox, (50, 100), (50, 100));
    assert_eq!(
        flexbox.widget_subareas,
        vec![rect(0, 10, 50, 30), rect(0, 40, 50, 60), rect(0, 70, 50, 90)]
    );

    // Stretch: each line grows by 40 / 3 = 13 (rounded down) to height 33;
    // the items stretch to it, clamped at their own maximum height of 25.
    flexbox.set_align_content(AlignContent::Stretch);
    measure(&mut flexbox, (50, 100), (50, 100));
    assert_eq!(
        flexbox.widget_subareas,
        vec![rect(0, 0, 50, 25), rect(0, 33, 50, 58), rect(0, 66, 50, 91)]
    );
}

#[test]
fn test_align_content_with_overflow() {
    let mut flexbox: Flexbox<FixedWidget, FixedAllocator> = Flexbox::new();
    flexbox.set_area_allocator(Some(allocator(0, 10, 10, 0, 100, 100)));
    flexbox.set_flex_wrap(FlexWrap::Wrap);
    flexbox.add(button());
    flexbox.add(button());
    flexbox.add(button());

    // SpaceBetween
    flexbox.set_align_content(AlignContent::SpaceBetween);
    measure(&mut flexbox, (10, 100), (10, 100));
    assert_eq!(
        flexbox.widget_subareas,
        vec![rect(0, 0, 40, 20), rect(0, 40, 40, 60), rect(0, 80, 40, 100)]
    );
}

#[test]
fn test_align_items() {
    let mut flexbox: Flexbox<FixedWidget, FixedAllocator> = Flexbox::new();
    flexbox.set_area_allocator(Some(allocator(0, 1000, 1000, 0, 1000, 1000)));
    flexbox.set_flex_wrap(FlexWrap::NoWrap);
    flexbox.add(button());
    flexbox.add(big_button());
    flexbox.add(button());

    // Top
    flexbox.set_align_items(AlignItems::Top);
    measure(&mut flexbox, (1000, 1000), (1000, 1000));
    assert_eq!(
        flexbox.widget_subareas,
        vec![rect(0, 0, 50, 20), rect(50, 0, 100, 30), rect(100, 0, 150, 20)]
    );

    // Bottom
    flexbox.set_align_items(AlignItems::Bottom);
    measure(&mut flexbox, (1000, 1000), (1000, 1000));
    assert_eq!(
        flexbox.widget_subareas,
        vec![rect(0, 10, 50, 30), rect(50, 0, 100, 30), rect(100, 10, 150, 30)]
    );

    // Center
    flexbox.set_align_items(AlignItems::Center);
    measure(&mut flexbox, (1000, 1000), (1000, 1000));
    assert_eq!(
        flexbox.widget_subareas,
        vec![rect(0, 5, 50, 25), rect(50, 0, 100, 30), rect(100, 5, 150, 25)]
    );

    // Stretch
    flexbox.set_align_items(AlignItems::Stretch);
    measure(&mut flexbox, (1000, 1000), (1000, 1000));
    assert_eq!(
        flexbox.widget_subareas,
        vec![rect(0, 0, 50, 25), rect(50, 0, 100, 30), rect(100, 0, 150, 25)]
    );
}

#[test]
fn no_wrap_packing_uses_max_child_height() {
    let mut flexbox: Flexbox<FixedWidget, FixedAllocator> = Flexbox::new();
    flexbox.set_flex_wrap(FlexWrap::NoWrap);
    flexbox.add(button());
    flexbox.add(big_button());
    flexbox.add(button());

    let size = measure(&mut flexbox, (1000, 1000), (200, 100));
    assert_eq!(size.width, 150);
    assert_eq!(size.height, 30);
    assert_eq!(flexbox.widget_subareas[0].min, (0, 0));
    assert_eq!(flexbox.widget_subareas[1].min, (50, 0));
    assert_eq!(flexbox.widget_subareas[2].min, (100, 0));
}

#[test]
fn shrink_saturates_every_capacity() {
    // Three children of preferred width 50 with 10 units of shrink capacity
    // each, in a container of width 100: the 50 units of overflow saturate
    // all capacities and every child ends at its minimum width of 40.
    let mut flexbox: Flexbox<FixedWidget, FixedAllocator> = Flexbox::new();
    flexbox.set_flex_wrap(FlexWrap::NoWrap);
    flexbox.add(button());
    flexbox.add(button());
    flexbox.add(button());

    measure(&mut flexbox, (1000, 1000), (100, 15));
    assert_eq!(
        flexbox.widget_subareas,
        vec![rect(0, 0, 40, 15), rect(40, 0, 80, 15), rect(80, 0, 120, 15)]
    );
}

#[test]
fn wrap_breaks_line_at_container_width() {
    // Three 50-wide children wrapping in a container of width 100: two fit
    // on the first line, the third opens a second line, and the flexbox
    // resolves to 100 x two line heights.
    let mut flexbox: Flexbox<FixedWidget, FixedAllocator> = Flexbox::new();
    flexbox.set_flex_wrap(FlexWrap::Wrap);
    flexbox.add(button());
    flexbox.add(button());
    flexbox.add(button());

    let size = measure(&mut flexbox, (1000, 1000), (100, 100));
    assert_eq!(size.width, 100);
    assert_eq!(size.height, 40);
    assert_eq!(
        flexbox.widget_subareas,
        vec![rect(0, 0, 50, 20), rect(50, 0, 100, 20), rect(0, 20, 50, 40)]
    );
}

#[test]
fn space_evenly_divides_leftover_exactly() {
    // With 800 units left over and three children, the four gaps are an
    // exact 200 each.
    let mut flexbox: Flexbox<FixedWidget, FixedAllocator> = Flexbox::new();
    flexbox.set_area_allocator(Some(allocator(0, 950, 950, 0, 1000, 1000)));
    flexbox.set_flex_wrap(FlexWrap::NoWrap);
    flexbox.set_justify_content(JustifyContent::SpaceEvenly);
    flexbox.add(button());
    flexbox.add(button());
    flexbox.add(button());

    measure(&mut flexbox, (950, 1000), (950, 1000));
    assert_eq!(
        flexbox.widget_subareas,
        vec![rect(200, 0, 250, 20), rect(450, 0, 500, 20), rect(700, 0, 750, 20)]
    );
}

#[test]
fn space_between_spreads_rows_to_both_edges() {
    // Three wrapped single-child lines of height 20 in a 100-high envelope:
    // first line at the top, last at the bottom, the middle centered.
    let mut flexbox: Flexbox<FixedWidget, FixedAllocator> = Flexbox::new();
    flexbox.set_area_allocator(Some(allocator(0, 50, 50, 0, 100, 100)));
    flexbox.set_flex_wrap(FlexWrap::Wrap);
    flexbox.set_align_content(AlignContent::SpaceBetween);
    flexbox.add(button());
    flexbox.add(button());
    flexbox.add(button());

    measure(&mut flexbox, (50, 100), (50, 100));
    assert_eq!(flexbox.widget_subareas[0].min.1, 0);
    assert_eq!(flexbox.widget_subareas[1].min.1, 40);
    assert_eq!(flexbox.widget_subareas[2].min.1, 80);
}

#[test]
fn measure_twice_gives_identical_results() {
    let mut flexbox: Flexbox<FixedWidget, FixedAllocator> = Flexbox::new();
    flexbox.set_area_allocator(Some(allocator(0, 120, 120, 0, 1000, 1000)));
    flexbox.set_flex_wrap(FlexWrap::Wrap);
    flexbox.set_justify_content(JustifyContent::SpaceAround);
    flexbox.add(button());
    flexbox.add(button());
    flexbox.add(button());

    let first = measure(&mut flexbox, (120, 1000), (120, 1000));
    let first_rects = flexbox.widget_subareas.clone();
    let second = measure(&mut flexbox, (120, 1000), (120, 1000));
    assert_eq!(first, second);
    assert_eq!(first_rects, flexbox.widget_subareas);
}

#[test]
fn render_without_measure_is_rejected() {
    let mut flexbox: Flexbox<FixedWidget, FixedAllocator> = Flexbox::new();
    flexbox.add(button());

    // No measurement pass has produced placement data for this child.
    assert_eq!(draw(&flexbox, rect(0, 0, 200, 100)), Err(RenderError::StaleLayout));

    // After a measurement pass rendering succeeds.
    measure(&mut flexbox, (200, 100), (200, 100));
    assert_eq!(draw(&flexbox, rect(0, 0, 200, 100)), Ok(()));

    // A child added after the measurement makes the placement stale again.
    flexbox.add(button());
    assert_eq!(draw(&flexbox, rect(0, 0, 200, 100)), Err(RenderError::StaleLayout));
}

#[test]
fn empty_flexbox_measures_and_renders() {
    let mut flexbox: Flexbox<FixedWidget, FixedAllocator> = Flexbox::new();
    let size = measure(&mut flexbox, (100, 100), (100, 100));
    assert_eq!(size.width, 0);
    assert_eq!(size.height, 0);
    assert!(flexbox.widget_subareas.is_empty());
    assert_eq!(draw(&flexbox, rect(0, 0, 100, 100)), Ok(()));
}

#[test]
fn space_between_single_child_centers() {
    let mut flexbox: Flexbox<FixedWidget, FixedAllocator> = Flexbox::new();
    flexbox.set_area_allocator(Some(allocator(0, 1000, 1000, 0, 1000, 1000)));
    flexbox.set_flex_wrap(FlexWrap::NoWrap);
    flexbox.set_justify_content(JustifyContent::SpaceBetween);
    flexbox.add(button());

    measure(&mut flexbox, (1000, 1000), (1000, 1000));
    assert_eq!(flexbox.widget_subareas, vec![rect(475, 0, 525, 20)]);
}

#[test]
fn zero_capacity_overflow_is_accepted() {
    // Children with no shrink capacity on either axis keep their extents
    // even when the content overflows the container: redistribution is
    // skipped instead of dividing by the zero total capacity, and the
    // residual overflow is accepted.
    let rigid = || {
        FixedWidget::new(WidgetSize {
            min_width: 50,
            width: 50,
            max_width: 50,
            min_height: 20,
            height: 20,
            max_height: 20,
        })
    };
    let mut flexbox: Flexbox<FixedWidget, FixedAllocator> = Flexbox::new();
    flexbox.set_flex_wrap(FlexWrap::NoWrap);
    flexbox.add(rigid());
    flexbox.add(rigid());
    flexbox.add(rigid());

    let size = measure(&mut flexbox, (1000, 1000), (60, 10));
    assert_eq!(size.width, 60);
    assert_eq!(size.height, 10);
    assert_eq!(
        flexbox.widget_subareas,
        vec![rect(0, 0, 50, 20), rect(50, 0, 100, 20), rect(100, 0, 150, 20)]
    );
}

struct RecordingBackend {
    calls: Vec<(u64, u64, String)>,
}

impl fgui::Backend for RecordingBackend {
    fn run<A: fgui::App<Self>>(_app: A) {}

    fn draw_text(&mut self, x: u64, y: u64, text: &str) {
        self.calls.push((x, y, text.to_string()));
    }
}

#[test]
fn labels_draw_at_their_resolved_cells() {
    let mut row: Flexbox<fgui::Label, FixedAllocator> = Flexbox::new();
    row.set_flex_wrap(FlexWrap::NoWrap);
    row.add(fgui::Label::new(String::from("ab")));
    row.add(fgui::Label::new(String::from("cde")));

    let size = fgui::Widget::<RecordingBackend>::allocate_area(&mut row, (80, 24), (80, 24));
    assert_eq!(size.width, 5);
    assert_eq!(size.height, 1);

    let mut backend = RecordingBackend { calls: Vec::new() };
    let area = rect(3, 2, 83, 26);
    assert_eq!(fgui::Widget::<RecordingBackend>::render(&row, area, &mut backend), Ok(()));
    assert_eq!(
        backend.calls,
        vec![(3, 2, String::from("ab")), (5, 2, String::from("cde"))]
    );
}

#[test]
fn nested_flexbox_measures_and_renders() {
    let mut inner: Flexbox<FixedWidget, FixedAllocator> = Flexbox::new();
    inner.set_flex_wrap(FlexWrap::NoWrap);
    inner.add(button());
    inner.add(button());

    let mut outer: Flexbox<Flexbox<FixedWidget, FixedAllocator>, FixedAllocator> = Flexbox::new();
    outer.set_flex_wrap(FlexWrap::NoWrap);
    outer.add(inner);

    let size = measure(&mut outer, (1000, 1000), (500, 100));
    assert_eq!(size.width, 100);
    assert_eq!(size.height, 20);
    assert_eq!(outer.widget_subareas, vec![rect(0, 0, 100, 20)]);
    assert_eq!(draw(&outer, rect(10, 10, 510, 110)), Ok(()));
}
