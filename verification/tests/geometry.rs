use mouse_engine::{
    current_monitor_rects, current_virtual_screen_rect, keep_visible, monitor_from_bounds,
    sort_by_position, spans_fit, virtual_screen_from_metrics, VirtualScreenRect,
};

fn rect(left: i32, top: i32, width: i32, height: i32) -> VirtualScreenRect {
    VirtualScreenRect::new(left, top, width, height)
}

#[test]
fn rect_edges_are_origin_plus_size() {
    let r = rect(-1920, 100, 1920, 1080);
    assert_eq!(r.left, -1920);
    assert_eq!(r.top, 100);
    assert_eq!(r.right(), 0);
    assert_eq!(r.bottom(), 1180);
}

#[test]
fn rect_contains_is_inclusive_at_origin_and_exclusive_at_far_edges() {
    let r = rect(10, 20, 100, 50);
    assert!(r.contains(10, 20));
    assert!(r.contains(109, 69));
    assert!(!r.contains(110, 20));
    assert!(!r.contains(10, 70));
    assert!(!r.contains(9, 20));
    assert!(!r.contains(10, 19));
}

#[test]
fn empty_rect_contains_nothing() {
    let r = rect(0, 0, 0, 10);
    assert!(!r.contains(0, 0));
    let r = rect(0, 0, -5, 10);
    assert!(!r.contains(0, 0));
}

#[test]
fn offset_from_moves_corner_and_keeps_size() {
    let r = rect(2000, 300, 800, 600);
    let origin = rect(-1920, 100, 5000, 2000);
    let moved = r.offset_from(origin);
    assert_eq!(moved, rect(3920, 200, 800, 600));
    assert_eq!(r.offset_from(r), rect(0, 0, 800, 600));
}

#[test]
fn offset_keeps_points_inside() {
    let r = rect(2000, 300, 800, 600);
    let origin = rect(-1920, 100, 5000, 2000);
    let moved = r.offset_from(origin);
    for &(x, y) in &[(2000, 300), (2799, 899), (2800, 300), (1999, 500), (2400, 900)] {
        assert_eq!(r.contains(x, y), moved.contains(x - origin.left, y - origin.top));
    }
}

#[test]
fn monitors_are_sorted_top_to_bottom_then_left_to_right() {
    let reported = vec![
        rect(1920, 0, 1280, 1024),
        rect(0, -200, 1920, 1080),
        rect(0, 0, 1920, 1080),
        rect(-1280, 0, 1280, 1024),
    ];
    let monitors = current_monitor_rects(reported, None).unwrap();
    assert_eq!(
        monitors,
        vec![
            rect(0, -200, 1920, 1080),
            rect(-1280, 0, 1280, 1024),
            rect(0, 0, 1920, 1080),
            rect(1920, 0, 1280, 1024),
        ]
    );
}

#[test]
fn monitors_at_the_same_corner_keep_their_reported_order() {
    let sorted = sort_by_position(vec![
        rect(5, 5, 30, 30),
        rect(0, 0, 10, 10),
        rect(5, 5, 20, 20),
        rect(0, 0, 40, 40),
        rect(5, 5, 10, 10),
    ]);
    assert_eq!(
        sorted,
        vec![
            rect(0, 0, 10, 10),
            rect(0, 0, 40, 40),
            rect(5, 5, 30, 30),
            rect(5, 5, 20, 20),
            rect(5, 5, 10, 10),
        ]
    );
}

#[test]
fn monitors_without_area_are_dropped() {
    let kept = keep_visible(&vec![
        rect(0, 0, 0, 100),
        rect(0, 0, 100, 100),
        rect(0, 0, 100, -1),
    ]);
    assert_eq!(kept, vec![rect(0, 0, 100, 100)]);
}

#[test]
fn fallback_is_used_when_no_monitor_has_area() {
    let fallback = rect(0, 0, 0, 0);
    assert_eq!(
        current_monitor_rects(vec![rect(10, 10, 0, 5)], Some(fallback)),
        Some(vec![fallback])
    );
    assert_eq!(current_monitor_rects(Vec::new(), Some(rect(1, 2, 3, 4))), Some(vec![rect(1, 2, 3, 4)]));
    assert_eq!(current_monitor_rects(Vec::new(), None), None);
}

#[test]
fn fallback_is_ignored_when_a_monitor_is_visible() {
    assert_eq!(
        current_monitor_rects(vec![rect(0, 0, 10, 10)], Some(rect(-5, -5, 99, 99))),
        Some(vec![rect(0, 0, 10, 10)])
    );
}

#[test]
fn monitor_bounds_give_size() {
    assert_eq!(monitor_from_bounds(-1920, 0, 0, 1080), Some(rect(-1920, 0, 1920, 1080)));
    assert_eq!(monitor_from_bounds(100, 0, 100, 1080), None);
    assert_eq!(monitor_from_bounds(0, 10, 50, 5), None);
}

#[test]
fn metrics_without_area_give_no_screen() {
    assert_eq!(virtual_screen_from_metrics(-1920, 0, 3840, 1080), Some(rect(-1920, 0, 3840, 1080)));
    assert_eq!(virtual_screen_from_metrics(0, 0, 0, 1080), None);
    assert_eq!(virtual_screen_from_metrics(0, 0, 1920, -1), None);
}

#[test]
fn virtual_screen_spans_all_monitors() {
    let monitors = vec![
        rect(0, 0, 1920, 1080),
        rect(-1280, 200, 1280, 1024),
        rect(1920, -300, 1080, 1920),
    ];
    let screen = current_virtual_screen_rect(&monitors).unwrap();
    assert_eq!(screen, rect(-1280, -300, 4280, 1920));
    for m in &monitors {
        assert!(screen.contains(m.left, m.top));
        assert!(screen.contains(m.right() - 1, m.bottom() - 1));
    }
}

#[test]
fn virtual_screen_of_no_monitor_is_none() {
    assert_eq!(current_virtual_screen_rect(&Vec::new()), None);
}

#[test]
fn virtual_screen_of_one_monitor_is_that_monitor() {
    let only = rect(-7, 3, 640, 480);
    assert_eq!(current_virtual_screen_rect(&vec![only]), Some(only));
}

#[test]
fn span_check_accepts_ordinary_layouts_and_rejects_overflow() {
    assert!(spans_fit(&vec![rect(0, 0, 1920, 1080), rect(-1920, -500, 1920, 1080)]));
    assert!(spans_fit(&Vec::new()));
    assert!(!spans_fit(&vec![rect(i32::MAX - 5, 0, 10, 10)]));
    assert!(!spans_fit(&vec![rect(i32::MIN, 0, 10, 10), rect(i32::MAX - 20, 0, 10, 10)]));
}

#[test]
fn span_check_only_needs_the_extreme_edges_to_fit() {
    let monitors = vec![rect(2_147_000_000, 0, -2_147_000_000, 10), rect(-1_000_000, 0, 10, 10)];
    assert!(spans_fit(&monitors));
    assert_eq!(current_virtual_screen_rect(&monitors), Some(rect(-1_000_000, 0, 1_000_000, 10)));
}
