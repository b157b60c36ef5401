use gpui_window::geometry::{point, px, size, Bounds, Pixels, UNITS_PER_PIXEL};

#[test]
fn a_pixel_is_65536_units() {
    assert_eq!(UNITS_PER_PIXEL, 65536);
    assert_eq!(px(3), Pixels { units: 196608 });
    assert_eq!(px(-2), Pixels { units: -131072 });
}

#[test]
fn edges_of_a_rectangle() {
    let bounds = Bounds::new(point(px(10), px(20)), size(px(30), px(40)));
    assert_eq!(bounds.left(), px(10));
    assert_eq!(bounds.top(), px(20));
    assert_eq!(bounds.right(), px(40));
    assert_eq!(bounds.bottom(), px(60));
}

#[test]
fn rectangles_that_share_an_edge_do_not_intersect() {
    let left = Bounds::new(point(px(0), px(0)), size(px(10), px(10)));
    let right = Bounds::new(point(px(10), px(0)), size(px(10), px(10)));
    let over = Bounds::new(point(px(9), px(9)), size(px(10), px(10)));
    assert!(!left.intersects(&right));
    assert!(left.intersects(&over));
    assert!(right.intersects(&over));
}
