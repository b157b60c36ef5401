use gpui_window::geometry::{point, size, Bounds, Pixels, Size};
use gpui_window::native_occlusions::{
    native_occlusion_row_gap, nudge_out_of_native_occlusions, DrawPhase, Window,
};

fn px(value: f32) -> Pixels {
    Pixels { units: (f64::from(value) * 65536.0).round() as i64 }
}

fn bounds(x: f32, y: f32, w: f32, h: f32) -> Bounds {
    Bounds::new(point(px(x), px(y)), size(px(w), px(h)))
}

#[test]
fn row_gap_stops_at_regions_on_the_row_only() {
    let viewport: Size = size(px(1000.), px(600.));
    let browser = bounds(700., 0., 300., 600.);
    let sidebar = bounds(0., 0., 200., 600.);
    let far_below = bounds(400., 500., 300., 100.);
    let anchor = bounds(650., 300., 20., 20.);
    let gap = native_occlusion_row_gap(anchor, &[browser, sidebar, far_below], viewport);
    assert_eq!(gap, px(200.)..px(700.));
    let gap = native_occlusion_row_gap(anchor, &[], viewport);
    assert_eq!(gap, px(0.)..px(1000.));
}

#[test]
fn nudge_takes_the_shortest_shift_that_stays_in_the_window() {
    let viewport = bounds(0., 0., 1000., 600.);
    let browser = bounds(700., 0., 300., 600.);
    let tooltip = bounds(650., 300., 100., 30.);
    let moved = nudge_out_of_native_occlusions(tooltip, &[browser], viewport);
    assert_eq!(moved, bounds(600., 300., 100., 30.));

    let unmovable = bounds(0., 0., 1000., 600.);
    assert_eq!(nudge_out_of_native_occlusions(tooltip, &[unmovable], viewport), tooltip);
    assert_eq!(nudge_out_of_native_occlusions(tooltip, &[], viewport), tooltip);
}

#[test]
fn a_recorded_region_lasts_one_frame() {
    let browser = bounds(700., 0., 300., 600.);
    let mut window = Window::new();
    window.phase = DrawPhase::Prepaint;
    window.occlude_native_region(browser);
    assert_eq!(window.native_occlusions(), &[browser]);
    window.finish_frame();
    assert_eq!(window.native_occlusions(), &[browser]);
    window.finish_frame();
    assert!(window.native_occlusions().is_empty());
}

#[test]
fn regions_recorded_in_a_frame_replace_the_last_ones() {
    let browser = bounds(700., 0., 300., 600.);
    let panel = bounds(0., 0., 100., 100.);
    let mut window = Window::new();
    window.phase = DrawPhase::Prepaint;
    window.occlude_native_region(browser);
    window.finish_frame();
    assert_eq!(window.phase, DrawPhase::Idle);
    window.phase = DrawPhase::Prepaint;
    window.occlude_native_region(panel);
    assert_eq!(window.native_occlusions(), &[panel]);
    window.occlude_native_region(browser);
    assert_eq!(window.native_occlusions(), &[panel, browser]);
}

#[test]
fn row_gap_reaches_48_pixels_above_and_below() {
    let viewport: Size = size(px(1000.), px(600.));
    let anchor = bounds(500., 300., 20., 20.);
    let touching = bounds(0., 200., 100., 52.);
    let close = bounds(0., 200., 100., 52.5);
    assert_eq!(native_occlusion_row_gap(anchor, &[touching], viewport), px(0.)..px(1000.));
    assert_eq!(native_occlusion_row_gap(anchor, &[close], viewport), px(100.)..px(1000.));
    let below = bounds(600., 367.5, 100., 50.);
    let too_far_below = bounds(600., 368., 100., 50.);
    assert_eq!(native_occlusion_row_gap(anchor, &[below], viewport), px(0.)..px(600.));
    assert_eq!(native_occlusion_row_gap(anchor, &[too_far_below], viewport), px(0.)..px(1000.));
}

#[test]
fn row_gap_ignores_a_region_over_the_middle_of_the_anchor() {
    let viewport: Size = size(px(1000.), px(600.));
    let anchor = bounds(500., 300., 20., 20.);
    let over = bounds(400., 250., 200., 200.);
    assert_eq!(native_occlusion_row_gap(anchor, &[over], viewport), px(0.)..px(1000.));
    let up_to_middle = bounds(400., 250., 110., 200.);
    assert_eq!(native_occlusion_row_gap(anchor, &[up_to_middle], viewport), px(510.)..px(1000.));
    let from_middle = bounds(510., 250., 110., 200.);
    assert_eq!(native_occlusion_row_gap(anchor, &[from_middle], viewport), px(0.)..px(510.));
}

#[test]
fn row_gap_does_not_depend_on_the_order_of_regions() {
    let viewport: Size = size(px(1000.), px(600.));
    let anchor = bounds(500., 300., 20., 20.);
    let near = bounds(300., 300., 100., 20.);
    let far = bounds(0., 300., 100., 20.);
    let right = bounds(800., 300., 100., 20.);
    let expected = px(400.)..px(800.);
    assert_eq!(native_occlusion_row_gap(anchor, &[near, far, right], viewport), expected);
    assert_eq!(native_occlusion_row_gap(anchor, &[right, far, near, far], viewport), expected);
}

#[test]
fn nudge_settles_in_a_corner_between_two_regions() {
    let viewport = bounds(0., 0., 1000., 600.);
    let right = bounds(700., 0., 300., 600.);
    let bottom = bounds(0., 500., 700., 100.);
    let tooltip = bounds(690., 480., 100., 30.);
    let moved = nudge_out_of_native_occlusions(tooltip, &[right, bottom], viewport);
    assert_eq!(moved, bounds(600., 470., 100., 30.));
    assert!(!right.intersects(&moved) && !bottom.intersects(&moved));
}

#[test]
fn nudge_takes_the_first_of_equally_short_shifts() {
    let viewport = bounds(0., 0., 1000., 600.);
    let region = bounds(400., 200., 100., 100.);
    let centered = bounds(425., 225., 50., 50.);
    let moved = nudge_out_of_native_occlusions(centered, &[region], viewport);
    assert_eq!(moved, bounds(350., 225., 50., 50.));
}

#[test]
fn nudge_skips_a_shorter_shift_that_leaves_the_window() {
    let viewport = bounds(0., 0., 1000., 600.);
    let region = bounds(0., 0., 60., 600.);
    let tooltip = bounds(5., 300., 50., 30.);
    let moved = nudge_out_of_native_occlusions(tooltip, &[region], viewport);
    assert_eq!(moved, bounds(60., 300., 50., 30.));
}

#[test]
fn nudge_returns_bounds_unchanged_when_a_second_region_has_no_way_out() {
    let viewport = bounds(0., 0., 1000., 600.);
    let browser = bounds(700., 0., 300., 600.);
    let everything = bounds(0., 0., 1000., 600.);
    let tooltip = bounds(650., 300., 100., 30.);
    let moved = nudge_out_of_native_occlusions(tooltip, &[browser, everything], viewport);
    assert_eq!(moved, tooltip);
}

#[test]
fn nudge_goes_on_until_every_region_is_cleared() {
    let viewport = bounds(0., 0., 1000., 600.);
    let stacked = [102., 104., 106., 108., 110.].map(|width| bounds(0., 0., width, 600.));
    let panel = bounds(100., 0., 10., 600.);
    let moved = nudge_out_of_native_occlusions(panel, &stacked, viewport);
    assert_eq!(moved, bounds(110., 0., 10., 600.));
    assert!(stacked.iter().all(|region| !region.intersects(&moved)));
}

#[test]
fn nudge_walks_past_a_row_of_regions() {
    let viewport = bounds(0., 0., 1000., 100.);
    let row: Vec<Bounds> =
        (1..=6u8).map(|i| bounds(f32::from(i) * 100., 0., 100., 100.)).collect();
    let tooltip = bounds(190., 0., 150., 100.);
    let moved = nudge_out_of_native_occlusions(tooltip, &row, viewport);
    assert_eq!(moved, bounds(700., 0., 150., 100.));
}

#[test]
fn nudge_stops_after_four_passes_that_would_go_round() {
    let viewport = bounds(0., 0., 300., 100.);
    let left = bounds(0., 0., 110., 100.);
    let right = bounds(190., 0., 110., 100.);
    let tooltip = bounds(100., 0., 100., 100.);
    let moved = nudge_out_of_native_occlusions(tooltip, &[left, right], viewport);
    assert_eq!(moved, bounds(90., 0., 100., 100.));
}
