use gpui_window::color::{clamp_level, Level, Rgb, LEVEL_ONE};
use gpui_window::geometry::{point, px, size, Bounds, Pixels, Size};
use gpui_window::window_live::{
    drawable_size, draws_style, fade_amount, same_rect, style_id, texture_matches, FadeAmount,
    LiveBackdrop, LiveBackground, LiveClock, Palette, Texture, TimerChange, FADE_SCALE,
    LIVE_FADE, LIVE_MAX_STEP, LIVE_PERIOD, PHASE_UNITS_PER_SECOND,
};

const SECOND: u64 = 1_000_000_000;
const SPEED_ONE: i64 = 1_000_000;

fn level(value: f64) -> Level {
    Level { units: (value * LEVEL_ONE as f64).round() as i64 }
}

fn gray(value: f64) -> Rgb {
    Rgb { red: level(value), green: level(value), blue: level(value) }
}

fn live(style: &str) -> LiveBackground {
    LiveBackground {
        style: String::from(style),
        colors: Palette { first: gray(0.1), second: gray(0.2), third: gray(0.3) },
        brightness: level(0.5),
        speed: SPEED_ONE,
        only_on_power: false,
    }
}

fn texture(handle: u64) -> Texture {
    Texture { handle, width: 100, height: 75 }
}

fn window_size() -> Size {
    size(px(800), px(600))
}

#[test]
fn the_eight_styles_are_drawn() {
    for style in ["aurora", "ink", "drift", "nebula", "silk", "bokeh", "waves", "mesh"] {
        assert_eq!(style_id(style), Some(style));
        assert!(draws_style(style));
    }
    for style in ["", "Aurora", "composite", "plasma"] {
        assert_eq!(style_id(style), None);
        assert!(!draws_style(style));
    }
}

#[test]
fn a_live_backdrop_is_drawn_at_an_eighth_of_its_size() {
    assert_eq!(drawable_size(size(px(800), px(600))), Some((100, 75)));
    assert_eq!(drawable_size(size(px(1012), px(604))), Some((127, 76)));
}

#[test]
fn a_live_backdrop_is_drawn_at_most_320_by_200() {
    assert_eq!(drawable_size(size(px(3200), px(1000))), Some((320, 100)));
    assert_eq!(drawable_size(size(px(3200), px(2000))), Some((320, 200)));
    assert_eq!(drawable_size(size(px(1000), px(4000))), Some((50, 200)));
}

#[test]
fn a_live_backdrop_is_drawn_at_least_16_by_16() {
    assert_eq!(drawable_size(size(px(1), px(1))), Some((16, 16)));
    assert_eq!(drawable_size(size(px(2000), px(8))), Some((250, 16)));
}

#[test]
fn a_view_smaller_than_a_pixel_is_not_drawn() {
    assert_eq!(drawable_size(size(Pixels { units: 65535 }, px(100))), None);
    assert_eq!(drawable_size(size(px(100), px(0))), None);
}

#[test]
fn a_view_of_any_size_is_drawn() {
    let longest = Pixels { units: i64::MAX };
    assert_eq!(drawable_size(size(longest, longest)), Some((200, 200)));
    assert_eq!(drawable_size(size(longest, px(100))), Some((320, 16)));
    assert_eq!(drawable_size(size(Pixels { units: i64::MIN }, px(100))), None);
}

#[test]
fn a_fade_is_eased_in_and_out() {
    let started = Some(5 * SECOND);
    assert_eq!(fade_amount(None, 0), None);
    assert_eq!(fade_amount(started, 5 * SECOND), Some(FadeAmount { amount: 0 }));
    assert_eq!(fade_amount(started, 4 * SECOND), Some(FadeAmount { amount: 0 }));
    let halfway = fade_amount(started, 5 * SECOND + LIVE_FADE / 2).unwrap();
    assert_eq!(halfway.amount * 2, FADE_SCALE);
    let third = fade_amount(started, 5 * SECOND + LIVE_FADE / 3).unwrap();
    assert_eq!(third.amount * 27, FADE_SCALE * 7);
    let two_thirds = fade_amount(started, 5 * SECOND + 2 * LIVE_FADE / 3).unwrap();
    assert_eq!(third.amount + two_thirds.amount, FADE_SCALE);
    assert_eq!(fade_amount(started, 5 * SECOND + LIVE_FADE), None);
}

#[test]
fn textures_match_by_size() {
    assert!(!texture_matches(&None, 100, 75));
    assert!(texture_matches(&Some(texture(1)), 100, 75));
    assert!(!texture_matches(&Some(texture(1)), 75, 100));
}

#[test]
fn covers_are_compared_by_every_edge() {
    let cover = |x: i64, w: i64| Some(Bounds::new(point(px(x), px(2)), size(px(w), px(4))));
    assert!(same_rect(None, None));
    assert!(same_rect(cover(1, 3), cover(1, 3)));
    assert!(!same_rect(cover(1, 3), cover(2, 3)));
    assert!(!same_rect(cover(1, 3), cover(1, 4)));
    assert!(!same_rect(cover(1, 3), None));
}

#[test]
fn the_clock_adds_time_times_speed() {
    let mut clock = LiveClock::new();
    clock.tick(Some(SPEED_ONE), 10 * SECOND);
    assert_eq!(clock.phase, 0);
    clock.tick(Some(SPEED_ONE), 10 * SECOND + SECOND / 20);
    assert_eq!(clock.phase, PHASE_UNITS_PER_SECOND / 20);
    clock.tick(Some(2 * SPEED_ONE), 10 * SECOND + SECOND / 10);
    assert_eq!(clock.phase, PHASE_UNITS_PER_SECOND * 3 / 20);
}

#[test]
fn speeds_are_kept_between_a_twentieth_and_four() {
    for (speed, phase) in [(0, 5_000_000_000_000), (-7, 5_000_000_000_000), (99_000_000, 400_000_000_000_000)] {
        let mut clock = LiveClock { phase: 0, last_tick: Some(0), running: true };
        clock.tick(Some(speed), SECOND / 10);
        assert_eq!(clock.phase, phase);
    }
}

#[test]
fn a_pause_does_not_advance_the_clock() {
    let mut clock = LiveClock { phase: 42, last_tick: Some(SECOND), running: true };
    clock.tick(None, 2 * SECOND);
    assert_eq!(clock, LiveClock { phase: 42, last_tick: None, running: true });
    clock.tick(Some(SPEED_ONE), 9 * SECOND);
    assert_eq!(clock.phase, 42);
    clock.tick(Some(SPEED_ONE), 9 * SECOND + LIVE_MAX_STEP + 1);
    assert_eq!(clock.phase, 42);
    clock.tick(Some(SPEED_ONE), 9 * SECOND + 2 * LIVE_MAX_STEP + 1);
    assert_eq!(clock.phase, 42 + PHASE_UNITS_PER_SECOND / 10);
}

#[test]
fn a_tick_brings_any_phase_into_the_loop() {
    let mut clock = LiveClock { phase: u64::MAX, last_tick: Some(0), running: true };
    clock.tick(Some(SPEED_ONE), SECOND / 10);
    assert_eq!(u128::from(clock.phase), (u128::from(u64::MAX) + 100_000_000_000_000) % u128::from(LIVE_PERIOD));
}

#[test]
fn a_clock_that_runs_back_stands_still() {
    let mut clock = LiveClock { phase: 7, last_tick: Some(5 * SECOND), running: true };
    clock.tick(Some(SPEED_ONE), 4 * SECOND);
    assert_eq!(clock, LiveClock { phase: 7, last_tick: Some(4 * SECOND), running: true });
}

#[test]
fn the_clock_wraps_after_two_minutes() {
    assert_eq!(LIVE_PERIOD, 120 * PHASE_UNITS_PER_SECOND);
    let mut clock = LiveClock::new();
    clock.tick(Some(SPEED_ONE), 0);
    for step in 1..=1200 {
        clock.tick(Some(SPEED_ONE), step * SECOND / 10);
    }
    assert_eq!(clock.phase, 0);
    clock.tick(Some(SPEED_ONE), 120 * SECOND + 1);
    assert_eq!(clock.phase, 1_000_000);
}

#[test]
fn the_rate_of_ticks_does_not_change_the_motion() {
    let start = LiveClock { phase: 3, last_tick: Some(0), running: true };
    let mut one = start;
    one.tick(Some(700_000), 90_000_000);
    let mut many = start;
    for now in [10_000_000, 11_000_000, 60_000_000, 90_000_000] {
        many.tick(Some(700_000), now);
    }
    assert_eq!(one, many);
}

#[test]
fn the_timer_runs_while_it_is_needed() {
    let mut clock = LiveClock { phase: 9, last_tick: Some(1), running: false };
    assert_eq!(clock.set_timer(false), TimerChange::Keep);
    assert_eq!(clock.last_tick, Some(1));
    assert_eq!(clock.set_timer(true), TimerChange::Start);
    assert_eq!(clock, LiveClock { phase: 9, last_tick: None, running: true });
    assert_eq!(clock.set_timer(true), TimerChange::Keep);
    assert_eq!(clock.set_timer(false), TimerChange::Stop);
    assert_eq!(clock, LiveClock { phase: 9, last_tick: None, running: false });
}

#[test]
fn a_view_moves_once_it_may_and_stops_with_the_last() {
    let mut backdrop = LiveBackdrop::new();
    assert!(backdrop.create_view(1, live("ink"), true));
    assert!(backdrop.create_view(2, live("silk"), true));
    assert_eq!(backdrop.handles(), vec![1, 2]);
    assert!(backdrop.tick(0).is_empty());
    assert_eq!(backdrop.refresh(1, true), TimerChange::Start);
    assert_eq!(backdrop.refresh(2, true), TimerChange::Keep);
    assert_eq!(backdrop.refresh(9, true), TimerChange::Keep);
    assert_eq!(backdrop.tick(SECOND), vec![1, 2]);
    assert_eq!(backdrop.refresh(1, false), TimerChange::Keep);
    assert_eq!(backdrop.tick(SECOND + 1_000), vec![2]);
    assert_eq!(backdrop.clock.phase, 1_000 * 1_000_000);
    assert_eq!(backdrop.detach(2), Some(TimerChange::Stop));
    assert_eq!(backdrop.detach(2), None);
    assert_eq!(backdrop.handles(), vec![1]);
    assert_eq!(backdrop.clock.phase, 1_000 * 1_000_000);
}

#[test]
fn the_first_moving_view_sets_the_speed() {
    let mut backdrop = LiveBackdrop::new();
    assert!(backdrop.create_view(1, LiveBackground { speed: 3 * SPEED_ONE, ..live("ink") }, true));
    assert!(backdrop.create_view(2, LiveBackground { speed: 2 * SPEED_ONE, ..live("ink") }, true));
    backdrop.refresh(2, true);
    backdrop.tick(0);
    backdrop.tick(10);
    assert_eq!(backdrop.clock.phase, 20_000_000);
    backdrop.refresh(1, true);
    backdrop.tick(20);
    assert_eq!(backdrop.clock.phase, 50_000_000);
}

#[test]
fn the_first_frame_needs_a_texture_and_a_drawable() {
    let mut backdrop = LiveBackdrop::new();
    assert!(backdrop.create_view(1, live("ink"), true));
    let plan = backdrop.plan_frame(1, window_size(), size(px(0), px(0)), 0).unwrap();
    assert_eq!(plan.style, "ink");
    assert_eq!((plan.width, plan.height), (100, 75));
    assert!(plan.resize_drawable && plan.new_display);
    assert!(!plan.composite && !plan.new_style_frame);
    assert_eq!(plan.fade, None);
    assert_eq!(plan.uniforms.period, LIVE_PERIOD);
    assert_eq!(plan.uniforms.cover, Bounds::new(point(px(0), px(0)), window_size()));
    assert_eq!(plan.uniforms.brightness, level(0.5));
    assert_eq!(plan.uniforms.second.green, level(0.2));
    assert_eq!(plan.uniforms.third.alpha, level(1.0));
    backdrop.set_display(1, texture(5));
    let plan = backdrop.plan_frame(1, window_size(), size(px(100), px(75)), 0).unwrap();
    assert!(!plan.resize_drawable && !plan.new_display);
}

#[test]
fn frames_that_cannot_be_drawn() {
    let mut backdrop = LiveBackdrop::new();
    assert!(!backdrop.create_view(1, live("plasma"), true));
    assert!(!backdrop.create_view(1, live("ink"), false));
    assert!(backdrop.handles().is_empty());
    assert!(backdrop.create_view(2, live("ink"), true));
    let drawable = size(px(100), px(75));
    assert!(backdrop.plan_frame(1, window_size(), drawable, 0).is_none());
    assert!(backdrop.plan_frame(2, size(px(0), px(600)), drawable, 0).is_none());
    assert!(backdrop.plan_frame(3, window_size(), drawable, 0).is_none());
    assert!(backdrop.plan_frame(2, window_size(), drawable, 0).is_some());
    backdrop.views[0].live.style = String::from("plasma");
    assert!(backdrop.plan_frame(2, window_size(), drawable, 0).is_none());
}

#[test]
fn brightness_is_kept_between_nothing_and_full() {
    assert_eq!(clamp_level(level(-0.5)), level(0.0));
    assert_eq!(clamp_level(level(1.5)), level(1.0));
    assert_eq!(clamp_level(level(0.25)), level(0.25));
    let mut backdrop = LiveBackdrop::new();
    assert!(backdrop.create_view(1, LiveBackground { brightness: level(7.0), ..live("ink") }, true));
    let plan = backdrop.plan_frame(1, window_size(), window_size(), 0).unwrap();
    assert_eq!(plan.uniforms.brightness, level(1.0));
}

#[test]
fn a_change_fades_from_the_picture_on_screen() {
    let drawable = size(px(100), px(75));
    let mut backdrop = LiveBackdrop::new();
    assert!(backdrop.create_view(1, live("ink"), true));
    backdrop.set_display(1, texture(5));
    assert!(backdrop.update(1, live("silk"), true, false, SECOND));
    assert_eq!(backdrop.views[0].fading_from, Some(texture(5)));
    assert_eq!(backdrop.update_clock(), TimerChange::Start);
    let plan = backdrop.plan_frame(1, window_size(), drawable, SECOND).unwrap();
    assert!(plan.composite && plan.new_display && plan.new_style_frame);
    assert_eq!(plan.fade, Some(FadeAmount { amount: 0 }));
    assert_eq!(plan.style, "silk");
    backdrop.set_display(1, texture(6));
    backdrop.set_style_frame(1, texture(7));
    let plan = backdrop.plan_frame(1, window_size(), drawable, SECOND + LIVE_FADE / 2).unwrap();
    assert!(plan.composite && !plan.new_display && !plan.new_style_frame);
    assert_eq!(plan.fade, Some(FadeAmount { amount: FADE_SCALE / 2 }));
    assert!(backdrop.update(1, live("mesh"), true, false, SECOND + LIVE_FADE / 2));
    assert_eq!(backdrop.views[0].fading_from, Some(texture(6)));
    let plan = backdrop.plan_frame(1, window_size(), drawable, SECOND + LIVE_FADE / 2).unwrap();
    assert_eq!(plan.fade, Some(FadeAmount { amount: 0 }));
}

#[test]
fn a_fade_ends_and_frees_the_timer() {
    let mut backdrop = LiveBackdrop::new();
    assert!(backdrop.create_view(1, live("ink"), true));
    backdrop.set_display(1, texture(5));
    backdrop.update(1, live("silk"), true, false, 0);
    assert_eq!(backdrop.update_clock(), TimerChange::Start);
    assert_eq!(backdrop.tick(LIVE_FADE), vec![1]);
    let plan = backdrop.plan_frame(1, window_size(), window_size(), LIVE_FADE).unwrap();
    assert!(!plan.composite);
    assert_eq!(plan.fade, None);
    assert_eq!(backdrop.views[0].fading_from, None);
    assert_eq!(backdrop.views[0].fade_started, None);
    assert_eq!(backdrop.update_clock(), TimerChange::Stop);
    assert_eq!(backdrop.clock.phase, 0);
}

#[test]
fn changes_that_do_not_fade() {
    let mut backdrop = LiveBackdrop::new();
    assert!(backdrop.create_view(1, live("ink"), true));
    assert!(backdrop.update(1, live("silk"), true, false, 0));
    assert_eq!(backdrop.views[0].fade_started, None);
    backdrop.set_display(1, texture(5));
    assert!(backdrop.update(1, live("mesh"), true, true, 0));
    assert_eq!(backdrop.views[0].fade_started, None);
    assert_eq!(backdrop.views[0].display, Some(texture(5)));
    let faster = LiveBackground { speed: 2 * SPEED_ONE, only_on_power: true, ..live("mesh") };
    assert!(backdrop.update(1, faster, true, false, 0));
    assert_eq!(backdrop.views[0].fade_started, None);
    assert_eq!(backdrop.only_on_power(1), Some(true));
    assert_eq!(backdrop.only_on_power(2), None);
}

#[test]
fn reduce_motion_shows_a_change_at_once_even_during_a_fade() {
    let drawable = size(px(100), px(75));
    let mut backdrop = LiveBackdrop::new();
    assert!(backdrop.create_view(1, live("ink"), true));
    backdrop.set_display(1, texture(5));
    backdrop.update(1, live("silk"), true, false, SECOND);
    backdrop.set_display(1, texture(6));
    backdrop.set_style_frame(1, texture(7));
    assert!(backdrop.update(1, live("mesh"), true, true, SECOND + 200_000_000));
    assert_eq!(backdrop.views[0].fading_from, None);
    assert_eq!(backdrop.views[0].fade_started, None);
    assert_eq!(backdrop.views[0].display, Some(texture(6)));
    let plan = backdrop.plan_frame(1, window_size(), drawable, SECOND + 200_000_000).unwrap();
    assert_eq!(plan.style, "mesh");
    assert_eq!(plan.fade, None);
    assert!(!plan.composite && !plan.new_display);
}

#[test]
fn reduce_motion_leaves_a_fade_alone_when_the_picture_stays() {
    let mut backdrop = LiveBackdrop::new();
    assert!(backdrop.create_view(1, live("ink"), true));
    backdrop.set_display(1, texture(5));
    backdrop.update(1, live("silk"), true, false, SECOND);
    let faster = LiveBackground { speed: 2 * SPEED_ONE, ..live("silk") };
    assert!(backdrop.update(1, faster, true, true, SECOND + 1));
    assert_eq!(backdrop.views[0].fade_started, Some(SECOND));
    assert_eq!(backdrop.views[0].fading_from, Some(texture(5)));
}

#[test]
fn textures_are_used_while_a_view_has_them() {
    let mut backdrop = LiveBackdrop::new();
    assert!(backdrop.create_view(1, live("ink"), true));
    assert!(!backdrop.uses_texture(5));
    backdrop.set_display(1, texture(5));
    backdrop.update(1, live("silk"), true, false, 0);
    backdrop.set_display(1, texture(6));
    backdrop.set_style_frame(1, texture(7));
    assert!([5, 6, 7].iter().all(|handle| backdrop.uses_texture(*handle)));
    assert!(!backdrop.uses_texture(8));
    backdrop.plan_frame(1, window_size(), window_size(), LIVE_FADE);
    assert!(!backdrop.uses_texture(5) && backdrop.uses_texture(6) && !backdrop.uses_texture(7));
}

#[test]
fn an_update_to_an_unknown_style_is_refused() {
    let mut backdrop = LiveBackdrop::new();
    assert!(backdrop.create_view(1, live("ink"), true));
    assert!(!backdrop.update(1, live("plasma"), true, false, 0));
    assert!(!backdrop.update(1, live("silk"), false, false, 0));
    assert_eq!(backdrop.views[0].live.style, "ink");
    assert!(backdrop.update(2, live("silk"), true, false, 0));
    assert_eq!(backdrop.views[0].live.style, "ink");
}

#[test]
fn a_panel_over_a_window_draws_the_same_frame() {
    let mut backdrop = LiveBackdrop::new();
    assert!(backdrop.create_view(1, live("ink"), true));
    assert!(backdrop.create_view(2, live("ink"), true));
    let whole = Bounds::new(point(px(0), px(0)), window_size());
    assert!(backdrop.set_cover(2, Some(whole)));
    assert!(!backdrop.set_cover(2, Some(whole)));
    assert!(!backdrop.set_cover(3, Some(whole)));
    backdrop.refresh(1, true);
    backdrop.tick(0);
    backdrop.tick(40_000_000);
    let one = backdrop.plan_frame(1, window_size(), window_size(), 50_000_000).unwrap();
    let two = backdrop.plan_frame(2, window_size(), window_size(), 60_000_000).unwrap();
    assert_eq!(one.uniforms, two.uniforms);
    assert_eq!(one.uniforms.phase, 40_000_000 * 1_000_000);
    assert!(backdrop.set_cover(2, None));
}
