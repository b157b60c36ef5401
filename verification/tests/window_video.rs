use gpui_window::geometry::{point, px, size, Bounds};
use gpui_window::window_wallpaper::{Gravity, FIXED};
use gpui_window::window_video::{
    from_workspace, layout, observe_conditions, on_external_power, update_player,
    window_may_animate, Condition, Conditions, Detached, PlayerAction, PlayerPool, Released,
    VideoBackdrop, VIDEO_BLEED,
};

fn seen() -> Conditions {
    Conditions {
        in_window: true,
        app_active: true,
        miniaturized: false,
        occlusion: 2,
        screens_asleep: false,
        low_power: false,
        reduce_motion: false,
        external_power: false,
    }
}

#[test]
fn windows_showing_one_file_share_a_player() {
    let mut backdrop = VideoBackdrop::new();
    assert!(!backdrop.has_player("/a.mov"));
    assert_eq!(backdrop.create_view(1, "/a.mov", Some((10, 11)), false), Some(10));
    assert!(backdrop.has_player("/a.mov"));
    assert_eq!(backdrop.create_view(2, "/a.mov", None, true), Some(10));
    assert_eq!(backdrop.create_view(3, "/b.mov", Some((20, 21)), false), Some(20));
    assert!(backdrop.knows_player(10) && backdrop.knows_player(20));
    assert!(!backdrop.knows_player(11));
    assert_eq!(backdrop.view_path(2), Some("/a.mov"));
    assert_eq!(backdrop.view_path(4), None);
    assert_eq!(backdrop.only_on_power(2), Some(true));
    assert_eq!(backdrop.handles(), vec![1, 2, 3]);
}

#[test]
fn no_view_without_a_player() {
    let mut backdrop = VideoBackdrop::new();
    assert_eq!(backdrop.create_view(1, "/a.mov", None, false), None);
    assert!(!backdrop.contains(1));
    assert!(!backdrop.has_player("/a.mov"));
}

#[test]
fn the_last_view_retires_the_player() {
    let mut backdrop = VideoBackdrop::new();
    backdrop.create_view(1, "/a.mov", Some((10, 11)), false);
    backdrop.create_view(2, "/a.mov", None, false);
    assert_eq!(
        backdrop.detach(1),
        Some(Detached { player: 10, wanted: false, released: Released::StillShared })
    );
    assert!(!backdrop.contains(1));
    assert_eq!(backdrop.detach(1), None);
    let retired = Released::Retired { player: 10, looper: 11 };
    assert_eq!(
        backdrop.detach(2),
        Some(Detached { player: 10, wanted: false, released: retired })
    );
    assert!(!backdrop.knows_player(10) && !backdrop.has_player("/a.mov"));
    assert!(backdrop.handles().is_empty());
}

#[test]
fn detaching_undoes_creating() {
    let mut backdrop = VideoBackdrop::new();
    backdrop.create_view(1, "/a.mov", Some((10, 11)), false);
    backdrop.create_view(2, "/b.mov", Some((20, 21)), false);
    backdrop.create_view(3, "/a.mov", None, false);
    assert_eq!(backdrop.detach(3).unwrap().released, Released::StillShared);
    assert_eq!(backdrop.handles(), vec![1, 2]);
    let retired = Released::Retired { player: 10, looper: 11 };
    assert_eq!(backdrop.detach(1).unwrap().released, retired);
    let retired = Released::Retired { player: 20, looper: 21 };
    assert_eq!(backdrop.detach(2).unwrap().released, retired);
}

#[test]
fn players_given_back_one_by_one() {
    let mut pool = PlayerPool::new();
    assert_eq!(pool.release_player("/a.mov"), Released::Unknown);
    assert_eq!(pool.acquire_player("/a.mov", None), None);
    assert_eq!(pool.acquire_player("/a.mov", Some((1, 2))), Some(1));
    assert_eq!(pool.acquire_player("/a.mov", Some((3, 4))), Some(1));
    assert_eq!(pool.release_player("/a.mov"), Released::StillShared);
    assert_eq!(pool.release_player("/a.mov"), Released::Retired { player: 1, looper: 2 });
    assert_eq!(pool.release_player("/a.mov"), Released::Unknown);
}

#[test]
fn a_player_plays_while_any_view_wants_it() {
    let mut backdrop = VideoBackdrop::new();
    backdrop.create_view(1, "/a.mov", Some((10, 11)), false);
    backdrop.create_view(2, "/a.mov", None, false);
    assert!(!backdrop.player_wanted(10));
    assert_eq!(backdrop.refresh(1, true), Some((10, true)));
    assert_eq!(backdrop.refresh(2, false), Some((10, true)));
    assert_eq!(backdrop.refresh(1, false), Some((10, false)));
    assert_eq!(backdrop.refresh(9, true), None);
    backdrop.refresh(2, true);
    assert!(backdrop.detach(1).unwrap().wanted);
    assert!(!backdrop.detach(2).unwrap().wanted);
}

#[test]
fn the_battery_rule_can_change() {
    let mut backdrop = VideoBackdrop::new();
    backdrop.create_view(1, "/a.mov", Some((10, 11)), false);
    backdrop.set_only_on_power(1, true);
    assert_eq!(backdrop.only_on_power(1), Some(true));
    backdrop.set_only_on_power(9, true);
    assert_eq!(backdrop.only_on_power(9), None);
}

#[test]
fn a_player_is_played_or_paused_only_when_it_is_not() {
    let action = |play, pause, rewind| PlayerAction { play, pause, rewind };
    assert_eq!(update_player(true, false, false), action(true, false, false));
    assert_eq!(update_player(true, true, true), action(false, false, false));
    assert_eq!(update_player(false, true, false), action(false, true, false));
    assert_eq!(update_player(false, false, false), action(false, false, false));
    assert_eq!(update_player(false, true, true), action(false, true, true));
    assert_eq!(update_player(false, false, true), action(false, false, true));
}

#[test]
fn a_backdrop_moves_only_while_someone_can_see_it() {
    assert!(window_may_animate(seen(), false));
    assert!(window_may_animate(Conditions { occlusion: 0xff, ..seen() }, false));
    assert!(!window_may_animate(Conditions { in_window: false, ..seen() }, false));
    assert!(!window_may_animate(Conditions { app_active: false, ..seen() }, false));
    assert!(!window_may_animate(Conditions { miniaturized: true, ..seen() }, false));
    assert!(!window_may_animate(Conditions { occlusion: 1, ..seen() }, false));
    assert!(!window_may_animate(Conditions { occlusion: !2, ..seen() }, false));
    assert!(!window_may_animate(Conditions { screens_asleep: true, ..seen() }, false));
    assert!(!window_may_animate(Conditions { low_power: true, ..seen() }, false));
    assert!(!window_may_animate(Conditions { reduce_motion: true, ..seen() }, false));
}

#[test]
fn a_backdrop_for_the_charger_needs_the_charger() {
    assert!(!window_may_animate(seen(), true));
    assert!(window_may_animate(Conditions { external_power: true, ..seen() }, true));
}

#[test]
fn a_desktop_is_always_on_external_power() {
    assert!(on_external_power(None));
    assert!(on_external_power(Some("AC Power")));
    assert!(!on_external_power(Some("Battery Power")));
}

fn rect(x: i64, y: i64, w: i64, h: i64) -> Bounds {
    Bounds::new(point(px(x), px(y)), size(px(w), px(h)))
}

#[test]
fn the_video_reaches_past_every_edge() {
    assert_eq!(VIDEO_BLEED, px(120).units);
    let layer = rect(0, 0, 800, 600);
    let screen = rect(0, 0, 1600, 1200);
    let content = rect(300, 200, 800, 600);
    let attached = layout(layer, screen, content, false, None);
    assert_eq!(attached.frame, rect(-120, -120, 1040, 840));
    assert_eq!(attached.gravity, Gravity::ResizeAspectFill);
    assert_eq!(attached.autoresizing, FIXED);
    let held = layout(layer, screen, content, true, None);
    assert_eq!(held.frame, rect(-420, -320, 1840, 1440));
    assert_eq!(held.gravity, Gravity::Resize);
    assert_eq!(held.autoresizing, FIXED);
    let covering = layout(layer, screen, content, false, Some(rect(10, 20, 300, 100)));
    assert_eq!(covering.frame, rect(-110, 360, 540, 340));
    assert_eq!(covering.autoresizing, FIXED);
}

#[test]
fn the_bleed_does_not_add_up() {
    let layer = rect(0, 0, 800, 600);
    let screen = rect(0, 0, 1600, 1200);
    let content = rect(300, 200, 800, 600);
    let first = layout(layer, screen, content, true, None);
    for _ in 0..3 {
        assert_eq!(layout(layer, screen, content, true, None), first);
    }
}

#[test]
fn a_video_can_be_placed_wherever_a_picture_is() {
    let far = 0x8000_0000;
    let layer = rect(0, 0, 800, 600);
    let placed = layout(layer, rect(far, far, far, far), rect(-far, -far, 800, 600), true, None);
    assert_eq!(placed.frame.origin.x.units, px(far).units * 2 - px(120).units);
}

#[test]
fn displays_sleeping_are_tracked() {
    let mut backdrop = VideoBackdrop::new();
    assert!(!backdrop.note_condition_notification(Condition::ScreensDidSleep));
    assert!(backdrop.screens_asleep());
    assert!(!backdrop.note_condition_notification(Condition::PowerStateDidChange));
    assert!(backdrop.screens_asleep());
    assert!(!backdrop.note_condition_notification(Condition::ScreensDidWake));
    assert!(!backdrop.screens_asleep());
}

#[test]
fn screens_and_spaces_changing_place_the_backdrop_again() {
    let mut backdrop = VideoBackdrop::new();
    for condition in observe_conditions() {
        let replace = backdrop.note_condition_notification(condition);
        let expected = matches!(
            condition,
            Condition::ScreenParametersDidChange | Condition::ActiveSpaceDidChange
        );
        assert_eq!(replace, expected);
    }
}

#[test]
fn the_workspace_announces_four_of_the_conditions() {
    let observed = observe_conditions();
    assert_eq!(observed.len(), 11);
    let from: Vec<Condition> = observed.into_iter().filter(|c| from_workspace(*c)).collect();
    assert_eq!(
        from,
        vec![
            Condition::ScreensDidSleep,
            Condition::ScreensDidWake,
            Condition::AccessibilityDisplayOptionsDidChange,
            Condition::ActiveSpaceDidChange,
        ]
    );
}
