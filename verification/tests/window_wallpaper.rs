use gpui_window::color::{Level, Rgb, LEVEL_ONE};
use gpui_window::geometry::{point, px, size, Bounds, Pixels, Size};
use gpui_window::window_wallpaper::{
    desktop_picture, layout, masks_to_bounds, observe_environment, picture_layer, plan_blur,
    shows_built_in, wallpaper_for_window, Center, DesktopOptions, EnvironmentChange, Fraction,
    Gravity, Lookup, Placement, Source, WallpaperCache, CACHE_LIMIT, CANVAS_BLUR_RADIUS, FIXED,
    WIDTH_AND_HEIGHT_SIZABLE,
};

fn level(value: f64) -> Level {
    Level { units: (value * LEVEL_ONE as f64).round() as i64 }
}

fn rect(x: i64, y: i64, w: i64, h: i64) -> Bounds {
    Bounds::new(point(px(x), px(y)), size(px(w), px(h)))
}

fn placement(scaling: i64, allow_clipping: bool) -> Placement {
    Placement { scaling, allow_clipping, fill: None }
}

fn value(fraction: Fraction) -> f64 {
    fraction.num as f64 / fraction.den as f64
}

fn scale(scaling: i64, allow_clipping: bool, image: Size, canvas: Size) -> (f64, f64) {
    let (x, y) = placement(scaling, allow_clipping).scale(image, canvas);
    (value(x), value(y))
}

#[test]
fn the_oldest_picture_makes_room() {
    let mut cache = WallpaperCache::new();
    for i in 0..CACHE_LIMIT as u64 {
        assert_eq!(cache.store(format!("key {i}"), 100 + i), None);
    }
    assert_eq!(cache.cached("key 0"), Some(100));
    assert_eq!(cache.store(String::from("one more"), 7), Some(100));
    assert_eq!(cache.cached("key 0"), None);
    assert_eq!(cache.cached("key 1"), Some(101));
    assert_eq!(cache.cached("one more"), Some(7));
    assert_eq!(cache.cached("never stored"), None);
    let found = (0..6).filter(|i| cache.cached(&format!("key {i}")).is_some()).count();
    assert_eq!(found, 5);
}

#[test]
fn a_stored_picture_outlives_five_more() {
    let mut cache = WallpaperCache::new();
    for i in 0..4 {
        cache.store(format!("before {i}"), i);
    }
    cache.store(String::from("kept"), 50);
    for i in 0..5 {
        cache.store(format!("after {i}"), 60 + i);
        assert_eq!(cache.cached("kept"), Some(50));
    }
    assert_eq!(cache.store(String::from("one too many"), 70), Some(50));
    assert_eq!(cache.cached("kept"), None);
}

#[test]
fn options_left_out_are_as_for_fill() {
    assert_eq!(Placement::fill(), placement(3, true));
    assert_eq!(Placement::from_options(None), placement(3, true));
    let none = DesktopOptions { scaling: None, allow_clipping: None, fill_color: None };
    assert_eq!(Placement::from_options(Some(none)), placement(3, true));
    let fit = DesktopOptions { scaling: Some(0), allow_clipping: Some(false), fill_color: None };
    assert_eq!(Placement::from_options(Some(fit)), placement(0, false));
}

#[test]
fn colours_are_counted_out_of_255() {
    let color = Rgb { red: level(0.5), green: level(-1.0), blue: level(2.0) };
    let options =
        DesktopOptions { scaling: None, allow_clipping: None, fill_color: Some(color) };
    assert_eq!(Placement::from_options(Some(options)).fill, Some((128, 0, 255)));
    let color = Rgb { red: level(0.499), green: level(1.0), blue: level(0.002) };
    let options =
        DesktopOptions { scaling: None, allow_clipping: None, fill_color: Some(color) };
    assert_eq!(Placement::from_options(Some(options)).fill, Some((127, 255, 1)));
}

#[test]
fn fill_and_fit() {
    let image = size(px(4000), px(1000));
    let canvas = size(px(400), px(300));
    assert_eq!(scale(3, true, image, canvas), (0.3, 0.3));
    assert_eq!(scale(3, false, image, canvas), (0.1, 0.1));
    assert_eq!(scale(17, true, image, canvas), (0.3, 0.3));
}

#[test]
fn stretch_and_center() {
    let image = size(px(4000), px(1000));
    let canvas = size(px(400), px(300));
    assert_eq!(scale(1, true, image, canvas), (0.1, 0.3));
    assert_eq!(scale(2, true, image, canvas), (0.25, 0.25));
}

#[test]
fn proportionally_down_never_enlarges() {
    let canvas = size(px(400), px(300));
    assert_eq!(scale(0, true, size(px(4000), px(1000)), canvas), (0.1, 0.1));
    assert_eq!(scale(0, true, size(px(100), px(100)), canvas), (0.25, 0.25));
}

#[test]
fn a_blur_is_laid_out_on_a_quarter_of_the_screen() {
    let plan =
        plan_blur(Some(rect(0, 0, 4000, 1000)), &Placement::fill(), size(px(1602), px(1200)))
            .unwrap();
    assert_eq!(plan.canvas, size(px(401), px(300)));
    assert_eq!(value(plan.scale_x), 0.3);
    assert_eq!(plan.background, (0, 0, 0));
    assert_eq!(plan.radius, CANVAS_BLUR_RADIUS);
    assert_eq!(plan.radius, 15);
    let shift = |num: i128, den: i128| num as f64 / den as f64 / 65536.0;
    assert_eq!(shift(plan.shift_x.num, plan.shift_x.den), (401.0 - 1200.0) / 2.0);
    assert_eq!(shift(plan.shift_y.num, plan.shift_y.den), 0.0);
}

#[test]
fn a_picture_that_starts_elsewhere_is_centered_too() {
    let fill = Placement { fill: Some((1, 2, 3)), ..placement(2, true) };
    let plan = plan_blur(Some(rect(100, -40, 800, 400)), &fill, size(px(1600), px(1200))).unwrap();
    assert_eq!(plan.background, (1, 2, 3));
    let middle = |start: f64, length: f64, scale: Fraction, num: i128, den: i128| {
        (start + length / 2.0) * value(scale) + num as f64 / den as f64 / 65536.0
    };
    assert_eq!(middle(100.0, 800.0, plan.scale_x, plan.shift_x.num, plan.shift_x.den), 200.0);
    assert_eq!(middle(-40.0, 400.0, plan.scale_y, plan.shift_y.num, plan.shift_y.den), 150.0);
}

#[test]
fn there_is_nothing_to_blur_without_a_picture() {
    let screen = size(px(1600), px(1200));
    assert!(plan_blur(None, &Placement::fill(), screen).is_none());
    assert!(plan_blur(Some(rect(0, 0, 0, 100)), &Placement::fill(), screen).is_none());
    assert!(plan_blur(Some(rect(0, 0, 100, 0)), &Placement::fill(), screen).is_none());
    let tiny = plan_blur(Some(rect(0, 0, 1, 1)), &Placement::fill(), size(px(1), px(0))).unwrap();
    assert_eq!(tiny.canvas, size(px(1), px(1)));
}

#[test]
fn a_picture_held_against_the_screen_moves_the_other_way() {
    let layer = rect(0, 0, 800, 600);
    let screen = rect(0, 0, 1600, 1200);
    let placed = layout(layer, screen, rect(300, 200, 800, 600), true, Some(layer));
    assert_eq!(placed.gravity, Gravity::Resize);
    assert_eq!(placed.autoresizing, FIXED);
    assert_eq!(placed.frame, rect(-300, -200, 1600, 1200));
    let moved = layout(layer, screen, rect(310, 195, 800, 600), true, None);
    assert_eq!(moved.frame, rect(-310, -195, 1600, 1200));
}

#[test]
fn a_picture_attached_to_the_window_fills_it() {
    let layer = rect(0, 0, 800, 600);
    let screen = rect(0, 0, 1600, 1200);
    let placed = layout(layer, screen, rect(300, 200, 800, 600), false, None);
    assert_eq!(placed.gravity, Gravity::ResizeAspectFill);
    assert_eq!(placed.autoresizing, WIDTH_AND_HEIGHT_SIZABLE);
    assert_eq!(placed.autoresizing, 2 | 16);
    assert_eq!(placed.frame, layer);
}

#[test]
fn a_cover_is_counted_from_the_top() {
    let layer = rect(0, 0, 800, 600);
    let screen = rect(0, 0, 1600, 1200);
    let cover = rect(10, 20, 300, 100);
    let placed = layout(layer, screen, rect(300, 200, 800, 600), false, Some(cover));
    assert_eq!(placed.autoresizing, FIXED);
    assert_eq!(placed.frame, rect(10, 480, 300, 100));
    let back = layout(layer, screen, layer, false, Some(placed.frame));
    assert_eq!(back.frame, cover);
}

#[test]
fn rounded_corners_cut_off_what_lies_outside() {
    assert!(masks_to_bounds(px(10)));
    assert!(masks_to_bounds(Pixels { units: 1 }));
    assert!(!masks_to_bounds(px(0)));
    assert!(!masks_to_bounds(px(-1)));
}

#[test]
fn the_picture_layer_goes_by_its_name() {
    let name = |name: &str| Some(String::from(name));
    assert_eq!(picture_layer(&[None, name("other"), name("wallpaper"), name("wallpaper")]), Some(2));
    assert_eq!(picture_layer(&[None, name("Wallpaper")]), None);
    assert_eq!(picture_layer(&[]), None);
}

#[test]
fn keys_of_pictures() {
    let image = Source::Image { path: String::from("/a.png"), modified: 1234 };
    assert_eq!(image.key("1600x1200"), "image|/a.png|1234|1600x1200");
    assert_eq!(image.placement(), Placement::fill());
    let built_in = Source::BuiltIn { still: String::from("/s.heic") };
    assert_eq!(built_in.key("1600x1200"), "built-in|/s.heic|1600x1200");
    assert_eq!(built_in.placement(), Placement::fill());
    for fill in [None, Some((0, 12, 255))] {
        let how = Placement { scaling: -3, allow_clipping: false, fill };
        let desktop = Source::Desktop { path: String::from("/d.jpg"), placement: how };
        assert_eq!(desktop.key("1x2"), format!("/d.jpg|1x2|{how:?}"));
        assert_eq!(desktop.placement(), how);
    }
}

#[test]
fn keys_tell_pictures_apart() {
    let image = |path: &str, modified: u128| Source::Image { path: String::from(path), modified };
    assert_ne!(image("/a", 1).key("s"), image("/a", 2).key("s"));
    assert_ne!(image("/a|1", 2).key("s"), image("/a", 12).key("s"));
    assert_ne!(image("/a", 1).key("s"), image("/a", 1).key("t"));
    let desktop = |path: &str, how: Placement| Source::Desktop {
        path: String::from(path),
        placement: how,
    };
    assert_ne!(desktop("/a", placement(1, true)).key("s"), desktop("/a", placement(1, false)).key("s"));
    assert_ne!(desktop("/a|s", placement(1, true)).key("s"), desktop("/a", placement(1, true)).key("s"));
}

#[test]
fn the_default_picture_stands_for_a_built_in_wallpaper() {
    assert!(shows_built_in("/System/Library/CoreServices/DefaultDesktop.heic", None));
    assert!(shows_built_in("/x", Some("/System/Library/Wallpapers/.default/y.heic")));
    assert!(!shows_built_in("/x", Some("/System/Library/Wallpapers/y.heic")));
    assert!(!shows_built_in("/System/Library/Wallpapers/.default/y.heic", None));
}

#[test]
fn the_desktop_picture_of_a_screen() {
    let path = |path: &str| Some(String::from(path));
    assert!(desktop_picture(None, None, path("/s"), None).is_none());
    let placeholder = "/System/Library/CoreServices/DefaultDesktop.heic";
    assert!(desktop_picture(path(placeholder), None, None, None).is_none());
    let still = desktop_picture(path(placeholder), None, path("/s.heic"), None).unwrap();
    assert!(matches!(&still, Source::BuiltIn { still } if still == "/s.heic"));
    let options = DesktopOptions { scaling: Some(1), allow_clipping: None, fill_color: None };
    let own = desktop_picture(path("/d.jpg"), Some("/d.jpg"), None, Some(options)).unwrap();
    assert_eq!(own.key("s"), format!("/d.jpg|s|{:?}", placement(1, true)));
}

#[test]
fn a_picture_is_blurred_once() {
    let mut cache = WallpaperCache::new();
    let source = Source::Image { path: String::from("/a.png"), modified: 5 };
    let key = match wallpaper_for_window(&cache, &source, "9x9") {
        Lookup::Render { key, placement } => {
            assert_eq!(placement, Placement::fill());
            key
        }
        Lookup::Ready { .. } => panic!("nothing is stored"),
    };
    assert_eq!(key, "image|/a.png|5|9x9");
    cache.store(key, 77);
    assert!(matches!(wallpaper_for_window(&cache, &source, "9x9"), Lookup::Ready { image: 77 }));
    assert!(matches!(wallpaper_for_window(&cache, &source, "8x8"), Lookup::Render { .. }));
}

#[test]
fn what_a_wallpaper_backdrop_listens_for() {
    let observed: Vec<(EnvironmentChange, Center)> =
        observe_environment().into_iter().map(|o| (o.change, o.center)).collect();
    assert_eq!(
        observed,
        vec![
            (EnvironmentChange::ActiveSpaceDidChange, Center::Workspace),
            (EnvironmentChange::InterfaceThemeChanged, Center::Distributed),
            (EnvironmentChange::ScreenParametersDidChange, Center::Application),
            (EnvironmentChange::ApplicationDidBecomeActive, Center::Application),
        ]
    );
}
