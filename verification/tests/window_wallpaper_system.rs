use gpui_window::window_wallpaper_system::{
    aerial_stills, built_in_choice, configuration, current_space_uuid, desktop_choice,
    first_existing, object, still_for_provider, store_path, string_value,
    system_uses_dark_appearance, title_case, title_stills, with_first, Plist, PlistEntry,
};

fn dictionary(entries: Vec<(&str, Plist)>) -> Plist {
    Plist::Dictionary(
        entries
            .into_iter()
            .map(|(key, value)| PlistEntry { key: String::from(key), value })
            .collect(),
    )
}

fn text(text: &str) -> Plist {
    Plist::Text(String::from(text))
}

fn entry(provider: &str) -> Plist {
    let choice = dictionary(vec![("Provider", text(provider))]);
    let content = dictionary(vec![("Choices", Plist::Array(vec![choice, Plist::Other]))]);
    dictionary(vec![("Desktop", dictionary(vec![("Content", content)]))])
}

fn idle_only() -> Plist {
    dictionary(vec![("Idle", Plist::Other)])
}

fn provider(store: &Plist, space: Option<&str>) -> Option<String> {
    built_in_choice(store, space, "D1").map(|choice| String::from(choice.provider))
}

#[test]
fn values_of_a_property_list() {
    let list = dictionary(vec![("a", text("x")), ("a", text("y")), ("n", Plist::Other)]);
    assert_eq!(string_value(object(Some(&list), "a")), Some("x"));
    assert_eq!(string_value(object(Some(&list), "n")), None);
    assert!(object(Some(&list), "b").is_none());
    assert!(object(Some(&text("a")), "a").is_none());
    assert!(object(None, "a").is_none());
    assert_eq!(string_value(None), None);
}

#[test]
fn the_most_specific_choice_wins() {
    let space = dictionary(vec![
        ("Displays", dictionary(vec![("D1", entry("space display"))])),
        ("Default", entry("space default")),
    ]);
    let default_only = dictionary(vec![
        ("Displays", dictionary(vec![("D1", idle_only()), ("D2", entry("other display"))])),
        ("Default", entry("space default")),
    ]);
    let store = dictionary(vec![
        ("Spaces", dictionary(vec![("S1", space), ("S2", default_only), ("", idle_only())])),
        ("Displays", dictionary(vec![("D1", entry("display"))])),
        ("AllSpacesAndDisplays", entry("all")),
        ("SystemDefault", entry("system")),
    ]);
    assert_eq!(provider(&store, Some("S1")).as_deref(), Some("space display"));
    assert_eq!(provider(&store, Some("S2")).as_deref(), Some("space default"));
    assert_eq!(provider(&store, Some("")).as_deref(), Some("display"));
    assert_eq!(provider(&store, Some("S9")).as_deref(), Some("display"));
    assert_eq!(provider(&store, None).as_deref(), Some("display"));
}

#[test]
fn the_general_choices_come_last() {
    let all = dictionary(vec![
        ("AllSpacesAndDisplays", entry("all")),
        ("SystemDefault", entry("system")),
    ]);
    assert_eq!(provider(&all, Some("S1")).as_deref(), Some("all"));
    let system = dictionary(vec![
        ("AllSpacesAndDisplays", idle_only()),
        ("SystemDefault", entry("system")),
    ]);
    assert_eq!(provider(&system, None).as_deref(), Some("system"));
    assert_eq!(provider(&dictionary(vec![]), None), None);
    assert_eq!(provider(&Plist::Other, None), None);
}

#[test]
fn entries_without_a_choice_are_skipped() {
    let empty = dictionary(vec![(
        "Desktop",
        dictionary(vec![("Content", dictionary(vec![("Choices", Plist::Array(vec![]))]))]),
    )]);
    let odd = dictionary(vec![(
        "Desktop",
        dictionary(vec![("Content", dictionary(vec![("Choices", text("none"))]))]),
    )]);
    let store = dictionary(vec![
        ("Displays", dictionary(vec![("D1", empty)])),
        ("AllSpacesAndDisplays", odd),
        ("SystemDefault", entry("system")),
    ]);
    assert_eq!(provider(&store, None).as_deref(), Some("system"));
    assert!(desktop_choice(&store, None, "D1").is_some());
}

#[test]
fn a_choice_without_a_provider_names_nothing() {
    let choice = dictionary(vec![("Provider", Plist::Other)]);
    let content = dictionary(vec![("Choices", Plist::Array(vec![choice]))]);
    let store = dictionary(vec![(
        "SystemDefault",
        dictionary(vec![("Desktop", dictionary(vec![("Content", content)]))]),
    )]);
    assert!(built_in_choice(&store, None, "D1").is_none());
}

#[test]
fn a_configuration_is_data() {
    let data = dictionary(vec![("Configuration", Plist::Data(vec![1, 2]))]);
    assert_eq!(configuration(&data), Some(&[1u8, 2][..]));
    let empty = dictionary(vec![("Configuration", Plist::Data(vec![]))]);
    assert_eq!(configuration(&empty), None);
    assert_eq!(configuration(&dictionary(vec![("Configuration", text("x"))])), None);
    assert_eq!(configuration(&dictionary(vec![])), None);
}

#[test]
fn the_space_showing_on_a_display() {
    let display = |identifier: Plist, uuid: Plist| {
        dictionary(vec![
            ("Display Identifier", identifier),
            ("Current Space", dictionary(vec![("uuid", uuid)])),
        ])
    };
    let displays = vec![
        display(Plist::Other, text("odd")),
        display(text("d2"), Plist::Other),
        display(text("D2"), text("second")),
        display(text("Main"), text("")),
    ];
    assert_eq!(current_space_uuid(&displays, "d2", false), Some("second"));
    assert_eq!(current_space_uuid(&displays, "d1", true), Some(""));
    assert_eq!(current_space_uuid(&displays, "d1", false), None);
    assert_eq!(current_space_uuid(&[], "d1", true), None);
}

#[test]
fn the_system_is_dark_by_name() {
    assert!(system_uses_dark_appearance(Some("Dark")));
    assert!(system_uses_dark_appearance(Some("dark")));
    assert!(!system_uses_dark_appearance(Some("Light")));
    assert!(!system_uses_dark_appearance(None));
}

#[test]
fn where_the_store_is() {
    assert_eq!(
        store_path("/Users/me"),
        "/Users/me/Library/Application Support/com.apple.wallpaper/Store/Index.plist"
    );
}

#[test]
fn titles_start_with_a_capital() {
    assert_eq!(title_case("sequoia"), "Sequoia");
    assert_eq!(title_case("Sequoia"), "Sequoia");
    assert_eq!(title_case("ßa"), "SSa");
    assert_eq!(title_case("étoile"), "Étoile");
    assert_eq!(title_case("9lives"), "9lives");
    assert_eq!(title_case(""), "");
    assert_eq!(with_first("SS", "ßa"), "SSa");
}

#[test]
fn stills_of_an_aerial() {
    assert_eq!(
        aerial_stills(Some("ABC"), "/Users/me"),
        vec![
            "/Users/me/Library/Application Support/com.apple.wallpaper/aerials/thumbnails/ABC.png",
            "/System/Library/ExtensionKit/Extensions/WallpaperAerialsExtension.appex/Contents/Resources/ABC.png",
        ]
    );
    assert!(aerial_stills(Some(""), "/Users/me").is_empty());
    assert!(aerial_stills(Some("../x"), "/Users/me").is_empty());
    assert!(aerial_stills(None, "/Users/me").is_empty());
}

#[test]
fn stills_of_a_titled_wallpaper() {
    assert_eq!(
        title_stills("Sonoma", true),
        vec![
            "/System/Library/ExtensionKit/Extensions/WallpaperSonomaExtension.appex/Contents/Resources/thumbnail dark.heic",
            "/System/Library/ExtensionKit/Extensions/WallpaperSonomaExtension.appex/Contents/Resources/thumbnail.heic",
            "/System/Library/Desktop Pictures/.thumbnails/Sonoma Dark.heic",
            "/System/Library/Desktop Pictures/.thumbnails/Sonoma.heic",
            "/System/Library/Desktop Pictures/Sonoma.heic",
        ]
    );
    let light = title_stills("Sonoma", false);
    assert!(light[0].ends_with("/thumbnail light.heic"));
    assert!(light[2].ends_with("/Sonoma Light.heic"));
}

#[test]
fn stills_of_a_provider() {
    let asset = dictionary(vec![("assetID", text("ABC"))]);
    let stills = |provider: &str, configuration: Option<&Plist>| {
        still_for_provider(provider, configuration, "/h", false)
    };
    assert_eq!(
        stills("com.apple.wallpaper.choice.aerials", Some(&asset)),
        aerial_stills(Some("ABC"), "/h")
    );
    assert!(stills("com.apple.wallpaper.choice.aerials", None).is_empty());
    assert_eq!(
        stills("com.apple.wallpaper.choice.sonoma", None),
        title_stills("Sonoma", false)
    );
    assert_eq!(
        stills("com.apple.wallpaper.choice.été2", None),
        title_stills("Été2", false)
    );
    for none in [
        "com.apple.wallpaper.choice.color",
        "com.apple.wallpaper.choice.",
        "com.apple.wallpaper.choice.a/b",
        "com.apple.wallpaper.choice.a-b",
        "com.apple.wallpaper.choice.a b",
        "com.apple.wallpaper.sonoma",
        "sonoma",
        "",
    ] {
        assert!(stills(none, Some(&asset)).is_empty(), "{}", none);
    }
}

#[test]
fn the_first_file_that_exists() {
    let paths = vec![String::from("/a"), String::from("/b"), String::from("/c")];
    assert_eq!(first_existing(&paths, &[false, true, true]), Some(String::from("/b")));
    assert_eq!(first_existing(&paths, &[false, false, false]), None);
    assert_eq!(first_existing(&[], &[]), None);
}
